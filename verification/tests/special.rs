use prom_attire::ast::{AttrLit, Attribute, Body, Declaration, FieldDecl, Meta, PathSegment, SegArgs, TyExpr};
use prom_attire::config::Config;
use prom_attire::dissect::dissect;
use prom_attire::expand::{expand, Record, Slot, Value};
use prom_attire::resolver::AttireResolver;

fn s(x: &str) -> String {
    x.to_string()
}

fn path1(name: &str) -> TyExpr {
    TyExpr::Path {
        global: false,
        segments: vec![PathSegment { ident: s(name), args: SegArgs::Plain }],
    }
}

fn opt_ty(inner: TyExpr) -> TyExpr {
    TyExpr::Path {
        global: false,
        segments: vec![PathSegment {
            ident: s("Option"),
            args: SegArgs::Angle { n_lifetimes: 0, n_bindings: 0, types: vec![inner] },
        }],
    }
}

fn ref_str() -> TyExpr {
    TyExpr::Ref { mutable: false, target: Box::new(path1("str")) }
}

fn field(name: &str, ty: TyExpr) -> FieldDecl {
    FieldDecl { ident: s(name), ty, attrs: vec![] }
}

fn field_with(name: &str, ty: TyExpr, attire: Vec<Meta>) -> FieldDecl {
    FieldDecl {
        ident: s(name),
        ty,
        attrs: vec![Attribute { is_sugared_doc: false, value: Meta::List(s("attire"), attire) }],
    }
}

fn decl(lifetimes: Vec<&str>, fields: Vec<FieldDecl>) -> Declaration {
    Declaration {
        ident: s("A"),
        ty_params: vec![],
        lifetimes: lifetimes.into_iter().map(s).collect(),
        attrs: vec![],
        body: Body::Fields(fields),
    }
}

fn nv(name: &str, lit: AttrLit) -> Attribute {
    Attribute { is_sugared_doc: false, value: Meta::NameValue(s(name), lit) }
}

fn word(name: &str) -> Attribute {
    Attribute { is_sugared_doc: false, value: Meta::Word(s(name)) }
}

fn get<'a>(rec: &'a Record, name: &str) -> &'a Slot {
    &rec.fields.iter().find(|f| f.ident == name).unwrap().value
}

fn run(d: &Declaration, config: &Config, attrs: Vec<Attribute>) -> Record {
    let strukt = dissect(d, config, &AttireResolver).unwrap();
    expand(&strukt, config, &attrs).unwrap()
}

#[test]
fn special_bool_unwrapped() {
    // bool supports being an unwrapped type, defaulting to false.
    let config = Config { scope: None, docs: None };
    let d = decl(vec![], vec![field("b", path1("bool"))]);
    let rec = run(&d, &config, vec![nv("b", AttrLit::Str(s("true")))]);
    assert_eq!(get(&rec, "b"), &Slot::Single(Value::Bool(true)));
}

#[test]
fn special_bool_word() {
    // bool supports being just a word without a value.
    let config = Config { scope: None, docs: None };
    let d = decl(vec![], vec![field("b", opt_ty(path1("bool")))]);
    let rec = run(&d, &config, vec![word("b")]);
    assert_eq!(get(&rec, "b"), &Slot::Opt(Some(Value::Bool(true))));
}

#[test]
fn special_bool_and_string() {
    // Renaming lets one attribute name serve both a value and a flag.
    let config = Config { scope: None, docs: None };
    let d = decl(
        vec!["a"],
        vec![
            field("a", opt_ty(ref_str())),
            field_with(
                "b",
                opt_ty(path1("bool")),
                vec![Meta::NameValue(s("attribute"), AttrLit::Str(s("a")))],
            ),
        ],
    );
    {
        // A word on its own is a bool.
        let rec = run(&d, &config, vec![word("a")]);
        assert_eq!(get(&rec, "a"), &Slot::Opt(None));
        assert_eq!(get(&rec, "b"), &Slot::Opt(Some(Value::Bool(true))));
    }
    {
        // A word with a value is parsed.
        let rec = run(&d, &config, vec![nv("a", AttrLit::Str(s("c")))]);
        assert_eq!(get(&rec, "a"), &Slot::Opt(Some(Value::Str(s("c")))));
        assert_eq!(get(&rec, "b"), &Slot::Opt(None));
    }
}

#[test]
fn unscoped_extra_attributes_are_ignored() {
    let config = Config { scope: None, docs: None };
    let d = decl(vec![], vec![]);
    // An extra attribute must not be an error.
    let rec = run(&d, &config, vec![nv("b", AttrLit::Str(s("false")))]);
    assert_eq!(rec.fields.len(), 0);
}

#[test]
fn scoped_extra_attributes_warn() {
    let config = Config { scope: Some(s("carrot")), docs: None };
    let d = decl(vec![], vec![]);
    // An unmatched scoped entry must not be an error.
    let rec = run(
        &d,
        &config,
        vec![Attribute {
            is_sugared_doc: false,
            value: Meta::List(
                s("carrot"),
                vec![Meta::NameValue(s("b"), AttrLit::Str(s("false")))],
            ),
        }],
    );
    assert_eq!(rec.fields.len(), 0);
}
