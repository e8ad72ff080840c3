use prom_attire::ast::{AttrLit, Attribute, Body, Declaration, FieldDecl, Meta, PathSegment, SegArgs, TyExpr};
use prom_attire::config::Config;
use prom_attire::dissect::dissect;
use prom_attire::expand::{expand, Record, Slot, Value};
use prom_attire::resolver::AttireResolver;

fn s(x: &str) -> String {
    x.to_string()
}

fn path1(name: &str) -> TyExpr {
    TyExpr::Path {
        global: false,
        segments: vec![PathSegment { ident: s(name), args: SegArgs::Plain }],
    }
}

fn vec_of(inner: TyExpr) -> TyExpr {
    TyExpr::Path {
        global: false,
        segments: vec![PathSegment {
            ident: s("Vec"),
            args: SegArgs::Angle { n_lifetimes: 0, n_bindings: 0, types: vec![inner] },
        }],
    }
}

fn ref_str() -> TyExpr {
    TyExpr::Ref { mutable: false, target: Box::new(path1("str")) }
}

fn docs_decl() -> Declaration {
    Declaration {
        ident: s("A"),
        ty_params: vec![],
        lifetimes: vec![s("a")],
        attrs: vec![],
        body: Body::Fields(vec![FieldDecl {
            ident: s("docs"),
            ty: vec_of(ref_str()),
            attrs: vec![],
        }]),
    }
}

fn cfg() -> Config {
    Config { scope: None, docs: Some(s("docs")) }
}

fn run(d: &Declaration, attrs: Vec<Attribute>) -> Record {
    let strukt = dissect(d, &cfg(), &AttireResolver).unwrap();
    expand(&strukt, &cfg(), &attrs).unwrap()
}

fn get<'a>(rec: &'a Record, name: &str) -> &'a Slot {
    &rec.fields.iter().find(|f| f.ident == name).unwrap().value
}

fn explicit_doc(text: &str) -> Attribute {
    Attribute {
        is_sugared_doc: false,
        value: Meta::NameValue(s("doc"), AttrLit::Str(s(text))),
    }
}

fn sugared_doc(text: &str) -> Attribute {
    Attribute {
        is_sugared_doc: true,
        value: Meta::NameValue(s("doc"), AttrLit::Str(s(text))),
    }
}

#[test]
fn docs_zero() {
    let d = docs_decl();
    let rec = run(&d, vec![explicit_doc(" Some docs"), explicit_doc(" For this struct")]);
    assert_eq!(
        get(&rec, "docs"),
        &Slot::Many(vec![Value::Str(s(" Some docs")), Value::Str(s(" For this struct"))])
    );
}

#[test]
fn docs_sugared() {
    let d = docs_decl();
    let rec = run(&d, vec![sugared_doc("/// Some docs"), sugared_doc("/// For this struct")]);
    assert_eq!(
        get(&rec, "docs"),
        &Slot::Many(vec![Value::Str(s(" Some docs")), Value::Str(s(" For this struct"))])
    );
}
