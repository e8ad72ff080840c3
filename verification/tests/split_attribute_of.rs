use prom_attire::ast::{AttrLit, Attribute, Body, Declaration, FieldDecl, Meta, PathSegment, SegArgs, TyExpr};
use prom_attire::config::Config;
use prom_attire::dissect::dissect;
use prom_attire::expand::{expand, Record, Slot, Value};
use prom_attire::resolver::AttireResolver;

fn s(x: &str) -> String {
    x.to_string()
}

fn path1(name: &str) -> TyExpr {
    TyExpr::Path {
        global: false,
        segments: vec![PathSegment { ident: s(name), args: SegArgs::Plain }],
    }
}

fn opt_ty(inner: TyExpr) -> TyExpr {
    TyExpr::Path {
        global: false,
        segments: vec![PathSegment {
            ident: s("Option"),
            args: SegArgs::Angle { n_lifetimes: 0, n_bindings: 0, types: vec![inner] },
        }],
    }
}

fn ref_str() -> TyExpr {
    TyExpr::Ref { mutable: false, target: Box::new(path1("str")) }
}

fn field_with(name: &str, ty: TyExpr, attire: Vec<Meta>) -> FieldDecl {
    FieldDecl {
        ident: s(name),
        ty,
        attrs: vec![Attribute { is_sugared_doc: false, value: Meta::List(s("attire"), attire) }],
    }
}

fn split_of(parent: &str) -> Meta {
    Meta::NameValue(s("split_attribute_of"), AttrLit::Str(s(parent)))
}

fn decl(lifetimes: Vec<&str>, fields: Vec<FieldDecl>) -> Declaration {
    Declaration {
        ident: s("A"),
        ty_params: vec![],
        lifetimes: lifetimes.into_iter().map(s).collect(),
        attrs: vec![],
        body: Body::Fields(fields),
    }
}

fn nv(name: &str, lit: AttrLit) -> Attribute {
    Attribute { is_sugared_doc: false, value: Meta::NameValue(s(name), lit) }
}

fn cfg() -> Config {
    Config { scope: None, docs: None }
}

fn run(d: &Declaration, attrs: Vec<Attribute>) -> Record {
    let strukt = dissect(d, &cfg(), &AttireResolver).unwrap();
    expand(&strukt, &cfg(), &attrs).unwrap()
}

fn get<'a>(rec: &'a Record, name: &str) -> &'a Slot {
    &rec.fields.iter().find(|f| f.ident == name).unwrap().value
}

#[test]
fn split_attribute_of_parent() {
    let d = decl(
        vec!["a"],
        vec![
            field_with("c", opt_ty(ref_str()), vec![split_of("b")]),
            field_with("d", opt_ty(ref_str()), vec![split_of("b")]),
        ],
    );
    let rec = run(&d, vec![nv("b", AttrLit::Str(s("b")))]);
    assert_eq!(get(&rec, "c"), &Slot::Opt(Some(Value::Str(s("b")))));
    assert_eq!(get(&rec, "d"), &Slot::Opt(Some(Value::Str(s("b")))));
}

#[test]
fn split_attribute_of_parent_moving() {
    let d = decl(
        vec![],
        vec![
            field_with("c", opt_ty(path1("String")), vec![split_of("b")]),
            field_with("d", opt_ty(path1("String")), vec![split_of("b")]),
        ],
    );
    let rec = run(&d, vec![nv("b", AttrLit::Str(s("b")))]);
    assert_eq!(get(&rec, "c"), &Slot::Opt(Some(Value::Custom(s("b")))));
    assert_eq!(get(&rec, "d"), &Slot::Opt(Some(Value::Custom(s("b")))));
}

#[test]
fn split_attribute_of_children() {
    let d = decl(
        vec!["a"],
        vec![
            field_with("c", opt_ty(ref_str()), vec![split_of("b")]),
            field_with("d", opt_ty(ref_str()), vec![split_of("b")]),
            field_with("e", opt_ty(ref_str()), vec![split_of("b")]),
        ],
    );
    let rec = run(
        &d,
        vec![Attribute {
            is_sugared_doc: false,
            value: Meta::List(
                s("b"),
                vec![
                    Meta::NameValue(s("c"), AttrLit::Str(s("c"))),
                    Meta::NameValue(s("d"), AttrLit::Str(s("d"))),
                ],
            ),
        }],
    );
    assert_eq!(get(&rec, "c"), &Slot::Opt(Some(Value::Str(s("c")))));
    assert_eq!(get(&rec, "d"), &Slot::Opt(Some(Value::Str(s("d")))));
    assert_eq!(get(&rec, "e"), &Slot::Opt(None));
}

#[test]
fn split_attribute_and_normal() {
    let d = decl(
        vec!["a"],
        vec![
            field_with("c", opt_ty(ref_str()), vec![split_of("b")]),
            field_with(
                "d",
                opt_ty(ref_str()),
                vec![Meta::NameValue(s("attribute"), AttrLit::Str(s("c")))],
            ),
        ],
    );
    let rec = run(
        &d,
        vec![nv("b", AttrLit::Str(s("b"))), nv("c", AttrLit::Str(s("c")))],
    );
    assert_eq!(get(&rec, "c"), &Slot::Opt(Some(Value::Str(s("b")))));
    assert_eq!(get(&rec, "d"), &Slot::Opt(Some(Value::Str(s("c")))));
}

#[test]
fn split_attribute_with_rename() {
    let d = decl(
        vec!["a"],
        vec![field_with(
            "c",
            opt_ty(ref_str()),
            vec![split_of("b"), Meta::NameValue(s("attribute"), AttrLit::Str(s("d")))],
        )],
    );
    let rec = run(
        &d,
        vec![Attribute {
            is_sugared_doc: false,
            value: Meta::List(s("b"), vec![Meta::NameValue(s("d"), AttrLit::Str(s("b")))]),
        }],
    );
    assert_eq!(get(&rec, "c"), &Slot::Opt(Some(Value::Str(s("b")))));
}
