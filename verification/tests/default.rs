use prom_attire::ast::{AttrLit, Attribute, Body, Declaration, FieldDecl, Meta, PathSegment, SegArgs, TyExpr};
use prom_attire::config::Config;
use prom_attire::dissect::dissect;
use prom_attire::expand::{expand, Record, Slot, Value};
use prom_attire::resolver::AttireResolver;

fn s(x: &str) -> String {
    x.to_string()
}

fn path1(name: &str) -> TyExpr {
    TyExpr::Path {
        global: false,
        segments: vec![PathSegment { ident: s(name), args: SegArgs::Plain }],
    }
}

fn field_with(name: &str, ty: TyExpr, attire: Vec<Meta>) -> FieldDecl {
    let attrs = if attire.is_empty() {
        vec![]
    } else {
        vec![Attribute { is_sugared_doc: false, value: Meta::List(s("attire"), attire) }]
    };
    FieldDecl { ident: s(name), ty, attrs }
}

fn decl(fields: Vec<FieldDecl>) -> Declaration {
    Declaration {
        ident: s("A"),
        ty_params: vec![],
        lifetimes: vec![],
        attrs: vec![],
        body: Body::Fields(fields),
    }
}

fn nv(name: &str, lit: AttrLit) -> Attribute {
    Attribute { is_sugared_doc: false, value: Meta::NameValue(s(name), lit) }
}

fn cfg() -> Config {
    Config { scope: None, docs: None }
}

fn run(d: &Declaration, attrs: Vec<Attribute>) -> Record {
    let strukt = dissect(d, &cfg(), &AttireResolver).unwrap();
    expand(&strukt, &cfg(), &attrs).unwrap()
}

fn get<'a>(rec: &'a Record, name: &str) -> &'a Slot {
    &rec.fields.iter().find(|f| f.ident == name).unwrap().value
}

#[test]
fn default_bool() {
    let d = decl(vec![field_with("b", path1("bool"), vec![])]);
    let rec = run(&d, vec![]);
    assert_eq!(get(&rec, "b"), &Slot::Single(Value::Bool(false)));
}

#[test]
fn explicit_default_bool() {
    let d = decl(vec![field_with("b", path1("bool"), vec![Meta::Word(s("default"))])]);
    let rec = run(&d, vec![]);
    assert_eq!(get(&rec, "b"), &Slot::Single(Value::Bool(false)));
}

#[test]
fn override_default_bool() {
    let d = decl(vec![field_with(
        "b",
        path1("bool"),
        vec![Meta::NameValue(s("default"), AttrLit::Str(s("true")))],
    )]);
    let rec = run(&d, vec![]);
    assert_eq!(get(&rec, "b"), &Slot::Single(Value::Bool(true)));
}

#[test]
fn override_default_bool_literal() {
    let d = decl(vec![field_with(
        "b",
        path1("bool"),
        vec![Meta::NameValue(s("default"), AttrLit::Str(s("true")))],
    )]);
    let rec = run(&d, vec![]);
    assert_eq!(get(&rec, "b"), &Slot::Single(Value::Bool(true)));
}

#[test]
fn default_string() {
    let d = decl(vec![field_with("b", path1("String"), vec![Meta::Word(s("default"))])]);
    let rec = run(&d, vec![]);
    assert_eq!(get(&rec, "b"), &Slot::Single(Value::Custom(s(""))));
}

#[test]
fn specified_default_string() {
    let d = decl(vec![field_with(
        "b",
        path1("String"),
        vec![Meta::NameValue(s("default"), AttrLit::Str(s("test")))],
    )]);
    let rec = run(&d, vec![]);
    assert_eq!(get(&rec, "b"), &Slot::Single(Value::Custom(s("test"))));
}

#[test]
fn default_string_with_value() {
    let d = decl(vec![field_with("b", path1("String"), vec![Meta::Word(s("default"))])]);
    let rec = run(&d, vec![nv("b", AttrLit::Str(s("this")))]);
    assert_eq!(get(&rec, "b"), &Slot::Single(Value::Custom(s("this"))));
}

#[test]
fn specified_default_string_with_value() {
    let d = decl(vec![field_with(
        "b",
        path1("String"),
        vec![Meta::NameValue(s("default"), AttrLit::Str(s("test")))],
    )]);
    let rec = run(&d, vec![nv("b", AttrLit::Str(s("this")))]);
    assert_eq!(get(&rec, "b"), &Slot::Single(Value::Custom(s("this"))));
}

#[test]
fn default_parsed() {
    // A custom address type with an explicit default: the default text is
    // carried for the host's parser.
    let d = decl(vec![field_with(
        "b",
        path1("IpAddr"),
        vec![Meta::NameValue(s("default"), AttrLit::Str(s("127.0.0.1")))],
    )]);
    let rec = run(&d, vec![]);
    assert_eq!(get(&rec, "b"), &Slot::Single(Value::Custom(s("127.0.0.1"))));
}
