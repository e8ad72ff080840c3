use prom_attire::ast::{AttrLit, Attribute, Body, Declaration, FieldDecl, Meta, PathSegment, SegArgs, TyExpr};
use prom_attire::config::Config;
use prom_attire::dissect::dissect;
use prom_attire::expand::{expand, Record, Slot, Value};
use prom_attire::resolver::AttireResolver;

fn s(x: &str) -> String {
    x.to_string()
}

fn path1(name: &str) -> TyExpr {
    TyExpr::Path {
        global: false,
        segments: vec![PathSegment { ident: s(name), args: SegArgs::Plain }],
    }
}

fn field_with(name: &str, ty: TyExpr, attire: Vec<Meta>) -> FieldDecl {
    let attrs = if attire.is_empty() {
        vec![]
    } else {
        vec![Attribute { is_sugared_doc: false, value: Meta::List(s("attire"), attire) }]
    };
    FieldDecl { ident: s(name), ty, attrs }
}

fn decl(fields: Vec<FieldDecl>) -> Declaration {
    Declaration {
        ident: s("A"),
        ty_params: vec![],
        lifetimes: vec![],
        attrs: vec![],
        body: Body::Fields(fields),
    }
}

fn word(name: &str) -> Attribute {
    Attribute { is_sugared_doc: false, value: Meta::Word(s(name)) }
}

fn cfg() -> Config {
    Config { scope: None, docs: None }
}

fn run(d: &Declaration, attrs: Vec<Attribute>) -> Record {
    let strukt = dissect(d, &cfg(), &AttireResolver).unwrap();
    expand(&strukt, &cfg(), &attrs).unwrap()
}

fn get<'a>(rec: &'a Record, name: &str) -> &'a Slot {
    &rec.fields.iter().find(|f| f.ident == name).unwrap().value
}

fn nv_cfg(name: &str, value: &str) -> Meta {
    Meta::NameValue(s(name), AttrLit::Str(s(value)))
}

#[test]
fn default_flag_value_bool() {
    let d = decl(vec![field_with("b", path1("bool"), vec![])]);
    let rec = run(&d, vec![word("b")]);
    assert_eq!(get(&rec, "b"), &Slot::Single(Value::Bool(true)));
}

#[test]
fn explicit_flag_value_bool() {
    let d = decl(vec![field_with("b", path1("bool"), vec![nv_cfg("flag_value", "true")])]);
    let rec = run(&d, vec![word("b")]);
    assert_eq!(get(&rec, "b"), &Slot::Single(Value::Bool(true)));
}

#[test]
fn override_flag_value_bool() {
    let d = decl(vec![field_with(
        "b",
        path1("bool"),
        vec![nv_cfg("default", "true"), nv_cfg("flag_value", "false")],
    )]);
    let rec = run(&d, vec![word("b")]);
    assert_eq!(get(&rec, "b"), &Slot::Single(Value::Bool(false)));
}

#[test]
fn flag_value_string_unset() {
    let d = decl(vec![field_with(
        "b",
        path1("String"),
        vec![nv_cfg("default", "test"), nv_cfg("flag_value", "this")],
    )]);
    let rec = run(&d, vec![]);
    assert_eq!(get(&rec, "b"), &Slot::Single(Value::Custom(s("test"))));
}

#[test]
fn flag_value_string_set() {
    let d = decl(vec![field_with(
        "b",
        path1("String"),
        vec![nv_cfg("default", "test"), nv_cfg("flag_value", "this")],
    )]);
    let rec = run(&d, vec![word("b")]);
    assert_eq!(get(&rec, "b"), &Slot::Single(Value::Custom(s("this"))));
}

#[test]
fn flag_value_parsed() {
    // A custom address type with distinct default and flag texts.
    let d = decl(vec![field_with(
        "b",
        path1("IpAddr"),
        vec![nv_cfg("default", "0.0.0.0"), nv_cfg("flag_value", "127.0.0.1")],
    )]);
    let rec = run(&d, vec![word("b")]);
    assert_eq!(get(&rec, "b"), &Slot::Single(Value::Custom(s("127.0.0.1"))));
}
