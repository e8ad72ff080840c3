use prom_attire::ast::{AttrLit, Attribute, Body, Declaration, FieldDecl, Meta, PathSegment, SegArgs, TyExpr};
use prom_attire::classify::{FloatTy, IntTy};
use prom_attire::config::Config;
use prom_attire::dissect::dissect;
use prom_attire::expand::{expand, Record, Slot, Value};
use prom_attire::resolver::AttireResolver;

fn s(x: &str) -> String {
    x.to_string()
}

fn path1(name: &str) -> TyExpr {
    TyExpr::Path {
        global: false,
        segments: vec![PathSegment { ident: s(name), args: SegArgs::Plain }],
    }
}

fn opt_ty(inner: TyExpr) -> TyExpr {
    TyExpr::Path {
        global: false,
        segments: vec![PathSegment {
            ident: s("Option"),
            args: SegArgs::Angle { n_lifetimes: 0, n_bindings: 0, types: vec![inner] },
        }],
    }
}

fn ref_str() -> TyExpr {
    TyExpr::Ref { mutable: false, target: Box::new(path1("str")) }
}

fn ref_bytes() -> TyExpr {
    TyExpr::Ref { mutable: false, target: Box::new(TyExpr::Slice(Box::new(path1("u8")))) }
}

fn field(name: &str, ty: TyExpr) -> FieldDecl {
    FieldDecl { ident: s(name), ty, attrs: vec![] }
}

fn decl(lifetimes: Vec<&str>, fields: Vec<FieldDecl>) -> Declaration {
    Declaration {
        ident: s("A"),
        ty_params: vec![],
        lifetimes: lifetimes.into_iter().map(s).collect(),
        attrs: vec![],
        body: Body::Fields(fields),
    }
}

fn nv(name: &str, lit: AttrLit) -> Attribute {
    Attribute { is_sugared_doc: false, value: Meta::NameValue(s(name), lit) }
}

fn cfg() -> Config {
    Config { scope: None, docs: None }
}

fn run(d: &Declaration, attrs: Vec<Attribute>) -> Record {
    let strukt = dissect(d, &cfg(), &AttireResolver).unwrap();
    expand(&strukt, &cfg(), &attrs).unwrap()
}

fn get<'a>(rec: &'a Record, name: &str) -> &'a Slot {
    &rec.fields.iter().find(|f| f.ident == name).unwrap().value
}

#[test]
fn parse_string() {
    let d = decl(vec!["a"], vec![field("b", opt_ty(ref_str()))]);
    let rec = run(&d, vec![nv("b", AttrLit::Str(s("test")))]);
    assert_eq!(get(&rec, "b"), &Slot::Opt(Some(Value::Str(s("test")))));
}

#[test]
fn parse_byte_str() {
    let d = decl(vec!["a"], vec![field("b", opt_ty(ref_bytes()))]);
    let rec = run(&d, vec![nv("b", AttrLit::Str(s("test")))]);
    assert_eq!(get(&rec, "b"), &Slot::Opt(Some(Value::ByteStr(b"test".to_vec()))));
}

#[test]
fn parse_char() {
    let d = decl(vec![], vec![field("b", opt_ty(path1("char")))]);
    let rec = run(&d, vec![nv("b", AttrLit::Str(s("b")))]);
    assert_eq!(get(&rec, "b"), &Slot::Opt(Some(Value::Char('b'))));
}

#[test]
fn parse_u8() {
    let d = decl(vec![], vec![field("b", opt_ty(path1("u8")))]);
    let rec = run(&d, vec![nv("b", AttrLit::Str(s("10")))]);
    assert_eq!(get(&rec, "b"), &Slot::Opt(Some(Value::Int(IntTy::U8, 10))));
}

#[test]
fn parse_i8() {
    let d = decl(vec![], vec![field("b", opt_ty(path1("i8")))]);
    let rec = run(&d, vec![nv("b", AttrLit::Str(s("10")))]);
    assert_eq!(get(&rec, "b"), &Slot::Opt(Some(Value::Int(IntTy::I8, 10))));
}

#[test]
fn parse_u16() {
    let d = decl(vec![], vec![field("b", opt_ty(path1("u16")))]);
    let rec = run(&d, vec![nv("b", AttrLit::Str(s("10")))]);
    assert_eq!(get(&rec, "b"), &Slot::Opt(Some(Value::Int(IntTy::U16, 10))));
}

#[test]
fn parse_i16() {
    let d = decl(vec![], vec![field("b", opt_ty(path1("i16")))]);
    let rec = run(&d, vec![nv("b", AttrLit::Str(s("10")))]);
    assert_eq!(get(&rec, "b"), &Slot::Opt(Some(Value::Int(IntTy::I16, 10))));
}

#[test]
fn parse_u32() {
    let d = decl(vec![], vec![field("b", opt_ty(path1("u32")))]);
    let rec = run(&d, vec![nv("b", AttrLit::Str(s("10")))]);
    assert_eq!(get(&rec, "b"), &Slot::Opt(Some(Value::Int(IntTy::U32, 10))));
}

#[test]
fn parse_i32() {
    let d = decl(vec![], vec![field("b", opt_ty(path1("i32")))]);
    let rec = run(&d, vec![nv("b", AttrLit::Str(s("10")))]);
    assert_eq!(get(&rec, "b"), &Slot::Opt(Some(Value::Int(IntTy::I32, 10))));
}

#[test]
fn parse_u64() {
    let d = decl(vec![], vec![field("b", opt_ty(path1("u64")))]);
    let rec = run(&d, vec![nv("b", AttrLit::Str(s("10")))]);
    assert_eq!(get(&rec, "b"), &Slot::Opt(Some(Value::Int(IntTy::U64, 10))));
}

#[test]
fn parse_i64() {
    let d = decl(vec![], vec![field("b", opt_ty(path1("i64")))]);
    let rec = run(&d, vec![nv("b", AttrLit::Str(s("10")))]);
    assert_eq!(get(&rec, "b"), &Slot::Opt(Some(Value::Int(IntTy::I64, 10))));
}

#[test]
fn parse_usize() {
    let d = decl(vec![], vec![field("b", opt_ty(path1("usize")))]);
    let rec = run(&d, vec![nv("b", AttrLit::Str(s("10")))]);
    assert_eq!(get(&rec, "b"), &Slot::Opt(Some(Value::Int(IntTy::Usize, 10))));
}

#[test]
fn parse_isize() {
    let d = decl(vec![], vec![field("b", opt_ty(path1("isize")))]);
    let rec = run(&d, vec![nv("b", AttrLit::Str(s("10")))]);
    assert_eq!(get(&rec, "b"), &Slot::Opt(Some(Value::Int(IntTy::Isize, 10))));
}

#[test]
fn parse_f32() {
    let d = decl(vec![], vec![field("b", opt_ty(path1("f32")))]);
    let rec = run(&d, vec![nv("b", AttrLit::Str(s("10.01")))]);
    assert_eq!(get(&rec, "b"), &Slot::Opt(Some(Value::Float(FloatTy::F32, s("10.01")))));
    assert_eq!("10.01".parse::<f32>().unwrap(), 10.01);
}

#[test]
fn parse_f64() {
    let d = decl(vec![], vec![field("b", opt_ty(path1("f64")))]);
    let rec = run(&d, vec![nv("b", AttrLit::Str(s("10.01")))]);
    assert_eq!(get(&rec, "b"), &Slot::Opt(Some(Value::Float(FloatTy::F64, s("10.01")))));
    assert_eq!("10.01".parse::<f64>().unwrap(), 10.01);
}

#[test]
fn parse_bool() {
    let d = decl(vec![], vec![field("b", opt_ty(path1("bool")))]);
    let rec = run(&d, vec![nv("b", AttrLit::Str(s("true")))]);
    assert_eq!(get(&rec, "b"), &Slot::Opt(Some(Value::Bool(true))));
}

#[test]
fn parse_from_infallible() {
    // A custom type whose parse cannot fail: the raw text is carried
    // through for the host's parser.
    let d = decl(vec![], vec![field("b", opt_ty(path1("Infallible")))]);
    let rec = run(&d, vec![nv("b", AttrLit::Str(s("boom")))]);
    assert_eq!(get(&rec, "b"), &Slot::Opt(Some(Value::Custom(s("boom")))));
}

#[test]
fn parse_from_str() {
    // A custom address type: the text reaches the host's parser as
    // written.
    let d = decl(vec![], vec![field("b", opt_ty(path1("IpAddr")))]);
    let rec = run(&d, vec![nv("b", AttrLit::Str(s("127.0.0.1")))]);
    assert_eq!(get(&rec, "b"), &Slot::Opt(Some(Value::Custom(s("127.0.0.1")))));
}
