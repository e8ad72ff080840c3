use prom_attire::ast::{AttrLit, Attribute, Body, Declaration, FieldDecl, Meta, PathSegment, SegArgs, TyExpr};
use prom_attire::classify::{FloatTy, IntTy};
use prom_attire::config::Config;
use prom_attire::dissect::dissect;
use prom_attire::expand::{expand, Record, Slot, Value};
use prom_attire::resolver::AttireResolver;

fn s(x: &str) -> String {
    x.to_string()
}

fn path1(name: &str) -> TyExpr {
    TyExpr::Path {
        global: false,
        segments: vec![PathSegment { ident: s(name), args: SegArgs::Plain }],
    }
}

fn opt_ty(inner: TyExpr) -> TyExpr {
    TyExpr::Path {
        global: false,
        segments: vec![PathSegment {
            ident: s("Option"),
            args: SegArgs::Angle { n_lifetimes: 0, n_bindings: 0, types: vec![inner] },
        }],
    }
}

fn vec_of(inner: TyExpr) -> TyExpr {
    TyExpr::Path {
        global: false,
        segments: vec![PathSegment {
            ident: s("Vec"),
            args: SegArgs::Angle { n_lifetimes: 0, n_bindings: 0, types: vec![inner] },
        }],
    }
}

fn ref_str() -> TyExpr {
    TyExpr::Ref { mutable: false, target: Box::new(path1("str")) }
}

fn field(name: &str, ty: TyExpr) -> FieldDecl {
    FieldDecl { ident: s(name), ty, attrs: vec![] }
}

fn decl(lifetimes: Vec<&str>, fields: Vec<FieldDecl>) -> Declaration {
    Declaration {
        ident: s("A"),
        ty_params: vec![],
        lifetimes: lifetimes.into_iter().map(s).collect(),
        attrs: vec![],
        body: Body::Fields(fields),
    }
}

fn nv(name: &str, lit: AttrLit) -> Attribute {
    Attribute { is_sugared_doc: false, value: Meta::NameValue(s(name), lit) }
}

fn get<'a>(rec: &'a Record, name: &str) -> &'a Slot {
    &rec.fields.iter().find(|f| f.ident == name).unwrap().value
}

fn run(d: &Declaration, config: &Config, attrs: Vec<Attribute>) -> Record {
    let strukt = dissect(d, config, &AttireResolver).unwrap();
    expand(&strukt, config, &attrs).unwrap()
}

fn cfg() -> Config {
    Config { scope: None, docs: None }
}

#[test]
fn repeated_attribute_accumulates_in_order() {
    let d = decl(vec!["a"], vec![field("awesome", vec_of(ref_str()))]);
    let rec = run(
        &d,
        &cfg(),
        vec![
            nv("awesome", AttrLit::Str(s("yes"))),
            nv("awesome", AttrLit::Str(s("always"))),
        ],
    );
    assert_eq!(
        get(&rec, "awesome"),
        &Slot::Many(vec![Value::Str(s("yes")), Value::Str(s("always"))])
    );
}

#[test]
fn absent_attributes_leave_defaults() {
    let d = decl(
        vec!["a"],
        vec![
            field("a", opt_ty(ref_str())),
            field("b", vec_of(ref_str())),
            field("c", path1("bool")),
        ],
    );
    let rec = run(&d, &cfg(), vec![]);
    assert_eq!(get(&rec, "a"), &Slot::Opt(None));
    assert_eq!(get(&rec, "b"), &Slot::Many(vec![]));
    assert_eq!(get(&rec, "c"), &Slot::Single(Value::Bool(false)));
}

#[test]
fn scope_hides_top_level_attributes() {
    let d = decl(vec!["a"], vec![field("attr", opt_ty(ref_str()))]);
    let config = Config { scope: Some(s("everything")), docs: None };
    // A top-level entry is invisible when a scope is configured.
    let rec = run(&d, &config, vec![nv("attr", AttrLit::Str(s("plain")))]);
    assert_eq!(get(&rec, "attr"), &Slot::Opt(None));
    // The same entry nested under the scope is seen.
    let rec = run(
        &d,
        &config,
        vec![Attribute {
            is_sugared_doc: false,
            value: Meta::List(
                s("everything"),
                vec![Meta::NameValue(s("attr"), AttrLit::Str(s("scoped")))],
            ),
        }],
    );
    assert_eq!(get(&rec, "attr"), &Slot::Opt(Some(Value::Str(s("scoped")))));
}

#[test]
fn native_int_literal_reduces_to_width() {
    // A native literal is reduced to the field's width, as a cast would.
    let d = decl(vec![], vec![field("b", opt_ty(path1("u8")))]);
    let rec = run(&d, &cfg(), vec![nv("b", AttrLit::Int(300))]);
    assert_eq!(get(&rec, "b"), &Slot::Opt(Some(Value::Int(IntTy::U8, 44))));
    let d = decl(vec![], vec![field("b", opt_ty(path1("i8")))]);
    let rec = run(&d, &cfg(), vec![nv("b", AttrLit::Int(200))]);
    assert_eq!(get(&rec, "b"), &Slot::Opt(Some(Value::Int(IntTy::I8, -56))));
}

#[test]
fn string_int_parse_accepts_signs() {
    let d = decl(vec![], vec![field("b", opt_ty(path1("i32")))]);
    let rec = run(&d, &cfg(), vec![nv("b", AttrLit::Str(s("+42")))]);
    assert_eq!(get(&rec, "b"), &Slot::Opt(Some(Value::Int(IntTy::I32, 42))));
    let rec = run(&d, &cfg(), vec![nv("b", AttrLit::Str(s("-2147483648")))]);
    assert_eq!(
        get(&rec, "b"),
        &Slot::Opt(Some(Value::Int(IntTy::I32, -2147483648)))
    );
}

#[test]
fn unsigned_parse_rejects_minus() {
    let d = decl(vec![], vec![field("b", opt_ty(path1("u8")))]);
    let strukt = dissect(&d, &cfg(), &AttireResolver).unwrap();
    let errs = expand(&strukt, &cfg(), &vec![nv("b", AttrLit::Str(s("-0")))]).unwrap_err();
    assert_eq!(errs.len(), 1);
}

#[test]
fn float_text_accepts_special_words_and_exponents() {
    let d = decl(vec![], vec![field("b", opt_ty(path1("f64")))]);
    for ok in ["inf", "-inf", "Infinity", "NaN", "1e9", "2.5E-3", "5.", ".5", "+1.0"] {
        let rec = run(&d, &cfg(), vec![nv("b", AttrLit::Str(s(ok)))]);
        assert_eq!(
            get(&rec, "b"),
            &Slot::Opt(Some(Value::Float(FloatTy::F64, s(ok)))),
            "expected {:?} to be accepted",
            ok
        );
        // The accepted grammar matches the host parser's.
        assert!(ok.parse::<f64>().is_ok());
    }
    for bad in ["", ".", "e9", "1e", "1.2.3", "nan7", "--1"] {
        let strukt = dissect(&d, &cfg(), &AttireResolver).unwrap();
        let r = expand(&strukt, &cfg(), &vec![nv("b", AttrLit::Str(s(bad)))]);
        assert!(r.is_err(), "expected {:?} to be rejected", bad);
        assert!(bad.parse::<f64>().is_err());
    }
}

#[test]
fn int_parse_accepts_extreme_values() {
    let d = decl(vec![], vec![field("b", opt_ty(path1("u64")))]);
    let rec = run(&d, &cfg(), vec![nv("b", AttrLit::Str(s("18446744073709551615")))]);
    assert_eq!(
        get(&rec, "b"),
        &Slot::Opt(Some(Value::Int(IntTy::U64, 18446744073709551615)))
    );
    let d = decl(vec![], vec![field("b", opt_ty(path1("i64")))]);
    let rec = run(&d, &cfg(), vec![nv("b", AttrLit::Str(s("-9223372036854775808")))]);
    assert_eq!(
        get(&rec, "b"),
        &Slot::Opt(Some(Value::Int(IntTy::I64, -9223372036854775808)))
    );
    let strukt = dissect(&d, &cfg(), &AttireResolver).unwrap();
    let r = expand(&strukt, &cfg(), &vec![nv("b", AttrLit::Str(s("9223372036854775808")))]);
    assert!(r.is_err());
}

#[test]
fn doc_markers_trim_repeatedly() {
    let d = decl(
        vec!["a"],
        vec![field("docs", vec_of(ref_str()))],
    );
    let config = Config { scope: None, docs: Some(s("docs")) };
    let rec = run(
        &d,
        &config,
        vec![Attribute {
            is_sugared_doc: true,
            value: Meta::NameValue(s("doc"), AttrLit::Str(s("////// doubled"))),
        }],
    );
    assert_eq!(get(&rec, "docs"), &Slot::Many(vec![Value::Str(s(" doubled"))]));
}

#[test]
fn driver_runs_dissection_then_conversion() {
    let d = decl(vec![], vec![field("b", opt_ty(path1("u8")))]);
    let inner = prom_attire::expand::derive(
        &d,
        &cfg(),
        &AttireResolver,
        &vec![nv("b", AttrLit::Int(10))],
    )
    .unwrap();
    let rec = inner.unwrap();
    assert_eq!(get(&rec, "b"), &Slot::Opt(Some(Value::Int(IntTy::U8, 10))));
    let bad = Declaration {
        ident: s("A"),
        ty_params: vec![],
        lifetimes: vec![],
        attrs: vec![],
        body: Body::Enum,
    };
    assert!(prom_attire::expand::derive(&bad, &cfg(), &AttireResolver, &vec![]).is_err());
}

#[test]
fn convenience_conversion_hands_back_the_record() {
    let d = decl(vec![], vec![field("b", opt_ty(path1("u8")))]);
    let strukt = dissect(&d, &cfg(), &AttireResolver).unwrap();
    let attrs = vec![nv("b", AttrLit::Int(10))];
    let rec = prom_attire::expand::from_attributes(&strukt, &cfg(), &attrs);
    assert_eq!(get(&rec, "b"), &Slot::Opt(Some(Value::Int(IntTy::U8, 10))));
}

#[test]
fn record_field_order_is_docs_then_ordinary_then_split() {
    let d = Declaration {
        ident: s("A"),
        ty_params: vec![],
        lifetimes: vec![s("a")],
        attrs: vec![],
        body: Body::Fields(vec![
            field("plain", opt_ty(ref_str())),
            field("docs", vec_of(ref_str())),
            FieldDecl {
                ident: s("child"),
                ty: opt_ty(ref_str()),
                attrs: vec![Attribute {
                    is_sugared_doc: false,
                    value: Meta::List(
                        s("attire"),
                        vec![Meta::NameValue(s("split_attribute_of"), AttrLit::Str(s("p")))],
                    ),
                }],
            },
        ]),
    };
    let config = Config { scope: None, docs: Some(s("docs")) };
    let rec = run(&d, &config, vec![]);
    let names: Vec<&str> = rec.fields.iter().map(|f| f.ident.as_str()).collect();
    assert_eq!(names, vec!["docs", "plain", "child"]);
}
