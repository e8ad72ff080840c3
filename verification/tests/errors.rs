use prom_attire::ast::{AttrLit, Attribute, Body, Declaration, FieldDecl, Meta, PathSegment, SegArgs, TyExpr};
use prom_attire::classify::{IntTy, Lit, Ty, TyError};
use prom_attire::config::Config;
use prom_attire::dissect::{dissect, DissectError};
use prom_attire::expand::{expand, ConvertError, ParseCause};
use prom_attire::resolver::AttireResolver;

fn s(x: &str) -> String {
    x.to_string()
}

fn path1(name: &str) -> TyExpr {
    TyExpr::Path {
        global: false,
        segments: vec![PathSegment { ident: s(name), args: SegArgs::Plain }],
    }
}

fn opt_ty(inner: TyExpr) -> TyExpr {
    TyExpr::Path {
        global: false,
        segments: vec![PathSegment {
            ident: s("Option"),
            args: SegArgs::Angle { n_lifetimes: 0, n_bindings: 0, types: vec![inner] },
        }],
    }
}

fn field(name: &str, ty: TyExpr) -> FieldDecl {
    FieldDecl { ident: s(name), ty, attrs: vec![] }
}

fn field_with(name: &str, ty: TyExpr, attire: Vec<Meta>) -> FieldDecl {
    FieldDecl {
        ident: s(name),
        ty,
        attrs: vec![Attribute { is_sugared_doc: false, value: Meta::List(s("attire"), attire) }],
    }
}

fn decl_body(body: Body) -> Declaration {
    Declaration {
        ident: s("A"),
        ty_params: vec![],
        lifetimes: vec![],
        attrs: vec![],
        body,
    }
}

fn nv(name: &str, lit: AttrLit) -> Attribute {
    Attribute { is_sugared_doc: false, value: Meta::NameValue(s(name), lit) }
}

fn cfg() -> Config {
    Config { scope: None, docs: None }
}

#[test]
fn enuum() {
    let d = decl_body(Body::Enum);
    let result = dissect(&d, &cfg(), &AttireResolver);
    assert_eq!(result.unwrap_err(), DissectError::StructBody);
}

#[test]
fn tuple_struct() {
    let d = decl_body(Body::Tuple);
    let result = dissect(&d, &cfg(), &AttireResolver);
    assert_eq!(result.unwrap_err(), DissectError::StructBody);
}

#[test]
fn unit_struct() {
    let d = decl_body(Body::Unit);
    let result = dissect(&d, &cfg(), &AttireResolver);
    assert_eq!(result.unwrap_err(), DissectError::StructBody);
}

#[test]
fn type_params_rejected() {
    let mut d = decl_body(Body::Fields(vec![]));
    d.ty_params = vec![s("T")];
    let result = dissect(&d, &cfg(), &AttireResolver);
    assert_eq!(result.unwrap_err(), DissectError::TyParams { params: vec![s("T")] });
}

#[test]
fn two_lifetimes_rejected() {
    let mut d = decl_body(Body::Fields(vec![]));
    d.lifetimes = vec![s("a"), s("b")];
    let result = dissect(&d, &cfg(), &AttireResolver);
    assert_eq!(
        result.unwrap_err(),
        DissectError::Lifetimes { lifetimes: vec![s("a"), s("b")] }
    );
}

#[test]
fn docs_field_must_be_string_vec() {
    let d = decl_body(Body::Fields(vec![field("docs", opt_ty(path1("u8")))]));
    let config = Config { scope: None, docs: Some(s("docs")) };
    let result = dissect(&d, &config, &AttireResolver);
    assert_eq!(result.unwrap_err(), DissectError::DocsTy { ident: s("docs") });
}

fn split_of(parent: &str) -> Meta {
    Meta::NameValue(s("split_attribute_of"), AttrLit::Str(s(parent)))
}

#[test]
fn split_field_types_must_agree() {
    let d = decl_body(Body::Fields(vec![
        field_with("c", opt_ty(path1("u8")), vec![split_of("b")]),
        field_with("d", opt_ty(path1("u16")), vec![split_of("b")]),
    ]));
    let result = dissect(&d, &cfg(), &AttireResolver);
    assert_eq!(
        result.unwrap_err(),
        DissectError::SplitFieldTys {
            parent: s("b"),
            prior_ty: opt_ty(path1("u8")),
            field: s("d"),
        }
    );
}

#[test]
fn flag_value_needs_default() {
    let d = decl_body(Body::Fields(vec![field_with(
        "b",
        opt_ty(path1("u8")),
        vec![Meta::NameValue(s("flag_value"), AttrLit::Str(s("7")))],
    )]));
    let result = dissect(&d, &cfg(), &AttireResolver);
    assert_eq!(result.unwrap_err(), DissectError::WordValueNoDefault { ident: s("b") });
}

#[test]
fn bare_type_needs_default() {
    let d = decl_body(Body::Fields(vec![field("b", path1("u8"))]));
    let result = dissect(&d, &cfg(), &AttireResolver);
    assert_eq!(
        result.unwrap_err(),
        DissectError::Field { ident: s("b"), cause: TyError::TyWrapperOrDefault(path1("u8")) }
    );
}

#[test]
fn mutable_reference_rejected() {
    let ty = opt_ty(TyExpr::Ref { mutable: true, target: Box::new(path1("str")) });
    let d = decl_body(Body::Fields(vec![field("b", ty)]));
    let result = dissect(&d, &cfg(), &AttireResolver);
    assert_eq!(
        result.unwrap_err(),
        DissectError::Field { ident: s("b"), cause: TyError::TyRef(path1("str")) }
    );
}

#[test]
fn malformed_wrapper_rejected() {
    let ty = TyExpr::Path {
        global: false,
        segments: vec![PathSegment {
            ident: s("Option"),
            args: SegArgs::Angle {
                n_lifetimes: 0,
                n_bindings: 0,
                types: vec![path1("u8"), path1("u16")],
            },
        }],
    };
    let d = decl_body(Body::Fields(vec![field("b", ty)]));
    let result = dissect(&d, &cfg(), &AttireResolver);
    match result.unwrap_err() {
        DissectError::Field { ident, cause } => {
            assert_eq!(ident, s("b"));
            assert!(matches!(cause, TyError::TyWrapperBad(_)));
        },
        other => panic!("unexpected error {:?}", other),
    }
}

#[test]
fn unsupported_type_shape_rejected() {
    // A tuple type has no supported shape at all.
    let tup = TyExpr::Tuple(vec![path1("u8"), path1("u16")]);
    let d = decl_body(Body::Fields(vec![field("b", opt_ty(tup))]));
    let result = dissect(&d, &cfg(), &AttireResolver);
    match result.unwrap_err() {
        DissectError::Field { ident, cause } => {
            assert_eq!(ident, s("b"));
            assert!(matches!(cause, TyError::Ty(_)));
        },
        other => panic!("unexpected error {:?}", other),
    }
}

#[test]
fn literal_kind_mismatch_reported() {
    let d = decl_body(Body::Fields(vec![field("b", opt_ty(path1("char")))]));
    let strukt = dissect(&d, &cfg(), &AttireResolver).unwrap();
    let errs = expand(&strukt, &cfg(), &vec![nv("b", AttrLit::Bool(true))]).unwrap_err();
    assert_eq!(
        errs,
        vec![ConvertError::LiteralTy {
            record: s("A"),
            value: AttrLit::Bool(true),
            expected: Ty::Literal(Lit::Char),
            scope: None,
            attr: s("b"),
        }]
    );
}

#[test]
fn char_parse_needs_one_character() {
    let d = decl_body(Body::Fields(vec![field("b", opt_ty(path1("char")))]));
    let strukt = dissect(&d, &cfg(), &AttireResolver).unwrap();
    let errs = expand(&strukt, &cfg(), &vec![nv("b", AttrLit::Str(s("xy")))]).unwrap_err();
    assert_eq!(
        errs,
        vec![ConvertError::Parsing {
            record: s("A"),
            value: s("xy"),
            expected: Ty::Literal(Lit::Char),
            scope: None,
            attr: s("b"),
            cause: ParseCause::Char,
        }]
    );
}

#[test]
fn byte_str_parse_needs_ascii() {
    let ref_bytes = TyExpr::Ref {
        mutable: false,
        target: Box::new(TyExpr::Slice(Box::new(path1("u8")))),
    };
    let mut d = decl_body(Body::Fields(vec![field("b", opt_ty(ref_bytes))]));
    d.lifetimes = vec![s("a")];
    let strukt = dissect(&d, &cfg(), &AttireResolver).unwrap();
    let errs = expand(&strukt, &cfg(), &vec![nv("b", AttrLit::Str(s("caf\u{e9}")))]).unwrap_err();
    assert_eq!(errs.len(), 1);
    assert!(matches!(
        errs[0],
        ConvertError::Parsing { cause: ParseCause::ByteStr, .. }
    ));
}

#[test]
fn int_parse_out_of_range() {
    let d = decl_body(Body::Fields(vec![field("b", opt_ty(path1("u8")))]));
    let strukt = dissect(&d, &cfg(), &AttireResolver).unwrap();
    let errs = expand(&strukt, &cfg(), &vec![nv("b", AttrLit::Str(s("300")))]).unwrap_err();
    assert_eq!(
        errs,
        vec![ConvertError::Parsing {
            record: s("A"),
            value: s("300"),
            expected: Ty::Literal(Lit::Int(IntTy::U8)),
            scope: None,
            attr: s("b"),
            cause: ParseCause::Int,
        }]
    );
}

#[test]
fn bool_parse_rejects_other_words() {
    let d = decl_body(Body::Fields(vec![field("b", opt_ty(path1("bool")))]));
    let strukt = dissect(&d, &cfg(), &AttireResolver).unwrap();
    let errs = expand(&strukt, &cfg(), &vec![nv("b", AttrLit::Str(s("maybe")))]).unwrap_err();
    assert_eq!(errs.len(), 1);
    assert!(matches!(
        errs[0],
        ConvertError::Parsing { cause: ParseCause::Bool, .. }
    ));
}

#[test]
fn float_parse_rejects_malformed_text() {
    let d = decl_body(Body::Fields(vec![field("b", opt_ty(path1("f64")))]));
    let strukt = dissect(&d, &cfg(), &AttireResolver).unwrap();
    let errs = expand(&strukt, &cfg(), &vec![nv("b", AttrLit::Str(s("1.2.3")))]).unwrap_err();
    assert_eq!(errs.len(), 1);
    assert!(matches!(
        errs[0],
        ConvertError::Parsing { cause: ParseCause::Float, .. }
    ));
}

#[test]
fn two_bad_values_give_two_errors() {
    // Error aggregation: both failures are reported, in order.
    let d = decl_body(Body::Fields(vec![
        field("b", opt_ty(path1("u32"))),
        field("c", opt_ty(path1("char"))),
    ]));
    let strukt = dissect(&d, &cfg(), &AttireResolver).unwrap();
    let errs = expand(
        &strukt,
        &cfg(),
        &vec![nv("b", AttrLit::Str(s("nope"))), nv("c", AttrLit::Str(s("too long")))],
    )
    .unwrap_err();
    assert_eq!(errs.len(), 2);
    assert!(matches!(
        errs[0],
        ConvertError::Parsing { cause: ParseCause::Int, .. }
    ));
    assert!(matches!(
        errs[1],
        ConvertError::Parsing { cause: ParseCause::Char, .. }
    ));
}
