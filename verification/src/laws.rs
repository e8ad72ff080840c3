//! The library's stated laws: general properties of the conversion,
//! proved over the same specification functions that the executable
//! functions are verified against.

use vstd::prelude::*;

use crate::ast::{SpecAttrLit, SpecAttribute, SpecMeta};
use crate::classify::{Lit, SpecTy, SpecWrapper};
use crate::config::{SpecConfig, SpecDefaulted};
use crate::dissect::{SpecField, SpecSplitFields, SpecStruct};
use crate::expand::{
    spec_convert, spec_docs, spec_expand, spec_final_state, spec_parse_str_value,
    spec_process_attrs, spec_setup_fields, spec_setup_slot, spec_setup_splits, spec_write,
    SpecConvState, SpecConvertError, SpecRecord, SpecRecordField, SpecSlot, SpecValue,
};
use crate::parse::{spec_cast_int, spec_int_max, spec_parse_bool};

verus! {

/// A field for stating laws: no default and no flag value unless given.
pub open spec fn law_field(
    ident: Seq<char>,
    attribute: Seq<char>,
    ty: SpecWrapper,
    default: SpecDefaulted,
    flag_value: Option<Seq<char>>,
) -> SpecField {
    SpecField { ident, attribute, ty, default, flag_value }
}

/// A record type with a single ordinary field and nothing else.
pub open spec fn law_struct1(rec: Seq<char>, f: SpecField) -> SpecStruct {
    SpecStruct {
        ident: rec,
        lifetime: None,
        docs: None,
        fields: seq![f],
        split_fields: Seq::empty(),
    }
}

/// An unscoped configuration without a docs field.
pub open spec fn law_config() -> SpecConfig {
    SpecConfig { scope: None, docs: None }
}

/// A plain name-value annotation.
pub open spec fn nv_attr(name: Seq<char>, lit: SpecAttrLit) -> SpecAttribute {
    SpecAttribute { is_sugared_doc: false, value: SpecMeta::NameValue(name, lit) }
}

/// A bare-word annotation.
pub open spec fn word_attr(name: Seq<char>) -> SpecAttribute {
    SpecAttribute { is_sugared_doc: false, value: SpecMeta::Word(name) }
}

/// The natural value of a native literal of kind `k`.
pub open spec fn natural_value(k: Lit, lit: SpecAttrLit) -> SpecValue {
    match (k, lit) {
        (Lit::Bool, SpecAttrLit::Bool(b)) => SpecValue::Bool(b),
        (Lit::Char, SpecAttrLit::Char(c)) => SpecValue::Char(c),
        (Lit::Int(w), SpecAttrLit::Int(u)) => SpecValue::Int(w, u as int),
        (Lit::Str, SpecAttrLit::Str(s)) => SpecValue::Str(s),
        (Lit::ByteStr, SpecAttrLit::ByteStr(b)) => SpecValue::ByteStr(b),
        (Lit::Float(w), SpecAttrLit::Float(t)) => SpecValue::Float(w, t),
        _ => SpecValue::Bool(false),
    }
}

/// Whether a native literal is of kind `k` and representable there: an
/// integer literal must not exceed the kind's largest value, and float
/// text must be acceptable to a floating-point parser.
pub open spec fn literal_of_kind(k: Lit, lit: SpecAttrLit) -> bool {
    match (k, lit) {
        (Lit::Bool, SpecAttrLit::Bool(_)) => true,
        (Lit::Char, SpecAttrLit::Char(_)) => true,
        (Lit::Int(w), SpecAttrLit::Int(u)) => u as int <= spec_int_max(w),
        (Lit::Str, SpecAttrLit::Str(_)) => true,
        (Lit::ByteStr, SpecAttrLit::ByteStr(_)) => true,
        (Lit::Float(w), SpecAttrLit::Float(t)) => crate::parse::spec_valid_float_text(t),
        _ => false,
    }
}

/// Converting a representable native literal yields its natural value.
pub proof fn lemma_convert_natural(k: Lit, lit: SpecAttrLit)
    requires
        literal_of_kind(k, lit),
    ensures
        spec_convert(SpecTy::Literal(k), lit) == Ok::<SpecValue, crate::expand::SpecConvFail>(
            natural_value(k, lit),
        ),
{
    match (k, lit) {
        (Lit::Int(w), SpecAttrLit::Int(u)) => {
            let m = crate::parse::spec_int_modulus(w);
            assert(spec_int_max(w) < m);
            assert(0 <= (u as int) && (u as int) < m);
            assert((u as int) % m == u as int) by {
                vstd::arithmetic::div_mod::lemma_small_mod(u as nat, m as nat);
            }
            if crate::parse::spec_is_signed(w) {
                assert(spec_int_max(w) < m / 2);
            }
            assert(spec_cast_int(u, w) == u as int);
        },
        _ => {},
    }
}

/// The state after processing a single annotation.
pub proof fn lemma_process_one(
    strukt: SpecStruct,
    config: SpecConfig,
    init: SpecConvState,
    a: SpecAttribute,
)
    ensures
        spec_process_attrs(strukt, config, init, seq![a]) == crate::expand::spec_process_attr(
            strukt,
            config,
            init,
            a,
        ),
{
    assert(spec_process_attrs(strukt, config, init, Seq::<SpecAttribute>::empty()) == init);
    assert(seq![a].drop_last() =~= Seq::<SpecAttribute>::empty());
    assert(seq![a].last() == a);
}

/// The state after processing two annotations, in order.
pub proof fn lemma_process_two(
    strukt: SpecStruct,
    config: SpecConfig,
    init: SpecConvState,
    a1: SpecAttribute,
    a2: SpecAttribute,
)
    ensures
        spec_process_attrs(strukt, config, init, seq![a1, a2])
            == crate::expand::spec_process_attr(
            strukt,
            config,
            crate::expand::spec_process_attr(strukt, config, init, a1),
            a2,
        ),
{
    assert(seq![a1, a2].drop_last() =~= seq![a1]);
    assert(seq![a1, a2].last() == a2);
    lemma_process_one(strukt, config, init, a1);
}

/// The setup of a single-field record: one slot, and the field's own
/// setup errors.
pub proof fn lemma_setup_one(f: SpecField, rec: Seq<char>, scope: Option<Seq<char>>)
    ensures
        spec_setup_fields(seq![f], rec, scope).0 =~= seq![spec_setup_slot(f, rec, scope).0],
        spec_setup_fields(seq![f], rec, scope).1 =~= spec_setup_slot(f, rec, scope).1,
        spec_setup_splits(Seq::<SpecSplitFields>::empty(), rec, scope).0 =~= Seq::<
            Seq<SpecSlot>,
        >::empty(),
        spec_setup_splits(Seq::<SpecSplitFields>::empty(), rec, scope).1 =~= Seq::<
            SpecConvertError,
        >::empty(),
{
    assert(seq![f].drop_last() =~= Seq::<SpecField>::empty());
    assert(seq![f].last() == f);
    assert(spec_setup_fields(Seq::<SpecField>::empty(), rec, scope).0 =~= Seq::<
        SpecSlot,
    >::empty());
    assert((Seq::<SpecSlot>::empty() + Seq::<SpecSlot>::empty()) =~= Seq::<SpecSlot>::empty());
}

/// Round-trip literal fidelity: on an optional field of any literal kind,
/// a representable native literal converts to exactly its natural value.
pub proof fn lemma_literal_fidelity(
    rec: Seq<char>,
    ident: Seq<char>,
    attribute: Seq<char>,
    k: Lit,
    lit: SpecAttrLit,
)
    requires
        literal_of_kind(k, lit),
    ensures
        ({
            let f = law_field(
                ident,
                attribute,
                SpecWrapper::Optional(SpecTy::Literal(k)),
                SpecDefaulted::Nope,
                None,
            );
            spec_expand(law_struct1(rec, f), law_config(), seq![nv_attr(attribute, lit)])
                == Ok::<SpecRecord, Seq<SpecConvertError>>(
                SpecRecord {
                    ident: rec,
                    fields: seq![
                        SpecRecordField {
                            ident,
                            value: SpecSlot::Opt(Some(natural_value(k, lit))),
                        },
                    ],
                },
            )
        }),
{
    let f = law_field(
        ident,
        attribute,
        SpecWrapper::Optional(SpecTy::Literal(k)),
        SpecDefaulted::Nope,
        None,
    );
    let strukt = law_struct1(rec, f);
    let config = law_config();
    let attrs = seq![nv_attr(attribute, lit)];
    lemma_setup_one(f, rec, config.scope);
    let init = SpecConvState {
        fields: seq![SpecSlot::Opt(None)],
        splits: Seq::empty(),
        errors: Seq::empty(),
    };
    assert(spec_setup_fields(strukt.fields, rec, config.scope).0 == init.fields);
    assert((spec_setup_fields(strukt.fields, rec, config.scope).1 + spec_setup_splits(
        strukt.split_fields,
        rec,
        config.scope,
    ).1) =~= Seq::<SpecConvertError>::empty());
    lemma_process_one(strukt, config, init, nv_attr(attribute, lit));
    let item = SpecMeta::NameValue(attribute, lit);
    assert(crate::expand::spec_field_hits(f, item));
    assert(crate::expand::spec_find_field_arm(strukt.fields, item, 0) == Some(0int));
    lemma_convert_natural(k, lit);
    let fin = spec_final_state(strukt, config, attrs);
    assert(fin.fields =~= seq![SpecSlot::Opt(Some(natural_value(k, lit)))]);
    assert(fin.errors.len() == 0);
    let r = spec_expand(strukt, config, attrs);
    assert(crate::expand::spec_docs_record_part(strukt, attrs) =~= Seq::<
        SpecRecordField,
    >::empty());
    assert(crate::expand::spec_split_record_fields(strukt.split_fields, fin.splits) =~= Seq::<
        SpecRecordField,
    >::empty());
    assert(r->Ok_0.fields =~= seq![
        SpecRecordField { ident, value: SpecSlot::Opt(Some(natural_value(k, lit))) },
    ]);
}

/// String-parse fallback: a string annotation whose text parses to the
/// same value as a native literal yields exactly the same conversion as
/// the native-literal form, on every supported kind.
pub proof fn lemma_string_parse_fallback(
    rec: Seq<char>,
    ident: Seq<char>,
    attribute: Seq<char>,
    k: Lit,
    s: Seq<char>,
    lit: SpecAttrLit,
    v: SpecValue,
)
    requires
        spec_parse_str_value(SpecTy::Literal(k), s) == Ok::<SpecValue, crate::expand::ParseCause>(
            v,
        ),
        spec_convert(SpecTy::Literal(k), lit) == Ok::<SpecValue, crate::expand::SpecConvFail>(v),
    ensures
        ({
            let f = law_field(
                ident,
                attribute,
                SpecWrapper::Optional(SpecTy::Literal(k)),
                SpecDefaulted::Nope,
                None,
            );
            spec_expand(
                law_struct1(rec, f),
                law_config(),
                seq![nv_attr(attribute, SpecAttrLit::Str(s))],
            ) == spec_expand(law_struct1(rec, f), law_config(), seq![nv_attr(attribute, lit)])
        }),
{
    let f = law_field(
        ident,
        attribute,
        SpecWrapper::Optional(SpecTy::Literal(k)),
        SpecDefaulted::Nope,
        None,
    );
    let strukt = law_struct1(rec, f);
    let config = law_config();
    lemma_setup_one(f, rec, config.scope);
    let init = SpecConvState {
        fields: seq![SpecSlot::Opt(None)],
        splits: Seq::empty(),
        errors: Seq::empty(),
    };
    assert(spec_setup_fields(strukt.fields, rec, config.scope).0 == init.fields);
    assert((spec_setup_fields(strukt.fields, rec, config.scope).1 + spec_setup_splits(
        strukt.split_fields,
        rec,
        config.scope,
    ).1) =~= Seq::<SpecConvertError>::empty());
    let a_str = nv_attr(attribute, SpecAttrLit::Str(s));
    let a_lit = nv_attr(attribute, lit);
    lemma_process_one(strukt, config, init, a_str);
    lemma_process_one(strukt, config, init, a_lit);
    let item_str = SpecMeta::NameValue(attribute, SpecAttrLit::Str(s));
    let item_lit = SpecMeta::NameValue(attribute, lit);
    assert(crate::expand::spec_find_field_arm(strukt.fields, item_str, 0) == Some(0int));
    assert(crate::expand::spec_find_field_arm(strukt.fields, item_lit, 0) == Some(0int));
    assert(spec_convert(SpecTy::Literal(k), SpecAttrLit::Str(s)) == Ok::<
        SpecValue,
        crate::expand::SpecConvFail,
    >(v));
    let fin1 = spec_final_state(strukt, config, seq![a_str]);
    let fin2 = spec_final_state(strukt, config, seq![a_lit]);
    assert(fin1.fields =~= fin2.fields);
    assert(fin1.splits =~= fin2.splits);
    assert(fin1.errors =~= fin2.errors);
    assert(fin1 == fin2);
}

/// The setup of a field list, element by element: one slot per field, and
/// no setup errors when no field's own setup fails.
pub proof fn lemma_setup_fields_props(
    fields: Seq<SpecField>,
    rec: Seq<char>,
    scope: Option<Seq<char>>,
)
    ensures
        spec_setup_fields(fields, rec, scope).0.len() == fields.len(),
        forall|i: int|
            0 <= i < fields.len() ==> spec_setup_fields(fields, rec, scope).0[i]
                == spec_setup_slot(fields[i], rec, scope).0,
        (forall|i: int|
            0 <= i < fields.len() ==> spec_setup_slot(fields[i], rec, scope).1.len() == 0)
            ==> spec_setup_fields(fields, rec, scope).1.len() == 0,
    decreases fields.len(),
{
    if fields.len() > 0 {
        lemma_setup_fields_props(fields.drop_last(), rec, scope);
        assert(forall|i: int|
            0 <= i < fields.len() - 1 ==> fields.drop_last()[i] == fields[i]);
    }
}

/// Wrapper semantics: with no annotations at all, an optional field stays
/// absent, a repeated field stays empty, and a plain field holds its
/// default — `false` for a bare boolean without one.
pub proof fn lemma_wrapper_defaults(strukt: SpecStruct, config: SpecConfig)
    requires
        strukt.docs is None,
        strukt.split_fields.len() == 0,
        forall|i: int|
            0 <= i < strukt.fields.len() ==> #[trigger] spec_setup_slot(
                strukt.fields[i],
                strukt.ident,
                config.scope,
            ).1.len() == 0,
    ensures
        spec_expand(strukt, config, Seq::empty()) is Ok,
        spec_expand(strukt, config, Seq::empty())->Ok_0.fields.len() == strukt.fields.len(),
        forall|i: int|
            0 <= i < strukt.fields.len() ==> #[trigger] spec_expand(
                strukt,
                config,
                Seq::empty(),
            )->Ok_0.fields[i] == (SpecRecordField {
                ident: strukt.fields[i].ident,
                value: spec_setup_slot(strukt.fields[i], strukt.ident, config.scope).0,
            }),
        forall|i: int|
            0 <= i < strukt.fields.len() && strukt.fields[i].ty is Optional
                ==> #[trigger] spec_expand(strukt, config, Seq::empty())->Ok_0.fields[i].value
                == SpecSlot::Opt(None),
        forall|i: int|
            0 <= i < strukt.fields.len() && strukt.fields[i].ty is Repeated
                ==> #[trigger] spec_expand(strukt, config, Seq::empty())->Ok_0.fields[i].value
                == SpecSlot::Many(Seq::empty()),
        forall|i: int|
            0 <= i < strukt.fields.len() && strukt.fields[i].ty == SpecWrapper::Plain(
                SpecTy::Literal(Lit::Bool),
            ) && !(strukt.fields[i].default is To) ==> #[trigger] spec_expand(
                strukt,
                config,
                Seq::empty(),
            )->Ok_0.fields[i].value == SpecSlot::Single(SpecValue::Bool(false)),
{
    lemma_setup_fields_props(strukt.fields, strukt.ident, config.scope);
    assert(spec_setup_splits(strukt.split_fields, strukt.ident, config.scope).0 =~= Seq::<
        Seq<SpecSlot>,
    >::empty());
    assert(spec_setup_splits(strukt.split_fields, strukt.ident, config.scope).1 =~= Seq::<
        SpecConvertError,
    >::empty());
    let fin = spec_final_state(strukt, config, Seq::empty());
    assert(fin.errors =~= Seq::<SpecConvertError>::empty());
    let r = spec_expand(strukt, config, Seq::empty());
    assert(crate::expand::spec_docs_record_part(strukt, Seq::empty()) =~= Seq::<
        SpecRecordField,
    >::empty());
    assert(crate::expand::spec_split_record_fields(strukt.split_fields, fin.splits) =~= Seq::<
        SpecRecordField,
    >::empty());
    assert(r->Ok_0.fields =~= crate::expand::spec_ord_record_part(strukt.fields, fin.fields));
}

/// Repeated fields accumulate: two occurrences of the same attribute, in
/// order, append both converted values in that order.
pub proof fn lemma_repeated_accumulates(
    rec: Seq<char>,
    ident: Seq<char>,
    attribute: Seq<char>,
    ty: SpecTy,
    l1: SpecAttrLit,
    l2: SpecAttrLit,
    v1: SpecValue,
    v2: SpecValue,
)
    requires
        spec_convert(ty, l1) == Ok::<SpecValue, crate::expand::SpecConvFail>(v1),
        spec_convert(ty, l2) == Ok::<SpecValue, crate::expand::SpecConvFail>(v2),
    ensures
        ({
            let f = law_field(
                ident,
                attribute,
                SpecWrapper::Repeated(ty),
                SpecDefaulted::Nope,
                None,
            );
            spec_expand(
                law_struct1(rec, f),
                law_config(),
                seq![nv_attr(attribute, l1), nv_attr(attribute, l2)],
            ) == Ok::<SpecRecord, Seq<SpecConvertError>>(
                SpecRecord {
                    ident: rec,
                    fields: seq![
                        SpecRecordField { ident, value: SpecSlot::Many(seq![v1, v2]) },
                    ],
                },
            )
        }),
{
    let f = law_field(ident, attribute, SpecWrapper::Repeated(ty), SpecDefaulted::Nope, None);
    let strukt = law_struct1(rec, f);
    let config = law_config();
    let attrs = seq![nv_attr(attribute, l1), nv_attr(attribute, l2)];
    lemma_setup_one(f, rec, config.scope);
    let init = SpecConvState {
        fields: seq![SpecSlot::Many(Seq::empty())],
        splits: Seq::empty(),
        errors: Seq::empty(),
    };
    assert(spec_setup_fields(strukt.fields, rec, config.scope).0 == init.fields);
    assert((spec_setup_fields(strukt.fields, rec, config.scope).1 + spec_setup_splits(
        strukt.split_fields,
        rec,
        config.scope,
    ).1) =~= Seq::<SpecConvertError>::empty());
    lemma_process_two(strukt, config, init, nv_attr(attribute, l1), nv_attr(attribute, l2));
    let item1 = SpecMeta::NameValue(attribute, l1);
    let item2 = SpecMeta::NameValue(attribute, l2);
    assert(crate::expand::spec_find_field_arm(strukt.fields, item1, 0) == Some(0int));
    assert(crate::expand::spec_find_field_arm(strukt.fields, item2, 0) == Some(0int));
    let fin = spec_final_state(strukt, config, attrs);
    assert(fin.fields[0] == SpecSlot::Many(Seq::<SpecValue>::empty().push(v1).push(v2)));
    assert(Seq::<SpecValue>::empty().push(v1).push(v2) =~= seq![v1, v2]);
    assert(fin.fields =~= seq![SpecSlot::Many(seq![v1, v2])]);
    assert(fin.errors.len() == 0);
    let r = spec_expand(strukt, config, attrs);
    assert(crate::expand::spec_docs_record_part(strukt, attrs) =~= Seq::<SpecRecordField>::empty());
    assert(crate::expand::spec_split_record_fields(strukt.split_fields, fin.splits) =~= Seq::<
        SpecRecordField,
    >::empty());
    assert(r->Ok_0.fields =~= seq![
        SpecRecordField { ident, value: SpecSlot::Many(seq![v1, v2]) },
    ]);
}

/// Flag semantics, first half: a bare word on a boolean field without a
/// configured flag value yields `true`.
pub proof fn lemma_flag_word_default_true(rec: Seq<char>, ident: Seq<char>, attribute: Seq<char>)
    ensures
        ({
            let f = law_field(
                ident,
                attribute,
                SpecWrapper::Optional(SpecTy::Literal(Lit::Bool)),
                SpecDefaulted::Nope,
                None,
            );
            spec_expand(law_struct1(rec, f), law_config(), seq![word_attr(attribute)]) == Ok::<
                SpecRecord,
                Seq<SpecConvertError>,
            >(
                SpecRecord {
                    ident: rec,
                    fields: seq![
                        SpecRecordField {
                            ident,
                            value: SpecSlot::Opt(Some(SpecValue::Bool(true))),
                        },
                    ],
                },
            )
        }),
{
    let f = law_field(
        ident,
        attribute,
        SpecWrapper::Optional(SpecTy::Literal(Lit::Bool)),
        SpecDefaulted::Nope,
        None,
    );
    let strukt = law_struct1(rec, f);
    let config = law_config();
    let attrs = seq![word_attr(attribute)];
    lemma_setup_one(f, rec, config.scope);
    let init = SpecConvState {
        fields: seq![SpecSlot::Opt(None)],
        splits: Seq::empty(),
        errors: Seq::empty(),
    };
    assert(spec_setup_fields(strukt.fields, rec, config.scope).0 == init.fields);
    assert((spec_setup_fields(strukt.fields, rec, config.scope).1 + spec_setup_splits(
        strukt.split_fields,
        rec,
        config.scope,
    ).1) =~= Seq::<SpecConvertError>::empty());
    lemma_process_one(strukt, config, init, word_attr(attribute));
    let item = SpecMeta::Word(attribute);
    assert(crate::expand::spec_word_matches(f));
    assert(crate::expand::spec_find_field_arm(strukt.fields, item, 0) == Some(0int));
    let fin = spec_final_state(strukt, config, attrs);
    assert(fin.fields =~= seq![SpecSlot::Opt(Some(SpecValue::Bool(true)))]);
    assert(fin.errors.len() == 0);
    let r = spec_expand(strukt, config, attrs);
    assert(crate::expand::spec_docs_record_part(strukt, attrs) =~= Seq::<SpecRecordField>::empty());
    assert(crate::expand::spec_split_record_fields(strukt.split_fields, fin.splits) =~= Seq::<
        SpecRecordField,
    >::empty());
    assert(r->Ok_0.fields =~= seq![
        SpecRecordField { ident, value: SpecSlot::Opt(Some(SpecValue::Bool(true))) },
    ]);
}

/// Flag semantics: with a flag value configured on a boolean field, the
/// bare word yields exactly the configured value — `false` when the flag
/// value reads `false`.
pub proof fn lemma_flag_word_value(
    rec: Seq<char>,
    ident: Seq<char>,
    attribute: Seq<char>,
    s: Seq<char>,
    b: bool,
)
    requires
        spec_parse_bool(s) == Some(b),
    ensures
        ({
            let f = law_field(
                ident,
                attribute,
                SpecWrapper::Optional(SpecTy::Literal(Lit::Bool)),
                SpecDefaulted::Nope,
                Some(s),
            );
            spec_expand(law_struct1(rec, f), law_config(), seq![word_attr(attribute)]) == Ok::<
                SpecRecord,
                Seq<SpecConvertError>,
            >(
                SpecRecord {
                    ident: rec,
                    fields: seq![
                        SpecRecordField { ident, value: SpecSlot::Opt(Some(SpecValue::Bool(b))) },
                    ],
                },
            )
        }),
{
    let f = law_field(
        ident,
        attribute,
        SpecWrapper::Optional(SpecTy::Literal(Lit::Bool)),
        SpecDefaulted::Nope,
        Some(s),
    );
    let strukt = law_struct1(rec, f);
    let config = law_config();
    let attrs = seq![word_attr(attribute)];
    lemma_setup_one(f, rec, config.scope);
    let init = SpecConvState {
        fields: seq![SpecSlot::Opt(None)],
        splits: Seq::empty(),
        errors: Seq::empty(),
    };
    assert(spec_setup_fields(strukt.fields, rec, config.scope).0 == init.fields);
    assert((spec_setup_fields(strukt.fields, rec, config.scope).1 + spec_setup_splits(
        strukt.split_fields,
        rec,
        config.scope,
    ).1) =~= Seq::<SpecConvertError>::empty());
    lemma_process_one(strukt, config, init, word_attr(attribute));
    let item = SpecMeta::Word(attribute);
    assert(crate::expand::spec_word_matches(f));
    assert(crate::expand::spec_find_field_arm(strukt.fields, item, 0) == Some(0int));
    assert(crate::expand::spec_flag_value(f) == Ok::<SpecValue, crate::expand::SpecConvFail>(
        SpecValue::Bool(b),
    ));
    let fin = spec_final_state(strukt, config, attrs);
    assert(fin.fields =~= seq![SpecSlot::Opt(Some(SpecValue::Bool(b)))]);
    assert(fin.errors.len() == 0);
    let r = spec_expand(strukt, config, attrs);
    assert(crate::expand::spec_docs_record_part(strukt, attrs) =~= Seq::<SpecRecordField>::empty());
    assert(crate::expand::spec_split_record_fields(strukt.split_fields, fin.splits) =~= Seq::<
        SpecRecordField,
    >::empty());
    assert(r->Ok_0.fields =~= seq![
        SpecRecordField { ident, value: SpecSlot::Opt(Some(SpecValue::Bool(b))) },
    ]);
}

/// Flag semantics, second half, with independence of the default: with an
/// explicit default and a distinct flag value on a plain boolean field,
/// no annotation yields the default and the bare word yields the flag
/// value — the two states are controlled independently.
pub proof fn lemma_flag_and_default_independent(
    rec: Seq<char>,
    ident: Seq<char>,
    attribute: Seq<char>,
    d: Seq<char>,
    s: Seq<char>,
    bd: bool,
    bs: bool,
)
    requires
        spec_parse_bool(d) == Some(bd),
        spec_parse_bool(s) == Some(bs),
    ensures
        ({
            let f = law_field(
                ident,
                attribute,
                SpecWrapper::Plain(SpecTy::Literal(Lit::Bool)),
                SpecDefaulted::To(d),
                Some(s),
            );
            &&& spec_expand(law_struct1(rec, f), law_config(), Seq::empty()) == Ok::<
                SpecRecord,
                Seq<SpecConvertError>,
            >(
                SpecRecord {
                    ident: rec,
                    fields: seq![
                        SpecRecordField { ident, value: SpecSlot::Single(SpecValue::Bool(bd)) },
                    ],
                },
            )
            &&& spec_expand(law_struct1(rec, f), law_config(), seq![word_attr(attribute)])
                == Ok::<SpecRecord, Seq<SpecConvertError>>(
                SpecRecord {
                    ident: rec,
                    fields: seq![
                        SpecRecordField { ident, value: SpecSlot::Single(SpecValue::Bool(bs)) },
                    ],
                },
            )
        }),
{
    let f = law_field(
        ident,
        attribute,
        SpecWrapper::Plain(SpecTy::Literal(Lit::Bool)),
        SpecDefaulted::To(d),
        Some(s),
    );
    let strukt = law_struct1(rec, f);
    let config = law_config();
    lemma_setup_one(f, rec, config.scope);
    assert(spec_setup_slot(f, rec, config.scope).0 == SpecSlot::Single(SpecValue::Bool(bd)));
    let init = SpecConvState {
        fields: seq![SpecSlot::Single(SpecValue::Bool(bd))],
        splits: Seq::empty(),
        errors: Seq::empty(),
    };
    assert(spec_setup_fields(strukt.fields, rec, config.scope).0 == init.fields);
    assert((spec_setup_fields(strukt.fields, rec, config.scope).1 + spec_setup_splits(
        strukt.split_fields,
        rec,
        config.scope,
    ).1) =~= Seq::<SpecConvertError>::empty());
    // No annotation: the default stands.
    let fin0 = spec_final_state(strukt, config, Seq::empty());
    assert(fin0.fields =~= seq![SpecSlot::Single(SpecValue::Bool(bd))]);
    assert(fin0.errors.len() == 0);
    let r0 = spec_expand(strukt, config, Seq::empty());
    assert(crate::expand::spec_docs_record_part(strukt, Seq::empty()) =~= Seq::<
        SpecRecordField,
    >::empty());
    assert(crate::expand::spec_split_record_fields(strukt.split_fields, fin0.splits) =~= Seq::<
        SpecRecordField,
    >::empty());
    assert(r0->Ok_0.fields =~= seq![
        SpecRecordField { ident, value: SpecSlot::Single(SpecValue::Bool(bd)) },
    ]);
    // The bare word: the flag value overrides.
    let attrs = seq![word_attr(attribute)];
    lemma_process_one(strukt, config, init, word_attr(attribute));
    let item = SpecMeta::Word(attribute);
    assert(crate::expand::spec_word_matches(f));
    assert(crate::expand::spec_find_field_arm(strukt.fields, item, 0) == Some(0int));
    assert(crate::expand::spec_flag_value(f) == Ok::<SpecValue, crate::expand::SpecConvFail>(
        SpecValue::Bool(bs),
    ));
    let fin1 = spec_final_state(strukt, config, attrs);
    assert(fin1.fields =~= seq![SpecSlot::Single(SpecValue::Bool(bs))]);
    assert(fin1.errors.len() == 0);
    let r1 = spec_expand(strukt, config, attrs);
    assert(crate::expand::spec_docs_record_part(strukt, attrs) =~= Seq::<SpecRecordField>::empty());
    assert(crate::expand::spec_split_record_fields(strukt.split_fields, fin1.splits) =~= Seq::<
        SpecRecordField,
    >::empty());
    assert(r1->Ok_0.fields =~= seq![
        SpecRecordField { ident, value: SpecSlot::Single(SpecValue::Bool(bs)) },
    ]);
}

/// Scoping: with a scope configured, an annotation list in which no entry
/// is a list named exactly the scope leaves the conversion state exactly
/// where setup left it — every such entry is invisible.
pub proof fn lemma_scope_hides_unscoped(
    strukt: SpecStruct,
    docs: Option<Seq<char>>,
    sc: Seq<char>,
    attrs: Seq<SpecAttribute>,
)
    requires
        forall|i: int|
            0 <= i < attrs.len() ==> ((#[trigger] attrs[i].value) is List ==> attrs[i].value->List_0
                != sc),
    ensures
        spec_final_state(strukt, SpecConfig { scope: Some(sc), docs }, attrs) == spec_final_state(
            strukt,
            SpecConfig { scope: Some(sc), docs },
            Seq::empty(),
        ),
{
    let config = SpecConfig { scope: Some(sc), docs };
    let (fslots, ferrs) = spec_setup_fields(strukt.fields, strukt.ident, config.scope);
    let (sslots, serrs) = spec_setup_splits(strukt.split_fields, strukt.ident, config.scope);
    let init = SpecConvState { fields: fslots, splits: sslots, errors: ferrs + serrs };
    lemma_scoped_no_hit(strukt, config, init, sc, attrs);
}

/// Under a scope, processing any list of entries none of which is a list
/// named the scope changes nothing.
proof fn lemma_scoped_no_hit(
    strukt: SpecStruct,
    config: SpecConfig,
    init: SpecConvState,
    sc: Seq<char>,
    attrs: Seq<SpecAttribute>,
)
    requires
        config.scope == Some(sc),
        forall|i: int|
            0 <= i < attrs.len() ==> ((#[trigger] attrs[i].value) is List ==> attrs[i].value->List_0
                != sc),
    ensures
        spec_process_attrs(strukt, config, init, attrs) == init,
    decreases attrs.len(),
{
    if attrs.len() > 0 {
        assert(forall|i: int|
            0 <= i < attrs.len() - 1 ==> attrs.drop_last()[i] == attrs[i]);
        lemma_scoped_no_hit(strukt, config, init, sc, attrs.drop_last());
    }
}

/// Split grouping, single-value form: one parent-named value is converted
/// once and written to every child of the group.
pub proof fn lemma_split_broadcast(
    rec: Seq<char>,
    g: SpecSplitFields,
    lit: SpecAttrLit,
    v: SpecValue,
)
    requires
        spec_convert(crate::classify::spec_wrapper_inner(g.ty), lit) == Ok::<
            SpecValue,
            crate::expand::SpecConvFail,
        >(v),
        forall|j: int|
            0 <= j < g.fields.len() ==> #[trigger] spec_setup_slot(g.fields[j], rec, None).1.len()
                == 0,
    ensures
        ({
            let strukt = SpecStruct {
                ident: rec,
                lifetime: None,
                docs: None,
                fields: Seq::empty(),
                split_fields: seq![g],
            };
            let r = spec_expand(strukt, law_config(), seq![nv_attr(g.parent, lit)]);
            &&& r is Ok
            &&& r->Ok_0.fields.len() == g.fields.len()
            &&& forall|j: int|
                0 <= j < g.fields.len() ==> #[trigger] r->Ok_0.fields[j] == (SpecRecordField {
                    ident: g.fields[j].ident,
                    value: spec_write(spec_setup_slot(g.fields[j], rec, None).0, v),
                })
        }),
{
    let strukt = SpecStruct {
        ident: rec,
        lifetime: None,
        docs: None,
        fields: Seq::empty(),
        split_fields: seq![g],
    };
    let config = law_config();
    let attrs = seq![nv_attr(g.parent, lit)];
    lemma_setup_fields_props(g.fields, rec, config.scope);
    assert(spec_setup_fields(Seq::<SpecField>::empty(), rec, config.scope).0 =~= Seq::<
        SpecSlot,
    >::empty());
    assert(seq![g].drop_last() =~= Seq::<SpecSplitFields>::empty());
    assert(spec_setup_splits(Seq::<SpecSplitFields>::empty(), rec, config.scope).0 =~= Seq::<
        Seq<SpecSlot>,
    >::empty());
    let gslots = spec_setup_fields(g.fields, rec, config.scope).0;
    assert(spec_setup_splits(seq![g], rec, config.scope).0 =~= seq![gslots]);
    assert(spec_setup_splits(seq![g], rec, config.scope).1 =~= spec_setup_fields(
        g.fields,
        rec,
        config.scope,
    ).1);
    let init = SpecConvState {
        fields: Seq::empty(),
        splits: seq![gslots],
        errors: Seq::empty(),
    };
    assert(spec_setup_fields(strukt.fields, rec, config.scope).0 =~= init.fields);
    assert((spec_setup_fields(strukt.fields, rec, config.scope).1 + spec_setup_splits(
        strukt.split_fields,
        rec,
        config.scope,
    ).1) =~= Seq::<SpecConvertError>::empty());
    lemma_process_one(strukt, config, init, nv_attr(g.parent, lit));
    let item = SpecMeta::NameValue(g.parent, lit);
    assert(crate::expand::spec_find_field_arm(strukt.fields, item, 0) is None);
    assert(crate::expand::spec_split_hits(g, item));
    assert(crate::expand::spec_find_split_arm(strukt.split_fields, item, 0) == Some(0int));
    let written = Seq::new(gslots.len(), |j: int| spec_write(gslots[j], v));
    let fin = spec_final_state(strukt, config, attrs);
    assert(fin.splits =~= seq![written]);
    assert(fin.errors.len() == 0);
    let r = spec_expand(strukt, config, attrs);
    assert(crate::expand::spec_docs_record_part(strukt, attrs) =~= Seq::<SpecRecordField>::empty());
    assert(crate::expand::spec_ord_record_part(strukt.fields, fin.fields) =~= Seq::<
        SpecRecordField,
    >::empty());
    assert(seq![written].drop_last() =~= Seq::<Seq<SpecSlot>>::empty());
    assert(crate::expand::spec_split_record_fields(
        Seq::<SpecSplitFields>::empty(),
        Seq::<Seq<SpecSlot>>::empty(),
    ) =~= Seq::<SpecRecordField>::empty());
    assert(crate::expand::spec_split_record_fields(seq![g], seq![written]) =~= Seq::new(
        g.fields.len(),
        |j: int| SpecRecordField { ident: g.fields[j].ident, value: written[j] },
    ));
    assert(r->Ok_0.fields =~= Seq::new(
        g.fields.len(),
        |j: int| SpecRecordField { ident: g.fields[j].ident, value: written[j] },
    ));
}

/// Split grouping, nested-list form: a nested `child = value` entry
/// reaches only the first child whose attribute name matches; every other
/// child keeps its initial value.
pub proof fn lemma_split_children_selective(
    rec: Seq<char>,
    g: SpecSplitFields,
    cname: Seq<char>,
    lit: SpecAttrLit,
    v: SpecValue,
    j0: int,
)
    requires
        0 <= j0 < g.fields.len(),
        g.fields[j0].attribute == cname,
        forall|j: int| 0 <= j < j0 ==> (#[trigger] g.fields[j]).attribute != cname,
        spec_convert(
            crate::classify::spec_wrapper_inner(g.fields[j0].ty),
            lit,
        ) == Ok::<SpecValue, crate::expand::SpecConvFail>(v),
        forall|j: int|
            0 <= j < g.fields.len() ==> #[trigger] spec_setup_slot(g.fields[j], rec, None).1.len()
                == 0,
    ensures
        ({
            let strukt = SpecStruct {
                ident: rec,
                lifetime: None,
                docs: None,
                fields: Seq::empty(),
                split_fields: seq![g],
            };
            let a = SpecAttribute {
                is_sugared_doc: false,
                value: SpecMeta::List(g.parent, seq![SpecMeta::NameValue(cname, lit)]),
            };
            let r = spec_expand(strukt, law_config(), seq![a]);
            &&& r is Ok
            &&& r->Ok_0.fields.len() == g.fields.len()
            &&& r->Ok_0.fields[j0] == (SpecRecordField {
                ident: g.fields[j0].ident,
                value: spec_write(spec_setup_slot(g.fields[j0], rec, None).0, v),
            })
            &&& forall|j: int|
                0 <= j < g.fields.len() && j != j0 ==> #[trigger] r->Ok_0.fields[j]
                    == (SpecRecordField {
                    ident: g.fields[j].ident,
                    value: spec_setup_slot(g.fields[j], rec, None).0,
                })
        }),
{
    let strukt = SpecStruct {
        ident: rec,
        lifetime: None,
        docs: None,
        fields: Seq::empty(),
        split_fields: seq![g],
    };
    let config = law_config();
    let inner_item = SpecMeta::NameValue(cname, lit);
    let a = SpecAttribute {
        is_sugared_doc: false,
        value: SpecMeta::List(g.parent, seq![inner_item]),
    };
    let attrs = seq![a];
    lemma_setup_fields_props(g.fields, rec, config.scope);
    assert(spec_setup_fields(Seq::<SpecField>::empty(), rec, config.scope).0 =~= Seq::<
        SpecSlot,
    >::empty());
    assert(seq![g].drop_last() =~= Seq::<SpecSplitFields>::empty());
    assert(spec_setup_splits(Seq::<SpecSplitFields>::empty(), rec, config.scope).0 =~= Seq::<
        Seq<SpecSlot>,
    >::empty());
    assert(spec_setup_splits(Seq::<SpecSplitFields>::empty(), rec, config.scope).1 =~= Seq::<
        SpecConvertError,
    >::empty());
    let gslots = spec_setup_fields(g.fields, rec, config.scope).0;
    assert(spec_setup_splits(seq![g], rec, config.scope).0 =~= seq![gslots]);
    assert(spec_setup_splits(seq![g], rec, config.scope).1 =~= spec_setup_fields(
        g.fields,
        rec,
        config.scope,
    ).1);
    let init = SpecConvState {
        fields: Seq::empty(),
        splits: seq![gslots],
        errors: Seq::empty(),
    };
    assert(spec_setup_fields(strukt.fields, rec, config.scope).0 =~= init.fields);
    assert((spec_setup_fields(strukt.fields, rec, config.scope).1 + spec_setup_splits(
        strukt.split_fields,
        rec,
        config.scope,
    ).1) =~= Seq::<SpecConvertError>::empty());
    lemma_process_one(strukt, config, init, a);
    let item = a.value;
    assert(crate::expand::spec_find_field_arm(strukt.fields, item, 0) is None);
    assert(crate::expand::spec_split_hits(g, item));
    assert(crate::expand::spec_find_split_arm(strukt.split_fields, item, 0) == Some(0int));
    // Inside the list: the single nested entry hits exactly child `j0`.
    assert(seq![inner_item].drop_last() =~= Seq::<SpecMeta>::empty());
    assert(crate::expand::spec_apply_split_list(
        rec,
        g,
        gslots,
        init.errors,
        Seq::<SpecMeta>::empty(),
        config.scope,
    ) == (gslots, init.errors));
    assert(forall|j: int|
        0 <= j < j0 ==> !crate::expand::spec_field_hits(#[trigger] g.fields[j], inner_item));
    crate::expand::lemma_find_field_arm_prefix(g.fields, inner_item, j0);
    assert(crate::expand::spec_find_field_arm(g.fields, inner_item, j0) == Some(j0));
    let written = gslots.update(j0, spec_write(gslots[j0], v));
    let fin = spec_final_state(strukt, config, attrs);
    assert(fin.splits =~= seq![written]);
    assert(fin.errors.len() == 0);
    let r = spec_expand(strukt, config, attrs);
    assert(crate::expand::spec_docs_record_part(strukt, attrs) =~= Seq::<SpecRecordField>::empty());
    assert(crate::expand::spec_ord_record_part(strukt.fields, fin.fields) =~= Seq::<
        SpecRecordField,
    >::empty());
    assert(seq![written].drop_last() =~= Seq::<Seq<SpecSlot>>::empty());
    assert(crate::expand::spec_split_record_fields(
        Seq::<SpecSplitFields>::empty(),
        Seq::<Seq<SpecSlot>>::empty(),
    ) =~= Seq::<SpecRecordField>::empty());
    assert(crate::expand::spec_split_record_fields(seq![g], seq![written]) =~= Seq::new(
        g.fields.len(),
        |j: int| SpecRecordField { ident: g.fields[j].ident, value: written[j] },
    ));
    assert(r->Ok_0.fields =~= Seq::new(
        g.fields.len(),
        |j: int| SpecRecordField { ident: g.fields[j].ident, value: written[j] },
    ));
}

/// Failure taxonomy: dissection refuses declarations of the wrong shape
/// with exactly the structural error for that shape — an enum, tuple or
/// unit body, a type parameter, or more than one lifetime.
pub proof fn lemma_dissect_shape(
    decl: crate::ast::SpecDeclaration,
    config: SpecConfig,
    resolve: spec_fn(Seq<SpecAttribute>) -> crate::config::SpecFieldConfig,
)
    ensures
        !(decl.body is Fields) ==> crate::dissect::spec_dissect(decl, config, resolve)
            == Err::<SpecStruct, crate::dissect::SpecDissectError>(
            crate::dissect::SpecDissectError::StructBody,
        ),
        decl.body is Fields && decl.ty_params.len() != 0 ==> crate::dissect::spec_dissect(
            decl,
            config,
            resolve,
        ) == Err::<SpecStruct, crate::dissect::SpecDissectError>(
            crate::dissect::SpecDissectError::TyParams { params: decl.ty_params },
        ),
        decl.body is Fields && decl.ty_params.len() == 0 && decl.lifetimes.len() > 1
            ==> crate::dissect::spec_dissect(decl, config, resolve) == Err::<
            SpecStruct,
            crate::dissect::SpecDissectError,
        >(crate::dissect::SpecDissectError::Lifetimes { lifetimes: decl.lifetimes }),
{
}

/// Docs collection keeps declaration order: the documentation lines of a
/// concatenated annotation list are the lines of each part, in order.
pub proof fn lemma_docs_append(a1: Seq<SpecAttribute>, a2: Seq<SpecAttribute>)
    ensures
        spec_docs(a1 + a2) == spec_docs(a1) + spec_docs(a2),
    decreases a2.len(),
{
    if a2.len() == 0 {
        assert(a1 + a2 =~= a1);
        assert(spec_docs(a1) + spec_docs(Seq::<SpecAttribute>::empty()) =~= spec_docs(a1));
    } else {
        assert((a1 + a2).drop_last() =~= a1 + a2.drop_last());
        assert((a1 + a2).last() == a2.last());
        lemma_docs_append(a1, a2.drop_last());
        let rest = spec_docs(a1) + spec_docs(a2.drop_last());
        assert(spec_docs(a2).len() > 0 ==> true);
        match a2.last().value {
            SpecMeta::NameValue(name, SpecAttrLit::Str(s)) => {
                if a2.last().is_sugared_doc {
                    assert(rest.push(crate::expand::spec_trim_doc(s)) =~= spec_docs(a1) + (
                    spec_docs(a2.drop_last()).push(crate::expand::spec_trim_doc(s))));
                } else if name == "doc"@ {
                    assert(rest.push(s) =~= spec_docs(a1) + (spec_docs(a2.drop_last()).push(s)));
                }
            },
            _ => {},
        }
    }
}

/// Error aggregation: two independently invalid string values on two
/// different fields yield exactly the two conversion errors, in
/// annotation order — the scan never stops at the first failure.
pub proof fn lemma_error_aggregation(
    rec: Seq<char>,
    id1: Seq<char>,
    a1: Seq<char>,
    ty1: SpecTy,
    s1: Seq<char>,
    c1: crate::expand::ParseCause,
    id2: Seq<char>,
    a2: Seq<char>,
    ty2: SpecTy,
    s2: Seq<char>,
    c2: crate::expand::ParseCause,
)
    requires
        a1 != a2,
        spec_parse_str_value(ty1, s1) == Err::<SpecValue, crate::expand::ParseCause>(c1),
        spec_parse_str_value(ty2, s2) == Err::<SpecValue, crate::expand::ParseCause>(c2),
    ensures
        ({
            let f1 = law_field(id1, a1, SpecWrapper::Optional(ty1), SpecDefaulted::Nope, None);
            let f2 = law_field(id2, a2, SpecWrapper::Optional(ty2), SpecDefaulted::Nope, None);
            let strukt = SpecStruct {
                ident: rec,
                lifetime: None,
                docs: None,
                fields: seq![f1, f2],
                split_fields: Seq::empty(),
            };
            spec_expand(
                strukt,
                law_config(),
                seq![nv_attr(a1, SpecAttrLit::Str(s1)), nv_attr(a2, SpecAttrLit::Str(s2))],
            ) == Err::<SpecRecord, Seq<SpecConvertError>>(
                seq![
                    SpecConvertError::Parsing {
                        record: rec,
                        value: s1,
                        expected: ty1,
                        scope: None,
                        attr: a1,
                        cause: c1,
                    },
                    SpecConvertError::Parsing {
                        record: rec,
                        value: s2,
                        expected: ty2,
                        scope: None,
                        attr: a2,
                        cause: c2,
                    },
                ],
            )
        }),
{
    let f1 = law_field(id1, a1, SpecWrapper::Optional(ty1), SpecDefaulted::Nope, None);
    let f2 = law_field(id2, a2, SpecWrapper::Optional(ty2), SpecDefaulted::Nope, None);
    let strukt = SpecStruct {
        ident: rec,
        lifetime: None,
        docs: None,
        fields: seq![f1, f2],
        split_fields: Seq::empty(),
    };
    let config = law_config();
    lemma_setup_fields_props(strukt.fields, rec, config.scope);
    assert(forall|i: int|
        0 <= i < strukt.fields.len() ==> #[trigger] spec_setup_slot(
            strukt.fields[i],
            rec,
            config.scope,
        ).1.len() == 0);
    let (fslots, ferrs) = spec_setup_fields(strukt.fields, rec, config.scope);
    assert(ferrs.len() == 0);
    assert(fslots =~= seq![SpecSlot::Opt(None), SpecSlot::Opt(None)]);
    assert(spec_setup_splits(strukt.split_fields, rec, config.scope).1 =~= Seq::<
        SpecConvertError,
    >::empty());
    let init = SpecConvState {
        fields: seq![SpecSlot::Opt(None), SpecSlot::Opt(None)],
        splits: Seq::empty(),
        errors: Seq::empty(),
    };
    assert((ferrs + spec_setup_splits(strukt.split_fields, rec, config.scope).1) =~= Seq::<
        SpecConvertError,
    >::empty());
    let at1 = nv_attr(a1, SpecAttrLit::Str(s1));
    let at2 = nv_attr(a2, SpecAttrLit::Str(s2));
    lemma_process_two(strukt, config, init, at1, at2);
    let item1 = SpecMeta::NameValue(a1, SpecAttrLit::Str(s1));
    let item2 = SpecMeta::NameValue(a2, SpecAttrLit::Str(s2));
    assert(crate::expand::spec_field_hits(f1, item1));
    assert(crate::expand::spec_find_field_arm(strukt.fields, item1, 0) == Some(0int));
    assert(!crate::expand::spec_field_hits(f1, item2));
    assert(crate::expand::spec_find_field_arm(strukt.fields, item2, 1) == Some(1int));
    assert(crate::expand::spec_find_field_arm(strukt.fields, item2, 0) == Some(1int));
    let e1 = SpecConvertError::Parsing {
        record: rec,
        value: s1,
        expected: ty1,
        scope: None,
        attr: a1,
        cause: c1,
    };
    let e2 = SpecConvertError::Parsing {
        record: rec,
        value: s2,
        expected: ty2,
        scope: None,
        attr: a2,
        cause: c2,
    };
    let fin = spec_final_state(
        strukt,
        config,
        seq![at1, at2],
    );
    assert(Seq::<SpecConvertError>::empty().push(e1).push(e2) =~= seq![e1, e2]);
    assert(fin.errors =~= seq![e1, e2]);
    assert(fin.errors.len() == 2);
}

} // verus!