//! The conversion itself: what the synthesized logic does. Given a
//! dissected record and an annotation list, set up every field's initial
//! value, scan the annotations against the field and split-group arms,
//! collect documentation text, and assemble the record — accumulating
//! every conversion error instead of stopping at the first.

use vstd::prelude::*;

use crate::ast::{
    clone_attr_lit, str_eq, AttrLit, Attribute, Meta, SpecAttrLit, SpecAttribute, SpecMeta,
    view_attrs,
};
use crate::classify::{
    clone_ty, spec_wrapper_inner, FloatTy, IntTy, Lit, SpecTy, SpecWrapper, Ty, Wrapper,
};
use crate::config::{Config, SpecConfig, SpecDefaulted};
use crate::dissect::{Field, SpecField, SpecSplitFields, SpecStruct, SplitFields, Struct};
use crate::parse::{
    cast_int, check_float_text, parse_bool_text, parse_byte_str_text, parse_char_text,
    parse_int_text, spec_cast_int, spec_parse_bool, spec_parse_byte_str, spec_parse_char,
    spec_parse_int, spec_valid_float_text,
};

verus! {

/// A converted value, as typed as the model allows: floating-point and
/// custom values are carried as text for the host to materialize.
#[derive(Debug, PartialEq, Eq)]
pub enum Value {
    Bool(bool),
    Char(char),
    /// An integer of the given kind; the payload always lies within the
    /// kind's range.
    Int(IntTy, i128),
    Str(String),
    ByteStr(Vec<u8>),
    /// Floating-point text that the kind's parser accepts.
    Float(FloatTy, String),
    /// The raw text of a custom-typed value, parsed by the host.
    Custom(String),
}

/// Mathematical model of a [`Value`].
pub enum SpecValue {
    Bool(bool),
    Char(char),
    Int(IntTy, int),
    Str(Seq<char>),
    ByteStr(Seq<u8>),
    Float(FloatTy, Seq<char>),
    Custom(Seq<char>),
}

impl View for Value {
    type V = SpecValue;

    open spec fn view(&self) -> SpecValue {
        match self {
            Value::Bool(b) => SpecValue::Bool(*b),
            Value::Char(c) => SpecValue::Char(*c),
            Value::Int(w, v) => SpecValue::Int(*w, *v as int),
            Value::Str(s) => SpecValue::Str(s@),
            Value::ByteStr(b) => SpecValue::ByteStr(b@),
            Value::Float(w, s) => SpecValue::Float(*w, s@),
            Value::Custom(s) => SpecValue::Custom(s@),
        }
    }
}

/// The view of a value list.
pub open spec fn view_values(s: Seq<Value>) -> Seq<SpecValue> {
    Seq::new(s.len(), |i: int| s[i]@)
}

/// One field's working state: a single value, an optional value, or a
/// growing list, matching the field's wrapper.
#[derive(Debug, PartialEq, Eq)]
pub enum Slot {
    Single(Value),
    Opt(Option<Value>),
    Many(Vec<Value>),
}

/// Mathematical model of a [`Slot`].
pub enum SpecSlot {
    Single(SpecValue),
    Opt(Option<SpecValue>),
    Many(Seq<SpecValue>),
}

impl View for Slot {
    type V = SpecSlot;

    open spec fn view(&self) -> SpecSlot {
        match self {
            Slot::Single(v) => SpecSlot::Single(v@),
            Slot::Opt(o) => SpecSlot::Opt(
                match o {
                    Some(v) => Some(v@),
                    None => None,
                },
            ),
            Slot::Many(vs) => SpecSlot::Many(view_values(vs@)),
        }
    }
}

/// The view of a slot list.
pub open spec fn view_slots(s: Seq<Slot>) -> Seq<SpecSlot> {
    Seq::new(s.len(), |i: int| s[i]@)
}

/// One assembled record field.
#[derive(Debug, PartialEq, Eq)]
pub struct RecordField {
    pub ident: String,
    pub value: Slot,
}

/// Mathematical model of a [`RecordField`].
pub struct SpecRecordField {
    pub ident: Seq<char>,
    pub value: SpecSlot,
}

impl View for RecordField {
    type V = SpecRecordField;

    open spec fn view(&self) -> SpecRecordField {
        SpecRecordField { ident: self.ident@, value: self.value@ }
    }
}

/// The assembled record: the docs field first if one was configured, then
/// the ordinary fields in declaration order, then every split group's
/// children.
#[derive(Debug, PartialEq, Eq)]
pub struct Record {
    pub ident: String,
    pub fields: Vec<RecordField>,
}

/// Mathematical model of a [`Record`].
pub struct SpecRecord {
    pub ident: Seq<char>,
    pub fields: Seq<SpecRecordField>,
}

impl View for Record {
    type V = SpecRecord;

    open spec fn view(&self) -> SpecRecord {
        SpecRecord {
            ident: self.ident@,
            fields: Seq::new(self.fields@.len(), |i: int| self.fields@[i]@),
        }
    }
}

/// The built-in reasons a string-to-value conversion can fail.
#[derive(Debug, Clone, Copy, PartialEq, Eq, Structural)]
pub enum ParseCause {
    /// The text was not exactly one character.
    Char,
    /// The text was not pure ASCII.
    ByteStr,
    /// The text was not `true` or `false`.
    Bool,
    /// The text was not a decimal integer within range.
    Int,
    /// The text was not acceptable floating-point text.
    Float,
}

/// One conversion failure. One error type serves every record; it
/// carries the owning record's name as data, together with the scope and
/// attribute name the failure happened under and the type that was
/// expected.
#[derive(Debug, PartialEq, Eq)]
pub enum ConvertError {
    /// The annotation carried a literal of the wrong kind for the field.
    LiteralTy {
        record: String,
        value: AttrLit,
        expected: Ty,
        scope: Option<String>,
        attr: String,
    },
    /// A string value failed to convert to the field's type.
    Parsing {
        record: String,
        value: String,
        expected: Ty,
        scope: Option<String>,
        attr: String,
        cause: ParseCause,
    },
}

/// Mathematical model of a [`ConvertError`].
pub enum SpecConvertError {
    LiteralTy {
        record: Seq<char>,
        value: SpecAttrLit,
        expected: SpecTy,
        scope: Option<Seq<char>>,
        attr: Seq<char>,
    },
    Parsing {
        record: Seq<char>,
        value: Seq<char>,
        expected: SpecTy,
        scope: Option<Seq<char>>,
        attr: Seq<char>,
        cause: ParseCause,
    },
}

impl View for ConvertError {
    type V = SpecConvertError;

    open spec fn view(&self) -> SpecConvertError {
        match self {
            ConvertError::LiteralTy { record, value, expected, scope, attr } => {
                SpecConvertError::LiteralTy {
                    record: record@,
                    value: value@,
                    expected: expected@,
                    scope: crate::config::view_opt_str(*scope),
                    attr: attr@,
                }
            },
            ConvertError::Parsing { record, value, expected, scope, attr, cause } => {
                SpecConvertError::Parsing {
                    record: record@,
                    value: value@,
                    expected: expected@,
                    scope: crate::config::view_opt_str(*scope),
                    attr: attr@,
                    cause: *cause,
                }
            },
        }
    }
}

/// The view of an error list.
pub open spec fn view_errors(s: Seq<ConvertError>) -> Seq<SpecConvertError> {
    Seq::new(s.len(), |i: int| s[i]@)
}

/// How one value conversion failed, before the surrounding context is
/// attached.
pub enum SpecConvFail {
    /// Wrong literal kind.
    LiteralTy,
    /// String parse failed on the given text.
    Parsing { value: Seq<char>, cause: ParseCause },
}

/// The intrinsic default of a type: `false`, the zero character, zero,
/// empty text or bytes.
pub open spec fn spec_intrinsic(ty: SpecTy) -> SpecValue {
    match ty {
        SpecTy::Literal(Lit::Bool) => SpecValue::Bool(false),
        SpecTy::Literal(Lit::Char) => SpecValue::Char('\0'),
        SpecTy::Literal(Lit::Int(w)) => SpecValue::Int(w, 0),
        SpecTy::Literal(Lit::Str) => SpecValue::Str(Seq::empty()),
        SpecTy::Literal(Lit::ByteStr) => SpecValue::ByteStr(Seq::empty()),
        SpecTy::Literal(Lit::Float(w)) => SpecValue::Float(w, "0"@),
        SpecTy::Custom(_) => SpecValue::Custom(Seq::empty()),
    }
}

/// What the shared string-parse procedure yields for a type: strings pass
/// through, characters need exactly one character, byte strings pure
/// ASCII, numbers and booleans their own parser; custom values keep the
/// raw text for the host's parser.
pub open spec fn spec_parse_str_value(ty: SpecTy, s: Seq<char>) -> Result<SpecValue, ParseCause> {
    match ty {
        SpecTy::Literal(Lit::Str) => Ok(SpecValue::Str(s)),
        SpecTy::Literal(Lit::Char) => match spec_parse_char(s) {
            Some(c) => Ok(SpecValue::Char(c)),
            None => Err(ParseCause::Char),
        },
        SpecTy::Literal(Lit::ByteStr) => match spec_parse_byte_str(s) {
            Some(b) => Ok(SpecValue::ByteStr(b)),
            None => Err(ParseCause::ByteStr),
        },
        SpecTy::Literal(Lit::Bool) => match spec_parse_bool(s) {
            Some(b) => Ok(SpecValue::Bool(b)),
            None => Err(ParseCause::Bool),
        },
        SpecTy::Literal(Lit::Int(w)) => match spec_parse_int(s, w) {
            Some(v) => Ok(SpecValue::Int(w, v)),
            None => Err(ParseCause::Int),
        },
        SpecTy::Literal(Lit::Float(w)) => if spec_valid_float_text(s) {
            Ok(SpecValue::Float(w, s))
        } else {
            Err(ParseCause::Float)
        },
        SpecTy::Custom(_) => Ok(SpecValue::Custom(s)),
    }
}

/// What converting one annotation literal for a type yields: a string
/// routes through the string-parse procedure; a native literal of the
/// field's own kind is taken directly (integers reduced to the target
/// width, float text validated); anything else is a literal-kind error.
pub open spec fn spec_convert(ty: SpecTy, lit: SpecAttrLit) -> Result<SpecValue, SpecConvFail> {
    match lit {
        SpecAttrLit::Str(s) => match spec_parse_str_value(ty, s) {
            Ok(v) => Ok(v),
            Err(c) => Err(SpecConvFail::Parsing { value: s, cause: c }),
        },
        SpecAttrLit::Bool(b) => if ty == SpecTy::Literal(Lit::Bool) {
            Ok(SpecValue::Bool(b))
        } else {
            Err(SpecConvFail::LiteralTy)
        },
        SpecAttrLit::Char(c) => if ty == SpecTy::Literal(Lit::Char) {
            Ok(SpecValue::Char(c))
        } else {
            Err(SpecConvFail::LiteralTy)
        },
        SpecAttrLit::Int(u) => match ty {
            SpecTy::Literal(Lit::Int(w)) => Ok(SpecValue::Int(w, spec_cast_int(u, w))),
            _ => Err(SpecConvFail::LiteralTy),
        },
        SpecAttrLit::ByteStr(b) => if ty == SpecTy::Literal(Lit::ByteStr) {
            Ok(SpecValue::ByteStr(b))
        } else {
            Err(SpecConvFail::LiteralTy)
        },
        SpecAttrLit::Float(txt) => match ty {
            SpecTy::Literal(Lit::Float(w)) => if spec_valid_float_text(txt) {
                Ok(SpecValue::Float(w, txt))
            } else {
                Err(SpecConvFail::Parsing { value: txt, cause: ParseCause::Float })
            },
            _ => Err(SpecConvFail::LiteralTy),
        },
        SpecAttrLit::Byte(_) => Err(SpecConvFail::LiteralTy),
    }
}

/// The full error for a failed conversion of `lit` under the given
/// context.
pub open spec fn spec_fail_error(
    record: Seq<char>,
    ty: SpecTy,
    lit: SpecAttrLit,
    scope: Option<Seq<char>>,
    attr: Seq<char>,
    f: SpecConvFail,
) -> SpecConvertError {
    match f {
        SpecConvFail::LiteralTy => SpecConvertError::LiteralTy {
            record,
            value: lit,
            expected: ty,
            scope,
            attr,
        },
        SpecConvFail::Parsing { value, cause } => SpecConvertError::Parsing {
            record,
            value,
            expected: ty,
            scope,
            attr,
            cause,
        },
    }
}

/// Writing a value into a slot: plain slots are overwritten, optional
/// slots become present, repeated slots append.
pub open spec fn spec_write(slot: SpecSlot, v: SpecValue) -> SpecSlot {
    match slot {
        SpecSlot::Single(_) => SpecSlot::Single(v),
        SpecSlot::Opt(_) => SpecSlot::Opt(Some(v)),
        SpecSlot::Many(vs) => SpecSlot::Many(vs.push(v)),
    }
}

/// Whether a bare-word annotation is accepted for this field: only for
/// boolean fields or fields with a configured flag value.
pub open spec fn spec_word_matches(f: SpecField) -> bool {
    f.flag_value is Some || spec_wrapper_inner(f.ty) == SpecTy::Literal(Lit::Bool)
}

/// The value a bare word assigns: the configured flag value read through
/// the string-parse procedure, or `true` for a boolean field without one.
pub open spec fn spec_flag_value(f: SpecField) -> Result<SpecValue, SpecConvFail> {
    match f.flag_value {
        Some(s) => match spec_parse_str_value(spec_wrapper_inner(f.ty), s) {
            Ok(v) => Ok(v),
            Err(c) => Err(SpecConvFail::Parsing { value: s, cause: c }),
        },
        None => Ok(SpecValue::Bool(true)),
    }
}

/// One field's initial slot and any setup error: repeated fields start
/// empty, optional fields absent, plain fields at their default.
pub open spec fn spec_setup_slot(f: SpecField, record: Seq<char>, scope: Option<Seq<char>>) -> (
    SpecSlot,
    Seq<SpecConvertError>,
) {
    match f.ty {
        SpecWrapper::Repeated(_) => (SpecSlot::Many(Seq::empty()), Seq::empty()),
        SpecWrapper::Optional(_) => (SpecSlot::Opt(None), Seq::empty()),
        SpecWrapper::Plain(ty) => match f.default {
            SpecDefaulted::To(s) => match spec_parse_str_value(ty, s) {
                Ok(v) => (SpecSlot::Single(v), Seq::empty()),
                Err(c) => (
                    SpecSlot::Single(spec_intrinsic(ty)),
                    seq![
                        SpecConvertError::Parsing {
                            record,
                            value: s,
                            expected: ty,
                            scope,
                            attr: f.attribute,
                            cause: c,
                        },
                    ],
                ),
            },
            _ => (SpecSlot::Single(spec_intrinsic(ty)), Seq::empty()),
        },
    }
}

/// The initial slots and setup errors of a field list, in order.
pub open spec fn spec_setup_fields(
    fields: Seq<SpecField>,
    record: Seq<char>,
    scope: Option<Seq<char>>,
) -> (Seq<SpecSlot>, Seq<SpecConvertError>)
    decreases fields.len(),
{
    if fields.len() == 0 {
        (Seq::empty(), Seq::empty())
    } else {
        let (slots, errs) = spec_setup_fields(fields.drop_last(), record, scope);
        let (slot, err) = spec_setup_slot(fields.last(), record, scope);
        (slots.push(slot), errs + err)
    }
}

/// The initial slots and setup errors of every split group, in order.
pub open spec fn spec_setup_splits(
    splits: Seq<SpecSplitFields>,
    record: Seq<char>,
    scope: Option<Seq<char>>,
) -> (Seq<Seq<SpecSlot>>, Seq<SpecConvertError>)
    decreases splits.len(),
{
    if splits.len() == 0 {
        (Seq::empty(), Seq::empty())
    } else {
        let (slots, errs) = spec_setup_splits(splits.drop_last(), record, scope);
        let (gslots, gerrs) = spec_setup_fields(splits.last().fields, record, scope);
        (slots.push(gslots), errs + gerrs)
    }
}

/// The running state of a conversion: one slot per ordinary field, one
/// slot list per split group, and the errors collected so far.
pub struct SpecConvState {
    pub fields: Seq<SpecSlot>,
    pub splits: Seq<Seq<SpecSlot>>,
    pub errors: Seq<SpecConvertError>,
}

/// Whether one field's arms match this entry: its name-value arm, or its
/// bare-word arm where one exists.
pub open spec fn spec_field_hits(f: SpecField, item: SpecMeta) -> bool {
    match item {
        SpecMeta::NameValue(name, _) => name == f.attribute,
        SpecMeta::Word(name) => name == f.attribute && spec_word_matches(f),
        _ => false,
    }
}

/// Whether a split group's arms match this entry: its single-value arm or
/// its nested-list arm.
pub open spec fn spec_split_hits(g: SpecSplitFields, item: SpecMeta) -> bool {
    match item {
        SpecMeta::NameValue(name, _) => name == g.parent,
        SpecMeta::List(name, _) => name == g.parent,
        _ => false,
    }
}

/// The first field whose arms match this entry, from `i` on.
pub open spec fn spec_find_field_arm(fields: Seq<SpecField>, item: SpecMeta, i: int) -> Option<int>
    decreases fields.len() - i,
{
    if i < 0 || i >= fields.len() {
        None
    } else if spec_field_hits(fields[i], item) {
        Some(i)
    } else {
        spec_find_field_arm(fields, item, i + 1)
    }
}

/// The first split group whose arms match this entry, from `i` on.
pub open spec fn spec_find_split_arm(splits: Seq<SpecSplitFields>, item: SpecMeta, i: int) -> Option<
    int,
>
    decreases splits.len() - i,
{
    if i < 0 || i >= splits.len() {
        None
    } else if spec_split_hits(splits[i], item) {
        Some(i)
    } else {
        spec_find_split_arm(splits, item, i + 1)
    }
}

/// Applying one matching entry to one field: a name-value entry converts
/// its literal and writes or records the error; a bare word writes the
/// flag value.
pub open spec fn spec_apply_field(
    record: Seq<char>,
    f: SpecField,
    slot: SpecSlot,
    errors: Seq<SpecConvertError>,
    item: SpecMeta,
    scope: Option<Seq<char>>,
) -> (SpecSlot, Seq<SpecConvertError>) {
    match item {
        SpecMeta::NameValue(name, lit) => match spec_convert(spec_wrapper_inner(f.ty), lit) {
            Ok(v) => (spec_write(slot, v), errors),
            Err(fail) => (
                slot,
                errors.push(
                    spec_fail_error(record, spec_wrapper_inner(f.ty), lit, scope, name, fail),
                ),
            ),
        },
        SpecMeta::Word(name) => match spec_flag_value(f) {
            Ok(v) => (spec_write(slot, v), errors),
            Err(fail) => (
                slot,
                errors.push(
                    spec_fail_error(
                        record,
                        spec_wrapper_inner(f.ty),
                        SpecAttrLit::Str(
                            match f.flag_value {
                                Some(s) => s,
                                None => Seq::empty(),
                            },
                        ),
                        scope,
                        name,
                        fail,
                    ),
                ),
            ),
        },
        _ => (slot, errors),
    }
}

/// Applying the entries nested under a split-group list: each entry is
/// matched against the group's own children; unmatched entries are
/// ignored.
pub open spec fn spec_apply_split_list(
    record: Seq<char>,
    g: SpecSplitFields,
    gslots: Seq<SpecSlot>,
    errors: Seq<SpecConvertError>,
    items: Seq<SpecMeta>,
    scope: Option<Seq<char>>,
) -> (Seq<SpecSlot>, Seq<SpecConvertError>)
    decreases items.len(),
{
    if items.len() == 0 {
        (gslots, errors)
    } else {
        let (slots1, errs1) = spec_apply_split_list(
            record,
            g,
            gslots,
            errors,
            items.drop_last(),
            scope,
        );
        let item = items.last();
        match spec_find_field_arm(g.fields, item, 0) {
            Some(j) => {
                let (slot2, errs2) = spec_apply_field(
                    record,
                    g.fields[j],
                    slots1[j],
                    errs1,
                    item,
                    scope,
                );
                (slots1.update(j, slot2), errs2)
            },
            None => (slots1, errs1),
        }
    }
}

/// Applying one matching entry to a split group: a single value is
/// converted once and written to every child; a nested list is matched
/// against the children.
pub open spec fn spec_apply_split(
    record: Seq<char>,
    g: SpecSplitFields,
    gslots: Seq<SpecSlot>,
    errors: Seq<SpecConvertError>,
    item: SpecMeta,
    scope: Option<Seq<char>>,
) -> (Seq<SpecSlot>, Seq<SpecConvertError>) {
    match item {
        SpecMeta::NameValue(name, lit) => match spec_convert(spec_wrapper_inner(g.ty), lit) {
            Ok(v) => (Seq::new(gslots.len(), |j: int| spec_write(gslots[j], v)), errors),
            Err(fail) => (
                gslots,
                errors.push(
                    spec_fail_error(record, spec_wrapper_inner(g.ty), lit, scope, name, fail),
                ),
            ),
        },
        SpecMeta::List(_, items) => spec_apply_split_list(record, g, gslots, errors, items, scope),
        _ => (gslots, errors),
    }
}

/// Processing one entry against every arm, first match wins: ordinary
/// fields in order, then split groups; an entry matching nothing is
/// ignored.
pub open spec fn spec_process_item(
    strukt: SpecStruct,
    state: SpecConvState,
    item: SpecMeta,
    scope: Option<Seq<char>>,
) -> SpecConvState {
    match spec_find_field_arm(strukt.fields, item, 0) {
        Some(i) => {
            let (slot, errors) = spec_apply_field(
                strukt.ident,
                strukt.fields[i],
                state.fields[i],
                state.errors,
                item,
                scope,
            );
            SpecConvState { fields: state.fields.update(i, slot), splits: state.splits, errors }
        },
        None => match spec_find_split_arm(strukt.split_fields, item, 0) {
            Some(gi) => {
                let (gslots, errors) = spec_apply_split(
                    strukt.ident,
                    strukt.split_fields[gi],
                    state.splits[gi],
                    state.errors,
                    item,
                    scope,
                );
                SpecConvState {
                    fields: state.fields,
                    splits: state.splits.update(gi, gslots),
                    errors,
                }
            },
            None => state,
        },
    }
}

/// Processing the entries of a scope list in order.
pub open spec fn spec_process_items(
    strukt: SpecStruct,
    state: SpecConvState,
    items: Seq<SpecMeta>,
    scope: Option<Seq<char>>,
) -> SpecConvState
    decreases items.len(),
{
    if items.len() == 0 {
        state
    } else {
        spec_process_item(
            strukt,
            spec_process_items(strukt, state, items.drop_last(), scope),
            items.last(),
            scope,
        )
    }
}

/// Processing one whole annotation: under a scope, only a list entry
/// named exactly the scope is descended into; without one, the entry
/// itself is matched directly.
pub open spec fn spec_process_attr(
    strukt: SpecStruct,
    config: SpecConfig,
    state: SpecConvState,
    attr: SpecAttribute,
) -> SpecConvState {
    match config.scope {
        Some(sc) => match attr.value {
            SpecMeta::List(name, items) => if name == sc {
                spec_process_items(strukt, state, items, config.scope)
            } else {
                state
            },
            _ => state,
        },
        None => spec_process_item(strukt, state, attr.value, config.scope),
    }
}

/// Processing a whole annotation list in order.
pub open spec fn spec_process_attrs(
    strukt: SpecStruct,
    config: SpecConfig,
    state: SpecConvState,
    attrs: Seq<SpecAttribute>,
) -> SpecConvState
    decreases attrs.len(),
{
    if attrs.len() == 0 {
        state
    } else {
        spec_process_attr(
            strukt,
            config,
            spec_process_attrs(strukt, config, state, attrs.drop_last()),
            attrs.last(),
        )
    }
}

/// A documentation comment's text with its leading comment markers
/// removed.
pub open spec fn spec_trim_doc(s: Seq<char>) -> Seq<char>
    decreases s.len(),
{
    if s.len() >= 3 && s.subrange(0, 3) == "///"@ {
        spec_trim_doc(s.skip(3))
    } else {
        s
    }
}

/// The documentation lines of an annotation list, in order: sugared
/// comments are trimmed of their markers; explicit `doc` values are taken
/// as written.
pub open spec fn spec_docs(attrs: Seq<SpecAttribute>) -> Seq<Seq<char>>
    decreases attrs.len(),
{
    if attrs.len() == 0 {
        Seq::empty()
    } else {
        let rest = spec_docs(attrs.drop_last());
        let a = attrs.last();
        if a.is_sugared_doc {
            match a.value {
                SpecMeta::NameValue(_, SpecAttrLit::Str(s)) => rest.push(spec_trim_doc(s)),
                _ => rest,
            }
        } else {
            match a.value {
                SpecMeta::NameValue(name, SpecAttrLit::Str(s)) => if name == "doc"@ {
                    rest.push(s)
                } else {
                    rest
                },
                _ => rest,
            }
        }
    }
}

/// The record fields contributed by the split groups, group by group.
pub open spec fn spec_split_record_fields(
    splits: Seq<SpecSplitFields>,
    slots: Seq<Seq<SpecSlot>>,
) -> Seq<SpecRecordField>
    decreases splits.len(),
{
    if splits.len() == 0 {
        Seq::empty()
    } else {
        spec_split_record_fields(splits.drop_last(), slots.drop_last()) + Seq::new(
            splits.last().fields.len(),
            |j: int|
                SpecRecordField {
                    ident: splits.last().fields[j].ident,
                    value: slots.last()[j],
                },
        )
    }
}

/// The record fields contributed by the docs field, if one exists.
pub open spec fn spec_docs_record_part(
    strukt: SpecStruct,
    attrs: Seq<SpecAttribute>,
) -> Seq<SpecRecordField> {
    match strukt.docs {
        Some(d) => seq![
            SpecRecordField {
                ident: d.ident,
                value: SpecSlot::Many(
                    Seq::new(spec_docs(attrs).len(), |i: int| SpecValue::Str(spec_docs(attrs)[i])),
                ),
            },
        ],
        None => Seq::empty(),
    }
}

/// The record fields contributed by the ordinary fields, in order.
pub open spec fn spec_ord_record_part(
    fields: Seq<SpecField>,
    slots: Seq<SpecSlot>,
) -> Seq<SpecRecordField> {
    Seq::new(fields.len(), |i: int| SpecRecordField { ident: fields[i].ident, value: slots[i] })
}

/// The conversion state after setup and the full scan.
pub open spec fn spec_final_state(
    strukt: SpecStruct,
    config: SpecConfig,
    attrs: Seq<SpecAttribute>,
) -> SpecConvState {
    let (fslots, ferrs) = spec_setup_fields(strukt.fields, strukt.ident, config.scope);
    let (sslots, serrs) = spec_setup_splits(strukt.split_fields, strukt.ident, config.scope);
    let init = SpecConvState { fields: fslots, splits: sslots, errors: ferrs + serrs };
    spec_process_attrs(strukt, config, init, attrs)
}

/// What the whole conversion yields: every error collected across setup
/// and the full scan, or the assembled record.
pub open spec fn spec_expand(
    strukt: SpecStruct,
    config: SpecConfig,
    attrs: Seq<SpecAttribute>,
) -> Result<SpecRecord, Seq<SpecConvertError>> {
    let fin = spec_final_state(strukt, config, attrs);
    if fin.errors.len() == 0 {
        Ok(
            SpecRecord {
                ident: strukt.ident,
                fields: spec_docs_record_part(strukt, attrs) + spec_ord_record_part(
                    strukt.fields,
                    fin.fields,
                ) + spec_split_record_fields(strukt.split_fields, fin.splits),
            },
        )
    } else {
        Err(fin.errors)
    }
}

/// How one value conversion failed (executable form).
pub enum ConvFail {
    LiteralTy,
    Parsing { value: String, cause: ParseCause },
}

impl View for ConvFail {
    type V = SpecConvFail;

    open spec fn view(&self) -> SpecConvFail {
        match self {
            ConvFail::LiteralTy => SpecConvFail::LiteralTy,
            ConvFail::Parsing { value, cause } => SpecConvFail::Parsing {
                value: value@,
                cause: *cause,
            },
        }
    }
}

/// Deep copy of a value.
pub fn clone_value(v: &Value) -> (r: Value)
    ensures
        r@ == v@,
{
    match v {
        Value::Bool(b) => Value::Bool(*b),
        Value::Char(c) => Value::Char(*c),
        Value::Int(w, x) => Value::Int(*w, *x),
        Value::Str(s) => Value::Str(s.clone()),
        Value::ByteStr(b) => {
            let c = b.clone();
            proof {
                assert(c@ =~= b@);
            }
            Value::ByteStr(c)
        },
        Value::Float(w, s) => Value::Float(*w, s.clone()),
        Value::Custom(s) => Value::Custom(s.clone()),
    }
}

/// A pushed value list views to the pushed view.
proof fn lemma_view_values_push(s: Seq<Value>, v: Value)
    ensures
        view_values(s.push(v)) == view_values(s).push(v@),
{
    assert(view_values(s.push(v)) =~= view_values(s).push(v@));
}

/// A pushed error list views to the pushed view.
proof fn lemma_view_errors_push(s: Seq<ConvertError>, e: ConvertError)
    ensures
        view_errors(s.push(e)) == view_errors(s).push(e@),
{
    assert(view_errors(s.push(e)) =~= view_errors(s).push(e@));
}

/// An updated slot list views to the updated view.
proof fn lemma_view_slots_update(s: Seq<Slot>, i: int, x: Slot)
    requires
        0 <= i < s.len(),
    ensures
        view_slots(s.update(i, x)) == view_slots(s).update(i, x@),
{
    assert(view_slots(s.update(i, x)) =~= view_slots(s).update(i, x@));
}

/// A pushed slot list views to the pushed view.
proof fn lemma_view_slots_push(s: Seq<Slot>, x: Slot)
    ensures
        view_slots(s.push(x)) == view_slots(s).push(x@),
{
    assert(view_slots(s.push(x)) =~= view_slots(s).push(x@));
}

/// The string-parse procedure: reads `s` for the innermost type `ty`.
pub fn match_parse(ty: &Ty, s: &str) -> (r: Result<Value, ParseCause>)
    ensures
        match r {
            Ok(v) => spec_parse_str_value(ty@, s@) == Ok::<SpecValue, ParseCause>(v@),
            Err(c) => spec_parse_str_value(ty@, s@) == Err::<SpecValue, ParseCause>(c),
        },
{
    match ty {
        Ty::Literal(Lit::Str) => Ok(Value::Str(s.to_owned())),
        Ty::Literal(Lit::Char) => match parse_char_text(s) {
            Ok(c) => Ok(Value::Char(c)),
            Err(_) => Err(ParseCause::Char),
        },
        Ty::Literal(Lit::ByteStr) => match parse_byte_str_text(s) {
            Ok(b) => Ok(Value::ByteStr(b)),
            Err(_) => Err(ParseCause::ByteStr),
        },
        Ty::Literal(Lit::Bool) => match parse_bool_text(s) {
            Ok(b) => Ok(Value::Bool(b)),
            Err(_) => Err(ParseCause::Bool),
        },
        Ty::Literal(Lit::Int(w)) => match parse_int_text(s, *w) {
            Ok(v) => Ok(Value::Int(*w, v)),
            Err(_) => Err(ParseCause::Int),
        },
        Ty::Literal(Lit::Float(w)) => if check_float_text(s) {
            Ok(Value::Float(*w, s.to_owned()))
        } else {
            Err(ParseCause::Float)
        },
        Ty::Custom(_) => Ok(Value::Custom(s.to_owned())),
    }
}

/// Converts one annotation literal for the innermost type `ty`: strings
/// go through the string-parse procedure, native literals of the matching
/// kind are taken directly, anything else is a literal-kind failure.
pub fn match_literal(ty: &Ty, lit: &AttrLit) -> (r: Result<Value, ConvFail>)
    ensures
        match r {
            Ok(v) => spec_convert(ty@, lit@) == Ok::<SpecValue, SpecConvFail>(v@),
            Err(f) => spec_convert(ty@, lit@) == Err::<SpecValue, SpecConvFail>(f@),
        },
{
    match lit {
        AttrLit::Str(s) => match match_parse(ty, s.as_str()) {
            Ok(v) => Ok(v),
            Err(c) => Err(ConvFail::Parsing { value: s.clone(), cause: c }),
        },
        AttrLit::Bool(b) => match ty {
            Ty::Literal(Lit::Bool) => Ok(Value::Bool(*b)),
            _ => Err(ConvFail::LiteralTy),
        },
        AttrLit::Char(c) => match ty {
            Ty::Literal(Lit::Char) => Ok(Value::Char(*c)),
            _ => Err(ConvFail::LiteralTy),
        },
        AttrLit::Int(u) => match ty {
            Ty::Literal(Lit::Int(w)) => Ok(Value::Int(*w, cast_int(*u, *w))),
            _ => Err(ConvFail::LiteralTy),
        },
        AttrLit::ByteStr(b) => match ty {
            Ty::Literal(Lit::ByteStr) => {
                let c = b.clone();
                proof {
                    assert(c@ =~= b@);
                }
                Ok(Value::ByteStr(c))
            },
            _ => Err(ConvFail::LiteralTy),
        },
        AttrLit::Float(txt) => match ty {
            Ty::Literal(Lit::Float(w)) => if check_float_text(txt.as_str()) {
                Ok(Value::Float(*w, txt.clone()))
            } else {
                Err(ConvFail::Parsing { value: txt.clone(), cause: ParseCause::Float })
            },
            _ => Err(ConvFail::LiteralTy),
        },
        AttrLit::Byte(_) => Err(ConvFail::LiteralTy),
    }
}

/// Builds the full error for a failed conversion.
pub fn match_error(
    record: &String,
    ty: &Ty,
    lit: &AttrLit,
    scope: &Option<String>,
    attr: &String,
    fail: ConvFail,
) -> (e: ConvertError)
    ensures
        e@ == spec_fail_error(
            record@,
            ty@,
            lit@,
            crate::config::view_opt_str(*scope),
            attr@,
            fail@,
        ),
{
    match fail {
        ConvFail::LiteralTy => ConvertError::LiteralTy {
            record: record.clone(),
            value: clone_attr_lit(lit),
            expected: clone_ty(ty),
            scope: crate::config::clone_opt_string(scope),
            attr: attr.clone(),
        },
        ConvFail::Parsing { value, cause } => ConvertError::Parsing {
            record: record.clone(),
            value,
            expected: clone_ty(ty),
            scope: crate::config::clone_opt_string(scope),
            attr: attr.clone(),
            cause,
        },
    }
}

/// Writes a converted value into a slot, by the slot's wrapper shape.
pub fn match_write(slot: &mut Slot, v: Value)
    ensures
        final (slot)@ == spec_write(old(slot)@, v@),
{
    match slot {
        Slot::Single(s) => {
            *s = v;
        },
        Slot::Opt(o) => {
            *o = Some(v);
        },
        Slot::Many(vs) => {
            proof {
                lemma_view_values_push(vs@, v);
            }
            vs.push(v);
        },
    }
}

/// Whether this field also answers a bare-word annotation.
pub fn match_special(f: &Field) -> (r: bool)
    ensures
        r == spec_word_matches(f@),
{
    if f.flag_value.is_some() {
        return true;
    }
    match f.ty.inner() {
        Ty::Literal(Lit::Bool) => true,
        _ => false,
    }
}

/// The value a bare word assigns to this field.
fn flag_value(f: &Field) -> (r: Result<Value, ConvFail>)
    ensures
        match r {
            Ok(v) => spec_flag_value(f@) == Ok::<SpecValue, SpecConvFail>(v@),
            Err(fl) => spec_flag_value(f@) == Err::<SpecValue, SpecConvFail>(fl@),
        },
{
    match &f.flag_value {
        Some(s) => match match_parse(f.ty.inner(), s.as_str()) {
            Ok(v) => Ok(v),
            Err(c) => Err(ConvFail::Parsing { value: s.clone(), cause: c }),
        },
        None => Ok(Value::Bool(true)),
    }
}

/// Sets up one field's initial slot, collecting any default-text error.
pub fn setup_field(
    f: &Field,
    record: &String,
    scope: &Option<String>,
    errors: &mut Vec<ConvertError>,
) -> (slot: Slot)
    ensures
        ({
            let (sslot, serrs) = spec_setup_slot(
                f@,
                record@,
                crate::config::view_opt_str(*scope),
            );
            slot@ == sslot && view_errors(final (errors)@) == view_errors(old(errors)@) + serrs
        }),
{
    let ghost sscope = crate::config::view_opt_str(*scope);
    match &f.ty {
        Wrapper::Repeated(_) => {
            proof {
                assert(view_errors(errors@) =~= view_errors(errors@) + Seq::<
                    SpecConvertError,
                >::empty());
            }
            slot_many_empty()
        },
        Wrapper::Optional(_) => {
            proof {
                assert(view_errors(errors@) =~= view_errors(errors@) + Seq::<
                    SpecConvertError,
                >::empty());
            }
            Slot::Opt(None)
        },
        Wrapper::Plain(ty) => {
            match &f.default {
                crate::config::Defaulted::To(s) => {
                    match match_parse(ty, s.as_str()) {
                        Ok(v) => {
                            proof {
                                assert(view_errors(errors@) =~= view_errors(errors@) + Seq::<
                                    SpecConvertError,
                                >::empty());
                            }
                            Slot::Single(v)
                        },
                        Err(c) => {
                            let e = ConvertError::Parsing {
                                record: record.clone(),
                                value: s.clone(),
                                expected: clone_ty(ty),
                                scope: crate::config::clone_opt_string(scope),
                                attr: f.attribute.clone(),
                                cause: c,
                            };
                            let ghost old_errs = errors@;
                            proof {
                                lemma_view_errors_push(errors@, e);
                            }
                            errors.push(e);
                            proof {
                                assert(view_errors(errors@) =~= view_errors(old_errs) + seq![e@]);
                            }
                            Slot::Single(intrinsic_value(ty))
                        },
                    }
                },
                _ => {
                    proof {
                        assert(view_errors(errors@) =~= view_errors(errors@) + Seq::<
                            SpecConvertError,
                        >::empty());
                    }
                    Slot::Single(intrinsic_value(ty))
                },
            }
        },
    }
}

/// An empty repeated slot.
fn slot_many_empty() -> (r: Slot)
    ensures
        r@ == SpecSlot::Many(Seq::<SpecValue>::empty()),
{
    let r = Slot::Many(Vec::new());
    proof {
        assert(view_values(Seq::<Value>::empty()) =~= Seq::<SpecValue>::empty());
    }
    r
}

/// The view of a split-group slot table.
pub open spec fn view_split_slots(s: Seq<Vec<Slot>>) -> Seq<Seq<SpecSlot>> {
    Seq::new(s.len(), |g: int| view_slots(s[g]@))
}

/// An updated slot table views to the updated view.
proof fn lemma_view_split_slots_update(s: Seq<Vec<Slot>>, g: int, x: Vec<Slot>)
    requires
        0 <= g < s.len(),
    ensures
        view_split_slots(s.update(g, x)) == view_split_slots(s).update(g, view_slots(x@)),
{
    assert(view_split_slots(s.update(g, x)) =~= view_split_slots(s).update(g, view_slots(x@)));
}

/// The running conversion state held by the executable loop.
pub open spec fn state_of(
    fslots: Seq<Slot>,
    sslots: Seq<Vec<Slot>>,
    errors: Seq<ConvertError>,
) -> SpecConvState {
    SpecConvState {
        fields: view_slots(fslots),
        splits: view_split_slots(sslots),
        errors: view_errors(errors),
    }
}

/// Deep copy of a slot.
pub fn clone_slot(s: &Slot) -> (r: Slot)
    ensures
        r@ == s@,
{
    match s {
        Slot::Single(v) => Slot::Single(clone_value(v)),
        Slot::Opt(o) => match o {
            Some(v) => Slot::Opt(Some(clone_value(v))),
            None => Slot::Opt(None),
        },
        Slot::Many(vs) => {
            let mut out: Vec<Value> = Vec::new();
            let n = vs.len();
            let mut i: usize = 0;
            #[verifier::loop_isolation(false)]
            while i < n
                invariant
                    0 <= i <= n,
                    out@.len() == i,
                    forall|j: int| 0 <= j < i ==> out@[j]@ == vs@[j]@,
                decreases n - i,
            {
                out.push(clone_value(&vs[i]));
                i += 1;
            }
            let r = Slot::Many(out);
            proof {
                assert(view_values(out@) =~= view_values(vs@));
            }
            r
        },
    }
}

/// Whether one field's arms match this entry.
fn field_hits(f: &Field, item: &Meta) -> (r: bool)
    ensures
        r == spec_field_hits(f@, item@),
{
    match item {
        Meta::NameValue(name, _) => str_eq(name.as_str(), f.attribute.as_str()),
        Meta::Word(name) => str_eq(name.as_str(), f.attribute.as_str()) && match_special(f),
        _ => false,
    }
}

/// Whether a split group's arms match this entry.
fn split_hits(g: &SplitFields, item: &Meta) -> (r: bool)
    ensures
        r == spec_split_hits(g@, item@),
{
    match item {
        Meta::NameValue(name, _) => str_eq(name.as_str(), g.parent.as_str()),
        Meta::List(name, _) => str_eq(name.as_str(), g.parent.as_str()),
        _ => false,
    }
}

/// Finding a field arm from the start equals finding it past a prefix
/// with no hit.
pub proof fn lemma_find_field_arm_prefix(fields: Seq<SpecField>, item: SpecMeta, i: int)
    requires
        0 <= i <= fields.len(),
        forall|j: int| 0 <= j < i ==> !spec_field_hits(fields[j], item),
    ensures
        spec_find_field_arm(fields, item, 0) == spec_find_field_arm(fields, item, i),
    decreases i,
{
    if i > 0 {
        lemma_find_field_arm_prefix(fields, item, i - 1);
    }
}

/// Finding a split arm from the start equals finding it past a prefix
/// with no hit.
proof fn lemma_find_split_arm_prefix(splits: Seq<SpecSplitFields>, item: SpecMeta, i: int)
    requires
        0 <= i <= splits.len(),
        forall|j: int| 0 <= j < i ==> !spec_split_hits(splits[j], item),
    ensures
        spec_find_split_arm(splits, item, 0) == spec_find_split_arm(splits, item, i),
    decreases i,
{
    if i > 0 {
        lemma_find_split_arm_prefix(splits, item, i - 1);
    }
}

/// The first field whose arms match this entry, if any.
#[verifier::loop_isolation(false)]
fn find_field_arm(fields: &Vec<Field>, item: &Meta) -> (r: Option<usize>)
    ensures
        match r {
            Some(i) => 0 <= i < fields@.len() && spec_find_field_arm(
                crate::dissect::view_fields(fields@),
                item@,
                0,
            ) == Some(i as int),
            None => spec_find_field_arm(crate::dissect::view_fields(fields@), item@, 0) is None,
        },
{
    let n = fields.len();
    let mut i: usize = 0;
    while i < n
        invariant
            0 <= i <= n,
            forall|j: int|
                0 <= j < i ==> !spec_field_hits(
                    crate::dissect::view_fields(fields@)[j],
                    item@,
                ),
        decreases n - i,
    {
        if field_hits(&fields[i], item) {
            proof {
                lemma_find_field_arm_prefix(
                    crate::dissect::view_fields(fields@),
                    item@,
                    i as int,
                );
            }
            return Some(i);
        }
        i += 1;
    }
    proof {
        lemma_find_field_arm_prefix(crate::dissect::view_fields(fields@), item@, n as int);
    }
    None
}

/// The first split group whose arms match this entry, if any.
#[verifier::loop_isolation(false)]
fn find_split_arm(splits: &Vec<SplitFields>, item: &Meta) -> (r: Option<usize>)
    ensures
        match r {
            Some(g) => 0 <= g < splits@.len() && spec_find_split_arm(
                crate::dissect::view_splits(splits@),
                item@,
                0,
            ) == Some(g as int),
            None => spec_find_split_arm(crate::dissect::view_splits(splits@), item@, 0) is None,
        },
{
    let n = splits.len();
    let mut i: usize = 0;
    while i < n
        invariant
            0 <= i <= n,
            forall|j: int|
                0 <= j < i ==> !spec_split_hits(
                    crate::dissect::view_splits(splits@)[j],
                    item@,
                ),
        decreases n - i,
    {
        if split_hits(&splits[i], item) {
            proof {
                lemma_find_split_arm_prefix(
                    crate::dissect::view_splits(splits@),
                    item@,
                    i as int,
                );
            }
            return Some(i);
        }
        i += 1;
    }
    proof {
        lemma_find_split_arm_prefix(crate::dissect::view_splits(splits@), item@, n as int);
    }
    None
}

/// Applies one matching entry to one field: converts and writes, or
/// collects the error.
pub fn match_field(
    record: &String,
    f: &Field,
    item: &Meta,
    slot: &mut Slot,
    errors: &mut Vec<ConvertError>,
    scope: &Option<String>,
)
    ensures
        ({
            let (sslot, serrs) = spec_apply_field(
                record@,
                f@,
                old(slot)@,
                view_errors(old(errors)@),
                item@,
                crate::config::view_opt_str(*scope),
            );
            final (slot)@ == sslot && view_errors(final (errors)@) == serrs
        }),
{
    match item {
        Meta::NameValue(name, lit) => {
            match match_literal(f.ty.inner(), lit) {
                Ok(v) => {
                    match_write(slot, v);
                },
                Err(fail) => {
                    let e = match_error(record, f.ty.inner(), lit, scope, name, fail);
                    proof {
                        lemma_view_errors_push(errors@, e);
                    }
                    errors.push(e);
                },
            }
        },
        Meta::Word(name) => {
            match flag_value(f) {
                Ok(v) => {
                    match_write(slot, v);
                },
                Err(fail) => {
                    let lit = AttrLit::Str(
                        match &f.flag_value {
                            Some(s) => s.clone(),
                            None => String::new(),
                        },
                    );
                    let e = match_error(record, f.ty.inner(), &lit, scope, name, fail);
                    proof {
                        lemma_view_errors_push(errors@, e);
                    }
                    errors.push(e);
                },
            }
        },
        _ => {},
    }
}

/// Writes one converted value to every child of a split group, each
/// child receiving its own copy.
pub fn match_clone_write(v: &Value, gslots: &mut Vec<Slot>)
    ensures
        view_slots(final (gslots)@) == Seq::new(
            old(gslots)@.len(),
            |j: int| spec_write(old(gslots)@[j]@, v@),
        ),
{
    let ghost orig = gslots@;
    let n = gslots.len();
    let mut out: Vec<Slot> = Vec::new();
    let mut j: usize = 0;
    #[verifier::loop_isolation(false)]
    while j < n
        invariant
            0 <= j <= n,
            out@.len() == j,
            forall|k: int| 0 <= k < j ==> out@[k]@ == spec_write(orig[k]@, v@),
        decreases n - j,
    {
        let mut s = clone_slot(&gslots[j]);
        match_write(&mut s, clone_value(v));
        out.push(s);
        j += 1;
    }
    *gslots = out;
    proof {
        assert(view_slots(gslots@) =~= Seq::new(orig.len(), |k: int| spec_write(orig[k]@, v@)));
    }
}

/// Applies one matching entry to a split group: a single value goes to
/// every child, a nested list is matched against the children.
pub fn match_split_fields(
    record: &String,
    g: &SplitFields,
    item: &Meta,
    gslots: &mut Vec<Slot>,
    errors: &mut Vec<ConvertError>,
    scope: &Option<String>,
)
    requires
        old(gslots)@.len() == g.fields@.len(),
    ensures
        ({
            let (sslots, serrs) = spec_apply_split(
                record@,
                g@,
                view_slots(old(gslots)@),
                view_errors(old(errors)@),
                item@,
                crate::config::view_opt_str(*scope),
            );
            view_slots(final (gslots)@) == sslots && view_errors(final (errors)@) == serrs
        }),
        final (gslots)@.len() == old(gslots)@.len(),
{
    let ghost orig_slots = view_slots(gslots@);
    let ghost orig_errs = view_errors(errors@);
    let ghost sscope = crate::config::view_opt_str(*scope);
    match item {
        Meta::NameValue(name, lit) => {
            match match_literal(g.ty.inner(), lit) {
                Ok(v) => {
                    match_clone_write(&v, gslots);
                    proof {
                        assert(view_slots(gslots@) =~= Seq::new(
                            orig_slots.len(),
                            |j: int| spec_write(orig_slots[j], v@),
                        ));
                    }
                },
                Err(fail) => {
                    let e = match_error(record, g.ty.inner(), lit, scope, name, fail);
                    proof {
                        lemma_view_errors_push(errors@, e);
                    }
                    errors.push(e);
                },
            }
        },
        Meta::List(_, items) => {
            let ghost sitems = crate::ast::view_meta_seq(items@);
            proof {
                crate::ast::lemma_view_meta_seq(items@);
            }
            let n = items.len();
            let mut i: usize = 0;
            #[verifier::loop_isolation(false)]
            while i < n
                invariant
                    0 <= i <= n,
                    gslots@.len() == g.fields@.len(),
                    (view_slots(gslots@), view_errors(errors@)) == spec_apply_split_list(
                        record@,
                        g@,
                        orig_slots,
                        orig_errs,
                        sitems.take(i as int),
                        sscope,
                    ),
                decreases n - i,
            {
                proof {
                    assert(sitems.take(i + 1).drop_last() =~= sitems.take(i as int));
                    assert(sitems.take(i + 1).last() == sitems[i as int]);
                }
                match find_field_arm(&g.fields, &items[i]) {
                    Some(j) => {
                        let ghost pre_slots = gslots@;
                        let mut slot = gslots.remove(j);
                        match_field(record, &g.fields[j], &items[i], &mut slot, errors, scope);
                        gslots.insert(j, slot);
                        proof {
                            vstd::seq_lib::lemma_update_is_remove_insert(
                                pre_slots,
                                j as int,
                                gslots@[j as int],
                            );
                            assert(gslots@ =~= pre_slots.update(j as int, gslots@[j as int]));
                            lemma_view_slots_update(pre_slots, j as int, gslots@[j as int]);
                        }
                    },
                    None => {},
                }
                i += 1;
            }
            proof {
                assert(sitems.take(n as int) =~= sitems);
            }
        },
        _ => {},
    }
}

/// Processes one entry against every arm, first match wins.
pub fn match_item(
    strukt: &Struct,
    item: &Meta,
    fslots: &mut Vec<Slot>,
    sslots: &mut Vec<Vec<Slot>>,
    errors: &mut Vec<ConvertError>,
    scope: &Option<String>,
)
    requires
        old(fslots)@.len() == strukt.fields@.len(),
        old(sslots)@.len() == strukt.split_fields@.len(),
        forall|g: int|
            0 <= g < old(sslots)@.len() ==> old(sslots)@[g]@.len()
                == strukt.split_fields@[g].fields@.len(),
    ensures
        state_of(final (fslots)@, final (sslots)@, final (errors)@) == spec_process_item(
            strukt@,
            state_of(old(fslots)@, old(sslots)@, old(errors)@),
            item@,
            crate::config::view_opt_str(*scope),
        ),
        final (fslots)@.len() == old(fslots)@.len(),
        final (sslots)@.len() == old(sslots)@.len(),
        forall|g: int|
            0 <= g < final (sslots)@.len() ==> final (sslots)@[g]@.len() == old(
                sslots,
            )@[g]@.len(),
{
    match find_field_arm(&strukt.fields, item) {
        Some(i) => {
            let ghost pre_slots = fslots@;
            let mut slot = fslots.remove(i);
            match_field(&strukt.ident, &strukt.fields[i], item, &mut slot, errors, scope);
            fslots.insert(i, slot);
            proof {
                vstd::seq_lib::lemma_update_is_remove_insert(
                    pre_slots,
                    i as int,
                    fslots@[i as int],
                );
                assert(fslots@ =~= pre_slots.update(i as int, fslots@[i as int]));
                lemma_view_slots_update(pre_slots, i as int, fslots@[i as int]);
            }
        },
        None => {
            match find_split_arm(&strukt.split_fields, item) {
                Some(g) => {
                    let ghost pre = sslots@;
                    let mut gslots = sslots.remove(g);
                    match_split_fields(
                        &strukt.ident,
                        &strukt.split_fields[g],
                        item,
                        &mut gslots,
                        errors,
                        scope,
                    );
                    sslots.insert(g, gslots);
                    proof {
                        vstd::seq_lib::lemma_update_is_remove_insert(
                            pre,
                            g as int,
                            sslots@[g as int],
                        );
                        assert(sslots@ =~= pre.update(g as int, sslots@[g as int]));
                        lemma_view_split_slots_update(pre, g as int, sslots@[g as int]);
                    }
                },
                None => {},
            }
        },
    }
}

/// The intrinsic default value of a type.
fn intrinsic_value(ty: &Ty) -> (r: Value)
    ensures
        r@ == spec_intrinsic(ty@),
{
    match ty {
        Ty::Literal(Lit::Bool) => Value::Bool(false),
        Ty::Literal(Lit::Char) => Value::Char('\0'),
        Ty::Literal(Lit::Int(w)) => Value::Int(*w, 0),
        Ty::Literal(Lit::Str) => Value::Str(String::new()),
        Ty::Literal(Lit::ByteStr) => {
            let b: Vec<u8> = Vec::new();
            proof {
                assert(b@ =~= Seq::<u8>::empty());
            }
            Value::ByteStr(b)
        },
        Ty::Literal(Lit::Float(w)) => Value::Float(*w, String::from_str("0")),
        Ty::Custom(_) => Value::Custom(String::new()),
    }
}

/// Whether the text has a comment marker at `start`.
fn has_doc_marker(s: &str, start: usize, n: usize) -> (r: bool)
    requires
        start <= n <= s@.len(),
    ensures
        r == (n - start >= 3 && s@[start as int] == '/' && s@[start as int + 1] == '/'
            && s@[start as int + 2] == '/'),
{
    n - start >= 3 && s.get_char(start) == '/' && s.get_char(start + 1) == '/' && s.get_char(
        start + 2,
    ) == '/'
}

/// Removes the leading comment markers from a documentation comment's
/// text.
#[verifier::loop_isolation(false)]
fn trim_doc(s: &str) -> (r: String)
    ensures
        r@ == spec_trim_doc(s@),
{
    let n = s.unicode_len();
    let mut start: usize = 0;
    proof {
        reveal_strlit("///");
        assert(s@.subrange(0, n as int) =~= s@);
    }
    while has_doc_marker(s, start, n)
        invariant
            0 <= start <= n,
            n == s@.len(),
            spec_trim_doc(s@.subrange(start as int, n as int)) == spec_trim_doc(s@),
        decreases n - start,
    {
        proof {
            let part = s@.subrange(start as int, n as int);
            assert(part.subrange(0, 3) =~= "///"@);
            assert(part.skip(3) =~= s@.subrange(start as int + 3, n as int));
        }
        start += 3;
    }
    proof {
        let part = s@.subrange(start as int, n as int);
        if part.len() >= 3 && part.subrange(0, 3) == "///"@ {
            assert(part[0] == s@[start as int] && part[1] == s@[start as int + 1] && part[2]
                == s@[start as int + 2]);
            assert("///"@[0] == '/' && "///"@[1] == '/' && "///"@[2] == '/');
            assert(false);
        }
    }
    let out = s.substring_char(start, n);
    out.to_owned()
}

/// The view of a string list.
pub open spec fn view_strings(s: Seq<String>) -> Seq<Seq<char>> {
    Seq::new(s.len(), |i: int| s[i]@)
}

/// Collects the documentation lines of an annotation list, in order.
#[verifier::loop_isolation(false)]
pub fn setup_docs(attrs: &Vec<Attribute>) -> (r: Vec<String>)
    ensures
        view_strings(r@) == spec_docs(view_attrs(attrs@)),
{
    let ghost va = view_attrs(attrs@);
    let mut out: Vec<String> = Vec::new();
    let n = attrs.len();
    let mut i: usize = 0;
    proof {
        assert(va.take(0) =~= Seq::<SpecAttribute>::empty());
        assert(view_strings(out@) =~= spec_docs(va.take(0)));
    }
    while i < n
        invariant
            0 <= i <= n,
            view_strings(out@) == spec_docs(va.take(i as int)),
        decreases n - i,
    {
        proof {
            assert(va.take(i + 1).drop_last() =~= va.take(i as int));
            assert(va.take(i + 1).last() == va[i as int]);
        }
        let a = &attrs[i];
        if a.is_sugared_doc {
            match &a.value {
                Meta::NameValue(_, AttrLit::Str(s)) => {
                    let t = trim_doc(s.as_str());
                    proof {
                        assert(view_strings(out@.push(t)) =~= view_strings(out@).push(t@));
                    }
                    out.push(t);
                },
                _ => {},
            }
        } else {
            match &a.value {
                Meta::NameValue(name, AttrLit::Str(s)) => {
                    if str_eq(name.as_str(), "doc") {
                        let t = s.clone();
                        proof {
                            assert(view_strings(out@.push(t)) =~= view_strings(out@).push(t@));
                        }
                        out.push(t);
                    }
                },
                _ => {},
            }
        }
        i += 1;
    }
    proof {
        assert(va.take(n as int) =~= va);
    }
    out
}

/// Scans the whole annotation list against the field and split-group
/// arms, under the configured scope.
#[verifier::loop_isolation(false)]
pub fn match_loop(
    strukt: &Struct,
    config: &Config,
    attrs: &Vec<Attribute>,
    fslots: &mut Vec<Slot>,
    sslots: &mut Vec<Vec<Slot>>,
    errors: &mut Vec<ConvertError>,
)
    requires
        old(fslots)@.len() == strukt.fields@.len(),
        old(sslots)@.len() == strukt.split_fields@.len(),
        forall|g: int|
            0 <= g < old(sslots)@.len() ==> old(sslots)@[g]@.len()
                == strukt.split_fields@[g].fields@.len(),
    ensures
        state_of(final (fslots)@, final (sslots)@, final (errors)@) == spec_process_attrs(
            strukt@,
            config@,
            state_of(old(fslots)@, old(sslots)@, old(errors)@),
            view_attrs(attrs@),
        ),
        final (fslots)@.len() == old(fslots)@.len(),
        final (sslots)@.len() == old(sslots)@.len(),
        forall|g: int|
            0 <= g < final (sslots)@.len() ==> final (sslots)@[g]@.len() == old(
                sslots,
            )@[g]@.len(),
{
    let ghost va = view_attrs(attrs@);
    let ghost init = state_of(fslots@, sslots@, errors@);
    let n = attrs.len();
    let mut i: usize = 0;
    proof {
        assert(va.take(0) =~= Seq::<SpecAttribute>::empty());
    }
    while i < n
        invariant
            0 <= i <= n,
            fslots@.len() == strukt.fields@.len(),
            sslots@.len() == strukt.split_fields@.len(),
            forall|g: int|
                0 <= g < sslots@.len() ==> sslots@[g]@.len()
                    == strukt.split_fields@[g].fields@.len(),
            state_of(fslots@, sslots@, errors@) == spec_process_attrs(
                strukt@,
                config@,
                init,
                va.take(i as int),
            ),
        decreases n - i,
    {
        proof {
            assert(va.take(i + 1).drop_last() =~= va.take(i as int));
            assert(va.take(i + 1).last() == va[i as int]);
        }
        match &config.scope {
            Some(sc) => {
                match &attrs[i].value {
                    Meta::List(name, items) => {
                        if str_eq(name.as_str(), sc.as_str()) {
                            let ghost sitems = crate::ast::view_meta_seq(items@);
                            proof {
                                crate::ast::lemma_view_meta_seq(items@);
                            }
                            let ghost before = state_of(fslots@, sslots@, errors@);
                            let m = items.len();
                            let mut j: usize = 0;
                            proof {
                                assert(sitems.take(0) =~= Seq::<SpecMeta>::empty());
                            }
                            while j < m
                                invariant
                                    0 <= j <= m,
                                    fslots@.len() == strukt.fields@.len(),
                                    sslots@.len() == strukt.split_fields@.len(),
                                    forall|g: int|
                                        0 <= g < sslots@.len() ==> sslots@[g]@.len()
                                            == strukt.split_fields@[g].fields@.len(),
                                    state_of(fslots@, sslots@, errors@) == spec_process_items(
                                        strukt@,
                                        before,
                                        sitems.take(j as int),
                                        config@.scope,
                                    ),
                                decreases m - j,
                            {
                                proof {
                                    assert(sitems.take(j + 1).drop_last() =~= sitems.take(
                                        j as int,
                                    ));
                                    assert(sitems.take(j + 1).last() == sitems[j as int]);
                                }
                                match_item(strukt, &items[j], fslots, sslots, errors, &config.scope);
                                j += 1;
                            }
                            proof {
                                assert(sitems.take(m as int) =~= sitems);
                            }
                        }
                    },
                    _ => {},
                }
            },
            None => {
                match_item(strukt, &attrs[i].value, fslots, sslots, errors, &config.scope);
            },
        }
        i += 1;
    }
    proof {
        assert(va.take(n as int) =~= va);
    }
}

/// The view of a dissection-and-conversion result.
pub open spec fn view_expand_result(r: Result<Record, Vec<ConvertError>>) -> Result<
    SpecRecord,
    Seq<SpecConvertError>,
> {
    match r {
        Ok(rec) => Ok(rec@),
        Err(es) => Err(view_errors(es@)),
    }
}

/// Sets up the initial slot of every field of a list, in order.
#[verifier::loop_isolation(false)]
fn setup_field_list(
    fields: &Vec<Field>,
    record: &String,
    scope: &Option<String>,
    errors: &mut Vec<ConvertError>,
) -> (slots: Vec<Slot>)
    ensures
        ({
            let (ss, serrs) = spec_setup_fields(
                crate::dissect::view_fields(fields@),
                record@,
                crate::config::view_opt_str(*scope),
            );
            view_slots(slots@) == ss && view_errors(final (errors)@) == view_errors(
                old(errors)@,
            ) + serrs
        }),
        slots@.len() == fields@.len(),
{
    let ghost sfields = crate::dissect::view_fields(fields@);
    let ghost sscope = crate::config::view_opt_str(*scope);
    let ghost errs0 = view_errors(errors@);
    let mut slots: Vec<Slot> = Vec::new();
    let n = fields.len();
    let mut i: usize = 0;
    proof {
        assert(sfields.take(0) =~= Seq::<SpecField>::empty());
        assert(view_slots(slots@) =~= Seq::<SpecSlot>::empty());
        assert(view_errors(errors@) =~= errs0 + Seq::<SpecConvertError>::empty());
    }
    while i < n
        invariant
            0 <= i <= n,
            slots@.len() == i,
            ({
                let (ss, serrs) = spec_setup_fields(sfields.take(i as int), record@, sscope);
                view_slots(slots@) == ss && view_errors(errors@) == errs0 + serrs
            }),
        decreases n - i,
    {
        proof {
            assert(sfields.take(i + 1).drop_last() =~= sfields.take(i as int));
            assert(sfields.take(i + 1).last() == sfields[i as int]);
        }
        let ghost errs_pre = view_errors(errors@);
        let slot = setup_field(&fields[i], record, scope, errors);
        proof {
            lemma_view_slots_push(slots@, slot);
            let (ss1, serrs1) = spec_setup_fields(sfields.take(i as int), record@, sscope);
            let (slot2, err2) = spec_setup_slot(sfields[i as int], record@, sscope);
            assert(view_errors(errors@) =~= errs0 + (serrs1 + err2));
        }
        slots.push(slot);
        i += 1;
    }
    proof {
        assert(sfields.take(n as int) =~= sfields);
    }
    slots
}

/// Sets up the initial slots of every split group, group by group.
#[verifier::loop_isolation(false)]
fn setup_split_list(
    splits: &Vec<SplitFields>,
    record: &String,
    scope: &Option<String>,
    errors: &mut Vec<ConvertError>,
) -> (slots: Vec<Vec<Slot>>)
    ensures
        ({
            let (ss, serrs) = spec_setup_splits(
                crate::dissect::view_splits(splits@),
                record@,
                crate::config::view_opt_str(*scope),
            );
            view_split_slots(slots@) == ss && view_errors(final (errors)@) == view_errors(
                old(errors)@,
            ) + serrs
        }),
        slots@.len() == splits@.len(),
        forall|g: int| 0 <= g < splits@.len() ==> slots@[g]@.len() == splits@[g].fields@.len(),
{
    let ghost ssplits = crate::dissect::view_splits(splits@);
    let ghost sscope = crate::config::view_opt_str(*scope);
    let ghost errs0 = view_errors(errors@);
    let mut slots: Vec<Vec<Slot>> = Vec::new();
    let n = splits.len();
    let mut g: usize = 0;
    proof {
        assert(ssplits.take(0) =~= Seq::<SpecSplitFields>::empty());
        assert(view_split_slots(slots@) =~= Seq::<Seq<SpecSlot>>::empty());
        assert(view_errors(errors@) =~= errs0 + Seq::<SpecConvertError>::empty());
    }
    while g < n
        invariant
            0 <= g <= n,
            slots@.len() == g,
            forall|k: int| 0 <= k < g ==> slots@[k]@.len() == splits@[k].fields@.len(),
            ({
                let (ss, serrs) = spec_setup_splits(ssplits.take(g as int), record@, sscope);
                view_split_slots(slots@) == ss && view_errors(errors@) == errs0 + serrs
            }),
        decreases n - g,
    {
        proof {
            assert(ssplits.take(g + 1).drop_last() =~= ssplits.take(g as int));
            assert(ssplits.take(g + 1).last() == ssplits[g as int]);
        }
        let ghost errs_pre = view_errors(errors@);
        let gslots = setup_field_list(&splits[g].fields, record, scope, errors);
        proof {
            let (ss1, serrs1) = spec_setup_splits(ssplits.take(g as int), record@, sscope);
            let (gs2, gerrs2) = spec_setup_fields(ssplits[g as int].fields, record@, sscope);
            assert(view_errors(errors@) =~= errs0 + (serrs1 + gerrs2));
            assert(view_split_slots(slots@.push(gslots)) =~= view_split_slots(slots@).push(
                view_slots(gslots@),
            ));
        }
        slots.push(gslots);
        g += 1;
    }
    proof {
        assert(ssplits.take(n as int) =~= ssplits);
    }
    slots
}

/// One assembled record field.
pub fn write_field(ident: &String, slot: Slot) -> (r: RecordField)
    ensures
        r@ == (SpecRecordField { ident: ident@, value: slot@ }),
{
    RecordField { ident: ident.clone(), value: slot }
}

/// Assembles the record from the final slots: the docs field first, then
/// the ordinary fields, then every split group's children.
#[verifier::loop_isolation(false)]
#[verifier::rlimit(60)]
fn assemble(
    strukt: &Struct,
    attrs: &Vec<Attribute>,
    fslots: &Vec<Slot>,
    sslots: &Vec<Vec<Slot>>,
) -> (rec: Record)
    requires
        fslots@.len() == strukt.fields@.len(),
        sslots@.len() == strukt.split_fields@.len(),
        forall|g: int|
            0 <= g < sslots@.len() ==> sslots@[g]@.len()
                == strukt.split_fields@[g].fields@.len(),
    ensures
        rec@.ident == strukt@.ident,
        rec@.fields == spec_docs_record_part(strukt@, view_attrs(attrs@)) + spec_ord_record_part(
            strukt@.fields,
            view_slots(fslots@),
        ) + spec_split_record_fields(strukt@.split_fields, view_split_slots(sslots@)),
{
    let ghost ssplits = crate::dissect::view_splits(strukt.split_fields@);
    let ghost fsplits = view_split_slots(sslots@);
    let nf = strukt.fields.len();
    let ns = strukt.split_fields.len();
    let mut out: Vec<RecordField> = Vec::new();
    // The docs field comes first, if one was configured.
    match &strukt.docs {
        Some(d) => {
            let texts = setup_docs(attrs);
            let mut vals: Vec<Value> = Vec::new();
            let nd = texts.len();
            let mut k: usize = 0;
            while k < nd
                invariant
                    0 <= k <= nd,
                    nd == texts@.len(),
                    vals@.len() == k,
                    forall|t: int|
                        0 <= t < k ==> vals@[t]@ == SpecValue::Str(view_strings(texts@)[t]),
                decreases nd - k,
            {
                vals.push(Value::Str(texts[k].clone()));
                k += 1;
            }
            let slot = Slot::Many(vals);
            proof {
                assert(view_values(vals@) =~= Seq::new(
                    spec_docs(view_attrs(attrs@)).len(),
                    |t: int| SpecValue::Str(spec_docs(view_attrs(attrs@))[t]),
                ));
            }
            out.push(write_field(&d.ident, slot));
        },
        None => {},
    }
    let ghost docs_part0 = out@;
    let ghost docs_len = out@.len() as int;
    proof {
        assert(Seq::new(docs_part0.len(), |t: int| docs_part0[t]@) =~= spec_docs_record_part(
            strukt@,
            view_attrs(attrs@),
        ));
    }
    // Then the ordinary fields.
    let mut i: usize = 0;
    while i < nf
        invariant
            0 <= i <= nf,
            nf == strukt.fields@.len(),
            fslots@.len() == nf,
            out@.len() == docs_len + i,
            forall|t: int| 0 <= t < docs_len ==> out@[t] == docs_part0[t],
            forall|t: int|
                0 <= t < i ==> out@[docs_len + t]@ == (SpecRecordField {
                    ident: strukt.fields@[t]@.ident,
                    value: fslots@[t]@,
                }),
        decreases nf - i,
    {
        out.push(write_field(&strukt.fields[i].ident, clone_slot(&fslots[i])));
        i += 1;
    }
    // Then every split group's children, group by group.
    let mut g: usize = 0;
    proof {
        assert(ssplits.take(0) =~= Seq::<SpecSplitFields>::empty());
        assert(fsplits.take(0) =~= Seq::<Seq<SpecSlot>>::empty());
    }
    while g < ns
        invariant
            0 <= g <= ns,
            ns == strukt.split_fields@.len(),
            nf == strukt.fields@.len(),
            fslots@.len() == nf,
            sslots@.len() == ns,
            forall|k: int|
                0 <= k < ns ==> sslots@[k]@.len() == strukt.split_fields@[k].fields@.len(),
            out@.len() == docs_len + nf + spec_split_record_fields(
                ssplits.take(g as int),
                fsplits.take(g as int),
            ).len(),
            forall|t: int| 0 <= t < docs_len ==> out@[t] == docs_part0[t],
            forall|t: int|
                0 <= t < nf ==> out@[docs_len + t]@ == (SpecRecordField {
                    ident: strukt.fields@[t]@.ident,
                    value: fslots@[t]@,
                }),
            forall|t: int|
                0 <= t < out@.len() - docs_len - nf ==> out@[docs_len + nf + t]@
                    == spec_split_record_fields(
                    ssplits.take(g as int),
                    fsplits.take(g as int),
                )[t],
        decreases ns - g,
    {
        let group = &strukt.split_fields[g];
        let m = group.fields.len();
        let ghost base = out@.len() as int;
        let ghost part_before = spec_split_record_fields(
            ssplits.take(g as int),
            fsplits.take(g as int),
        );
        let ghost out_before = out@;
        let mut j: usize = 0;
        while j < m
            invariant
                0 <= j <= m,
                m == group.fields@.len(),
                0 <= g < ns,
                ns == strukt.split_fields@.len(),
                sslots@.len() == ns,
                group == &strukt.split_fields@[g as int],
                sslots@[g as int]@.len() == m,
                out@.len() == base + j,
                forall|t: int| 0 <= t < base ==> out@[t] == out_before[t],
                forall|t: int|
                    0 <= t < j ==> out@[base + t]@ == (SpecRecordField {
                        ident: group.fields@[t]@.ident,
                        value: fsplits[g as int][t],
                    }),
            decreases m - j,
        {
            out.push(write_field(&group.fields[j].ident, clone_slot(&sslots[g][j])));
            j += 1;
        }
        proof {
            assert(ssplits.take(g + 1).drop_last() =~= ssplits.take(g as int));
            assert(ssplits.take(g + 1).last() == ssplits[g as int]);
            assert(fsplits.take(g + 1).drop_last() =~= fsplits.take(g as int));
            assert(fsplits.take(g + 1).last() == fsplits[g as int]);
        }
        g += 1;
    }
    proof {
        assert(ssplits.take(ns as int) =~= ssplits);
        assert(fsplits.take(ns as int) =~= fsplits);
    }
    let rec = Record { ident: strukt.ident.clone(), fields: out };
    proof {
        assert(rec@.fields =~= spec_docs_record_part(strukt@, view_attrs(attrs@))
            + spec_ord_record_part(strukt@.fields, view_slots(fslots@))
            + spec_split_record_fields(strukt@.split_fields, view_split_slots(sslots@)));
    }
    rec
}

/// Runs the whole conversion: sets up every field, scans the annotation
/// list, and either assembles the record or returns every collected
/// error.
pub fn expand(strukt: &Struct, config: &Config, attrs: &Vec<Attribute>) -> (r: Result<
    Record,
    Vec<ConvertError>,
>)
    ensures
        view_expand_result(r) == spec_expand(strukt@, config@, view_attrs(attrs@)),
{
    let mut errors: Vec<ConvertError> = Vec::new();
    proof {
        assert(view_errors(errors@) =~= Seq::<SpecConvertError>::empty());
    }
    let mut fslots = setup_field_list(&strukt.fields, &strukt.ident, &config.scope, &mut errors);
    let ghost ferrs = view_errors(errors@);
    let mut sslots = setup_split_list(
        &strukt.split_fields,
        &strukt.ident,
        &config.scope,
        &mut errors,
    );
    proof {
        let (fs, fe) = spec_setup_fields(strukt@.fields, strukt@.ident, config@.scope);
        let (ss, se) = spec_setup_splits(strukt@.split_fields, strukt@.ident, config@.scope);
        assert(view_errors(errors@) =~= (Seq::<SpecConvertError>::empty() + fe) + se);
        assert(view_errors(errors@) =~= fe + se);
    }
    match_loop(strukt, config, attrs, &mut fslots, &mut sslots, &mut errors);
    let ghost fin = spec_final_state(strukt@, config@, view_attrs(attrs@));
    proof {
        assert(state_of(fslots@, sslots@, errors@) == fin);
    }
    if errors.len() == 0 {
        proof {
            assert(view_errors(errors@) =~= Seq::<SpecConvertError>::empty());
            assert(fin.errors.len() == 0);
        }
        let rec = assemble(strukt, attrs, &fslots, &sslots);
        proof {
            assert(view_slots(fslots@) == fin.fields);
            assert(view_split_slots(sslots@) == fin.splits);
        }
        Ok(rec)
    } else {
        proof {
            assert(view_errors(errors@).len() == errors@.len());
        }
        Err(errors)
    }
}

/// The convenience conversion: for inputs on which the fallible path
/// succeeds, hands back the record directly.
pub fn from_attributes(strukt: &Struct, config: &Config, attrs: &Vec<Attribute>) -> (r: Record)
    requires
        spec_expand(strukt@, config@, view_attrs(attrs@)) is Ok,
    ensures
        r@ == spec_expand(strukt@, config@, view_attrs(attrs@))->Ok_0,
{
    match expand(strukt, config, attrs) {
        Ok(rec) => rec,
        Err(_) => vstd::pervasive::unreached(),
    }
}

/// The driver: dissects the declaration and, when dissection succeeds,
/// runs the conversion on the given annotations. A dissection failure
/// aborts the whole invocation; conversion errors are collected in the
/// inner result.
pub fn derive<R: crate::config::FieldConfigResolver>(
    decl: &crate::ast::Declaration,
    config: &Config,
    resolver: &R,
    attrs: &Vec<Attribute>,
) -> (r: Result<Result<Record, Vec<ConvertError>>, crate::dissect::DissectError>)
    ensures
        match r {
            Err(e) => crate::dissect::spec_dissect(
                decl@,
                config@,
                crate::dissect::spec_resolver_of(resolver),
            ) == Err::<crate::dissect::SpecStruct, crate::dissect::SpecDissectError>(e@),
            Ok(inner) => {
                &&& crate::dissect::spec_dissect(
                    decl@,
                    config@,
                    crate::dissect::spec_resolver_of(resolver),
                ) is Ok
                &&& view_expand_result(inner) == spec_expand(
                    crate::dissect::spec_dissect(
                        decl@,
                        config@,
                        crate::dissect::spec_resolver_of(resolver),
                    )->Ok_0,
                    config@,
                    view_attrs(attrs@),
                )
            },
        },
{
    match crate::dissect::dissect(decl, config, resolver) {
        Err(e) => Err(e),
        Ok(strukt) => Ok(expand(&strukt, config, attrs)),
    }
}

} // verus!