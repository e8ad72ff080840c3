//! The record dissector: validates the shape of one record declaration,
//! resolves each field's configuration, classifies each field's type, and
//! groups fields that share a split-attribute parent.

use vstd::prelude::*;

use crate::ast::{
    clone_ty_expr, str_eq, Declaration, FieldDecl, SpecBody, SpecDeclaration, SpecFieldDecl,
    SpecTyExpr, TyExpr,
};
use crate::classify::{
    clone_wrapper, spec_classify_wrapper, spec_wrapper_inner, wrapper_eq, wrapper_try_from, Lit,
    SpecTy, SpecTyError, SpecWrapper, Ty, TyError, Wrapper,
};
use crate::config::{
    Config, Defaulted, FieldConfig, FieldConfigResolver, SpecConfig, SpecDefaulted,
    SpecFieldConfig,
};

verus! {

/// One dissected field: its identifier, the attribute name it answers to,
/// its classified type, and its default and flag policies.
#[derive(Debug, PartialEq, Eq)]
pub struct Field {
    pub ident: String,
    pub attribute: String,
    pub ty: Wrapper,
    pub default: Defaulted,
    pub flag_value: Option<String>,
}

/// Mathematical model of a [`Field`].
pub struct SpecField {
    pub ident: Seq<char>,
    pub attribute: Seq<char>,
    pub ty: SpecWrapper,
    pub default: SpecDefaulted,
    pub flag_value: Option<Seq<char>>,
}

impl View for Field {
    type V = SpecField;

    open spec fn view(&self) -> SpecField {
        SpecField {
            ident: self.ident@,
            attribute: self.attribute@,
            ty: self.ty@,
            default: self.default@,
            flag_value: crate::config::view_opt_str(self.flag_value),
        }
    }
}

/// The view of a field list.
pub open spec fn view_fields(s: Seq<Field>) -> Seq<SpecField> {
    Seq::new(s.len(), |i: int| s[i]@)
}

/// One split group: fields that all take their value from occurrences of
/// the shared parent attribute name. All members classify to the same
/// wrapper and type; `decl_ty` is the declared type of the first member,
/// kept for diagnostics.
#[derive(Debug, PartialEq, Eq)]
pub struct SplitFields {
    pub parent: String,
    pub ty: Wrapper,
    pub decl_ty: TyExpr,
    pub fields: Vec<Field>,
}

/// Mathematical model of a [`SplitFields`].
pub struct SpecSplitFields {
    pub parent: Seq<char>,
    pub ty: SpecWrapper,
    pub decl_ty: SpecTyExpr,
    pub fields: Seq<SpecField>,
}

impl View for SplitFields {
    type V = SpecSplitFields;

    open spec fn view(&self) -> SpecSplitFields {
        SpecSplitFields {
            parent: self.parent@,
            ty: self.ty@,
            decl_ty: self.decl_ty@,
            fields: view_fields(self.fields@),
        }
    }
}

/// The view of a split-group list.
pub open spec fn view_splits(s: Seq<SplitFields>) -> Seq<SpecSplitFields> {
    Seq::new(s.len(), |i: int| s[i]@)
}

/// A dissected record type: the docs field if one was configured, the
/// ordinary fields in declaration order, and the split groups in
/// first-seen order.
#[derive(Debug, PartialEq, Eq)]
pub struct Struct {
    pub ident: String,
    pub lifetime: Option<String>,
    pub docs: Option<Field>,
    pub fields: Vec<Field>,
    pub split_fields: Vec<SplitFields>,
}

/// Mathematical model of a [`Struct`].
pub struct SpecStruct {
    pub ident: Seq<char>,
    pub lifetime: Option<Seq<char>>,
    pub docs: Option<SpecField>,
    pub fields: Seq<SpecField>,
    pub split_fields: Seq<SpecSplitFields>,
}

impl View for Struct {
    type V = SpecStruct;

    open spec fn view(&self) -> SpecStruct {
        SpecStruct {
            ident: self.ident@,
            lifetime: crate::config::view_opt_str(self.lifetime),
            docs: match &self.docs {
                Some(f) => Some(f@),
                None => None,
            },
            fields: view_fields(self.fields@),
            split_fields: view_splits(self.split_fields@),
        }
    }
}

/// A dissection failure. Structural violations abort the whole
/// invocation; each variant carries what a diagnostic needs.
#[derive(Debug, PartialEq, Eq)]
pub enum DissectError {
    /// The declaration is not a plain field record.
    StructBody,
    /// The declaration has generic type parameters.
    TyParams { params: Vec<String> },
    /// The declaration has more than one lifetime parameter.
    Lifetimes { lifetimes: Vec<String> },
    /// A field's type could not be classified; carries the cause.
    Field { ident: String, cause: TyError },
    /// The configured docs field is not a repeated borrowed string.
    DocsTy { ident: String },
    /// Two fields of one split group classify to different types; names
    /// the offending field and the group's established declared type.
    SplitFieldTys { parent: String, prior_ty: TyExpr, field: String },
    /// A flag value was configured without a default on a non-boolean
    /// field.
    WordValueNoDefault { ident: String },
}

/// Mathematical model of a [`DissectError`].
pub enum SpecDissectError {
    StructBody,
    TyParams { params: Seq<Seq<char>> },
    Lifetimes { lifetimes: Seq<Seq<char>> },
    Field { ident: Seq<char>, cause: SpecTyError },
    DocsTy { ident: Seq<char> },
    SplitFieldTys { parent: Seq<char>, prior_ty: SpecTyExpr, field: Seq<char> },
    WordValueNoDefault { ident: Seq<char> },
}

impl View for DissectError {
    type V = SpecDissectError;

    open spec fn view(&self) -> SpecDissectError {
        match self {
            DissectError::StructBody => SpecDissectError::StructBody,
            DissectError::TyParams { params } => SpecDissectError::TyParams {
                params: Seq::new(params@.len(), |i: int| params@[i]@),
            },
            DissectError::Lifetimes { lifetimes } => SpecDissectError::Lifetimes {
                lifetimes: Seq::new(lifetimes@.len(), |i: int| lifetimes@[i]@),
            },
            DissectError::Field { ident, cause } => SpecDissectError::Field {
                ident: ident@,
                cause: cause@,
            },
            DissectError::DocsTy { ident } => SpecDissectError::DocsTy { ident: ident@ },
            DissectError::SplitFieldTys { parent, prior_ty, field } => {
                SpecDissectError::SplitFieldTys {
                    parent: parent@,
                    prior_ty: prior_ty@,
                    field: field@,
                }
            },
            DissectError::WordValueNoDefault { ident } => SpecDissectError::WordValueNoDefault {
                ident: ident@,
            },
        }
    }
}

/// The view of a dissection result.
pub open spec fn view_dissect_result(r: Result<Struct, DissectError>) -> Result<
    SpecStruct,
    SpecDissectError,
> {
    match r {
        Ok(s) => Ok(s@),
        Err(e) => Err(e@),
    }
}

/// The resolver as a mathematical function from a field's annotations to
/// its configuration.
pub open spec fn spec_resolver_of<R: FieldConfigResolver>(r: &R) -> spec_fn(
    Seq<crate::ast::SpecAttribute>,
) -> SpecFieldConfig {
    |attrs: Seq<crate::ast::SpecAttribute>| r.spec_resolve(attrs)
}

/// What building one field yields: its type classified (a default makes a
/// bare type acceptable), its attribute name resolved, and the rule that
/// a flag value without a default is only allowed on boolean fields.
pub open spec fn spec_field_try_from(fd: SpecFieldDecl, cfg: SpecFieldConfig) -> Result<
    SpecField,
    SpecDissectError,
> {
    let has_default = !(cfg.default is Nope);
    match spec_classify_wrapper(fd.ty, has_default) {
        Err(e) => Err(SpecDissectError::Field { ident: fd.ident, cause: e }),
        Ok(w) => {
            if cfg.flag_value is Some && cfg.default is Nope && spec_wrapper_inner(w)
                != SpecTy::Literal(Lit::Bool) {
                Err(SpecDissectError::WordValueNoDefault { ident: fd.ident })
            } else {
                Ok(
                    SpecField {
                        ident: fd.ident,
                        attribute: match cfg.attribute {
                            Some(a) => a,
                            None => fd.ident,
                        },
                        ty: w,
                        default: cfg.default,
                        flag_value: cfg.flag_value,
                    },
                )
            }
        },
    }
}

/// The index of the first declared field named `name`, from `i` on.
pub open spec fn spec_find_field(fields: Seq<SpecFieldDecl>, name: Seq<char>, i: int) -> Option<
    int,
>
    decreases fields.len() - i,
{
    if i < 0 || i >= fields.len() {
        None
    } else if fields[i].ident == name {
        Some(i)
    } else {
        spec_find_field(fields, name, i + 1)
    }
}

/// What resolving the docs field yields: nothing when none is configured;
/// otherwise the named field, which must classify exactly as a repeated
/// borrowed string.
pub open spec fn spec_docs_field(
    fields: Seq<SpecFieldDecl>,
    config: SpecConfig,
    resolve: spec_fn(Seq<crate::ast::SpecAttribute>) -> SpecFieldConfig,
) -> Result<Option<SpecField>, SpecDissectError> {
    match config.docs {
        None => Ok(None),
        Some(name) => match spec_find_field(fields, name, 0) {
            None => Ok(None),
            Some(idx) => {
                let fd = fields[idx];
                match spec_field_try_from(fd, resolve(fd.attrs)) {
                    Err(e) => Err(e),
                    Ok(f) => {
                        if f.ty == SpecWrapper::Repeated(SpecTy::Literal(Lit::Str)) {
                            Ok(Some(f))
                        } else {
                            Err(SpecDissectError::DocsTy { ident: fd.ident })
                        }
                    },
                }
            },
        },
    }
}

/// The index of the split group with the given parent name.
pub open spec fn spec_find_split(splits: Seq<SpecSplitFields>, parent: Seq<char>, i: int) -> Option<
    int,
>
    decreases splits.len() - i,
{
    if i < 0 || i >= splits.len() {
        None
    } else if splits[i].parent == parent {
        Some(i)
    } else {
        spec_find_split(splits, parent, i + 1)
    }
}

/// What collecting the fields from `i` on yields, given what has been
/// collected so far: ordinary fields keep declaration order; a field with
/// a split parent joins its group, which must already hold the same
/// classified type; groups appear in first-seen order.
pub open spec fn spec_collect_fields(
    fields: Seq<SpecFieldDecl>,
    config: SpecConfig,
    resolve: spec_fn(Seq<crate::ast::SpecAttribute>) -> SpecFieldConfig,
    i: int,
    acc_fields: Seq<SpecField>,
    acc_splits: Seq<SpecSplitFields>,
) -> Result<(Seq<SpecField>, Seq<SpecSplitFields>), SpecDissectError>
    decreases fields.len() - i,
{
    if i < 0 || i >= fields.len() {
        Ok((acc_fields, acc_splits))
    } else {
        let fd = fields[i];
        if config.docs == Some(fd.ident) {
            spec_collect_fields(fields, config, resolve, i + 1, acc_fields, acc_splits)
        } else {
            let cfg = resolve(fd.attrs);
            match spec_field_try_from(fd, cfg) {
                Err(e) => Err(e),
                Ok(f) => match cfg.split_attribute_of {
                    None => spec_collect_fields(
                        fields,
                        config,
                        resolve,
                        i + 1,
                        acc_fields.push(f),
                        acc_splits,
                    ),
                    Some(parent) => match spec_find_split(acc_splits, parent, 0) {
                        Some(g) => {
                            if acc_splits[g].ty == f.ty {
                                let grown = SpecSplitFields {
                                    parent: acc_splits[g].parent,
                                    ty: acc_splits[g].ty,
                                    decl_ty: acc_splits[g].decl_ty,
                                    fields: acc_splits[g].fields.push(f),
                                };
                                spec_collect_fields(
                                    fields,
                                    config,
                                    resolve,
                                    i + 1,
                                    acc_fields,
                                    acc_splits.update(g, grown),
                                )
                            } else {
                                Err(
                                    SpecDissectError::SplitFieldTys {
                                        parent,
                                        prior_ty: acc_splits[g].decl_ty,
                                        field: fd.ident,
                                    },
                                )
                            }
                        },
                        None => {
                            let group = SpecSplitFields {
                                parent,
                                ty: f.ty,
                                decl_ty: fd.ty,
                                fields: seq![f],
                            };
                            spec_collect_fields(
                                fields,
                                config,
                                resolve,
                                i + 1,
                                acc_fields,
                                acc_splits.push(group),
                            )
                        },
                    },
                },
            }
        }
    }
}

/// What dissection yields on the whole declaration: only a plain field
/// record with no type parameters and at most one lifetime is accepted;
/// then the docs field is resolved and every remaining field collected.
pub open spec fn spec_dissect(
    decl: SpecDeclaration,
    config: SpecConfig,
    resolve: spec_fn(Seq<crate::ast::SpecAttribute>) -> SpecFieldConfig,
) -> Result<SpecStruct, SpecDissectError> {
    match decl.body {
        SpecBody::Fields(fields) => {
            if decl.ty_params.len() != 0 {
                Err(SpecDissectError::TyParams { params: decl.ty_params })
            } else if decl.lifetimes.len() > 1 {
                Err(SpecDissectError::Lifetimes { lifetimes: decl.lifetimes })
            } else {
                match spec_docs_field(fields, config, resolve) {
                    Err(e) => Err(e),
                    Ok(docs) => match spec_collect_fields(
                        fields,
                        config,
                        resolve,
                        0,
                        Seq::empty(),
                        Seq::empty(),
                    ) {
                        Err(e) => Err(e),
                        Ok((ordinary, splits)) => Ok(
                            SpecStruct {
                                ident: decl.ident,
                                lifetime: if decl.lifetimes.len() == 1 {
                                    Some(decl.lifetimes[0])
                                } else {
                                    None
                                },
                                docs,
                                fields: ordinary,
                                split_fields: splits,
                            },
                        ),
                    },
                }
            }
        },
        _ => Err(SpecDissectError::StructBody),
    }
}

/// Deep copy of a list of names.
#[verifier::loop_isolation(false)]
fn clone_string_vec(v: &Vec<String>) -> (r: Vec<String>)
    ensures
        r@.len() == v@.len(),
        forall|i: int| 0 <= i < v@.len() ==> r@[i]@ == v@[i]@,
{
    let mut out: Vec<String> = Vec::new();
    let n = v.len();
    let mut i: usize = 0;
    while i < n
        invariant
            0 <= i <= n,
            out@.len() == i,
            forall|j: int| 0 <= j < i ==> out@[j]@ == v@[j]@,
        decreases n - i,
    {
        out.push(v[i].clone());
        i += 1;
    }
    out
}

/// Builds one dissected field from its declaration and its resolved
/// configuration.
pub fn field_try_from(fd: &FieldDecl, cfg: FieldConfig) -> (r: Result<Field, DissectError>)
    ensures
        match r {
            Ok(f) => spec_field_try_from(fd@, cfg@) == Ok::<SpecField, SpecDissectError>(f@),
            Err(e) => spec_field_try_from(fd@, cfg@) == Err::<SpecField, SpecDissectError>(e@),
        },
{
    let has_default = match &cfg.default {
        Defaulted::Nope => false,
        _ => true,
    };
    match wrapper_try_from(&fd.ty, has_default) {
        Err(e) => Err(DissectError::Field { ident: fd.ident.clone(), cause: e }),
        Ok(w) => {
            let inner_is_bool = match w.inner() {
                Ty::Literal(Lit::Bool) => true,
                _ => false,
            };
            if cfg.flag_value.is_some() && !has_default && !inner_is_bool {
                Err(DissectError::WordValueNoDefault { ident: fd.ident.clone() })
            } else {
                let attribute = match cfg.attribute {
                    Some(a) => a,
                    None => fd.ident.clone(),
                };
                Ok(
                    Field {
                        ident: fd.ident.clone(),
                        attribute,
                        ty: w,
                        default: cfg.default,
                        flag_value: cfg.flag_value,
                    },
                )
            }
        },
    }
}

/// Finding a split group from the start is the same as finding it past a
/// prefix with no match.
proof fn lemma_find_split_prefix(splits: Seq<SpecSplitFields>, parent: Seq<char>, i: int)
    requires
        0 <= i <= splits.len(),
        forall|j: int| 0 <= j < i ==> splits[j].parent != parent,
    ensures
        spec_find_split(splits, parent, 0) == spec_find_split(splits, parent, i),
    decreases i,
{
    if i > 0 {
        lemma_find_split_prefix(splits, parent, i - 1);
    }
}

/// Finding a declared field from the start is the same as finding it past
/// a prefix with no match.
proof fn lemma_find_field_prefix(fields: Seq<SpecFieldDecl>, name: Seq<char>, i: int)
    requires
        0 <= i <= fields.len(),
        forall|j: int| 0 <= j < i ==> fields[j].ident != name,
    ensures
        spec_find_field(fields, name, 0) == spec_find_field(fields, name, i),
    decreases i,
{
    if i > 0 {
        lemma_find_field_prefix(fields, name, i - 1);
    }
}

/// A pushed field list views to the pushed view.
proof fn lemma_view_fields_push(s: Seq<Field>, f: Field)
    ensures
        view_fields(s.push(f)) == view_fields(s).push(f@),
{
    assert(view_fields(s.push(f)) =~= view_fields(s).push(f@));
}

/// A pushed split-group list views to the pushed view.
proof fn lemma_view_splits_push(s: Seq<SplitFields>, g: SplitFields)
    ensures
        view_splits(s.push(g)) == view_splits(s).push(g@),
{
    assert(view_splits(s.push(g)) =~= view_splits(s).push(g@));
}

/// An updated split-group list views to the updated view.
proof fn lemma_view_splits_update(s: Seq<SplitFields>, i: int, g: SplitFields)
    requires
        0 <= i < s.len(),
    ensures
        view_splits(s.update(i, g)) == view_splits(s).update(i, g@),
{
    assert(view_splits(s.update(i, g)) =~= view_splits(s).update(i, g@));
}

/// The index of the split group with the given parent name, if any.
#[verifier::loop_isolation(false)]
fn find_split(splits: &Vec<SplitFields>, parent: &str) -> (r: Option<usize>)
    ensures
        match r {
            Some(g) => 0 <= g < splits@.len() && spec_find_split(view_splits(splits@), parent@, 0)
                == Some(g as int),
            None => spec_find_split(view_splits(splits@), parent@, 0) is None,
        },
{
    let n = splits.len();
    let mut i: usize = 0;
    while i < n
        invariant
            0 <= i <= n,
            forall|j: int| 0 <= j < i ==> view_splits(splits@)[j].parent != parent@,
        decreases n - i,
    {
        if str_eq(splits[i].parent.as_str(), parent) {
            proof {
                lemma_find_split_prefix(view_splits(splits@), parent@, i as int);
            }
            return Some(i);
        }
        i += 1;
    }
    proof {
        lemma_find_split_prefix(view_splits(splits@), parent@, n as int);
    }
    None
}

/// The index of the declared field named `name`, if any.
#[verifier::loop_isolation(false)]
fn find_field(fields: &Vec<FieldDecl>, name: &str) -> (r: Option<usize>)
    ensures
        match r {
            Some(idx) => 0 <= idx < fields@.len() && spec_find_field(
                crate::ast::view_field_decls(fields@),
                name@,
                0,
            ) == Some(idx as int),
            None => spec_find_field(crate::ast::view_field_decls(fields@), name@, 0) is None,
        },
{
    let n = fields.len();
    let mut i: usize = 0;
    while i < n
        invariant
            0 <= i <= n,
            forall|j: int| 0 <= j < i ==> crate::ast::view_field_decls(fields@)[j].ident != name@,
        decreases n - i,
    {
        if str_eq(fields[i].ident.as_str(), name) {
            proof {
                lemma_find_field_prefix(crate::ast::view_field_decls(fields@), name@, i as int);
            }
            return Some(i);
        }
        i += 1;
    }
    proof {
        lemma_find_field_prefix(crate::ast::view_field_decls(fields@), name@, n as int);
    }
    None
}

/// Dissects one record declaration under the given configuration,
/// resolving each field's own configuration through `resolver`.
#[verifier::loop_isolation(false)]
pub fn dissect<R: FieldConfigResolver>(decl: &Declaration, config: &Config, resolver: &R) -> (r:
    Result<Struct, DissectError>)
    ensures
        view_dissect_result(r) == spec_dissect(decl@, config@, spec_resolver_of(resolver)),
{
    let ghost res = spec_resolver_of(resolver);
    let fields: &Vec<FieldDecl> = match &decl.body {
        crate::ast::Body::Fields(fs) => fs,
        _ => {
            return Err(DissectError::StructBody);
        },
    };
    let ghost sfields = crate::ast::view_field_decls(fields@);
    proof {
        assert(decl@.body == SpecBody::Fields(sfields));
    }
    if decl.ty_params.len() != 0 {
        let params = clone_string_vec(&decl.ty_params);
        let e = DissectError::TyParams { params };
        proof {
            assert(e@->TyParams_params =~= decl@.ty_params);
        }
        return Err(e);
    }
    if decl.lifetimes.len() > 1 {
        let lifetimes = clone_string_vec(&decl.lifetimes);
        let e = DissectError::Lifetimes { lifetimes };
        proof {
            assert(e@->Lifetimes_lifetimes =~= decl@.lifetimes);
        }
        return Err(e);
    }
    // Resolve the docs field, if one is configured.
    let docs: Option<Field> = match &config.docs {
        None => None,
        Some(name) => {
            match find_field(fields, name.as_str()) {
                None => None,
                Some(idx) => {
                    let fd = &fields[idx];
                    let cfg = resolver.resolve(&fd.attrs);
                    match field_try_from(fd, cfg) {
                        Err(e) => {
                            return Err(e);
                        },
                        Ok(f) => {
                            let is_doc_shape = match &f.ty {
                                Wrapper::Repeated(Ty::Literal(Lit::Str)) => true,
                                _ => false,
                            };
                            if !is_doc_shape {
                                return Err(DissectError::DocsTy { ident: fd.ident.clone() });
                            }
                            Some(f)
                        },
                    }
                },
            }
        },
    };
    // Collect every remaining field, grouping split fields by parent.
    let mut ordinary: Vec<Field> = Vec::new();
    let mut splits: Vec<SplitFields> = Vec::new();
    proof {
        assert(view_fields(ordinary@) =~= Seq::<SpecField>::empty());
        assert(view_splits(splits@) =~= Seq::<SpecSplitFields>::empty());
    }
    let n = fields.len();
    let mut i: usize = 0;
    while i < n
        invariant
            0 <= i <= n,
            spec_collect_fields(
                sfields,
                config@,
                res,
                i as int,
                view_fields(ordinary@),
                view_splits(splits@),
            ) == spec_collect_fields(sfields, config@, res, 0, Seq::empty(), Seq::empty()),
        decreases n - i,
    {
        let fd = &fields[i];
        let skip = match &config.docs {
            Some(d) => str_eq(d.as_str(), fd.ident.as_str()),
            None => false,
        };
        if !skip {
            let cfg = resolver.resolve(&fd.attrs);
            let split_of = crate::config::clone_opt_string(&cfg.split_attribute_of);
            match field_try_from(fd, cfg) {
                Err(e) => {
                    return Err(e);
                },
                Ok(f) => {
                    match split_of {
                        None => {
                            proof {
                                lemma_view_fields_push(ordinary@, f);
                            }
                            ordinary.push(f);
                        },
                        Some(parent) => {
                            match find_split(&splits, parent.as_str()) {
                                Some(g) => {
                                    if wrapper_eq(&splits[g].ty, &f.ty) {
                                        let ghost old_splits = splits@;
                                        let mut grp = splits.remove(g);
                                        proof {
                                            lemma_view_fields_push(grp.fields@, f);
                                        }
                                        grp.fields.push(f);
                                        splits.insert(g, grp);
                                        proof {
                                            vstd::seq_lib::lemma_update_is_remove_insert(
                                                old_splits,
                                                g as int,
                                                splits@[g as int],
                                            );
                                            assert(splits@ =~= old_splits.update(
                                                g as int,
                                                splits@[g as int],
                                            ));
                                            lemma_view_splits_update(
                                                old_splits,
                                                g as int,
                                                splits@[g as int],
                                            );
                                        }
                                    } else {
                                        return Err(
                                            DissectError::SplitFieldTys {
                                                parent,
                                                prior_ty: clone_ty_expr(&splits[g].decl_ty),
                                                field: fd.ident.clone(),
                                            },
                                        );
                                    }
                                },
                                None => {
                                    let fty = clone_wrapper(&f.ty);
                                    let mut children: Vec<Field> = Vec::new();
                                    children.push(f);
                                    let group = SplitFields {
                                        parent,
                                        ty: fty,
                                        decl_ty: clone_ty_expr(&fd.ty),
                                        fields: children,
                                    };
                                    proof {
                                        assert(view_fields(group.fields@) =~= seq![
                                            group.fields@[0]@,
                                        ]);
                                        lemma_view_splits_push(splits@, group);
                                    }
                                    splits.push(group);
                                },
                            }
                        },
                    }
                },
            }
        }
        i += 1;
    }
    Ok(
        Struct {
            ident: decl.ident.clone(),
            lifetime: if decl.lifetimes.len() == 1 {
                Some(decl.lifetimes[0].clone())
            } else {
                None
            },
            docs,
            fields: ordinary,
            split_fields: splits,
        },
    )
}

} // verus!
