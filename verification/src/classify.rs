//! The type classifier: reduces a field's type expression to its container
//! shape (plain, optional, repeated) and its innermost kind (a known
//! literal kind, or a custom type reached through its string parser).

use vstd::prelude::*;

use crate::ast::{
    clone_ty_expr, lemma_view_seg_seq, lemma_view_ty_seq, str_eq, ty_expr_eq, SegArgs,
    SpecSegArgs, SpecTyExpr, TyExpr,
};

verus! {

/// A fixed-width integer kind.
#[derive(Debug, Clone, Copy, PartialEq, Eq, Structural)]
pub enum IntTy {
    U8,
    I8,
    U16,
    I16,
    U32,
    I32,
    U64,
    I64,
    Usize,
    Isize,
}

/// A floating-point kind; such values are carried as validated text.
#[derive(Debug, Clone, Copy, PartialEq, Eq, Structural)]
pub enum FloatTy {
    F32,
    F64,
}

/// The literal kinds a field's innermost type can reduce to.
#[derive(Debug, Clone, Copy, PartialEq, Eq, Structural)]
pub enum Lit {
    Bool,
    Char,
    Int(IntTy),
    Str,
    ByteStr,
    Float(FloatTy),
}

/// A field's innermost type: a known literal kind, or a custom type that
/// is assumed to support parsing from a string.
#[derive(Debug, PartialEq, Eq)]
pub enum Ty {
    Literal(Lit),
    Custom(TyExpr),
}

/// Mathematical model of a [`Ty`].
pub enum SpecTy {
    Literal(Lit),
    Custom(SpecTyExpr),
}

impl View for Ty {
    type V = SpecTy;

    open spec fn view(&self) -> SpecTy {
        match self {
            Ty::Literal(l) => SpecTy::Literal(*l),
            Ty::Custom(t) => SpecTy::Custom(t@),
        }
    }
}

/// The container shape around a field's innermost type.
#[derive(Debug, PartialEq, Eq)]
pub enum Wrapper {
    /// No container: the value is written directly.
    Plain(Ty),
    /// An optional single value.
    Optional(Ty),
    /// A repeated value: every occurrence is appended.
    Repeated(Ty),
}

/// Mathematical model of a [`Wrapper`].
pub enum SpecWrapper {
    Plain(SpecTy),
    Optional(SpecTy),
    Repeated(SpecTy),
}

impl View for Wrapper {
    type V = SpecWrapper;

    open spec fn view(&self) -> SpecWrapper {
        match self {
            Wrapper::Plain(t) => SpecWrapper::Plain(t@),
            Wrapper::Optional(t) => SpecWrapper::Optional(t@),
            Wrapper::Repeated(t) => SpecWrapper::Repeated(t@),
        }
    }
}

/// A classification failure, carrying the offending type expression.
#[derive(Debug, PartialEq, Eq)]
pub enum TyError {
    /// The type is of no supported shape.
    Ty(TyExpr),
    /// An unwrapped type that is neither `bool` nor given a default.
    TyWrapperOrDefault(TyExpr),
    /// An `Option` or `Vec` head whose argument list cannot be used.
    TyWrapperBad(TyExpr),
    /// A reference to anything but immutable `str` or `[u8]`; carries the
    /// referent.
    TyRef(TyExpr),
}

/// Mathematical model of a [`TyError`].
pub enum SpecTyError {
    Ty(SpecTyExpr),
    TyWrapperOrDefault(SpecTyExpr),
    TyWrapperBad(SpecTyExpr),
    TyRef(SpecTyExpr),
}

impl View for TyError {
    type V = SpecTyError;

    open spec fn view(&self) -> SpecTyError {
        match self {
            TyError::Ty(t) => SpecTyError::Ty(t@),
            TyError::TyWrapperOrDefault(t) => SpecTyError::TyWrapperOrDefault(t@),
            TyError::TyWrapperBad(t) => SpecTyError::TyWrapperBad(t@),
            TyError::TyRef(t) => SpecTyError::TyRef(t@),
        }
    }
}

/// The view of a `Result` of classification.
pub open spec fn view_ty_result(r: Result<Ty, TyError>) -> Result<SpecTy, SpecTyError> {
    match r {
        Ok(t) => Ok(t@),
        Err(e) => Err(e@),
    }
}

/// The view of a `Result` of wrapper classification.
pub open spec fn view_wrapper_result(r: Result<Wrapper, TyError>) -> Result<
    SpecWrapper,
    SpecTyError,
> {
    match r {
        Ok(w) => Ok(w@),
        Err(e) => Err(e@),
    }
}

/// Whether a segment carries no generic arguments at all.
pub open spec fn spec_args_empty(a: SpecSegArgs) -> bool {
    match a {
        SpecSegArgs::Plain => true,
        SpecSegArgs::Angle { n_lifetimes, n_bindings, types } => n_lifetimes == 0 && n_bindings
            == 0 && types.len() == 0,
        SpecSegArgs::Paren => false,
    }
}

/// Whether `t` is the bare, unqualified, argument-free path `name`.
pub open spec fn spec_is_bare_path(t: SpecTyExpr, name: Seq<char>) -> bool {
    &&& t is Path
    &&& !t->Path_global
    &&& t->Path_segments.len() == 1
    &&& t->Path_segments[0].ident == name
    &&& spec_args_empty(t->Path_segments[0].args)
}

/// The literal kind a bare primitive path name denotes, if any.
pub open spec fn spec_primitive_kind(id: Seq<char>) -> Option<Lit> {
    if id == "bool"@ {
        Some(Lit::Bool)
    } else if id == "char"@ {
        Some(Lit::Char)
    } else if id == "u8"@ {
        Some(Lit::Int(IntTy::U8))
    } else if id == "i8"@ {
        Some(Lit::Int(IntTy::I8))
    } else if id == "u16"@ {
        Some(Lit::Int(IntTy::U16))
    } else if id == "i16"@ {
        Some(Lit::Int(IntTy::I16))
    } else if id == "u32"@ {
        Some(Lit::Int(IntTy::U32))
    } else if id == "i32"@ {
        Some(Lit::Int(IntTy::I32))
    } else if id == "u64"@ {
        Some(Lit::Int(IntTy::U64))
    } else if id == "i64"@ {
        Some(Lit::Int(IntTy::I64))
    } else if id == "usize"@ {
        Some(Lit::Int(IntTy::Usize))
    } else if id == "isize"@ {
        Some(Lit::Int(IntTy::Isize))
    } else if id == "f32"@ {
        Some(Lit::Float(FloatTy::F32))
    } else if id == "f64"@ {
        Some(Lit::Float(FloatTy::F64))
    } else {
        None
    }
}

/// What the innermost classifier returns on `t`: a path is either a known
/// primitive or a custom type; a reference must be immutable `&str` or
/// `&[u8]`; everything else is refused.
pub open spec fn spec_classify_ty(t: SpecTyExpr) -> Result<SpecTy, SpecTyError> {
    match t {
        SpecTyExpr::Path { global, segments } => {
            if segments.len() == 0 {
                Err(SpecTyError::Ty(t))
            } else {
                match spec_primitive_kind(segments[0].ident) {
                    Some(l) => Ok(SpecTy::Literal(l)),
                    None => Ok(SpecTy::Custom(t)),
                }
            }
        },
        SpecTyExpr::Ref { mutable, target } => {
            if mutable {
                Err(SpecTyError::TyRef(*target))
            } else if spec_is_bare_path(*target, "str"@) {
                Ok(SpecTy::Literal(Lit::Str))
            } else if *target is Slice && spec_is_bare_path(*target->Slice_0, "u8"@) {
                Ok(SpecTy::Literal(Lit::ByteStr))
            } else {
                Err(SpecTyError::TyRef(*target))
            }
        },
        _ => Err(SpecTyError::Ty(t)),
    }
}

/// The single type argument of an `Option<..>` or `Vec<..>` head, if its
/// argument list has exactly one type and nothing else.
pub open spec fn spec_inner_arg(whole: SpecTyExpr, args: SpecSegArgs) -> Result<
    SpecTyExpr,
    SpecTyError,
> {
    match args {
        SpecSegArgs::Angle { n_lifetimes, n_bindings, types } => {
            if n_lifetimes == 0 && n_bindings == 0 && types.len() == 1 {
                Ok(types[0])
            } else {
                Err(SpecTyError::TyWrapperBad(whole))
            }
        },
        _ => Err(SpecTyError::TyWrapperBad(whole)),
    }
}

/// The inner classification of an `Option`/`Vec` argument.
pub open spec fn spec_classify_inner(whole: SpecTyExpr, args: SpecSegArgs) -> Result<
    SpecTy,
    SpecTyError,
> {
    match spec_inner_arg(whole, args) {
        Ok(inner) => spec_classify_ty(inner),
        Err(e) => Err(e),
    }
}

/// What the wrapper classifier returns on `t`: `Option<..>` and `Vec<..>`
/// wrap their argument's kind; bare `bool` stands alone; any other type is
/// accepted bare only when the field has a default.
pub open spec fn spec_classify_wrapper(t: SpecTyExpr, has_default: bool) -> Result<
    SpecWrapper,
    SpecTyError,
> {
    if t is Path && !t->Path_global && t->Path_segments.len() == 1 {
        let seg = t->Path_segments[0];
        if seg.ident == "Option"@ {
            match spec_classify_inner(t, seg.args) {
                Ok(ty) => Ok(SpecWrapper::Optional(ty)),
                Err(e) => Err(e),
            }
        } else if seg.ident == "Vec"@ {
            match spec_classify_inner(t, seg.args) {
                Ok(ty) => Ok(SpecWrapper::Repeated(ty)),
                Err(e) => Err(e),
            }
        } else if seg.ident == "bool"@ {
            Ok(SpecWrapper::Plain(SpecTy::Literal(Lit::Bool)))
        } else if has_default {
            match spec_classify_ty(t) {
                Ok(ty) => Ok(SpecWrapper::Plain(ty)),
                Err(e) => Err(e),
            }
        } else {
            Err(SpecTyError::TyWrapperOrDefault(t))
        }
    } else if has_default {
        match spec_classify_ty(t) {
            Ok(ty) => Ok(SpecWrapper::Plain(ty)),
            Err(e) => Err(e),
        }
    } else {
        Err(SpecTyError::TyWrapperOrDefault(t))
    }
}

/// The innermost type under a wrapper.
pub open spec fn spec_wrapper_inner(w: SpecWrapper) -> SpecTy {
    match w {
        SpecWrapper::Plain(t) => t,
        SpecWrapper::Optional(t) => t,
        SpecWrapper::Repeated(t) => t,
    }
}

/// The literal kind of a type, if it has one.
pub open spec fn spec_ty_lit(t: SpecTy) -> Option<Lit> {
    match t {
        SpecTy::Literal(l) => Some(l),
        SpecTy::Custom(_) => None,
    }
}

/// Whether `t` names a bare, argument-free path `name` (executable form).
fn is_bare_path(t: &TyExpr, name: &str) -> (r: bool)
    ensures
        r == spec_is_bare_path(t@, name@),
{
    match t {
        TyExpr::Path { global, segments } => {
            if *global || segments.len() != 1 {
                proof {
                    lemma_view_seg_seq(segments@);
                }
                return false;
            }
            proof {
                lemma_view_seg_seq(segments@);
            }
            if !str_eq(segments[0].ident.as_str(), name) {
                return false;
            }
            match &segments[0].args {
                SegArgs::Plain => true,
                SegArgs::Angle { n_lifetimes, n_bindings, types } => {
                    proof {
                        lemma_view_ty_seq(types@);
                    }
                    *n_lifetimes == 0 && *n_bindings == 0 && types.len() == 0
                },
                SegArgs::Paren => false,
            }
        },
        _ => false,
    }
}

/// Classifies the innermost type of a field.
pub fn ty_try_from(t: &TyExpr) -> (r: Result<Ty, TyError>)
    ensures
        view_ty_result(r) == spec_classify_ty(t@),
{
    match t {
        TyExpr::Path { global: _, segments } => {
            proof {
                lemma_view_seg_seq(segments@);
            }
            if segments.len() == 0 {
                return Err(TyError::Ty(clone_ty_expr(t)));
            }
            let id = segments[0].ident.as_str();
            if str_eq(id, "bool") {
                Ok(Ty::Literal(Lit::Bool))
            } else if str_eq(id, "char") {
                Ok(Ty::Literal(Lit::Char))
            } else if str_eq(id, "u8") {
                Ok(Ty::Literal(Lit::Int(IntTy::U8)))
            } else if str_eq(id, "i8") {
                Ok(Ty::Literal(Lit::Int(IntTy::I8)))
            } else if str_eq(id, "u16") {
                Ok(Ty::Literal(Lit::Int(IntTy::U16)))
            } else if str_eq(id, "i16") {
                Ok(Ty::Literal(Lit::Int(IntTy::I16)))
            } else if str_eq(id, "u32") {
                Ok(Ty::Literal(Lit::Int(IntTy::U32)))
            } else if str_eq(id, "i32") {
                Ok(Ty::Literal(Lit::Int(IntTy::I32)))
            } else if str_eq(id, "u64") {
                Ok(Ty::Literal(Lit::Int(IntTy::U64)))
            } else if str_eq(id, "i64") {
                Ok(Ty::Literal(Lit::Int(IntTy::I64)))
            } else if str_eq(id, "usize") {
                Ok(Ty::Literal(Lit::Int(IntTy::Usize)))
            } else if str_eq(id, "isize") {
                Ok(Ty::Literal(Lit::Int(IntTy::Isize)))
            } else if str_eq(id, "f32") {
                Ok(Ty::Literal(Lit::Float(FloatTy::F32)))
            } else if str_eq(id, "f64") {
                Ok(Ty::Literal(Lit::Float(FloatTy::F64)))
            } else {
                Ok(Ty::Custom(clone_ty_expr(t)))
            }
        },
        TyExpr::Ref { mutable, target } => {
            if *mutable {
                return Err(TyError::TyRef(clone_ty_expr(target)));
            }
            if is_bare_path(target, "str") {
                return Ok(Ty::Literal(Lit::Str));
            }
            let is_u8_slice = match &**target {
                TyExpr::Slice(elem) => is_bare_path(elem, "u8"),
                _ => false,
            };
            if is_u8_slice {
                Ok(Ty::Literal(Lit::ByteStr))
            } else {
                Err(TyError::TyRef(clone_ty_expr(target)))
            }
        },
        _ => Err(TyError::Ty(clone_ty_expr(t))),
    }
}

/// Classifies the single type argument of an `Option<..>` or `Vec<..>`
/// head; `whole` is only used to report errors.
fn ty_try_from_option_or_vec(args: &SegArgs, whole: &TyExpr) -> (r: Result<Ty, TyError>)
    ensures
        view_ty_result(r) == spec_classify_inner(whole@, args@),
{
    match args {
        SegArgs::Angle { n_lifetimes, n_bindings, types } => {
            proof {
                lemma_view_ty_seq(types@);
            }
            if *n_lifetimes != 0 || *n_bindings != 0 || types.len() != 1 {
                return Err(TyError::TyWrapperBad(clone_ty_expr(whole)));
            }
            ty_try_from(&types[0])
        },
        _ => Err(TyError::TyWrapperBad(clone_ty_expr(whole))),
    }
}

/// Classifies a whole field type into its wrapper shape; `has_default`
/// says whether the field configuration supplies a default value, which is
/// what allows a bare non-`bool` type.
pub fn wrapper_try_from(t: &TyExpr, has_default: bool) -> (r: Result<Wrapper, TyError>)
    ensures
        view_wrapper_result(r) == spec_classify_wrapper(t@, has_default),
{
    let head_ok = match t {
        TyExpr::Path { global, segments } => {
            proof {
                lemma_view_seg_seq(segments@);
            }
            !*global && segments.len() == 1
        },
        _ => false,
    };
    if head_ok {
        match t {
            TyExpr::Path { global: _, segments } => {
                proof {
                    lemma_view_seg_seq(segments@);
                }
                let id = segments[0].ident.as_str();
                if str_eq(id, "Option") {
                    match ty_try_from_option_or_vec(&segments[0].args, t) {
                        Ok(ty) => Ok(Wrapper::Optional(ty)),
                        Err(e) => Err(e),
                    }
                } else if str_eq(id, "Vec") {
                    match ty_try_from_option_or_vec(&segments[0].args, t) {
                        Ok(ty) => Ok(Wrapper::Repeated(ty)),
                        Err(e) => Err(e),
                    }
                } else if str_eq(id, "bool") {
                    Ok(Wrapper::Plain(Ty::Literal(Lit::Bool)))
                } else if has_default {
                    match ty_try_from(t) {
                        Ok(ty) => Ok(Wrapper::Plain(ty)),
                        Err(e) => Err(e),
                    }
                } else {
                    Err(TyError::TyWrapperOrDefault(clone_ty_expr(t)))
                }
            },
            _ => {
                proof {
                    assert(false);
                }
                Err(TyError::TyWrapperOrDefault(clone_ty_expr(t)))
            },
        }
    } else if has_default {
        match ty_try_from(t) {
            Ok(ty) => Ok(Wrapper::Plain(ty)),
            Err(e) => Err(e),
        }
    } else {
        Err(TyError::TyWrapperOrDefault(clone_ty_expr(t)))
    }
}

impl Wrapper {
    /// The innermost type under the wrapper.
    pub fn inner(&self) -> (r: &Ty)
        ensures
            r@ == spec_wrapper_inner(self@),
    {
        match self {
            Wrapper::Plain(t) => t,
            Wrapper::Optional(t) => t,
            Wrapper::Repeated(t) => t,
        }
    }
}

impl Ty {
    /// The literal kind of this type, if it has one.
    pub fn lit(&self) -> (r: Option<Lit>)
        ensures
            r == spec_ty_lit(self@),
    {
        match self {
            Ty::Literal(l) => Some(*l),
            Ty::Custom(_) => None,
        }
    }
}

/// Structural equality of classified types, by content.
pub fn ty_eq(a: &Ty, b: &Ty) -> (r: bool)
    ensures
        r == (a@ == b@),
{
    match (a, b) {
        (Ty::Literal(la), Ty::Literal(lb)) => la == lb,
        (Ty::Custom(ta), Ty::Custom(tb)) => ty_expr_eq(ta, tb),
        _ => false,
    }
}

/// Structural equality of classified wrappers, by content.
pub fn wrapper_eq(a: &Wrapper, b: &Wrapper) -> (r: bool)
    ensures
        r == (a@ == b@),
{
    match (a, b) {
        (Wrapper::Plain(ta), Wrapper::Plain(tb)) => ty_eq(ta, tb),
        (Wrapper::Optional(ta), Wrapper::Optional(tb)) => ty_eq(ta, tb),
        (Wrapper::Repeated(ta), Wrapper::Repeated(tb)) => ty_eq(ta, tb),
        _ => false,
    }
}

/// Deep copy of a classified type.
pub fn clone_ty(t: &Ty) -> (r: Ty)
    ensures
        r@ == t@,
{
    match t {
        Ty::Literal(l) => Ty::Literal(*l),
        Ty::Custom(e) => Ty::Custom(clone_ty_expr(e)),
    }
}

/// Deep copy of a classified wrapper.
pub fn clone_wrapper(w: &Wrapper) -> (r: Wrapper)
    ensures
        r@ == w@,
{
    match w {
        Wrapper::Plain(t) => Wrapper::Plain(clone_ty(t)),
        Wrapper::Optional(t) => Wrapper::Optional(clone_ty(t)),
        Wrapper::Repeated(t) => Wrapper::Repeated(clone_ty(t)),
    }
}

} // verus!
