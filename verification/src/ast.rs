//! The syntax model the pipeline reads: annotation entries attached to a
//! record declaration, and the type expressions of its fields.
//!
//! These types hold, as plain values, exactly the slice of a host-language
//! syntax tree that the dissector and the converter inspect. The
//! surrounding application converts a real syntax tree into this model.

use vstd::prelude::*;

verus! {

/// A literal carried by an annotation entry.
#[derive(Debug, PartialEq, Eq)]
pub enum AttrLit {
    /// A string literal: `name = "text"`.
    Str(String),
    /// A byte-string literal: `name = b"bytes"`.
    ByteStr(Vec<u8>),
    /// A single-byte literal: `name = b'c'`.
    Byte(u8),
    /// A character literal: `name = 'c'`.
    Char(char),
    /// An integer literal (the suffix, if any, is not recorded).
    Int(u64),
    /// A floating-point literal, kept as its source text.
    Float(String),
    /// A boolean literal: `name = true`.
    Bool(bool),
}

/// Mathematical model of an [`AttrLit`].
pub enum SpecAttrLit {
    Str(Seq<char>),
    ByteStr(Seq<u8>),
    Byte(u8),
    Char(char),
    Int(u64),
    Float(Seq<char>),
    Bool(bool),
}

impl View for AttrLit {
    type V = SpecAttrLit;

    open spec fn view(&self) -> SpecAttrLit {
        match self {
            AttrLit::Str(s) => SpecAttrLit::Str(s@),
            AttrLit::ByteStr(b) => SpecAttrLit::ByteStr(b@),
            AttrLit::Byte(b) => SpecAttrLit::Byte(*b),
            AttrLit::Char(c) => SpecAttrLit::Char(*c),
            AttrLit::Int(v) => SpecAttrLit::Int(*v),
            AttrLit::Float(s) => SpecAttrLit::Float(s@),
            AttrLit::Bool(b) => SpecAttrLit::Bool(*b),
        }
    }
}

/// One annotation entry: a bare word, a name with a literal value, or a
/// name with a nested list of further entries.
#[derive(Debug, PartialEq, Eq)]
pub enum Meta {
    /// `name`
    Word(String),
    /// `name = <literal>`
    NameValue(String, AttrLit),
    /// `name(<entries>)`
    List(String, Vec<Meta>),
}

/// Mathematical model of a [`Meta`].
pub enum SpecMeta {
    Word(Seq<char>),
    NameValue(Seq<char>, SpecAttrLit),
    List(Seq<char>, Seq<SpecMeta>),
}

impl View for Meta {
    type V = SpecMeta;

    open spec fn view(&self) -> SpecMeta
        decreases self,
    {
        match self {
            Meta::Word(s) => SpecMeta::Word(s@),
            Meta::NameValue(s, l) => SpecMeta::NameValue(s@, l@),
            Meta::List(s, items) => SpecMeta::List(s@, view_meta_seq(items@)),
        }
    }
}

/// The view of a sequence of annotation entries, element by element.
pub open spec fn view_meta_seq(s: Seq<Meta>) -> Seq<SpecMeta>
    decreases s,
{
    if s.len() == 0 {
        Seq::empty()
    } else {
        view_meta_seq(s.drop_last()).push(s.last()@)
    }
}

/// `view_meta_seq` maps the sequence element by element.
pub proof fn lemma_view_meta_seq(s: Seq<Meta>)
    ensures
        view_meta_seq(s).len() == s.len(),
        forall|i: int| 0 <= i < s.len() ==> view_meta_seq(s)[i] == s[i]@,
    decreases s.len(),
{
    reveal_with_fuel(view_meta_seq, 2);
    if s.len() > 0 {
        lemma_view_meta_seq(s.drop_last());
        assert forall|i: int| 0 <= i < s.len() implies view_meta_seq(s)[i] == s[i]@ by {
            if i < s.len() - 1 {
                assert(view_meta_seq(s)[i] == view_meta_seq(s.drop_last())[i]);
                assert(s.drop_last()[i] == s[i]);
            } else {
                assert(view_meta_seq(s)[i] == s.last()@);
            }
        }
    }
}

/// One attached annotation: its entry, and whether it came from a
/// documentation comment rather than an explicit attribute.
#[derive(Debug, PartialEq, Eq)]
pub struct Attribute {
    pub is_sugared_doc: bool,
    pub value: Meta,
}

/// Mathematical model of an [`Attribute`].
pub struct SpecAttribute {
    pub is_sugared_doc: bool,
    pub value: SpecMeta,
}

impl View for Attribute {
    type V = SpecAttribute;

    open spec fn view(&self) -> SpecAttribute {
        SpecAttribute { is_sugared_doc: self.is_sugared_doc, value: self.value@ }
    }
}

/// The view of a whole annotation list.
pub open spec fn view_attrs(attrs: Seq<Attribute>) -> Seq<SpecAttribute> {
    Seq::new(attrs.len(), |i: int| attrs[i]@)
}

/// The generic arguments of one path segment.
#[derive(Debug, PartialEq, Eq)]
pub enum SegArgs {
    /// No argument list at all.
    Plain,
    /// An angle-bracketed list `<...>`; only the counts of lifetime and
    /// associated-binding arguments matter to the classifier.
    Angle { n_lifetimes: usize, n_bindings: usize, types: Vec<TyExpr> },
    /// A parenthesized (function-style) argument list.
    Paren,
}

/// One segment of a path type.
#[derive(Debug, PartialEq, Eq)]
pub struct PathSegment {
    pub ident: String,
    pub args: SegArgs,
}

/// A field's type expression, restricted to the shapes the classifier
/// distinguishes.
#[derive(Debug, PartialEq, Eq)]
pub enum TyExpr {
    /// A (possibly globally qualified) path such as `Option<T>` or `u8`.
    Path { global: bool, segments: Vec<PathSegment> },
    /// A reference `&T` or `&mut T` (lifetimes are not recorded).
    Ref { mutable: bool, target: Box<TyExpr> },
    /// A slice `[T]`.
    Slice(Box<TyExpr>),
    /// A tuple `(T, ...)`; stands for every other shape the classifier
    /// rejects.
    Tuple(Vec<TyExpr>),
}

/// Mathematical model of a [`SegArgs`].
pub enum SpecSegArgs {
    Plain,
    Angle { n_lifetimes: nat, n_bindings: nat, types: Seq<SpecTyExpr> },
    Paren,
}

/// Mathematical model of a [`PathSegment`].
pub struct SpecPathSegment {
    pub ident: Seq<char>,
    pub args: SpecSegArgs,
}

/// Mathematical model of a [`TyExpr`].
pub enum SpecTyExpr {
    Path { global: bool, segments: Seq<SpecPathSegment> },
    Ref { mutable: bool, target: Box<SpecTyExpr> },
    Slice(Box<SpecTyExpr>),
    Tuple(Seq<SpecTyExpr>),
}

/// The view of a sequence of path segments, element by element.
pub open spec fn view_seg_seq(s: Seq<PathSegment>) -> Seq<SpecPathSegment>
    decreases s,
{
    if s.len() == 0 {
        Seq::empty()
    } else {
        view_seg_seq(s.drop_last()).push(s.last()@)
    }
}

/// The view of a sequence of type expressions, element by element.
pub open spec fn view_ty_seq(s: Seq<TyExpr>) -> Seq<SpecTyExpr>
    decreases s,
{
    if s.len() == 0 {
        Seq::empty()
    } else {
        view_ty_seq(s.drop_last()).push(s.last()@)
    }
}

/// `view_seg_seq` maps the sequence element by element.
pub proof fn lemma_view_seg_seq(s: Seq<PathSegment>)
    ensures
        view_seg_seq(s).len() == s.len(),
        forall|i: int| 0 <= i < s.len() ==> view_seg_seq(s)[i] == s[i]@,
    decreases s.len(),
{
    reveal_with_fuel(view_seg_seq, 2);
    if s.len() > 0 {
        lemma_view_seg_seq(s.drop_last());
        let rest = view_seg_seq(s.drop_last());
        assert(view_seg_seq(s) == rest.push(s.last()@));
        assert forall|i: int| 0 <= i < s.len() implies view_seg_seq(s)[i] == s[i]@ by {
            if i < s.len() - 1 {
                assert(rest.push(s.last()@)[i] == rest[i]);
                assert(s.drop_last()[i] == s[i]);
            } else {
                assert(s.last() == s[i]);
                assert(rest.push(s.last()@)[i] == s.last()@);
            }
        }
    }
}

/// `view_ty_seq` maps the sequence element by element.
pub proof fn lemma_view_ty_seq(s: Seq<TyExpr>)
    ensures
        view_ty_seq(s).len() == s.len(),
        forall|i: int| 0 <= i < s.len() ==> view_ty_seq(s)[i] == s[i]@,
    decreases s.len(),
{
    reveal_with_fuel(view_ty_seq, 2);
    if s.len() > 0 {
        lemma_view_ty_seq(s.drop_last());
        assert forall|i: int| 0 <= i < s.len() implies view_ty_seq(s)[i] == s[i]@ by {
            if i < s.len() - 1 {
                assert(view_ty_seq(s)[i] == view_ty_seq(s.drop_last())[i]);
                assert(s.drop_last()[i] == s[i]);
            } else {
                assert(view_ty_seq(s)[i] == s.last()@);
            }
        }
    }
}

impl View for TyExpr {
    type V = SpecTyExpr;

    open spec fn view(&self) -> SpecTyExpr
        decreases self,
    {
        match self {
            TyExpr::Path { global, segments } => SpecTyExpr::Path {
                global: *global,
                segments: view_seg_seq(segments@),
            },
            TyExpr::Ref { mutable, target } => SpecTyExpr::Ref {
                mutable: *mutable,
                target: Box::new((**target)@),
            },
            TyExpr::Slice(inner) => SpecTyExpr::Slice(Box::new((**inner)@)),
            TyExpr::Tuple(items) => SpecTyExpr::Tuple(view_ty_seq(items@)),
        }
    }
}

impl View for PathSegment {
    type V = SpecPathSegment;

    open spec fn view(&self) -> SpecPathSegment
        decreases self,
    {
        SpecPathSegment { ident: self.ident@, args: self.args@ }
    }
}

impl View for SegArgs {
    type V = SpecSegArgs;

    open spec fn view(&self) -> SpecSegArgs
        decreases self,
    {
        match self {
            SegArgs::Plain => SpecSegArgs::Plain,
            SegArgs::Angle { n_lifetimes, n_bindings, types } => SpecSegArgs::Angle {
                n_lifetimes: *n_lifetimes as nat,
                n_bindings: *n_bindings as nat,
                types: view_ty_seq(types@),
            },
            SegArgs::Paren => SpecSegArgs::Paren,
        }
    }
}

/// One declared field of a record type.
#[derive(Debug, PartialEq, Eq)]
pub struct FieldDecl {
    pub ident: String,
    pub ty: TyExpr,
    pub attrs: Vec<Attribute>,
}

/// Mathematical model of a [`FieldDecl`].
pub struct SpecFieldDecl {
    pub ident: Seq<char>,
    pub ty: SpecTyExpr,
    pub attrs: Seq<SpecAttribute>,
}

impl View for FieldDecl {
    type V = SpecFieldDecl;

    open spec fn view(&self) -> SpecFieldDecl {
        SpecFieldDecl { ident: self.ident@, ty: self.ty@, attrs: view_attrs(self.attrs@) }
    }
}

/// The body shape of a declaration: only a plain field record can be
/// dissected.
#[derive(Debug, PartialEq, Eq)]
pub enum Body {
    /// A record with named fields.
    Fields(Vec<FieldDecl>),
    /// A tuple-shaped record.
    Tuple,
    /// A unit record.
    Unit,
    /// An enumeration.
    Enum,
}

/// Mathematical model of a [`Body`].
pub enum SpecBody {
    Fields(Seq<SpecFieldDecl>),
    Tuple,
    Unit,
    Enum,
}

/// The view of a list of declared fields.
pub open spec fn view_field_decls(s: Seq<FieldDecl>) -> Seq<SpecFieldDecl> {
    Seq::new(s.len(), |i: int| s[i]@)
}

impl View for Body {
    type V = SpecBody;

    open spec fn view(&self) -> SpecBody {
        match self {
            Body::Fields(fields) => SpecBody::Fields(view_field_decls(fields@)),
            Body::Tuple => SpecBody::Tuple,
            Body::Unit => SpecBody::Unit,
            Body::Enum => SpecBody::Enum,
        }
    }
}

/// A whole record type declaration, as handed to the dissector.
#[derive(Debug, PartialEq, Eq)]
pub struct Declaration {
    pub ident: String,
    pub ty_params: Vec<String>,
    pub lifetimes: Vec<String>,
    pub attrs: Vec<Attribute>,
    pub body: Body,
}

/// Mathematical model of a [`Declaration`].
pub struct SpecDeclaration {
    pub ident: Seq<char>,
    pub ty_params: Seq<Seq<char>>,
    pub lifetimes: Seq<Seq<char>>,
    pub attrs: Seq<SpecAttribute>,
    pub body: SpecBody,
}

impl View for Declaration {
    type V = SpecDeclaration;

    open spec fn view(&self) -> SpecDeclaration {
        SpecDeclaration {
            ident: self.ident@,
            ty_params: Seq::new(self.ty_params@.len(), |i: int| self.ty_params@[i]@),
            lifetimes: Seq::new(self.lifetimes@.len(), |i: int| self.lifetimes@[i]@),
            attrs: view_attrs(self.attrs@),
            body: self.body@,
        }
    }
}

/// Deep copy of a literal.
pub fn clone_attr_lit(l: &AttrLit) -> (r: AttrLit)
    ensures
        r@ == l@,
{
    match l {
        AttrLit::Str(s) => AttrLit::Str(s.clone()),
        AttrLit::ByteStr(b) => {
            let c = b.clone();
            proof {
                assert(c@ =~= b@);
            }
            AttrLit::ByteStr(c)
        }
        AttrLit::Byte(b) => AttrLit::Byte(*b),
        AttrLit::Char(c) => AttrLit::Char(*c),
        AttrLit::Int(v) => AttrLit::Int(*v),
        AttrLit::Float(s) => AttrLit::Float(s.clone()),
        AttrLit::Bool(b) => AttrLit::Bool(*b),
    }
}

/// Deep copy of a type expression.
#[verifier::loop_isolation(false)]
pub fn clone_ty_expr(t: &TyExpr) -> (r: TyExpr)
    ensures
        r@ == t@,
    decreases t,
{
    match t {
        TyExpr::Path { global, segments } => {
            let mut out: Vec<PathSegment> = Vec::new();
            let n = segments.len();
            let mut j: usize = 0;
            while j < n
                invariant
                    n == segments@.len(),
                    0 <= j <= n,
                    out@.len() == j,
                    forall|k: int| 0 <= k < j ==> out@[k]@ == segments@[k]@,
                decreases n - j,
            {
                proof {
                    assert(decreases_to!(*segments => segments@));
                    assert(decreases_to!(segments@ => segments@[j as int]));
                }
                out.push(clone_path_segment(&segments[j]));
                j += 1;
            }
            let r = TyExpr::Path { global: *global, segments: out };
            proof {
                lemma_view_seg_seq(out@);
                lemma_view_seg_seq(segments@);
                assert(r@->Path_segments =~= t@->Path_segments);
            }
            r
        }
        TyExpr::Ref { mutable, target } => {
            let r = TyExpr::Ref { mutable: *mutable, target: Box::new(clone_ty_expr(target)) };
            r
        }
        TyExpr::Slice(inner) => TyExpr::Slice(Box::new(clone_ty_expr(inner))),
        TyExpr::Tuple(items) => {
            let mut out: Vec<TyExpr> = Vec::new();
            let n = items.len();
            let mut j: usize = 0;
            while j < n
                invariant
                    n == items@.len(),
                    0 <= j <= n,
                    out@.len() == j,
                    forall|k: int| 0 <= k < j ==> out@[k]@ == items@[k]@,
                decreases n - j,
            {
                proof {
                    assert(decreases_to!(*items => items@));
                    assert(decreases_to!(items@ => items@[j as int]));
                }
                out.push(clone_ty_expr(&items[j]));
                j += 1;
            }
            let r = TyExpr::Tuple(out);
            proof {
                lemma_view_ty_seq(out@);
                lemma_view_ty_seq(items@);
                assert(r@->Tuple_0 =~= t@->Tuple_0);
            }
            r
        }
    }
}

/// Deep copy of one path segment.
pub fn clone_path_segment(s: &PathSegment) -> (r: PathSegment)
    ensures
        r@ == s@,
    decreases s,
{
    PathSegment { ident: s.ident.clone(), args: clone_seg_args(&s.args) }
}

/// Deep copy of a segment's argument list.
#[verifier::loop_isolation(false)]
pub fn clone_seg_args(a: &SegArgs) -> (r: SegArgs)
    ensures
        r@ == a@,
    decreases a,
{
    match a {
        SegArgs::Plain => SegArgs::Plain,
        SegArgs::Paren => SegArgs::Paren,
        SegArgs::Angle { n_lifetimes, n_bindings, types } => {
            let mut out: Vec<TyExpr> = Vec::new();
            let n = types.len();
            let mut j: usize = 0;
            while j < n
                invariant
                    n == types@.len(),
                    0 <= j <= n,
                    out@.len() == j,
                    forall|k: int| 0 <= k < j ==> out@[k]@ == types@[k]@,
                decreases n - j,
            {
                proof {
                    assert(decreases_to!(*types => types@));
                    assert(decreases_to!(types@ => types@[j as int]));
                }
                out.push(clone_ty_expr(&types[j]));
                j += 1;
            }
            let r = SegArgs::Angle {
                n_lifetimes: *n_lifetimes,
                n_bindings: *n_bindings,
                types: out,
            };
            proof {
                lemma_view_ty_seq(out@);
                lemma_view_ty_seq(types@);
                assert(r@->Angle_types =~= a@->Angle_types);
            }
            r
        }
    }
}

/// Structural equality of type expressions, by content.
#[verifier::loop_isolation(false)]
pub fn ty_expr_eq(a: &TyExpr, b: &TyExpr) -> (r: bool)
    ensures
        r == (a@ == b@),
    decreases a,
{
    match (a, b) {
        (
            TyExpr::Path { global: ga, segments: sa },
            TyExpr::Path { global: gb, segments: sb },
        ) => {
            if *ga != *gb {
                return false;
            }
            let n = sa.len();
            if n != sb.len() {
                proof {
                    lemma_view_seg_seq(sa@);
                    lemma_view_seg_seq(sb@);
                    assert(a@->Path_segments.len() != b@->Path_segments.len());
                }
                return false;
            }
            let mut j: usize = 0;
            while j < n
                invariant
                    n == sa@.len() == sb@.len(),
                    0 <= j <= n,
                    a@ == (TyExpr::Path { global: *ga, segments: *sa })@,
                    b@ == (TyExpr::Path { global: *gb, segments: *sb })@,
                    forall|k: int| 0 <= k < j ==> sa@[k]@ == sb@[k]@,
                decreases n - j,
            {
                proof {
                    assert(decreases_to!(*sa => sa@));
                    assert(decreases_to!(sa@ => sa@[j as int]));
                }
                if !path_segment_eq(&sa[j], &sb[j]) {
                    proof {
                        lemma_view_seg_seq(sa@);
                        lemma_view_seg_seq(sb@);
                        assert(a@->Path_segments[j as int] != b@->Path_segments[j as int]);
                    }
                    return false;
                }
                j += 1;
            }
            proof {
                lemma_view_seg_seq(sa@);
                lemma_view_seg_seq(sb@);
                assert(a@->Path_segments =~= b@->Path_segments);
            }
            true
        }
        (
            TyExpr::Ref { mutable: ma, target: ta },
            TyExpr::Ref { mutable: mb, target: tb },
        ) => {
            if *ma != *mb {
                return false;
            }
            ty_expr_eq(ta, tb)
        }
        (TyExpr::Slice(ia), TyExpr::Slice(ib)) => ty_expr_eq(ia, ib),
        (TyExpr::Tuple(ia), TyExpr::Tuple(ib)) => {
            let n = ia.len();
            if n != ib.len() {
                proof {
                    lemma_view_ty_seq(ia@);
                    lemma_view_ty_seq(ib@);
                    assert(a@->Tuple_0.len() != b@->Tuple_0.len());
                }
                return false;
            }
            let mut j: usize = 0;
            while j < n
                invariant
                    n == ia@.len() == ib@.len(),
                    0 <= j <= n,
                    a@ == (TyExpr::Tuple(*ia))@,
                    b@ == (TyExpr::Tuple(*ib))@,
                    forall|k: int| 0 <= k < j ==> ia@[k]@ == ib@[k]@,
                decreases n - j,
            {
                proof {
                    assert(decreases_to!(*ia => ia@));
                    assert(decreases_to!(ia@ => ia@[j as int]));
                }
                if !ty_expr_eq(&ia[j], &ib[j]) {
                    proof {
                        lemma_view_ty_seq(ia@);
                        lemma_view_ty_seq(ib@);
                        assert(a@->Tuple_0[j as int] != b@->Tuple_0[j as int]);
                    }
                    return false;
                }
                j += 1;
            }
            proof {
                lemma_view_ty_seq(ia@);
                lemma_view_ty_seq(ib@);
                assert(a@->Tuple_0 =~= b@->Tuple_0);
            }
            true
        }
        _ => {
            proof {
                assert(a@ != b@);
            }
            false
        }
    }
}

/// Structural equality of path segments, by content.
pub fn path_segment_eq(a: &PathSegment, b: &PathSegment) -> (r: bool)
    ensures
        r == (a@ == b@),
    decreases a,
{
    if !str_eq(a.ident.as_str(), b.ident.as_str()) {
        return false;
    }
    seg_args_eq(&a.args, &b.args)
}

/// Structural equality of segment argument lists, by content.
#[verifier::loop_isolation(false)]
pub fn seg_args_eq(a: &SegArgs, b: &SegArgs) -> (r: bool)
    ensures
        r == (a@ == b@),
    decreases a,
{
    match (a, b) {
        (SegArgs::Plain, SegArgs::Plain) => true,
        (SegArgs::Paren, SegArgs::Paren) => true,
        (
            SegArgs::Angle { n_lifetimes: la, n_bindings: ba, types: ta },
            SegArgs::Angle { n_lifetimes: lb, n_bindings: bb, types: tb },
        ) => {
            if *la != *lb || *ba != *bb {
                return false;
            }
            let n = ta.len();
            if n != tb.len() {
                proof {
                    lemma_view_ty_seq(ta@);
                    lemma_view_ty_seq(tb@);
                    assert(a@->Angle_types.len() != b@->Angle_types.len());
                }
                return false;
            }
            let mut j: usize = 0;
            while j < n
                invariant
                    n == ta@.len() == tb@.len(),
                    0 <= j <= n,
                    a@ == (SegArgs::Angle { n_lifetimes: *la, n_bindings: *ba, types: *ta })@,
                    b@ == (SegArgs::Angle { n_lifetimes: *lb, n_bindings: *bb, types: *tb })@,
                    forall|k: int| 0 <= k < j ==> ta@[k]@ == tb@[k]@,
                decreases n - j,
            {
                proof {
                    assert(decreases_to!(*ta => ta@));
                    assert(decreases_to!(ta@ => ta@[j as int]));
                }
                if !ty_expr_eq(&ta[j], &tb[j]) {
                    proof {
                        lemma_view_ty_seq(ta@);
                        lemma_view_ty_seq(tb@);
                        assert(a@->Angle_types[j as int] != b@->Angle_types[j as int]);
                    }
                    return false;
                }
                j += 1;
            }
            proof {
                lemma_view_ty_seq(ta@);
                lemma_view_ty_seq(tb@);
                assert(a@->Angle_types =~= b@->Angle_types);
            }
            true
        }
        _ => false,
    }
}

/// Compares two strings by content.
#[verifier::loop_isolation(false)]
pub fn str_eq(a: &str, b: &str) -> (r: bool)
    ensures
        r == (a@ == b@),
{
    let a_len = a.unicode_len();
    let b_len = b.unicode_len();
    if a_len != b_len {
        assert(a@ != b@) by {
            assert(a@.len() != b@.len());
        }
        return false;
    }
    let mut i: usize = 0;
    while i < a_len
        invariant
            a_len == a@.len(),
            b_len == b@.len(),
            a_len == b_len,
            0 <= i <= a_len,
            forall|j: int| 0 <= j < i ==> a@[j] == b@[j],
        decreases a_len - i,
    {
        if a.get_char(i) != b.get_char(i) {
            assert(a@ != b@) by {
                assert(a@[i as int] != b@[i as int]);
            }
            return false;
        }
        i += 1;
    }
    proof {
        assert(a@ =~= b@);
    }
    true
}

} // verus!
