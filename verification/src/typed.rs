//! Types as the type checker leaves them, and what it knows of a module.

use vstd::prelude::*;

use crate::diagnostic::clone_opt;
use crate::table::{Key, Table};
use crate::text::{cat, cat3, join_strings, owned, str_eq};
use crate::ty::{TypeView, VlType};
use crate::{model, text, ty};

verus! {

broadcast use crate::model::group_model;

/// A type of an expression, a parameter or a field.
#[derive(Debug, PartialEq, Eq)]
pub enum Ty {
    U64,
    I64,
    F64,
    Bool,
    U8,
    String,
    File,
    Object(String),
    Array(Box<Ty>),
    /// A type parameter.
    Param(String),
    Void,
    /// A view that may be used to mutate.
    Mutable(Box<Ty>),
    /// A value, or `null`.
    Nullable(Box<Ty>),
    Tuple(Vec<TyField>),
    /// The type of an integer literal before it is decided.
    Int,
    /// The type of what could not be checked.
    Error,
}

/// One field of a tuple type.
#[derive(Debug, PartialEq, Eq)]
pub struct TyField {
    pub name: Option<String>,
    pub ty: Box<Ty>,
}

/// The content of a [`Ty`].
pub enum TyView {
    U64,
    I64,
    F64,
    Bool,
    U8,
    String,
    File,
    Object(Seq<char>),
    Array(Box<TyView>),
    Param(Seq<char>),
    Void,
    Mutable(Box<TyView>),
    Nullable(Box<TyView>),
    Tuple(Seq<(Option<Seq<char>>, TyView)>),
    Int,
    Error,
}

/// The content of a type.
pub open spec fn ty_view(t: Ty) -> TyView
    decreases t,
{
    match t {
        Ty::U64 => TyView::U64,
        Ty::I64 => TyView::I64,
        Ty::F64 => TyView::F64,
        Ty::Bool => TyView::Bool,
        Ty::U8 => TyView::U8,
        Ty::String => TyView::String,
        Ty::File => TyView::File,
        Ty::Void => TyView::Void,
        Ty::Int => TyView::Int,
        Ty::Error => TyView::Error,
        Ty::Object(n) => TyView::Object(n@),
        Ty::Array(e) => TyView::Array(Box::new(ty_view(*e))),
        Ty::Param(n) => TyView::Param(n@),
        Ty::Mutable(e) => TyView::Mutable(Box::new(ty_view(*e))),
        Ty::Nullable(e) => TyView::Nullable(Box::new(ty_view(*e))),
        Ty::Tuple(fs) => TyView::Tuple(fields_view(fs@)),
    }
}

/// The content of the fields of a tuple type.
pub open spec fn fields_view(fs: Seq<TyField>) -> Seq<(Option<Seq<char>>, TyView)>
    decreases fs,
{
    Seq::new(
        fs.len(),
        |i: int|
            if 0 <= i < fs.len() {
                (model::opt(fs[i].name), ty_view(*fs[i].ty))
            } else {
                arbitrary()
            },
    )
}

impl View for Ty {
    type V = TyView;

    open spec fn view(&self) -> TyView {
        ty_view(*self)
    }
}

impl View for TyField {
    type V = (Option<Seq<char>>, TyView);

    open spec fn view(&self) -> (Option<Seq<char>>, TyView) {
        (model::opt(self.name), ty_view(*self.ty))
    }
}

impl Clone for Ty {
    fn clone(&self) -> (r: Self)
        ensures
            r@ == self@,
    {
        self.duplicate()
    }
}

/// The spelling of a type.
pub open spec fn ty_text(t: TyView) -> Seq<char>
    decreases t,
{
    match t {
        TyView::U64 => "u64"@,
        TyView::I64 => "i64"@,
        TyView::F64 => "f64"@,
        TyView::Bool => "bool"@,
        TyView::U8 => "u8"@,
        TyView::String => "String"@,
        TyView::File => "File"@,
        TyView::Void => "void"@,
        TyView::Int => "int"@,
        TyView::Error => "<error>"@,
        TyView::Object(n) => n,
        TyView::Array(e) => "Array["@ + ty_text(*e) + "]"@,
        TyView::Param(n) => n,
        TyView::Mutable(e) => "*"@ + ty_text(*e),
        TyView::Nullable(e) => "?"@ + ty_text(*e),
        TyView::Tuple(fs) => "#("@ + text::join(field_texts(fs), ", "@) + ")"@,
    }
}

/// The spellings of the fields of a tuple type.
pub open spec fn field_texts(fs: Seq<(Option<Seq<char>>, TyView)>) -> Seq<Seq<char>>
    decreases fs,
{
    Seq::new(
        fs.len(),
        |i: int|
            if 0 <= i < fs.len() {
                match fs[i].0 {
                    Some(n) => n + ": "@ + ty_text(fs[i].1),
                    None => ty_text(fs[i].1),
                }
            } else {
                arbitrary()
            },
    )
}

/// The type without any capability.
pub open spec fn erased(t: TyView) -> TyView
    decreases t,
{
    match t {
        TyView::Mutable(e) => erased(*e),
        TyView::Array(e) => TyView::Array(Box::new(erased(*e))),
        TyView::Nullable(e) => TyView::Nullable(Box::new(erased(*e))),
        TyView::Tuple(fs) => TyView::Tuple(erased_fields(fs)),
        _ => t,
    }
}

/// The fields of a tuple type without any capability.
pub open spec fn erased_fields(fs: Seq<(Option<Seq<char>>, TyView)>) -> Seq<(Option<Seq<char>>, TyView)>
    decreases fs,
{
    Seq::new(
        fs.len(),
        |i: int|
            if 0 <= i < fs.len() {
                (fs[i].0, erased(fs[i].1))
            } else {
                arbitrary()
            },
    )
}

/// Whether no capability occurs anywhere in the type.
pub open spec fn capability_free(t: TyView) -> bool
    decreases t,
{
    match t {
        TyView::Mutable(_) => false,
        TyView::Array(e) => capability_free(*e),
        TyView::Nullable(e) => capability_free(*e),
        TyView::Tuple(fs) => forall|i: int|
            0 <= i < fs.len() ==> capability_free((#[trigger] fs[i]).1),
        _ => true,
    }
}

/// Erasure leaves no capability anywhere in a type.
pub proof fn erasure_frees(t: TyView)
    ensures
        capability_free(erased(t)),
    decreases t,
{
    match t {
        TyView::Mutable(e) => erasure_frees(*e),
        TyView::Array(e) => erasure_frees(*e),
        TyView::Nullable(e) => erasure_frees(*e),
        TyView::Tuple(fs) => {
            assert forall|i: int| 0 <= i < erased_fields(fs).len() implies capability_free(
                (#[trigger] erased_fields(fs)[i]).1,
            ) by {
                erasure_frees(fs[i].1);
            }
        },
        _ => {},
    }
}

/// The type with type parameters replaced.
pub open spec fn substituted(t: TyView, env: Map<Seq<char>, TyView>) -> TyView
    decreases t,
{
    match t {
        TyView::Param(n) => if env.dom().contains(n) {
            env[n]
        } else {
            t
        },
        TyView::Array(e) => TyView::Array(Box::new(substituted(*e, env))),
        TyView::Mutable(e) => TyView::Mutable(Box::new(substituted(*e, env))),
        TyView::Nullable(e) => TyView::Nullable(Box::new(substituted(*e, env))),
        TyView::Tuple(fs) => TyView::Tuple(substituted_fields(fs, env)),
        _ => t,
    }
}

/// The fields of a tuple type with type parameters replaced.
pub open spec fn substituted_fields(fs: Seq<(Option<Seq<char>>, TyView)>, env: Map<Seq<char>, TyView>) -> Seq<(Option<Seq<char>>, TyView)>
    decreases fs,
{
    Seq::new(
        fs.len(),
        |i: int|
            if 0 <= i < fs.len() {
                (fs[i].0, substituted(fs[i].1, env))
            } else {
                arbitrary()
            },
    )
}

/// Whether no type parameter occurs anywhere in the type.
pub open spec fn concrete(t: TyView) -> bool
    decreases t,
{
    match t {
        TyView::Param(_) => false,
        TyView::Array(e) => concrete(*e),
        TyView::Mutable(e) => concrete(*e),
        TyView::Nullable(e) => concrete(*e),
        TyView::Tuple(fs) => fields_concrete(fs),
        _ => true,
    }
}

/// Whether no type parameter occurs anywhere in the fields of a tuple type.
pub open spec fn fields_concrete(fs: Seq<(Option<Seq<char>>, TyView)>) -> bool
    decreases fs,
{
    fs.len() == 0 || (fields_concrete(fs.drop_last()) && concrete(fs.last().1))
}

/// Erasure leaves a type without capabilities as it is.
pub proof fn free_types_stay(t: TyView)
    requires
        capability_free(t),
    ensures
        erased(t) == t,
    decreases t,
{
    match t {
        TyView::Array(e) => free_types_stay(*e),
        TyView::Nullable(e) => free_types_stay(*e),
        TyView::Tuple(fs) => {
            assert forall|i: int| 0 <= i < fs.len() implies #[trigger] erased_fields(fs)[i]
                == fs[i] by {
                free_types_stay(fs[i].1);
            }
            assert(erased_fields(fs) =~= fs);
        },
        _ => {},
    }
}

proof fn fields_are_concrete(fs: Seq<(Option<Seq<char>>, TyView)>, i: int)
    requires
        fields_concrete(fs),
        0 <= i < fs.len(),
    ensures
        concrete(fs[i].1),
    decreases fs.len(),
{
    if i < fs.len() - 1 {
        fields_are_concrete(fs.drop_last(), i);
    }
}

/// Replacing type parameters changes nothing in a type without any.
pub proof fn concrete_types_stay(t: TyView, env: Map<Seq<char>, TyView>)
    requires
        concrete(t),
    ensures
        substituted(t, env) == t,
    decreases t,
{
    match t {
        TyView::Array(e) => concrete_types_stay(*e, env),
        TyView::Mutable(e) => concrete_types_stay(*e, env),
        TyView::Nullable(e) => concrete_types_stay(*e, env),
        TyView::Tuple(fs) => {
            assert forall|i: int| 0 <= i < fs.len() implies #[trigger] substituted_fields(fs, env)[i]
                == fs[i] by {
                fields_are_concrete(fs, i);
                concrete_types_stay(fs[i].1, env);
            }
            assert(substituted_fields(fs, env) =~= fs);
        },
        _ => {},
    }
}

/// Replacing type parameters twice is replacing them once, by what the first
/// replacement gives with its own parameters replaced.
pub proof fn replacements_compose(
    t: TyView,
    a: Map<Seq<char>, TyView>,
    b: Map<Seq<char>, TyView>,
    both: Map<Seq<char>, TyView>,
)
    requires
        forall|n: Seq<char>| #[trigger]
            both.dom().contains(n) <==> a.dom().contains(n) || b.dom().contains(n),
        forall|n: Seq<char>| #[trigger]
            a.dom().contains(n) ==> both[n] == substituted(a[n], b),
        forall|n: Seq<char>| #[trigger]
            b.dom().contains(n) && !a.dom().contains(n) ==> both[n] == b[n],
    ensures
        substituted(substituted(t, a), b) == substituted(t, both),
    decreases t,
{
    match t {
        TyView::Param(n) => {
            assert(both.dom().contains(n) <==> a.dom().contains(n) || b.dom().contains(n));
            if a.dom().contains(n) {
                assert(both[n] == substituted(a[n], b));
            }
        },
        TyView::Array(e) => replacements_compose(*e, a, b, both),
        TyView::Mutable(e) => replacements_compose(*e, a, b, both),
        TyView::Nullable(e) => replacements_compose(*e, a, b, both),
        TyView::Tuple(fs) => {
            let twice = substituted_fields(substituted_fields(fs, a), b);
            let once = substituted_fields(fs, both);
            assert forall|i: int| 0 <= i < fs.len() implies #[trigger] twice[i] == once[i] by {
                replacements_compose(fs[i].1, a, b, both);
                assert(substituted_fields(fs, a)[i].1 == substituted(fs[i].1, a));
            }
            assert(twice =~= once);
        },
        _ => {},
    }
}

/// Where every type parameter is replaced by a type without any, none is left.
pub proof fn replacing_all_leaves_none(t: TyView, env: Map<Seq<char>, TyView>)
    requires
        forall|n: Seq<char>| #[trigger] env.dom().contains(n) && concrete(env[n]),
    ensures
        concrete(substituted(t, env)),
    decreases t,
{
    match t {
        TyView::Param(n) => {
            assert(env.dom().contains(n));
        },
        TyView::Array(e) => replacing_all_leaves_none(*e, env),
        TyView::Mutable(e) => replacing_all_leaves_none(*e, env),
        TyView::Nullable(e) => replacing_all_leaves_none(*e, env),
        TyView::Tuple(fs) => {
            assert forall|i: int| 0 <= i < fs.len() implies concrete(
                (#[trigger] substituted_fields(fs, env)[i]).1,
            ) by {
                replacing_all_leaves_none(fs[i].1, env);
            }
            all_concrete(substituted_fields(fs, env));
        },
        _ => {},
    }
}

proof fn all_concrete(fs: Seq<(Option<Seq<char>>, TyView)>)
    requires
        forall|i: int| 0 <= i < fs.len() ==> concrete((#[trigger] fs[i]).1),
    ensures
        fields_concrete(fs),
    decreases fs.len(),
{
    if fs.len() > 0 {
        let front = fs.drop_last();
        assert forall|i: int| 0 <= i < front.len() implies concrete((#[trigger] front[i]).1) by {
            assert(front[i] == fs[i]);
        }
        assert(fs.last() == fs[fs.len() - 1]);
        all_concrete(front);
    }
}

/// A type is spelled as the type in source text that stands for it.
pub proof fn known_types_are_spelled_alike(t: TypeView)
    ensures
        ty_text(known(t)) == ty::type_text(t),
    decreases t,
{
    match t {
        TypeView::Array(e) => known_types_are_spelled_alike(*e),
        TypeView::Mutable(e) => known_types_are_spelled_alike(*e),
        TypeView::Nullable(e) => known_types_are_spelled_alike(*e),
        TypeView::Tuple(fs) => {
            let (a, b) = (field_texts(known_fields(fs)), ty::tuple_texts(fs));
            assert forall|i: int| 0 <= i < fs.len() implies #[trigger] a[i] == b[i] by {
                known_types_are_spelled_alike(fs[i].1);
                assert(known_fields(fs)[i] == (fs[i].0, known(fs[i].1)));
            }
            assert(a =~= b);
        },
        _ => {},
    }
}

/// The element type of an array, seen through capabilities.
pub open spec fn element_of(t: TyView) -> Option<TyView>
    decreases t,
{
    match t {
        TyView::Array(e) => Some(*e),
        TyView::Mutable(e) => element_of(*e),
        _ => None,
    }
}

/// The type that a type in source text stands for.
pub open spec fn known(t: TypeView) -> TyView
    decreases t,
{
    match t {
        TypeView::U64 => TyView::U64,
        TypeView::I64 => TyView::I64,
        TypeView::F64 => TyView::F64,
        TypeView::Bool => TyView::Bool,
        TypeView::U8 => TyView::U8,
        TypeView::String => TyView::String,
        TypeView::File => TyView::File,
        TypeView::Void => TyView::Void,
        TypeView::Object(n) => TyView::Object(n),
        TypeView::Array(e) => TyView::Array(Box::new(known(*e))),
        TypeView::Param(n) => TyView::Param(n),
        TypeView::Mutable(e) => TyView::Mutable(Box::new(known(*e))),
        TypeView::Nullable(e) => TyView::Nullable(Box::new(known(*e))),
        TypeView::Tuple(fs) => TyView::Tuple(known_fields(fs)),
    }
}

/// The fields that those of a tuple type in source text stand for.
pub open spec fn known_fields(fs: Seq<(Option<Seq<char>>, TypeView)>) -> Seq<(Option<Seq<char>>, TyView)>
    decreases fs,
{
    Seq::new(
        fs.len(),
        |i: int|
            if 0 <= i < fs.len() {
                (fs[i].0, known(fs[i].1))
            } else {
                arbitrary()
            },
    )
}

impl Ty {
    fn duplicate(&self) -> (r: Self)
        ensures
            r@ == self@,
        decreases self,
    {
        match self {
            Ty::U64 => Ty::U64,
            Ty::I64 => Ty::I64,
            Ty::F64 => Ty::F64,
            Ty::Bool => Ty::Bool,
            Ty::U8 => Ty::U8,
            Ty::String => Ty::String,
            Ty::File => Ty::File,
            Ty::Void => Ty::Void,
            Ty::Int => Ty::Int,
            Ty::Error => Ty::Error,
            Ty::Object(n) => Ty::Object(n.clone()),
            Ty::Array(e) => Ty::Array(Box::new(e.duplicate())),
            Ty::Param(n) => Ty::Param(n.clone()),
            Ty::Mutable(e) => Ty::Mutable(Box::new(e.duplicate())),
            Ty::Nullable(e) => Ty::Nullable(Box::new(e.duplicate())),
            Ty::Tuple(fs) => {
                let mut out: Vec<TyField> = Vec::new();
                let mut i: usize = 0;
                while i < fs.len()
                    invariant
                        i <= fs@.len(),
                        *self matches Ty::Tuple(g) && g == *fs,
                        out@.len() == i,
                        forall|k: int| 0 <= k < i ==> (#[trigger] out@[k])@ == fs@[k]@,
                    decreases fs@.len() - i,
                {
                    let f = TyField {
                        name: clone_opt(&fs[i].name),
                        ty: Box::new(fs[i].ty.duplicate()),
                    };
                    out.push(f);
                    i += 1;
                }
                assert(fields_view(out@) =~= fields_view(fs@)) by {
                    assert forall|k: int| 0 <= k < out@.len() implies fields_view(out@)[k]
                        == fields_view(fs@)[k] by {
                        assert(out@[k]@ == fs@[k]@);
                    }
                }
                Ty::Tuple(out)
            },
        }
    }

    /// The spelling of the type.
    pub fn to_string(&self) -> (r: String)
        ensures
            r@ == ty_text(self@),
        decreases self,
    {
        match self {
            Ty::U64 => owned("u64"),
            Ty::I64 => owned("i64"),
            Ty::F64 => owned("f64"),
            Ty::Bool => owned("bool"),
            Ty::U8 => owned("u8"),
            Ty::String => owned("String"),
            Ty::File => owned("File"),
            Ty::Void => owned("void"),
            Ty::Int => owned("int"),
            Ty::Error => owned("<error>"),
            Ty::Object(n) => n.clone(),
            Ty::Array(e) => cat3("Array[", e.to_string().as_str(), "]"),
            Ty::Param(n) => n.clone(),
            Ty::Mutable(e) => cat("*", e.to_string().as_str()),
            Ty::Nullable(e) => cat("?", e.to_string().as_str()),
            Ty::Tuple(fs) => {
                let mut parts: Vec<String> = Vec::new();
                let mut i: usize = 0;
                while i < fs.len()
                    invariant
                        i <= fs@.len(),
                        *self matches Ty::Tuple(g) && g == *fs,
                        parts@.len() == i,
                        forall|k: int|
                            0 <= k < i ==> (#[trigger] parts@[k])@ == field_texts(
                                fields_view(fs@),
                            )[k],
                    decreases fs@.len() - i,
                {
                    let t = fs[i].ty.to_string();
                    let p = match &fs[i].name {
                        Some(n) => cat3(n.as_str(), ": ", t.as_str()),
                        None => t,
                    };
                    parts.push(p);
                    i += 1;
                }
                assert(model::all(parts@) =~= field_texts(fields_view(fs@)));
                cat3("#(", join_strings(parts.as_slice(), ", ").as_str(), ")")
            },
        }
    }

    /// The type without any capability.
    pub fn erase_capability(&self) -> (r: Ty)
        ensures
            r@ == erased(self@),
        decreases self,
    {
        match self {
            Ty::Mutable(e) => e.erase_capability(),
            Ty::Array(e) => Ty::Array(Box::new(e.erase_capability())),
            Ty::Nullable(e) => Ty::Nullable(Box::new(e.erase_capability())),
            Ty::Tuple(fs) => {
                let mut out: Vec<TyField> = Vec::new();
                let mut i: usize = 0;
                while i < fs.len()
                    invariant
                        i <= fs@.len(),
                        *self matches Ty::Tuple(g) && g == *fs,
                        out@.len() == i,
                        forall|k: int| 0 <= k < i ==> (#[trigger] out@[k])@ == erased_fields(fields_view(fs@))[k],
                    decreases fs@.len() - i,
                {
                    let f = TyField { name: clone_opt(&fs[i].name), ty: Box::new(fs[i].ty.erase_capability()) };
                    out.push(f);
                    i += 1;
                }
                assert(fields_view(out@) =~= erased_fields(fields_view(fs@))) by {
                    assert forall|k: int| 0 <= k < out@.len() implies fields_view(out@)[k] == erased_fields(
                        fields_view(fs@),
                    )[k] by {
                        assert(out@[k]@ == erased_fields(fields_view(fs@))[k]);
                    }
                }
                Ty::Tuple(out)
            },
            _ => self.duplicate(),
        }
    }

    /// The type with type parameters replaced.
    pub fn substitute(&self, env: &Table<String, Ty>) -> (r: Ty)
        ensures
            r@ == substituted(self@, env@),
        decreases self,
    {
        match self {
            Ty::Param(n) => match env.get(n) {
                Some(t) => t.duplicate(),
                None => self.duplicate(),
            },
            Ty::Array(e) => Ty::Array(Box::new(e.substitute(env))),
            Ty::Mutable(e) => Ty::Mutable(Box::new(e.substitute(env))),
            Ty::Nullable(e) => Ty::Nullable(Box::new(e.substitute(env))),
            Ty::Tuple(fs) => {
                let mut out: Vec<TyField> = Vec::new();
                let mut i: usize = 0;
                while i < fs.len()
                    invariant
                        i <= fs@.len(),
                        *self matches Ty::Tuple(g) && g == *fs,
                        out@.len() == i,
                        forall|k: int| 0 <= k < i ==> (#[trigger] out@[k])@ == substituted_fields(fields_view(fs@), env@)[k],
                    decreases fs@.len() - i,
                {
                    let f = TyField { name: clone_opt(&fs[i].name), ty: Box::new(fs[i].ty.substitute(env)) };
                    out.push(f);
                    i += 1;
                }
                assert(fields_view(out@) =~= substituted_fields(fields_view(fs@), env@)) by {
                    assert forall|k: int| 0 <= k < out@.len() implies fields_view(out@)[k] == substituted_fields(
                        fields_view(fs@), env@,
                    )[k] by {
                        assert(out@[k]@ == substituted_fields(fields_view(fs@), env@)[k]);
                    }
                }
                Ty::Tuple(out)
            },
            _ => self.duplicate(),
        }
    }

    /// Whether no type parameter occurs anywhere in the type.
    pub fn is_concrete(&self) -> (r: bool)
        ensures
            r == concrete(self@),
        decreases self,
    {
        match self {
            Ty::Param(_) => false,
            Ty::Array(e) => e.is_concrete(),
            Ty::Mutable(e) => e.is_concrete(),
            Ty::Nullable(e) => e.is_concrete(),
            Ty::Tuple(fs) => {
                let ghost all = fields_view(fs@);
                let mut r = true;
                let mut i: usize = 0;
                assert(all.take(0).len() == 0);
                while i < fs.len()
                    invariant
                        i <= fs@.len(),
                        *self matches Ty::Tuple(g) && g == *fs,
                        all == fields_view(fs@),
                        r == fields_concrete(all.take(i as int)),
                    decreases fs@.len() - i,
                {
                    assert(all.take(i + 1).drop_last() =~= all.take(i as int));
                    assert(all.take(i + 1).last() == all[i as int]);
                    let next = fs[i].ty.is_concrete();
                    r = r && next;
                    i += 1;
                }
                assert(all.take(all.len() as int) =~= all);
                r
            },
            _ => true,
        }
    }

    /// The element type of an array, looking through capabilities.
    pub fn array_elem(&self) -> (r: Option<&Ty>)
        ensures
            match r {
                Some(t) => element_of(self@) == Some(t@),
                None => element_of(self@) is None,
            },
        decreases self,
    {
        match self {
            Ty::Array(e) => Some(e),
            Ty::Mutable(e) => e.array_elem(),
            _ => None,
        }
    }

    /// The type that a type in source text stands for.
    pub fn from_vl(t: &VlType) -> (r: Ty)
        ensures
            r@ == known(t@),
        decreases t,
    {
        match t {
            VlType::U64 => Ty::U64,
            VlType::I64 => Ty::I64,
            VlType::F64 => Ty::F64,
            VlType::Bool => Ty::Bool,
            VlType::U8 => Ty::U8,
            VlType::String => Ty::String,
            VlType::File => Ty::File,
            VlType::Void => Ty::Void,
            VlType::Object(n) => Ty::Object(n.clone()),
            VlType::Array(e) => Ty::Array(Box::new(Ty::from_vl(e))),
            VlType::Param(n) => Ty::Param(n.clone()),
            VlType::Mutable(e) => Ty::Mutable(Box::new(Ty::from_vl(e))),
            VlType::Nullable(e) => Ty::Nullable(Box::new(Ty::from_vl(e))),
            VlType::Tuple(fs) => {
                let mut out: Vec<TyField> = Vec::new();
                let mut i: usize = 0;
                while i < fs.len()
                    invariant
                        i <= fs@.len(),
                        *t matches VlType::Tuple(g) && g == *fs,
                        out@.len() == i,
                        forall|k: int| 0 <= k < i ==> (#[trigger] out@[k])@ == known_fields(ty::tuple_fields_view(fs@))[k],
                    decreases fs@.len() - i,
                {
                    let f = TyField { name: clone_opt(&fs[i].name), ty: Box::new(Ty::from_vl(&fs[i].ty)) };
                    out.push(f);
                    i += 1;
                }
                assert(fields_view(out@) =~= known_fields(ty::tuple_fields_view(fs@))) by {
                    assert forall|k: int| 0 <= k < out@.len() implies fields_view(out@)[k] == known_fields(
                        ty::tuple_fields_view(fs@),
                    )[k] by {
                        assert(out@[k]@ == known_fields(ty::tuple_fields_view(fs@))[k]);
                    }
                }
                Ty::Tuple(out)
            },
        }
    }
}

impl Key for u32 {
    fn same(&self, other: &Self) -> (r: bool) {
        *self == *other
    }
}

/// A call inside an instance of a function, as a key: the name of the instance
/// and the node of the call.
#[derive(Debug)]
pub struct InstanceCall(pub String, pub u32);

impl View for InstanceCall {
    type V = (Seq<char>, u32);

    open spec fn view(&self) -> (Seq<char>, u32) {
        (self.0@, self.1)
    }
}

impl Key for InstanceCall {
    fn same(&self, other: &Self) -> (r: bool) {
        self.1 == other.1 && str_eq(self.0.as_str(), other.0.as_str())
    }
}

/// The signature of a function.
#[derive(Debug)]
pub struct FnSig {
    pub type_params: Vec<String>,
    pub param_tys: Vec<Ty>,
    pub ret: Ty,
}

/// The content of a [`FnSig`].
pub struct FnSigView {
    pub type_params: Seq<Seq<char>>,
    pub param_tys: Seq<TyView>,
    pub ret: TyView,
}

impl View for FnSig {
    type V = FnSigView;

    open spec fn view(&self) -> FnSigView {
        FnSigView {
            type_params: model::all(self.type_params@),
            param_tys: model::all(self.param_tys@),
            ret: self.ret@,
        }
    }
}

/// An object type with its fields.
#[derive(Debug)]
pub struct ObjectSig {
    pub name: String,
    pub fields: Vec<(String, Ty)>,
}

/// The content of a [`ObjectSig`].
pub struct ObjectSigView {
    pub name: Seq<char>,
    pub fields: Seq<(Seq<char>, TyView)>,
}

impl View for ObjectSig {
    type V = ObjectSigView;

    open spec fn view(&self) -> ObjectSigView {
        ObjectSigView {
            name: self.name@,
            fields: named_types(self.fields@),
        }
    }
}

/// An instance of a generic function: its name, the function's definition, the type arguments and the signature.
#[derive(Debug)]
pub struct Instance {
    pub name: String,
    pub orig: u32,
    pub args: Vec<Ty>,
    pub sig: FnSig,
}

/// The content of a [`Instance`].
pub struct InstanceView {
    pub name: Seq<char>,
    pub orig: u32,
    pub args: Seq<TyView>,
    pub sig: FnSigView,
}

impl View for Instance {
    type V = InstanceView;

    open spec fn view(&self) -> InstanceView {
        InstanceView {
            name: self.name@,
            orig: self.orig,
            args: model::all(self.args@),
            sig: self.sig@,
        }
    }
}

/// The contents of a list of named types.
pub open spec fn named_types(s: Seq<(String, Ty)>) -> Seq<(Seq<char>, TyView)> {
    Seq::new(s.len(), |i: int| (s[i].0@, s[i].1@))
}

/// What the type checker knows of a module.
#[derive(Debug)]
pub struct TypedProgram {
    /// The types of nodes, by their identifiers.
    pub types: Table<u32, Ty>,
    /// The object types that are in use.
    pub objects: Vec<ObjectSig>,
    /// The instances of generic functions that are in use.
    pub instances: Vec<Instance>,
    /// The instances that calls outside of instances refer to, by their nodes.
    pub root_calls: Table<u32, String>,
    /// The instances that calls inside of instances refer to.
    pub inst_calls: Table<InstanceCall, String>,
    /// The signatures of functions, by their definitions.
    pub func_sigs: Table<u32, FnSig>,
    /// The functions that method calls refer to, by their nodes.
    pub method_defs: Table<u32, u32>,
}

/// The content of a [`TypedProgram`].
pub struct TypedView {
    pub types: Map<u32, TyView>,
    pub objects: Seq<ObjectSigView>,
    pub instances: Seq<InstanceView>,
    pub root_calls: Map<u32, Seq<char>>,
    pub inst_calls: Map<(Seq<char>, u32), Seq<char>>,
    pub func_sigs: Map<u32, FnSigView>,
    pub method_defs: Map<u32, u32>,
}

impl View for TypedProgram {
    type V = TypedView;

    open spec fn view(&self) -> TypedView {
        TypedView {
            types: self.types@,
            objects: model::all(self.objects@),
            instances: model::all(self.instances@),
            root_calls: self.root_calls@,
            inst_calls: self.inst_calls@,
            func_sigs: self.func_sigs@,
            method_defs: self.method_defs@,
        }
    }
}

impl TypedProgram {
    /// A program of which nothing is known.
    pub fn new() -> (r: Self)
        ensures
            r@ == (TypedView {
                types: Map::empty(),
                objects: Seq::empty(),
                instances: Seq::empty(),
                root_calls: Map::empty(),
                inst_calls: Map::empty(),
                func_sigs: Map::empty(),
                method_defs: Map::empty(),
            }),
    {
        TypedProgram {
            types: Table::new(),
            objects: Vec::new(),
            instances: Vec::new(),
            root_calls: Table::new(),
            inst_calls: Table::new(),
            func_sigs: Table::new(),
            method_defs: Table::new(),
        }
    }
}

} // verus!
