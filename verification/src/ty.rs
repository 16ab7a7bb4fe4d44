//! The types of the language, and what the parser and the type rules ask of them.

use std::str::FromStr;

use vstd::prelude::*;

use crate::diagnostic::clone_opt;
use crate::text::{cat, cat3, join_strings, owned, str_eq};
use crate::{model, text};

verus! {

broadcast use crate::model::group_model;

/// A type as written in source text.
#[derive(Debug, PartialEq, Eq, Hash)]
pub enum VlType {
    U64,
    I64,
    F64,
    Bool,
    U8,
    String,
    File,
    /// An object or union type, by name.
    Object(String),
    Array(Box<VlType>),
    /// A type parameter in scope.
    Param(String),
    Void,
    /// `*T`: a view of a reference type that may be used to mutate it.
    Mutable(Box<VlType>),
    /// `?T`: a value of the type, or `null`.
    Nullable(Box<VlType>),
    /// `#(T, name: U)`: a tuple with optionally named fields.
    Tuple(Vec<TupleField>),
}

/// One field of a tuple type.
#[derive(Debug, PartialEq, Eq, Hash)]
pub struct TupleField {
    pub name: Option<String>,
    pub ty: Box<VlType>,
}

/// The content of a [`VlType`].
pub enum TypeView {
    U64,
    I64,
    F64,
    Bool,
    U8,
    String,
    File,
    Object(Seq<char>),
    Array(Box<TypeView>),
    Param(Seq<char>),
    Void,
    Mutable(Box<TypeView>),
    Nullable(Box<TypeView>),
    Tuple(Seq<(Option<Seq<char>>, TypeView)>),
}

/// The content of a type.
pub open spec fn type_view(t: VlType) -> TypeView
    decreases t,
{
    match t {
        VlType::U64 => TypeView::U64,
        VlType::I64 => TypeView::I64,
        VlType::F64 => TypeView::F64,
        VlType::Bool => TypeView::Bool,
        VlType::U8 => TypeView::U8,
        VlType::String => TypeView::String,
        VlType::File => TypeView::File,
        VlType::Object(n) => TypeView::Object(n@),
        VlType::Array(e) => TypeView::Array(Box::new(type_view(*e))),
        VlType::Param(n) => TypeView::Param(n@),
        VlType::Void => TypeView::Void,
        VlType::Mutable(e) => TypeView::Mutable(Box::new(type_view(*e))),
        VlType::Nullable(e) => TypeView::Nullable(Box::new(type_view(*e))),
        VlType::Tuple(fs) => TypeView::Tuple(tuple_fields_view(fs@)),
    }
}

/// The content of the fields of a tuple type.
pub open spec fn tuple_fields_view(fs: Seq<TupleField>) -> Seq<(Option<Seq<char>>, TypeView)>
    decreases fs,
{
    Seq::new(
        fs.len(),
        |i: int|
            if 0 <= i < fs.len() {
                (model::opt(fs[i].name), type_view(*fs[i].ty))
            } else {
                arbitrary()
            },
    )
}

impl View for VlType {
    type V = TypeView;

    open spec fn view(&self) -> TypeView {
        type_view(*self)
    }
}

impl View for TupleField {
    type V = (Option<Seq<char>>, TypeView);

    open spec fn view(&self) -> (Option<Seq<char>>, TypeView) {
        (model::opt(self.name), type_view(*self.ty))
    }
}

impl Clone for TupleField {
    fn clone(&self) -> (r: Self)
        ensures
            r@ == self@,
        decreases self,
    {
        TupleField { name: clone_opt(&self.name), ty: Box::new(self.ty.duplicate()) }
    }
}

impl Clone for VlType {
    fn clone(&self) -> (r: Self)
        ensures
            r@ == self@,
    {
        self.duplicate()
    }
}

/// The spelling of a type.
pub open spec fn type_text(t: TypeView) -> Seq<char>
    decreases t,
{
    match t {
        TypeView::U64 => "u64"@,
        TypeView::I64 => "i64"@,
        TypeView::F64 => "f64"@,
        TypeView::Bool => "bool"@,
        TypeView::U8 => "u8"@,
        TypeView::String => "String"@,
        TypeView::File => "File"@,
        TypeView::Object(n) => n,
        TypeView::Array(e) => "Array["@ + type_text(*e) + "]"@,
        TypeView::Param(n) => n,
        TypeView::Void => "void"@,
        TypeView::Mutable(e) => "*"@ + type_text(*e),
        TypeView::Nullable(e) => "?"@ + type_text(*e),
        TypeView::Tuple(fs) => "#("@ + text::join(tuple_texts(fs), ", "@) + ")"@,
    }
}

/// The spellings of the fields of a tuple type.
pub open spec fn tuple_texts(fs: Seq<(Option<Seq<char>>, TypeView)>) -> Seq<Seq<char>>
    decreases fs,
{
    Seq::new(
        fs.len(),
        |i: int|
            if 0 <= i < fs.len() {
                match fs[i].0 {
                    Some(n) => n + ": "@ + type_text(fs[i].1),
                    None => type_text(fs[i].1),
                }
            } else {
                arbitrary()
            },
    )
}

/// Whether a type stands for no value, or for a container of no values.
pub open spec fn void_like(t: TypeView) -> bool
    decreases t,
{
    match t {
        TypeView::Void => true,
        TypeView::Mutable(e) => void_like(*e),
        TypeView::Array(e) => void_like(*e),
        _ => false,
    }
}

/// The element type of an array, seen through capabilities.
pub open spec fn element_of(t: TypeView) -> Option<TypeView>
    decreases t,
{
    match t {
        TypeView::Array(e) => Some(*e),
        TypeView::Mutable(e) => element_of(*e),
        _ => None,
    }
}

/// Whether values of the type are references.
pub open spec fn reference_like(t: TypeView) -> bool
    decreases t,
{
    match t {
        TypeView::String | TypeView::File | TypeView::Object(_) | TypeView::Array(_) => true,
        TypeView::Mutable(e) => reference_like(*e),
        _ => false,
    }
}

/// The type without its outermost capability.
pub open spec fn readonly_of(t: TypeView) -> TypeView {
    match t {
        TypeView::Mutable(e) => *e,
        _ => t,
    }
}

/// The type without any capability.
pub open spec fn erased(t: TypeView) -> TypeView
    decreases t,
{
    match t {
        TypeView::Mutable(e) => erased(*e),
        TypeView::Array(e) => TypeView::Array(Box::new(erased(*e))),
        TypeView::Nullable(e) => TypeView::Nullable(Box::new(erased(*e))),
        TypeView::Tuple(fs) => TypeView::Tuple(erased_fields(fs)),
        _ => t,
    }
}

/// The fields of a tuple type without any capability.
pub open spec fn erased_fields(fs: Seq<(Option<Seq<char>>, TypeView)>) -> Seq<
    (Option<Seq<char>>, TypeView),
>
    decreases fs,
{
    Seq::new(
        fs.len(),
        |i: int|
            if 0 <= i < fs.len() {
                (fs[i].0, erased(fs[i].1))
            } else {
                arbitrary()
            },
    )
}

/// Whether no capability occurs anywhere in the type.
pub open spec fn capability_free(t: TypeView) -> bool
    decreases t,
{
    match t {
        TypeView::Mutable(_) => false,
        TypeView::Array(e) => capability_free(*e),
        TypeView::Nullable(e) => capability_free(*e),
        TypeView::Tuple(fs) => forall|i: int|
            0 <= i < fs.len() ==> capability_free((#[trigger] fs[i]).1),
        _ => true,
    }
}

/// Why a use of `*` in the type is not allowed, if it is not.
pub open spec fn capability_error(t: TypeView) -> Option<Seq<char>>
    decreases t,
{
    match t {
        TypeView::Mutable(e) => match *e {
            TypeView::Mutable(_) => Some(
                "repeated capability qualifier `*"@ + type_text(*e)
                    + "` (only one `*` is allowed)"@,
            ),
            TypeView::Param(n) => Some(
                "`*"@ + n
                    + "` needs a reference-kind bound (unconstrained `T` cannot grant mutation authority)"@,
            ),
            TypeView::Void => Some("`*void` is not a valid type"@),
            TypeView::String
            | TypeView::File
            | TypeView::Object(_)
            | TypeView::Array(_) => capability_error(*e),
            _ => Some("`*"@ + type_text(*e) + "` is not a reference type"@),
        },
        TypeView::Array(e) => capability_error(*e),
        _ => None,
    }
}

/// The type that a plain name of a built-in type spells.
pub open spec fn named_type(s: Seq<char>) -> Option<TypeView> {
    if s == "u64"@ {
        Some(TypeView::U64)
    } else if s == "i64"@ {
        Some(TypeView::I64)
    } else if s == "f64"@ {
        Some(TypeView::F64)
    } else if s == "bool"@ {
        Some(TypeView::Bool)
    } else if s == "u8"@ {
        Some(TypeView::U8)
    } else if s == "String"@ {
        Some(TypeView::String)
    } else if s == "File"@ {
        Some(TypeView::File)
    } else if s == "void"@ {
        Some(TypeView::Void)
    } else {
        None
    }
}

impl VlType {
    /// A copy of the type.
    fn duplicate(&self) -> (r: Self)
        ensures
            r@ == self@,
        decreases self,
    {
        match self {
            VlType::U64 => VlType::U64,
            VlType::I64 => VlType::I64,
            VlType::F64 => VlType::F64,
            VlType::Bool => VlType::Bool,
            VlType::U8 => VlType::U8,
            VlType::String => VlType::String,
            VlType::File => VlType::File,
            VlType::Object(n) => VlType::Object(n.clone()),
            VlType::Array(e) => VlType::Array(Box::new(e.duplicate())),
            VlType::Param(n) => VlType::Param(n.clone()),
            VlType::Void => VlType::Void,
            VlType::Mutable(e) => VlType::Mutable(Box::new(e.duplicate())),
            VlType::Nullable(e) => VlType::Nullable(Box::new(e.duplicate())),
            VlType::Tuple(fs) => {
                let mut out: Vec<TupleField> = Vec::new();
                let mut i: usize = 0;
                while i < fs.len()
                    invariant
                        i <= fs@.len(),
                        *self matches VlType::Tuple(g) && g == *fs,
                        out@.len() == i,
                        forall|k: int| 0 <= k < i ==> (#[trigger] out@[k])@ == fs@[k]@,
                    decreases fs@.len() - i,
                {
                    let f = TupleField {
                        name: clone_opt(&fs[i].name),
                        ty: Box::new(fs[i].ty.duplicate()),
                    };
                    out.push(f);
                    i += 1;
                }
                assert(tuple_fields_view(out@) =~= tuple_fields_view(fs@)) by {
                    assert forall|k: int| 0 <= k < out@.len() implies tuple_fields_view(out@)[k]
                        == tuple_fields_view(fs@)[k] by {
                        assert(out@[k]@ == fs@[k]@);
                    }
                }
                VlType::Tuple(out)
            },
        }
    }

    /// The spelling of the type.
    pub fn to_string(&self) -> (r: String)
        ensures
            r@ == type_text(self@),
        decreases self,
    {
        match self {
            VlType::U64 => owned("u64"),
            VlType::I64 => owned("i64"),
            VlType::F64 => owned("f64"),
            VlType::Bool => owned("bool"),
            VlType::U8 => owned("u8"),
            VlType::String => owned("String"),
            VlType::File => owned("File"),
            VlType::Object(n) => n.clone(),
            VlType::Array(e) => cat3("Array[", e.to_string().as_str(), "]"),
            VlType::Param(n) => n.clone(),
            VlType::Void => owned("void"),
            VlType::Mutable(e) => cat("*", e.to_string().as_str()),
            VlType::Nullable(e) => cat("?", e.to_string().as_str()),
            VlType::Tuple(fs) => {
                let mut parts: Vec<String> = Vec::new();
                let mut i: usize = 0;
                while i < fs.len()
                    invariant
                        i <= fs@.len(),
                        *self matches VlType::Tuple(g) && g == *fs,
                        parts@.len() == i,
                        forall|k: int|
                            0 <= k < i ==> (#[trigger] parts@[k])@ == tuple_texts(
                                tuple_fields_view(fs@),
                            )[k],
                    decreases fs@.len() - i,
                {
                    let t = fs[i].ty.to_string();
                    let p = match &fs[i].name {
                        Some(n) => cat3(n.as_str(), ": ", t.as_str()),
                        None => t,
                    };
                    parts.push(p);
                    i += 1;
                }
                assert(model::all(parts@) =~= tuple_texts(tuple_fields_view(fs@)));
                cat3("#(", join_strings(parts.as_slice(), ", ").as_str(), ")")
            },
        }
    }

    /// Whether the type stands for no value.
    pub fn is_void(&self) -> (r: bool)
        ensures
            r == void_like(self@),
        decreases self,
    {
        match self {
            VlType::Void => true,
            VlType::Mutable(inner) => inner.is_void(),
            VlType::Array(elem) => elem.is_void(),
            _ => false,
        }
    }

    /// The element type of an array, looking through capabilities.
    pub fn array_elem(&self) -> (r: Option<&VlType>)
        ensures
            match r {
                Some(t) => element_of(self@) == Some(t@),
                None => element_of(self@) is None,
            },
        decreases self,
    {
        match self {
            VlType::Array(elem) => Some(elem),
            VlType::Mutable(inner) => inner.array_elem(),
            _ => None,
        }
    }

    /// Whether values of the type are references.
    pub fn is_reference_type(&self) -> (r: bool)
        ensures
            r == reference_like(self@),
        decreases self,
    {
        match self {
            VlType::String => true,
            VlType::File => true,
            VlType::Object(_) => true,
            VlType::Array(_) => true,
            VlType::Mutable(inner) => inner.is_reference_type(),
            _ => false,
        }
    }

    /// Whether the type is a mutable view.
    pub fn is_mutable_view(&self) -> (r: bool)
        ensures
            r == (self@ is Mutable),
    {
        match self {
            VlType::Mutable(_) => true,
            _ => false,
        }
    }

    /// The type without its outermost capability.
    pub fn readonly_view(&self) -> (r: VlType)
        ensures
            r@ == readonly_of(self@),
    {
        match self {
            VlType::Mutable(inner) => inner.duplicate(),
            _ => self.duplicate(),
        }
    }

    /// The type without any capability.
    pub fn erase_capability(&self) -> (r: VlType)
        ensures
            r@ == erased(self@),
        decreases self,
    {
        match self {
            VlType::Mutable(inner) => inner.erase_capability(),
            VlType::Array(elem) => VlType::Array(Box::new(elem.erase_capability())),
            VlType::Nullable(elem) => VlType::Nullable(Box::new(elem.erase_capability())),
            VlType::Tuple(fs) => {
                let mut out: Vec<TupleField> = Vec::new();
                let mut i: usize = 0;
                while i < fs.len()
                    invariant
                        i <= fs@.len(),
                        *self matches VlType::Tuple(g) && g == *fs,
                        out@.len() == i,
                        forall|k: int|
                            0 <= k < i ==> (#[trigger] out@[k])@ == erased_fields(
                                tuple_fields_view(fs@),
                            )[k],
                    decreases fs@.len() - i,
                {
                    let f = TupleField {
                        name: clone_opt(&fs[i].name),
                        ty: Box::new(fs[i].ty.erase_capability()),
                    };
                    out.push(f);
                    i += 1;
                }
                assert(tuple_fields_view(out@) =~= erased_fields(tuple_fields_view(fs@))) by {
                    assert forall|k: int| 0 <= k < out@.len() implies tuple_fields_view(out@)[k]
                        == erased_fields(tuple_fields_view(fs@))[k] by {
                        assert(out@[k]@ == erased_fields(tuple_fields_view(fs@))[k]);
                    }
                }
                VlType::Tuple(out)
            },
            _ => self.duplicate(),
        }
    }

    /// The type as the runtime sees it: capabilities are a compile-time matter.
    pub fn runtime_type(&self) -> (r: VlType)
        ensures
            r@ == erased(self@),
    {
        self.erase_capability()
    }

    /// Why a use of `*` in the type is not allowed, if it is not.
    pub fn mutable_wellformed_error(&self) -> (r: Option<String>)
        ensures
            model::opt(r) == capability_error(self@),
        decreases self,
    {
        match self {
            VlType::Mutable(inner) => match &**inner {
                VlType::Mutable(_) => Some(
                    cat3(
                        "repeated capability qualifier `*",
                        inner.to_string().as_str(),
                        "` (only one `*` is allowed)",
                    ),
                ),
                VlType::Param(name) => Some(
                    cat3(
                        "`*",
                        name.as_str(),
                        "` needs a reference-kind bound (unconstrained `T` cannot grant mutation authority)",
                    ),
                ),
                VlType::Void => Some(owned("`*void` is not a valid type")),
                VlType::String
                | VlType::File
                | VlType::Object(_)
                | VlType::Array(_) => inner.mutable_wellformed_error(),
                _ => Some(
                    cat3("`*", inner.to_string().as_str(), "` is not a reference type"),
                ),
            },
            VlType::Array(elem) => elem.mutable_wellformed_error(),
            _ => None,
        }
    }

    /// The built-in type with the given name.
    pub fn named(s: &str) -> (r: Result<VlType, ParseTyError>)
        ensures
            match r {
                Ok(t) => named_type(s@) == Some(t@),
                Err(e) => named_type(s@) is None && e.0@ == s@,
            },
    {
        if str_eq(s, "u64") {
            Ok(VlType::U64)
        } else if str_eq(s, "i64") {
            Ok(VlType::I64)
        } else if str_eq(s, "f64") {
            Ok(VlType::F64)
        } else if str_eq(s, "bool") {
            Ok(VlType::Bool)
        } else if str_eq(s, "u8") {
            Ok(VlType::U8)
        } else if str_eq(s, "String") {
            Ok(VlType::String)
        } else if str_eq(s, "File") {
            Ok(VlType::File)
        } else if str_eq(s, "void") {
            Ok(VlType::Void)
        } else {
            Err(ParseTyError(owned(s)))
        }
    }
}

/// A name that is not the name of a type, or not of a bound.
#[derive(Debug, PartialEq, Eq)]
pub struct ParseTyError(pub String);

impl ParseTyError {
    /// The message for the user.
    pub fn to_string(&self) -> (r: String)
        ensures
            r@ == "unknown type `"@ + self.0@
                + "` (have: u64, i64, f64, bool, u8, String, File, Array[T], object types, void)"@,
    {
        cat3(
            "unknown type `",
            self.0.as_str(),
            "` (have: u64, i64, f64, bool, u8, String, File, Array[T], object types, void)",
        )
    }
}

impl FromStr for VlType {
    type Err = ParseTyError;

    fn from_str(s: &str) -> (r: Result<Self, ParseTyError>)
        ensures
            match r {
                Ok(t) => named_type(s@) == Some(t@),
                Err(e) => named_type(s@) is None && e.0@ == s@,
            },
    {
        VlType::named(s)
    }
}

/// What a type parameter's arguments must support.
#[derive(Debug, Clone, Copy, PartialEq, Eq, Structural, Hash)]
pub enum GenericBound {
    Numeric,
    Comparable,
}

/// The name of a bound.
pub open spec fn bound_text(b: GenericBound) -> Seq<char> {
    match b {
        GenericBound::Numeric => "Numeric"@,
        GenericBound::Comparable => "Comparable"@,
    }
}

impl GenericBound {
    /// The name of the bound.
    pub fn to_string(&self) -> (r: String)
        ensures
            r@ == bound_text(*self),
    {
        match self {
            GenericBound::Numeric => owned("Numeric"),
            GenericBound::Comparable => owned("Comparable"),
        }
    }

    /// The bound with the given name.
    pub fn named(s: &str) -> (r: Result<GenericBound, ParseTyError>)
        ensures
            match r {
                Ok(b) => s@ == bound_text(b),
                Err(e) => e.0@ == s@ && s@ != "Numeric"@ && s@ != "Comparable"@,
            },
    {
        if str_eq(s, "Numeric") {
            Ok(GenericBound::Numeric)
        } else if str_eq(s, "Comparable") {
            Ok(GenericBound::Comparable)
        } else {
            Err(ParseTyError(owned(s)))
        }
    }
}

impl FromStr for GenericBound {
    type Err = ParseTyError;

    fn from_str(s: &str) -> (r: Result<Self, ParseTyError>)
        ensures
            match r {
                Ok(b) => s@ == bound_text(b),
                Err(e) => e.0@ == s@ && s@ != "Numeric"@ && s@ != "Comparable"@,
            },
    {
        GenericBound::named(s)
    }
}

// ---------------------------------------------------------------------------
// Laws
// ---------------------------------------------------------------------------

/// Erasing the capabilities of a type leaves none, and erasing them again
/// changes nothing.
pub proof fn erasure_is_complete(t: TypeView)
    ensures
        capability_free(erased(t)),
        capability_free(t) ==> erased(t) == t,
        erased(erased(t)) == erased(t),
    decreases t, 1nat,
{
    erasure_leaves_none(t);
    erasure_keeps_free(t);
    erasure_keeps_free(erased(t));
}

proof fn erasure_leaves_none(t: TypeView)
    ensures
        capability_free(erased(t)),
    decreases t,
{
    match t {
        TypeView::Mutable(e) => erasure_leaves_none(*e),
        TypeView::Array(e) => erasure_leaves_none(*e),
        TypeView::Nullable(e) => erasure_leaves_none(*e),
        TypeView::Tuple(fs) => {
            let es = erased_fields(fs);
            assert forall|i: int| 0 <= i < es.len() implies capability_free(
                (#[trigger] es[i]).1,
            ) by {
                erasure_leaves_none(fs[i].1);
            }
        },
        _ => {},
    }
}

proof fn erasure_keeps_free(t: TypeView)
    ensures
        capability_free(t) ==> erased(t) == t,
    decreases t,
{
    match t {
        TypeView::Array(e) => erasure_keeps_free(*e),
        TypeView::Nullable(e) => erasure_keeps_free(*e),
        TypeView::Tuple(fs) => {
            if capability_free(t) {
                assert forall|i: int| 0 <= i < fs.len() implies erased_fields(fs)[i] == fs[i] by {
                    assert(capability_free((fs[i]).1));
                    erasure_keeps_free(fs[i].1);
                }
                assert(erased_fields(fs) =~= fs);
            }
        },
        _ => {},
    }
}

/// Erasing capabilities changes neither whether a type is void or a reference,
/// and an array's element type is erased with it.
pub proof fn erasure_keeps_shape(t: TypeView)
    ensures
        void_like(erased(t)) == void_like(t),
        reference_like(erased(t)) == reference_like(t),
        match element_of(t) {
            Some(e) => element_of(erased(t)) == Some(erased(e)),
            None => element_of(erased(t)) is None,
        },
    decreases t,
{
    match t {
        TypeView::Mutable(e) => erasure_keeps_shape(*e),
        TypeView::Array(e) => erasure_keeps_shape(*e),
        _ => {},
    }
}

/// The name of every built-in type parses back to that type.
pub proof fn builtin_names_round_trip(t: TypeView)
    requires
        t is U64 || t is I64 || t is F64 || t is Bool || t is U8 || t is String || t is File
            || t is Void,
    ensures
        named_type(type_text(t)) == Some(t),
{
    reveal_strlit("u64");
    reveal_strlit("i64");
    reveal_strlit("f64");
    reveal_strlit("bool");
    reveal_strlit("u8");
    reveal_strlit("String");
    reveal_strlit("File");
    reveal_strlit("void");
    assert("u64"@[0] != "i64"@[0] && "u64"@[0] != "f64"@[0] && "i64"@[0] != "f64"@[0]);
    assert("String"@.len() == 6 && "u8"@.len() == 2 && "bool"@.len() == 4);
    assert("bool"@[0] != "File"@[0] && "bool"@[0] != "void"@[0] && "File"@[0] != "void"@[0]);
}

/// Only a type with a capability somewhere in it can have a capability error.
pub proof fn capability_free_types_are_accepted(t: TypeView)
    requires
        capability_free(t),
    ensures
        capability_error(t) is None,
    decreases t,
{
    match t {
        TypeView::Array(e) => capability_free_types_are_accepted(*e),
        _ => {},
    }
}

} // verus!
