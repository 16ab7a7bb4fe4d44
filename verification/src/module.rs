//! Module interfaces: paths, signatures, and what a module exports.

use vstd::prelude::*;

use crate::text::{cat3, chars_of, clone_vec, join_strings, owned, str_eq};
use crate::{model, text};
use crate::ty::{GenericBound, TypeView, VlType};

verus! {

broadcast use crate::model::group_model;

/// A module path such as `std.io`, by its segments.
#[derive(Debug, PartialEq, Eq, Hash)]
pub struct ModulePath(pub Vec<String>);

impl View for ModulePath {
    type V = Seq<Seq<char>>;

    open spec fn view(&self) -> Seq<Seq<char>> {
        model::all(self.0@)
    }
}

impl Clone for ModulePath {
    fn clone(&self) -> (r: Self)
        ensures
            r@ == self@,
    {
        ModulePath(clone_vec(&self.0))
    }
}

/// The dotted spelling of a path.
pub open spec fn dotted(path: Seq<Seq<char>>) -> Seq<char> {
    text::join(path, "."@)
}

/// The pieces of a text between its dots.
pub open spec fn dot_pieces(s: Seq<char>) -> Seq<Seq<char>>
    decreases s.len(),
{
    if s.len() == 0 {
        seq![Seq::empty()]
    } else {
        let rest = dot_pieces(s.drop_last());
        if s.last() == '.' {
            rest.push(Seq::empty())
        } else {
            rest.drop_last().push(rest.last().push(s.last()))
        }
    }
}

impl ModulePath {
    /// A path with the given segments.
    pub fn new(segments: Vec<String>) -> (r: Self)
        ensures
            r@ == model::all(segments@),
    {
        Self(segments)
    }

    /// The dotted spelling.
    pub fn as_string(&self) -> (r: String)
        ensures
            r@ == dotted(self@),
    {
        join_strings(self.0.as_slice(), ".")
    }

    /// The path that a dotted spelling names.
    pub fn from_dotted(path: &str) -> (r: Self)
        ensures
            r@ == dot_pieces(path@),
    {
        let chars = chars_of(path);
        let mut done: Vec<String> = Vec::new();
        let mut last = String::new();
        let mut i: usize = 0;
        assert(chars@.take(0) =~= Seq::<char>::empty());
        assert(model::all(done@).push(last@) =~= seq![Seq::<char>::empty()]);
        while i < chars.len()
            invariant
                i <= chars@.len(),
                model::all(done@).push(last@) == dot_pieces(chars@.take(i as int)),
            decreases chars@.len() - i,
        {
            let ghost pre = chars@.take(i as int);
            let ghost post = chars@.take(i + 1);
            let ghost old_last = last@;
            let ghost old_done = model::all(done@);
            assert(post.drop_last() =~= pre);
            assert(post.last() == chars@[i as int]);
            let c = chars[i];
            if c == '.' {
                done.push(last);
                last = String::new();
                assert(model::all(done@).push(last@) =~= dot_pieces(pre).push(Seq::empty()));
            } else {
                last.push(c);
                assert(dot_pieces(pre).drop_last() =~= old_done);
                assert(dot_pieces(pre).last() == old_last);
            }
            i += 1;
        }
        done.push(last);
        assert(chars@.take(chars@.len() as int) =~= chars@);
        ModulePath(done)
    }

    /// The segments.
    pub fn segments(&self) -> (r: &[String])
        ensures
            model::all(r@) == self@,
    {
        self.0.as_slice()
    }

    /// The last segment.
    pub fn leaf(&self) -> (r: Option<&str>)
        ensures
            match r {
                Some(s) => self@.len() > 0 && s@ == self@.last(),
                None => self@.len() == 0,
            },
    {
        if self.0.len() > 0 {
            Some(self.0[self.0.len() - 1].as_str())
        } else {
            None
        }
    }
}

/// A named symbol of a module.
#[derive(Debug, PartialEq, Eq, Hash)]
pub struct SymbolRef {
    pub module: ModulePath,
    pub name: String,
}

/// The content of a [`SymbolRef`].
pub struct SymbolView {
    pub module: Seq<Seq<char>>,
    pub name: Seq<char>,
}

impl View for SymbolRef {
    type V = SymbolView;

    open spec fn view(&self) -> SymbolView {
        SymbolView { module: self.module@, name: self.name@ }
    }
}

impl Clone for SymbolRef {
    fn clone(&self) -> (r: Self)
        ensures
            r@ == self@,
    {
        SymbolRef { module: self.module.clone(), name: self.name.clone() }
    }
}

/// Where a module comes from.
#[derive(Debug, Clone, Copy, PartialEq, Eq, Structural)]
pub enum ModuleOrigin {
    Source,
    Target,
}

/// A parameter of a signature.
#[derive(Debug, PartialEq, Eq)]
pub struct ParamSig {
    pub name: String,
    pub ty: VlType,
}

/// The content of a [`ParamSig`].
pub struct ParamSigView {
    pub name: Seq<char>,
    pub ty: TypeView,
}

impl View for ParamSig {
    type V = ParamSigView;

    open spec fn view(&self) -> ParamSigView {
        ParamSigView { name: self.name@, ty: self.ty@ }
    }
}

impl Clone for ParamSig {
    fn clone(&self) -> (r: Self)
        ensures
            r@ == self@,
    {
        ParamSig { name: self.name.clone(), ty: self.ty.clone() }
    }
}

/// A type parameter of a signature.
#[derive(Debug, PartialEq, Eq, Hash)]
pub struct TypeParamSig {
    pub name: String,
    pub bound: Option<GenericBound>,
}

/// The content of a [`TypeParamSig`].
pub struct TypeParamSigView {
    pub name: Seq<char>,
    pub bound: Option<GenericBound>,
}

impl View for TypeParamSig {
    type V = TypeParamSigView;

    open spec fn view(&self) -> TypeParamSigView {
        TypeParamSigView { name: self.name@, bound: self.bound }
    }
}

impl Clone for TypeParamSig {
    fn clone(&self) -> (r: Self)
        ensures
            r@ == self@,
    {
        TypeParamSig { name: self.name.clone(), bound: self.bound }
    }
}

/// A function signature.
#[derive(Debug, PartialEq, Eq)]
pub struct FuncSig {
    pub type_params: Vec<TypeParamSig>,
    pub params: Vec<ParamSig>,
    pub ret: VlType,
}

/// The content of a [`FuncSig`].
pub struct FuncSigView {
    pub type_params: Seq<TypeParamSigView>,
    pub params: Seq<ParamSigView>,
    pub ret: TypeView,
}

impl View for FuncSig {
    type V = FuncSigView;

    open spec fn view(&self) -> FuncSigView {
        FuncSigView {
            type_params: model::all(self.type_params@),
            params: model::all(self.params@),
            ret: self.ret@,
        }
    }
}

impl Clone for FuncSig {
    fn clone(&self) -> (r: Self)
        ensures
            r@ == self@,
    {
        FuncSig {
            type_params: clone_vec(&self.type_params),
            params: clone_vec(&self.params),
            ret: self.ret.clone(),
        }
    }
}

/// The parameters that a list of names and types declares.
pub open spec fn declared_params(params: Seq<(&str, VlType)>) -> Seq<ParamSigView> {
    Seq::new(params.len(), |i: int| ParamSigView { name: params[i].0@, ty: params[i].1@ })
}

impl FuncSig {
    /// A signature without type parameters.
    pub fn new(params: &[(&str, VlType)], ret: VlType) -> (r: Self)
        ensures
            r@ == (FuncSigView {
                type_params: Seq::empty(),
                params: declared_params(params@),
                ret: ret@,
            }),
    {
        let mut ps: Vec<ParamSig> = Vec::new();
        let mut i: usize = 0;
        while i < params.len()
            invariant
                i <= params@.len(),
                ps@.len() == i,
                forall|k: int| 0 <= k < i ==> (#[trigger] ps@[k])@ == declared_params(params@)[k],
            decreases params@.len() - i,
        {
            let p = &params[i];
            ps.push(ParamSig { name: owned(p.0), ty: p.1.clone() });
            i += 1;
        }
        assert(model::all(ps@) =~= declared_params(params@));
        Self { type_params: Vec::new(), params: ps, ret }
    }

    /// A signature with type parameters.
    pub fn generic(type_params: Vec<TypeParamSig>, params: Vec<ParamSig>, ret: VlType) -> (r: Self)
        ensures
            r@ == (FuncSigView {
                type_params: model::all(type_params@),
                params: model::all(params@),
                ret: ret@,
            }),
    {
        Self { type_params, params, ret }
    }

    /// Whether the signature has type parameters.
    pub fn is_generic(&self) -> (r: bool)
        ensures
            r == (self@.type_params.len() > 0),
    {
        self.type_params.len() > 0
    }
}

/// Whether an export is written in the language or provided by the target.
#[derive(Debug, Clone, Copy, PartialEq, Eq, Structural, Hash)]
pub enum ExportKind {
    Source,
    Target,
}

/// An exported function.
#[derive(Debug, PartialEq, Eq)]
pub struct Export {
    pub name: String,
    pub sig: FuncSig,
    pub kind: ExportKind,
}

/// The content of an [`Export`].
pub struct ExportView {
    pub name: Seq<char>,
    pub sig: FuncSigView,
    pub kind: ExportKind,
}

impl View for Export {
    type V = ExportView;

    open spec fn view(&self) -> ExportView {
        ExportView { name: self.name@, sig: self.sig@, kind: self.kind }
    }
}

impl Clone for Export {
    fn clone(&self) -> (r: Self)
        ensures
            r@ == self@,
    {
        Export { name: self.name.clone(), sig: self.sig.clone(), kind: self.kind }
    }
}

impl Export {
    /// An export written in the language.
    pub fn source(name: String, sig: FuncSig) -> (r: Self)
        ensures
            r@ == (ExportView { name: name@, sig: sig@, kind: ExportKind::Source }),
    {
        Self { name, sig, kind: ExportKind::Source }
    }

    /// An export provided by the target.
    pub fn target(name: String, sig: FuncSig) -> (r: Self)
        ensures
            r@ == (ExportView { name: name@, sig: sig@, kind: ExportKind::Target }),
    {
        Self { name, sig, kind: ExportKind::Target }
    }

    /// Whether the export is a template.
    pub fn is_generic(&self) -> (r: bool)
        ensures
            r == (self@.sig.type_params.len() > 0),
    {
        self.sig.is_generic()
    }

    /// Whether the export is written in the language.
    pub fn is_source(&self) -> (r: bool)
        ensures
            r == (self@.kind == ExportKind::Source),
    {
        self.kind == ExportKind::Source
    }
}

/// Identifies a function template across modules.
#[derive(Debug, PartialEq, Eq, Hash, PartialOrd, Ord)]
pub struct TemplateKey {
    pub module: String,
    pub function: String,
}

impl View for TemplateKey {
    type V = (Seq<char>, Seq<char>);

    open spec fn view(&self) -> (Seq<char>, Seq<char>) {
        (self.module@, self.function@)
    }
}

impl Clone for TemplateKey {
    fn clone(&self) -> (r: Self)
        ensures
            r@ == self@,
    {
        TemplateKey { module: self.module.clone(), function: self.function.clone() }
    }
}

impl TemplateKey {
    /// The key of a function of a module.
    pub fn new(module: &str, function: &str) -> (r: Self)
        ensures
            r@ == (module@, function@),
    {
        Self { module: owned(module), function: owned(function) }
    }

    /// The spelling `module::function`.
    pub fn to_string(&self) -> (r: String)
        ensures
            r@ == self@.0 + "::"@ + self@.1,
    {
        cat3(self.module.as_str(), "::", self.function.as_str())
    }
}

/// A field of an exported object.
#[derive(Debug, PartialEq, Eq)]
pub struct ObjectFieldSig {
    pub name: String,
    pub ty: VlType,
}

impl View for ObjectFieldSig {
    type V = ParamSigView;

    open spec fn view(&self) -> ParamSigView {
        ParamSigView { name: self.name@, ty: self.ty@ }
    }
}

impl Clone for ObjectFieldSig {
    fn clone(&self) -> (r: Self)
        ensures
            r@ == self@,
    {
        ObjectFieldSig { name: self.name.clone(), ty: self.ty.clone() }
    }
}

/// An exported object type.
#[derive(Debug, PartialEq, Eq)]
pub struct ObjectExport {
    pub name: String,
    pub qualified: String,
    pub fields: Vec<ObjectFieldSig>,
    pub methods: Vec<Export>,
}

/// The content of an [`ObjectExport`].
pub struct ObjectExportView {
    pub name: Seq<char>,
    pub qualified: Seq<char>,
    pub fields: Seq<ParamSigView>,
    pub methods: Seq<ExportView>,
}

impl View for ObjectExport {
    type V = ObjectExportView;

    open spec fn view(&self) -> ObjectExportView {
        ObjectExportView {
            name: self.name@,
            qualified: self.qualified@,
            fields: model::all(self.fields@),
            methods: model::all(self.methods@),
        }
    }
}

impl Clone for ObjectExport {
    fn clone(&self) -> (r: Self)
        ensures
            r@ == self@,
    {
        ObjectExport {
            name: self.name.clone(),
            qualified: self.qualified.clone(),
            fields: clone_vec(&self.fields),
            methods: clone_vec(&self.methods),
        }
    }
}

/// The position of the first export with the given name.
pub open spec fn first_named(exports: Seq<ExportView>, name: Seq<char>) -> Option<int>
    decreases exports.len(),
{
    if exports.len() == 0 {
        None
    } else {
        match first_named(exports.drop_last(), name) {
            Some(i) => Some(i),
            None => if exports.last().name == name {
                Some(exports.len() - 1)
            } else {
                None
            },
        }
    }
}

/// The first export with the given name.
pub(crate) fn find_export<'a>(exports: &'a Vec<Export>, name: &str) -> (r: Option<&'a Export>)
    ensures
        match r {
            Some(e) => first_named(model::all(exports@), name@) matches Some(i) && e@ == model::all(
                exports@,
            )[i],
            None => first_named(model::all(exports@), name@) is None,
        },
{
    let mut i: usize = 0;
    let ghost all = model::all(exports@);
    assert(all.take(0).len() == 0);
    while i < exports.len()
        invariant
            i <= exports@.len(),
            all == model::all(exports@),
            first_named(all.take(i as int), name@) is None,
        decreases exports@.len() - i,
    {
        assert(all.take(i + 1).drop_last() =~= all.take(i as int));
        assert(all.take(i + 1).last() == exports@[i as int]@);
        if str_eq(exports[i].name.as_str(), name) {
            proof {
                first_named_stays(all, i + 1, name@);
            }
            return Some(&exports[i]);
        }
        i += 1;
    }
    assert(all.take(all.len() as int) =~= all);
    None
}

proof fn first_named_stays(all: Seq<ExportView>, n: int, name: Seq<char>)
    requires
        0 <= n <= all.len(),
        first_named(all.take(n), name) is Some,
    ensures
        first_named(all, name) == first_named(all.take(n), name),
    decreases all.len() - n,
{
    if n == all.len() {
        assert(all.take(n) =~= all);
    } else {
        assert(all.take(n + 1).drop_last() =~= all.take(n));
        first_named_stays(all, n + 1, name);
    }
}

impl ObjectExport {
    /// The first method with the given name.
    pub fn lookup_method(&self, name: &str) -> (r: Option<&Export>)
        ensures
            match r {
                Some(e) => first_named(self@.methods, name@) matches Some(i) && e@
                    == self@.methods[i],
                None => first_named(self@.methods, name@) is None,
            },
    {
        find_export(&self.methods, name)
    }
}

/// A variant of an exported union.
#[derive(Debug, PartialEq, Eq)]
pub struct UnionVariantSig {
    pub name: String,
    pub payload: Vec<VlType>,
}

/// The content of a [`UnionVariantSig`].
pub struct UnionVariantSigView {
    pub name: Seq<char>,
    pub payload: Seq<TypeView>,
}

impl View for UnionVariantSig {
    type V = UnionVariantSigView;

    open spec fn view(&self) -> UnionVariantSigView {
        UnionVariantSigView { name: self.name@, payload: model::all(self.payload@) }
    }
}

impl Clone for UnionVariantSig {
    fn clone(&self) -> (r: Self)
        ensures
            r@ == self@,
    {
        UnionVariantSig { name: self.name.clone(), payload: clone_vec(&self.payload) }
    }
}

/// An exported union type.
#[derive(Debug, PartialEq, Eq)]
pub struct UnionExport {
    pub name: String,
    pub qualified: String,
    pub type_params: Vec<TypeParamSig>,
    pub variants: Vec<UnionVariantSig>,
}

/// The content of a [`UnionExport`].
pub struct UnionExportView {
    pub name: Seq<char>,
    pub qualified: Seq<char>,
    pub type_params: Seq<TypeParamSigView>,
    pub variants: Seq<UnionVariantSigView>,
}

impl View for UnionExport {
    type V = UnionExportView;

    open spec fn view(&self) -> UnionExportView {
        UnionExportView {
            name: self.name@,
            qualified: self.qualified@,
            type_params: model::all(self.type_params@),
            variants: model::all(self.variants@),
        }
    }
}

impl Clone for UnionExport {
    fn clone(&self) -> (r: Self)
        ensures
            r@ == self@,
    {
        UnionExport {
            name: self.name.clone(),
            qualified: self.qualified.clone(),
            type_params: clone_vec(&self.type_params),
            variants: clone_vec(&self.variants),
        }
    }
}

/// What a module offers to the programs that use it.
#[derive(Debug, PartialEq, Eq)]
pub struct ModuleSpec {
    pub path: ModulePath,
    pub exports: Vec<Export>,
    pub objects: Vec<ObjectExport>,
    pub unions: Vec<UnionExport>,
    pub parse_poisoned: bool,
    pub poisoned_exports: Vec<String>,
    pub global_dependent_exports: Vec<String>,
}

/// The content of a [`ModuleSpec`].
pub struct ModuleSpecView {
    pub path: Seq<Seq<char>>,
    pub exports: Seq<ExportView>,
    pub objects: Seq<ObjectExportView>,
    pub unions: Seq<UnionExportView>,
    pub parse_poisoned: bool,
    pub poisoned_exports: Seq<Seq<char>>,
    pub global_dependent_exports: Seq<Seq<char>>,
}

impl View for ModuleSpec {
    type V = ModuleSpecView;

    open spec fn view(&self) -> ModuleSpecView {
        ModuleSpecView {
            path: self.path@,
            exports: model::all(self.exports@),
            objects: model::all(self.objects@),
            unions: model::all(self.unions@),
            parse_poisoned: self.parse_poisoned,
            poisoned_exports: model::all(self.poisoned_exports@),
            global_dependent_exports: model::all(self.global_dependent_exports@),
        }
    }
}

impl Clone for ModuleSpec {
    fn clone(&self) -> (r: Self)
        ensures
            r@ == self@,
    {
        ModuleSpec {
            path: self.path.clone(),
            exports: clone_vec(&self.exports),
            objects: clone_vec(&self.objects),
            unions: clone_vec(&self.unions),
            parse_poisoned: self.parse_poisoned,
            poisoned_exports: clone_vec(&self.poisoned_exports),
            global_dependent_exports: clone_vec(&self.global_dependent_exports),
        }
    }
}

/// The collected interface of a module.
#[derive(Debug, PartialEq, Eq)]
pub struct ModuleInterface {
    pub path: ModulePath,
    pub origin: ModuleOrigin,
    pub functions: Vec<Export>,
    pub objects: Vec<ObjectExport>,
    pub unions: Vec<UnionExport>,
    pub parse_poisoned: bool,
    pub poisoned_exports: Vec<String>,
    pub global_dependent_exports: Vec<String>,
}

/// The content of a [`ModuleInterface`].
pub struct ModuleInterfaceView {
    pub path: Seq<Seq<char>>,
    pub origin: ModuleOrigin,
    pub functions: Seq<ExportView>,
    pub objects: Seq<ObjectExportView>,
    pub unions: Seq<UnionExportView>,
    pub parse_poisoned: bool,
    pub poisoned_exports: Seq<Seq<char>>,
    pub global_dependent_exports: Seq<Seq<char>>,
}

impl View for ModuleInterface {
    type V = ModuleInterfaceView;

    open spec fn view(&self) -> ModuleInterfaceView {
        ModuleInterfaceView {
            path: self.path@,
            origin: self.origin,
            functions: model::all(self.functions@),
            objects: model::all(self.objects@),
            unions: model::all(self.unions@),
            parse_poisoned: self.parse_poisoned,
            poisoned_exports: model::all(self.poisoned_exports@),
            global_dependent_exports: model::all(self.global_dependent_exports@),
        }
    }
}

/// The interface seen as a module of a catalog.
pub open spec fn interface_spec(i: ModuleInterfaceView) -> ModuleSpecView {
    ModuleSpecView {
        path: i.path,
        exports: i.functions,
        objects: i.objects,
        unions: i.unions,
        parse_poisoned: i.parse_poisoned,
        poisoned_exports: i.poisoned_exports,
        global_dependent_exports: i.global_dependent_exports,
    }
}

impl ModuleInterface {
    /// The interface as a module of a catalog.
    pub fn as_spec(&self) -> (r: ModuleSpec)
        ensures
            r@ == interface_spec(self@),
    {
        ModuleSpec {
            path: self.path.clone(),
            exports: clone_vec(&self.functions),
            objects: clone_vec(&self.objects),
            unions: clone_vec(&self.unions),
            parse_poisoned: self.parse_poisoned,
            poisoned_exports: clone_vec(&self.poisoned_exports),
            global_dependent_exports: clone_vec(&self.global_dependent_exports),
        }
    }
}

/// A function that a target provides: its name, parameters and result.
pub type ExportDecl<'a> = (&'a str, &'a [(&'a str, VlType)], VlType);

/// The exports that a list of declarations gives.
pub open spec fn declared_exports(exports: Seq<ExportDecl<'_>>) -> Seq<ExportView> {
    Seq::new(
        exports.len(),
        |i: int|
            ExportView {
                name: exports[i].0@,
                sig: FuncSigView {
                    type_params: Seq::empty(),
                    params: declared_params(exports[i].1@),
                    ret: exports[i].2@,
                },
                kind: ExportKind::Target,
            },
    )
}

/// The texts of a list of string slices.
pub open spec fn texts(s: Seq<&str>) -> Seq<Seq<char>> {
    Seq::new(s.len(), |i: int| s[i]@)
}

fn owned_segments(path: &[&str]) -> (r: Vec<String>)
    ensures
        model::all(r@) == texts(path@),
{
    let mut r: Vec<String> = Vec::new();
    let mut i: usize = 0;
    while i < path.len()
        invariant
            i <= path@.len(),
            r@.len() == i,
            forall|k: int| 0 <= k < i ==> (#[trigger] r@[k])@ == path@[k]@,
        decreases path@.len() - i,
    {
        r.push(owned(path[i]));
        i += 1;
    }
    assert(model::all(r@) =~= texts(path@));
    r
}

impl ModuleSpec {
    /// A module provided by a target.
    pub fn new(path: &[&str], exports: &[ExportDecl<'_>]) -> (r: Self)
        ensures
            r@ == (ModuleSpecView {
                path: texts(path@),
                exports: declared_exports(exports@),
                objects: Seq::empty(),
                unions: Seq::empty(),
                parse_poisoned: false,
                poisoned_exports: Seq::empty(),
                global_dependent_exports: Seq::empty(),
            }),
    {
        let mut out: Vec<Export> = Vec::new();
        let mut i: usize = 0;
        while i < exports.len()
            invariant
                i <= exports@.len(),
                out@.len() == i,
                forall|k: int|
                    0 <= k < i ==> (#[trigger] out@[k])@ == declared_exports(exports@)[k],
            decreases exports@.len() - i,
        {
            let e = &exports[i];
            out.push(Export::target(owned(e.0), FuncSig::new(e.1, e.2.clone())));
            i += 1;
        }
        assert(model::all(out@) =~= declared_exports(exports@));
        Self {
            path: ModulePath::new(owned_segments(path)),
            exports: out,
            objects: Vec::new(),
            unions: Vec::new(),
            parse_poisoned: false,
            poisoned_exports: Vec::new(),
            global_dependent_exports: Vec::new(),
        }
    }

    /// A module written in the language, with the given exports.
    pub fn new_source(path: &[&str], exports: Vec<Export>) -> (r: Self)
        ensures
            r@ == (ModuleSpecView {
                path: texts(path@),
                exports: model::all(exports@),
                objects: Seq::empty(),
                unions: Seq::empty(),
                parse_poisoned: false,
                poisoned_exports: Seq::empty(),
                global_dependent_exports: Seq::empty(),
            }),
    {
        Self {
            path: ModulePath::new(owned_segments(path)),
            exports,
            objects: Vec::new(),
            unions: Vec::new(),
            parse_poisoned: false,
            poisoned_exports: Vec::new(),
            global_dependent_exports: Vec::new(),
        }
    }

    /// The first export with the given name.
    pub fn lookup(&self, name: &str) -> (r: Option<&Export>)
        ensures
            match r {
                Some(e) => first_named(self@.exports, name@) matches Some(i) && e@
                    == self@.exports[i],
                None => first_named(self@.exports, name@) is None,
            },
    {
        find_export(&self.exports, name)
    }

    /// The names of the exports, in order.
    pub fn export_names(&self) -> (r: Vec<String>)
        ensures
            model::all(r@) == Seq::new(self@.exports.len(), |i: int| self@.exports[i].name),
    {
        let mut r: Vec<String> = Vec::new();
        let mut i: usize = 0;
        while i < self.exports.len()
            invariant
                i <= self.exports@.len(),
                r@.len() == i,
                forall|k: int| 0 <= k < i ==> (#[trigger] r@[k])@ == self@.exports[k].name,
            decreases self.exports@.len() - i,
        {
            r.push(self.exports[i].name.clone());
            i += 1;
        }
        assert(model::all(r@) =~= Seq::new(self@.exports.len(), |i: int| self@.exports[i].name));
        r
    }
}

// ---------------------------------------------------------------------------
// Laws
// ---------------------------------------------------------------------------

/// A dotted spelling is the spelling of the path that it names.
pub proof fn dotted_of_pieces(s: Seq<char>)
    ensures
        dot_pieces(s).len() > 0,
        dotted(dot_pieces(s)) == s,
    decreases s.len(),
{
    reveal_strlit(".");
    if s.len() > 0 {
        let t = s.drop_last();
        dotted_of_pieces(t);
        let rest = dot_pieces(t);
        if s.last() == '.' {
            let p = rest.push(Seq::<char>::empty());
            assert(p.drop_last() =~= rest);
            assert(dotted(p) =~= s);
        } else {
            let p = rest.drop_last().push(rest.last().push(s.last()));
            if rest.len() == 1 {
                assert(rest[0] == t);
                assert(p[0] =~= s);
            } else {
                assert(p.drop_last() =~= rest.drop_last());
                assert(text::join(p, "."@) == text::join(p.drop_last(), "."@) + "."@ + p.last());
                assert(text::join(rest, "."@) == text::join(rest.drop_last(), "."@) + "."@
                    + rest.last());
                assert(t == text::join(rest.drop_last(), "."@) + "."@ + rest.last());
                assert(p.last() == rest.last().push(s.last()));
                assert(dotted(p) =~= t.push(s.last()));
                assert(s =~= t.push(s.last()));
            }
        }
    } else {
        assert(dotted(dot_pieces(s)) =~= s);
    }
}

/// Whether no segment of a path holds a dot.
pub open spec fn plain_segments(path: Seq<Seq<char>>) -> bool {
    forall|i: int| 0 <= i < path.len() ==> !(#[trigger] path[i]).contains('.')
}

proof fn pieces_of_plain(prefix: Seq<char>, seg: Seq<char>)
    requires
        !seg.contains('.'),
    ensures
        dot_pieces(prefix).len() > 0,
        dot_pieces(prefix + seg) == dot_pieces(prefix).drop_last().push(
            dot_pieces(prefix).last() + seg,
        ),
    decreases seg.len(),
{
    dotted_of_pieces(prefix);
    let p = dot_pieces(prefix);
    if seg.len() == 0 {
        assert(prefix + seg =~= prefix);
        assert(p.last() + seg =~= p.last());
        assert(p.drop_last().push(p.last()) =~= p);
    } else {
        let s = seg.drop_last();
        assert(!s.contains('.')) by {
            if s.contains('.') {
                let i = choose|i: int| 0 <= i < s.len() && s[i] == '.';
                assert(seg[i] == '.');
            }
        }
        pieces_of_plain(prefix, s);
        assert((prefix + seg).drop_last() =~= prefix + s);
        assert((prefix + seg).last() == seg.last());
        assert(seg.last() != '.') by {
            assert(seg[seg.len() - 1] == seg.last());
        }
        let q = p.drop_last().push(p.last() + s);
        assert(q.drop_last() =~= p.drop_last());
        assert(q.last().push(seg.last()) =~= p.last() + seg);
    }
}

/// A path without dots in its segments is named by its own spelling.
pub proof fn pieces_of_dotted(path: Seq<Seq<char>>)
    requires
        path.len() > 0,
        plain_segments(path),
    ensures
        dot_pieces(dotted(path)) == path,
    decreases path.len(),
{
    reveal_strlit(".");
    if path.len() == 1 {
        let empty = Seq::<char>::empty();
        pieces_of_plain(empty, path[0]);
        assert(empty + path[0] =~= path[0]);
        assert(dot_pieces(empty) =~= seq![empty]);
        assert(dot_pieces(path[0]) =~= path);
    } else {
        let front = path.drop_last();
        assert(plain_segments(front)) by {
            assert forall|i: int| 0 <= i < front.len() implies !(#[trigger] front[i]).contains(
                '.',
            ) by {
                assert(front[i] == path[i]);
            }
        }
        pieces_of_dotted(front);
        let with_dot = dotted(front) + "."@;
        assert(with_dot.drop_last() =~= dotted(front));
        assert(with_dot.last() == '.');
        assert(dot_pieces(with_dot) == front.push(Seq::empty()));
        assert(!path.last().contains('.')) by {
            assert(path[path.len() - 1] == path.last());
        }
        pieces_of_plain(with_dot, path.last());
        assert(front.push(Seq::<char>::empty()).drop_last() =~= front);
        assert(Seq::<char>::empty() + path.last() =~= path.last());
        assert(dot_pieces(dotted(path)) =~= path);
    }
}

/// A lookup finds the first export of that name, and finds one whenever there
/// is one.
pub proof fn lookup_finds_first(exports: Seq<ExportView>, name: Seq<char>)
    ensures
        match first_named(exports, name) {
            Some(i) => 0 <= i < exports.len() && exports[i].name == name && forall|k: int|
                0 <= k < i ==> (#[trigger] exports[k]).name != name,
            None => forall|k: int| 0 <= k < exports.len() ==> (#[trigger] exports[k]).name != name,
        },
    decreases exports.len(),
{
    if exports.len() > 0 {
        let front = exports.drop_last();
        lookup_finds_first(front, name);
        assert forall|k: int| 0 <= k < front.len() implies #[trigger] exports[k] == front[k] by {}
    }
}

} // verus!
