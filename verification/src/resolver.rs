//! The resolver: what every name of a module refers to.

use vstd::prelude::*;

use crate::ast::{
    BindingKind, DestructureBinding, Expr, FunctionDecl, Item, MatchArm, ObjectField, Param,
    Program, Stmt, UnionVariant,
};
use crate::diagnostic::Diagnostic;
use crate::module::{
    Export, ExportKind, FuncSig, ModulePath, ModuleSpec, ModuleSpecView, ObjectExport,
    ObjectExportView, ObjectFieldSig, ParamSig, SymbolRef,
};
use crate::parser::has_name;
use crate::resolution::{find_def, Def, DefId, DefKind, Resolution, VariantUse};
use crate::scope::{Env, State};
use crate::span::Span;
use crate::table::{Member, NameSet, Place, Table};
use crate::text::{cat, cat3, cat5, chars_of, clone_vec, dec_u64, join_strings, owned, str_eq, string_of};
use crate::ty::VlType;
use crate::{ast, codegen, grammar, model, module, scope};

verus! {

broadcast use {crate::model::group_model, crate::ast::group_ast};

/// A list of names.
#[derive(Debug)]
struct Names(Vec<String>);

impl View for Names {
    type V = Seq<Seq<char>>;

    closed spec fn view(&self) -> Seq<Seq<char>> {
        model::all(self.0@)
    }
}

/// The text of a dotted path.
pub(crate) fn dotted(path: &Vec<String>) -> (r: String)
    ensures
        r@ == scope::dotted(model::all(path@)),
{
    join_strings(path.as_slice(), ".")
}

/// Two names with a dot between them.
pub(crate) fn member(a: &str, b: &str) -> (r: String)
    ensures
        r@ == scope::member(a@, b@),
{
    cat3(a, ".", b)
}

/// The path without its last segment.
fn front(path: &Vec<String>) -> (r: Vec<String>)
    requires
        path@.len() > 0,
    ensures
        model::all(r@) == model::all(path@).drop_last(),
{
    let mut r: Vec<String> = Vec::new();
    let mut i: usize = 0;
    while i < path.len() - 1
        invariant
            path@.len() > 0,
            i <= path@.len() - 1,
            r@.len() == i,
            forall|k: int| 0 <= k < i ==> (#[trigger] r@[k])@ == path@[k]@,
        decreases path@.len() - i,
    {
        r.push(path[i].clone());
        i += 1;
    }
    assert(model::all(r@) =~= model::all(path@).drop_last());
    r
}

pub(crate) fn same_path(a: &ModulePath, b: &ModulePath) -> (r: bool)
    ensures
        r == (a@ == b@),
{
    if a.0.len() != b.0.len() {
        assert(a@.len() != b@.len());
        return false;
    }
    let mut i: usize = 0;
    while i < a.0.len()
        invariant
            i <= a.0@.len(),
            a.0@.len() == b.0@.len(),
            forall|k: int| 0 <= k < i ==> a@[k] == #[trigger] b@[k],
        decreases a.0@.len() - i,
    {
        if !str_eq(a.0[i].as_str(), b.0[i].as_str()) {
            assert(a@[i as int] != b@[i as int]);
            return false;
        }
        i += 1;
    }
    assert(a@ =~= b@);
    true
}

/// The rest of a text behind a prefix.
fn behind(s: &str, prefix: &str) -> (r: Option<String>)
    ensures
        model::opt(r) == scope::behind(s@, prefix@),
{
    let a = chars_of(s);
    let b = chars_of(prefix);
    if b.len() > a.len() {
        return None;
    }
    let mut i: usize = 0;
    while i < b.len()
        invariant
            i <= b@.len() <= a@.len(),
            a@ == s@,
            b@ == prefix@,
            forall|k: int| 0 <= k < i ==> a@[k] == #[trigger] b@[k],
        decreases b@.len() - i,
    {
        if a[i] != b[i] {
            assert(s@.take(prefix@.len() as int)[i as int] != prefix@[i as int]);
            return None;
        }
        i += 1;
    }
    assert(s@.take(prefix@.len() as int) =~= prefix@);
    let rest = string_of(&a, b.len(), a.len());
    assert(rest@ =~= s@.skip(prefix@.len() as int));
    Some(rest)
}

fn has_field_sig(fields: &Vec<ObjectFieldSig>, name: &str) -> (r: bool)
    ensures
        r == scope::has_field(model::all(fields@), name@),
{
    let mut i: usize = 0;
    while i < fields.len()
        invariant
            i <= fields@.len(),
            forall|k: int| 0 <= k < i ==> (#[trigger] model::all(fields@)[k]).name != name@,
        decreases fields@.len() - i,
    {
        if str_eq(fields[i].name.as_str(), name) {
            assert(model::all(fields@)[i as int].name == name@);
            return true;
        }
        i += 1;
    }
    false
}

fn field_names(fields: &Vec<ObjectField>) -> (r: Vec<String>)
    ensures
        model::all(r@) == grammar::field_names(model::all(fields@)),
{
    let mut r: Vec<String> = Vec::new();
    let mut i: usize = 0;
    while i < fields.len()
        invariant
            i <= fields@.len(),
            r@.len() == i,
            forall|k: int| 0 <= k < i ==> (#[trigger] r@[k])@ == fields@[k].name@,
        decreases fields@.len() - i,
    {
        r.push(fields[i].name.clone());
        i += 1;
    }
    assert(model::all(r@) =~= grammar::field_names(model::all(fields@)));
    r
}

fn variant_names(variants: &Vec<UnionVariant>) -> (r: Vec<String>)
    ensures
        model::all(r@) == grammar::variant_names(model::all(variants@)),
{
    let mut r: Vec<String> = Vec::new();
    let mut i: usize = 0;
    while i < variants.len()
        invariant
            i <= variants@.len(),
            r@.len() == i,
            forall|k: int| 0 <= k < i ==> (#[trigger] r@[k])@ == variants@[k].name@,
        decreases variants@.len() - i,
    {
        r.push(variants[i].name.clone());
        i += 1;
    }
    assert(model::all(r@) =~= grammar::variant_names(model::all(variants@)));
    r
}

proof fn module_with_path_stays(all: Seq<ModuleSpecView>, n: int, key: Seq<char>)
    requires
        0 <= n <= all.len(),
        scope::module_with_path(all.take(n), key) is Some,
    ensures
        scope::module_with_path(all, key) == scope::module_with_path(all.take(n), key),
    decreases all.len() - n,
{
    if n == all.len() {
        assert(all.take(n) =~= all);
    } else {
        assert(all.take(n + 1).drop_last() =~= all.take(n));
        module_with_path_stays(all, n + 1, key);
    }
}

/// The first module with the given dotted path.
fn module_with_path<'b>(items: &'b [ModuleSpec], key: &str) -> (r: Option<&'b ModuleSpec>)
    ensures
        match r {
            Some(m) => scope::module_with_path(model::all(items@), key@) == Some(m@),
            None => scope::module_with_path(model::all(items@), key@) is None,
        },
{
    let mut i: usize = 0;
    let ghost all = model::all(items@);
    assert(all.take(0).len() == 0);
    while i < items.len()
        invariant
            i <= items@.len(),
            all == model::all(items@),
            scope::module_with_path(all.take(i as int), key@) is None,
        decreases items@.len() - i,
    {
        assert(all.take(i + 1).drop_last() =~= all.take(i as int));
        assert(all.take(i + 1).last() == items@[i as int]@);
        if str_eq(items[i].path.as_string().as_str(), key) {
            proof {
                module_with_path_stays(all, i + 1, key@);
            }
            return Some(&items[i]);
        }
        i += 1;
    }
    assert(all.take(all.len() as int) =~= all);
    None
}

proof fn module_at_stays(all: Seq<ModuleSpecView>, n: int, key: Seq<Seq<char>>)
    requires
        0 <= n <= all.len(),
        scope::module_at(all.take(n), key) is Some,
    ensures
        scope::module_at(all, key) == scope::module_at(all.take(n), key),
    decreases all.len() - n,
{
    if n == all.len() {
        assert(all.take(n) =~= all);
    } else {
        assert(all.take(n + 1).drop_last() =~= all.take(n));
        module_at_stays(all, n + 1, key);
    }
}

/// The first module with the given path.
pub(crate) fn module_at<'b>(items: &'b [ModuleSpec], key: &ModulePath) -> (r: Option<&'b ModuleSpec>)
    ensures
        match r {
            Some(m) => scope::module_at(model::all(items@), key@) == Some(m@),
            None => scope::module_at(model::all(items@), key@) is None,
        },
{
    let mut i: usize = 0;
    let ghost all = model::all(items@);
    assert(all.take(0).len() == 0);
    while i < items.len()
        invariant
            i <= items@.len(),
            all == model::all(items@),
            scope::module_at(all.take(i as int), key@) is None,
        decreases items@.len() - i,
    {
        assert(all.take(i + 1).drop_last() =~= all.take(i as int));
        assert(all.take(i + 1).last() == items@[i as int]@);
        if same_path(&items[i].path, key) {
            proof {
                module_at_stays(all, i + 1, key@);
            }
            return Some(&items[i]);
        }
        i += 1;
    }
    assert(all.take(all.len() as int) =~= all);
    None
}

proof fn object_named_stays(all: Seq<ObjectExportView>, n: int, key: Seq<char>)
    requires
        0 <= n <= all.len(),
        scope::object_named(all.take(n), key) is Some,
    ensures
        scope::object_named(all, key) == scope::object_named(all.take(n), key),
    decreases all.len() - n,
{
    if n == all.len() {
        assert(all.take(n) =~= all);
    } else {
        assert(all.take(n + 1).drop_last() =~= all.take(n));
        object_named_stays(all, n + 1, key);
    }
}

/// The first object with the given name.
fn object_named<'b>(items: &'b [ObjectExport], key: &str) -> (r: Option<&'b ObjectExport>)
    ensures
        match r {
            Some(m) => scope::object_named(model::all(items@), key@) == Some(m@),
            None => scope::object_named(model::all(items@), key@) is None,
        },
{
    let mut i: usize = 0;
    let ghost all = model::all(items@);
    assert(all.take(0).len() == 0);
    while i < items.len()
        invariant
            i <= items@.len(),
            all == model::all(items@),
            scope::object_named(all.take(i as int), key@) is None,
        decreases items@.len() - i,
    {
        assert(all.take(i + 1).drop_last() =~= all.take(i as int));
        assert(all.take(i + 1).last() == items@[i as int]@);
        if str_eq(items[i].name.as_str(), key) {
            proof {
                object_named_stays(all, i + 1, key@);
            }
            return Some(&items[i]);
        }
        i += 1;
    }
    assert(all.take(all.len() as int) =~= all);
    None
}

proof fn object_qualified_stays(all: Seq<ObjectExportView>, n: int, key: Seq<char>)
    requires
        0 <= n <= all.len(),
        scope::object_qualified(all.take(n), key) is Some,
    ensures
        scope::object_qualified(all, key) == scope::object_qualified(all.take(n), key),
    decreases all.len() - n,
{
    if n == all.len() {
        assert(all.take(n) =~= all);
    } else {
        assert(all.take(n + 1).drop_last() =~= all.take(n));
        object_qualified_stays(all, n + 1, key);
    }
}

/// The first object with the given qualified name.
fn object_qualified<'b>(items: &'b [ObjectExport], key: &str) -> (r: Option<&'b ObjectExport>)
    ensures
        match r {
            Some(m) => scope::object_qualified(model::all(items@), key@) == Some(m@),
            None => scope::object_qualified(model::all(items@), key@) is None,
        },
{
    let mut i: usize = 0;
    let ghost all = model::all(items@);
    assert(all.take(0).len() == 0);
    while i < items.len()
        invariant
            i <= items@.len(),
            all == model::all(items@),
            scope::object_qualified(all.take(i as int), key@) is None,
        decreases items@.len() - i,
    {
        assert(all.take(i + 1).drop_last() =~= all.take(i as int));
        assert(all.take(i + 1).last() == items@[i as int]@);
        if str_eq(items[i].qualified.as_str(), key) {
            proof {
                object_qualified_stays(all, i + 1, key@);
            }
            return Some(&items[i]);
        }
        i += 1;
    }
    assert(all.take(all.len() as int) =~= all);
    None
}

proof fn qualified_stays(
    all: Seq<ModuleSpecView>,
    n: int,
    r: State,
    owner: Seq<char>,
    method: Seq<char>,
    full: Seq<char>,
    span: Span,
)
    requires
        0 <= n <= all.len(),
        scope::use_qualified_method(all.take(n), r, owner, method, full, span) is Some,
    ensures
        scope::use_qualified_method(all, r, owner, method, full, span)
            == scope::use_qualified_method(all.take(n), r, owner, method, full, span),
    decreases all.len() - n,
{
    if n == all.len() {
        assert(all.take(n) =~= all);
    } else {
        assert(all.take(n + 1).drop_last() =~= all.take(n));
        qualified_stays(all, n + 1, r, owner, method, full, span);
    }
}

fn depends_on_globals(what: &str, span: Span) -> (r: Diagnostic)
    ensures
        r@ == scope::depends_on_globals(what@, span),
{
    Diagnostic::error(
        cat3("imported function `", what, "` depends on module globals").as_str(),
    ).with_label(span, "unsupported cross-module boundary").with_code("E208")
}

fn no_export(key: &str, name: &str, span: Span) -> (r: Diagnostic)
    ensures
        r@ == scope::no_export(key@, name@, span),
{
    Diagnostic::error(
        cat5("module `", key, "` has no export `", name, "`").as_str(),
    ).with_label(span, "unknown module export").with_code("E203")
}

fn missing_method(owner: &str, method: &str, span: Span, is_field: bool) -> (r: Diagnostic)
    ensures
        r@ == scope::missing_method(owner@, method@, span, is_field),
{
    let d = Diagnostic::error(
        cat5("object `", owner, "` has no associated function `", method, "`").as_str(),
    ).with_label(span, "unknown associated function").with_code("E302");
    if is_field {
        d.with_note(
            cat5("`", method, "` is a field of `", owner, "`; read it without `(...)`").as_str(),
        )
    } else {
        d.with_note(
            cat5(
                "declare it inside the object body: `fun ",
                method,
                "(...)` in `type ",
                owner,
                " = object { ... }`",
            ).as_str(),
        )
    }
}

fn not_found(name: &str, span: Span, remark: &str, note: &str) -> (r: Diagnostic)
    ensures
        r@ == scope::not_found(name@, span, remark@, note@),
{
    Diagnostic::error(cat3("cannot find `", name, "` in this scope").as_str()).with_label(
        span,
        remark,
    ).with_note(note).with_code("E201")
}

fn no_variant(union: &str, variant: &str, span: Span) -> (r: Diagnostic)
    ensures
        r@ == scope::no_variant(union@, variant@, span),
{
    Diagnostic::error(
        cat5("union `", union, "` has no variant `", variant, "`").as_str(),
    ).with_label(span, "unknown variant").with_code("E302")
}

fn import_conflict(name: &str, span: Span) -> (r: Diagnostic)
    ensures
        r@ == scope::import_conflict(name@, span),
{
    Diagnostic::error(
        cat3("import alias `", name, "` conflicts with a top-level definition").as_str(),
    ).with_label(span, "definition declared here").with_code("E206")
}

fn with_previous(d: Diagnostic, spans: &Table<String, Span>, name: &String) -> (r: Diagnostic)
    ensures
        r@ == scope::with_previous(d@, spans@, name@),
{
    match spans.get(name) {
        Some(s) => d.with_bare_label(*s),
        None => d,
    }
}

fn fixed_binding(name: &str, span: Span, parameter: bool) -> (r: Diagnostic)
    ensures
        r@ == scope::fixed_binding(name@, span, parameter),
{
    if parameter {
        Diagnostic::error(cat3("cannot rebind parameter `", name, "`").as_str()).with_label(
            span,
            "parameters are fixed bindings",
        ).with_note(
            "parameters cannot be assigned; use a local `var` when rebinding is needed",
        ).with_code("E205")
    } else {
        Diagnostic::error(cat3("cannot rebind `val` binding `", name, "`").as_str()).with_label(
            span,
            "`val` bindings are fixed",
        ).with_note(
            "`val` bindings cannot be assigned; use `var` when rebinding is needed",
        ).with_code("E205")
    }
}

/// The resolver at work.
struct Resolver<'m> {
    modules: &'m [ModuleSpec],
    module: String,
    local_objects: NameSet,
    local_fields: Table<String, Names>,
    assoc: Table<Member, DefId>,
    unions: Table<String, Names>,
    scopes: Vec<Table<String, DefId>>,
    out: Resolution,
    diags: Vec<Diagnostic>,
    imports: Table<String, ModuleSpec>,
    import_symbols: Table<String, SymbolRef>,
    poisoned: NameSet,
    import_spans: Table<String, Span>,
    poisoned_params: Vec<u32>,
    in_loop: bool,
}

impl<'m> Resolver<'m> {
    /// There is always a global scope.
    spec fn wf(&self) -> bool {
        self.scopes@.len() >= 1
    }

    spec fn env(&self) -> Env {
        Env {
            modules: model::all(self.modules@),
            module: self.module@,
            local_objects: self.local_objects@,
            local_fields: self.local_fields@,
            assoc: self.assoc@,
            unions: self.unions@,
        }
    }

    spec fn st(&self) -> State {
        State {
            scopes: model::all(self.scopes@),
            out: self.out@,
            diags: model::all(self.diags@),
            imports: self.imports@,
            import_symbols: self.import_symbols@,
            poisoned: self.poisoned@,
            import_spans: self.import_spans@,
            poisoned_params: Set::new(|x: u32| self.poisoned_params@.contains(x)),
            in_loop: self.in_loop,
        }
    }

    /// A later state of the same resolver, at the same depth of scopes.
    spec fn follows(&self, before: Resolver<'m>) -> bool {
        &&& self.wf()
        &&& self.env() == before.env()
        &&& self.scopes@.len() == before.scopes@.len()
    }

    fn report(&mut self, d: Diagnostic)
        requires
            old(self).wf(),
        ensures
            final(self).follows(*old(self)),
            final(self).st() == scope::report(old(self).st(), d@),
    {
        self.diags.push(d);
    }

    fn use_at(&mut self, span: Span, id: DefId)
        requires
            old(self).wf(),
        ensures
            final(self).follows(*old(self)),
            final(self).st() == scope::use_at(old(self).st(), span, id),
    {
        self.out.uses.insert(Place::of(span), id);
    }

    fn define(&mut self, name: String, span: Span, kind: DefKind, sig: Option<FuncSig>, export_kind: Option<ExportKind>, binding: Option<BindingKind>, symbol: Option<SymbolRef>) -> (r: DefId)
        requires
            old(self).wf(),
        ensures
            final(self).follows(*old(self)),
            r == scope::next_id(old(self).st()),
            final(self).st() == scope::define(
                old(self).st(),
                name@,
                span,
                kind,
                model::opt(sig),
                export_kind,
                binding,
                model::opt(symbol),
            ),
    {
        let id = DefId(self.out.defs.len() as u32);
        self.out.defs.push(Def { id, name, span, kind, sig, export_kind, binding, symbol });
        id
    }

    fn use_outside(&mut self, name: String, span: Span, sig: Option<FuncSig>, export_kind: Option<ExportKind>, kind: DefKind, symbol: Option<SymbolRef>)
        requires
            old(self).wf(),
        ensures
            final(self).follows(*old(self)),
            final(self).st() == scope::use_outside(
                old(self).st(),
                name@,
                span,
                model::opt(sig),
                export_kind,
                kind,
                model::opt(symbol),
            ),
    {
        let id = self.define(name, span, kind, sig, export_kind, None, symbol);
        self.use_at(span, id);
    }

    fn use_poisoned(&mut self, name: String, span: Span)
        requires
            old(self).wf(),
        ensures
            final(self).follows(*old(self)),
            final(self).st() == scope::use_poisoned(old(self).st(), name@, span),
    {
        self.use_outside(name, span, None, None, DefKind::ImportedFunction, None);
    }

    fn bind(&mut self, name: String, id: DefId)
        requires
            old(self).wf(),
        ensures
            final(self).follows(*old(self)),
            final(self).st() == scope::bind(old(self).st(), name@, id),
    {
        let ghost before = model::all(self.scopes@);
        match self.scopes.pop() {
            Some(t) => {
                let mut top = t;
                assert(model::all(self.scopes@) =~= before.drop_last());
                top.insert(name, id);
                self.scopes.push(top);
            },
            None => {},
        }
    }

    fn enter(&mut self)
        ensures
            final(self).env() == old(self).env(),
            final(self).scopes@.len() == old(self).scopes@.len() + 1,
            final(self).st() == scope::enter(old(self).st()),
    {
        self.scopes.push(Table::new());
    }

    fn leave(&mut self)
        requires
            old(self).scopes@.len() >= 1,
        ensures
            final(self).env() == old(self).env(),
            final(self).scopes@.len() == old(self).scopes@.len() - 1,
            final(self).st() == scope::leave(old(self).st()),
    {
        let ghost before = model::all(self.scopes@);
        let _top = self.scopes.pop();
        assert(model::all(self.scopes@) =~= before.drop_last());
    }

    fn lookup(&self, name: &String) -> (r: Option<DefId>)
        ensures
            r == scope::lookup(self.st().scopes, name@),
    {
        let mut i: usize = self.scopes.len();
        let ghost all = model::all(self.scopes@);
        assert(all.take(all.len() as int) =~= all);
        while i > 0
            invariant
                i <= self.scopes@.len(),
                all == model::all(self.scopes@),
                scope::lookup(all, name@) == scope::lookup(all.take(i as int), name@),
            decreases i,
        {
            i = i - 1;
            assert(all.take(i + 1).drop_last() =~= all.take(i as int));
            assert(all.take(i + 1).last() == self.scopes@[i as int]@);
            match self.scopes[i].get(name) {
                Some(id) => return Some(*id),
                None => {},
            }
        }
        None
    }

    fn in_top_scope(&self, name: &String) -> (r: bool)
        requires
            self.wf(),
        ensures
            r == self.st().scopes.last().dom().contains(name@),
    {
        self.scopes[self.scopes.len() - 1].contains(name)
    }

    fn alias_taken(&self, alias: &String) -> (r: bool)
        ensures
            r == scope::alias_taken(self.st(), alias@),
    {
        self.poisoned.contains(alias.as_str()) || self.imports.contains(alias)
            || self.import_symbols.contains(alias)
    }

    fn declare_local(&mut self, name: &String, span: Span, binding: BindingKind)
        requires
            old(self).wf(),
        ensures
            final(self).follows(*old(self)),
            final(self).st() == scope::declare_local(old(self).st(), name@, span, binding),
    {
        if self.in_top_scope(name) {
            let d = Diagnostic::warning(
                cat3("`", name.as_str(), "` shadows a previous binding").as_str(),
            ).with_label(span, "shadowing definition");
            self.report(d);
        }
        let id = self.define(name.clone(), span, DefKind::Local, None, None, Some(binding), None);
        self.bind(name.clone(), id);
    }

    fn declare_global(&mut self, name: &String, span: Span, binding: Option<BindingKind>)
        requires
            old(self).wf(),
        ensures
            final(self).follows(*old(self)),
            final(self).st() == scope::declare_global(old(self).st(), name@, span, binding),
    {
        if self.poisoned.contains(name.as_str()) {
            let d = with_previous(import_conflict(name.as_str(), span), &self.import_spans, name);
            self.report(d);
            return ;
        }
        if self.imports.contains(name) || self.import_symbols.contains(name) {
            self.report(import_conflict(name.as_str(), span));
            self.poisoned.insert(name.clone());
            return ;
        }
        let previous: Option<Span> = match self.scopes[0].get(name) {
            Some(id) => match find_def(&self.out.defs, *id) {
                Some(d) => Some(d.span),
                None => None,
            },
            None => None,
        };
        match previous {
            Some(at) => {
                let d = Diagnostic::error(
                    cat3("duplicate definition of `", name.as_str(), "`").as_str(),
                ).with_label(span, "redefined here").with_bare_label(at).with_code("E200");
                self.report(d);
            },
            None => {
                let ghost before = model::all(self.scopes@);
                let id = self.define(name.clone(), span, DefKind::Local, None, None, binding, None);
                let mut global = self.scopes.remove(0);
                global.insert(name.clone(), id);
                self.scopes.insert(0, global);
                assert(model::all(self.scopes@) =~= before.update(0, before[0].insert(name@, id)));
            },
        }
    }

    fn poison_import(&mut self, alias: &String, span: Span)
        requires
            old(self).wf(),
        ensures
            final(self).follows(*old(self)),
            final(self).st() == scope::poison_import(old(self).st(), alias@, span),
    {
        self.poisoned.insert(alias.clone());
        if !self.import_spans.contains(alias) {
            self.import_spans.insert(alias.clone(), span);
        }
    }

    fn alias_again(&mut self, alias: &String, span: Span)
        requires
            old(self).wf(),
        ensures
            final(self).follows(*old(self)),
            final(self).st() == scope::alias_again(old(self).st(), alias@, span),
    {
        let d = Diagnostic::error(
            cat3("duplicate import alias `", alias.as_str(), "`").as_str(),
        ).with_label(span, "imported again here").with_code("E206");
        let d = with_previous(d, &self.import_spans, alias);
        self.report(d);
        self.poisoned.insert(alias.clone());
    }

    fn import_symbol(&mut self, name: &String, from: &ModulePath, span: Span)
        requires
            old(self).wf(),
        ensures
            final(self).follows(*old(self)),
            final(self).st() == scope::import_symbol(old(self).st(), name@, from@, span),
    {
        self.import_symbols.insert(
            name.clone(),
            SymbolRef { module: from.clone(), name: name.clone() },
        );
        self.import_spans.insert(name.clone(), span);
    }

    fn import_name(&mut self, m: &ModuleSpec, key: &String, name: &String, span: Span)
        requires
            old(self).wf(),
        ensures
            final(self).follows(*old(self)),
            final(self).st() == scope::import_name(old(self).st(), m@, key@, name@, span),
    {
        if self.alias_taken(name) {
            self.alias_again(name, span);
            return ;
        }
        match m.lookup(name.as_str()) {
            None => {
                if has_name(&m.poisoned_exports, name.as_str()) {
                    self.poison_import(name, span);
                    return ;
                }
                self.poison_import(name, span);
                self.poison_import(&member(key.as_str(), name.as_str()), span);
                if !m.parse_poisoned {
                    self.report(no_export(key.as_str(), name.as_str(), span));
                }
            },
            Some(_) => {
                if has_name(&m.global_dependent_exports, name.as_str()) {
                    let what = member(key.as_str(), name.as_str());
                    self.report(depends_on_globals(what.as_str(), span));
                    self.poison_import(name, span);
                    return ;
                }
                self.import_symbol(name, &m.path, span);
            },
        }
    }

    fn import_names(&mut self, m: &ModuleSpec, key: &String, names: &Vec<String>, span: Span)
        requires
            old(self).wf(),
        ensures
            final(self).follows(*old(self)),
            final(self).st() == scope::import_names(old(self).st(), m@, key@, model::all(names@), span),
    {
        let ghost all = model::all(names@);
        let mut i: usize = 0;
        assert(all.take(0).len() == 0);
        while i < names.len()
            invariant
                i <= names@.len(),
                all == model::all(names@),
                self.follows(*old(self)),
                self.st() == scope::import_names(old(self).st(), m@, key@, all.take(i as int), span),
            decreases names@.len() - i,
        {
            assert(all.take(i + 1).drop_last() =~= all.take(i as int));
            assert(all.take(i + 1).last() == all[i as int]);
            self.import_name(m, key, &names[i], span);
            i += 1;
        }
        assert(all.take(all.len() as int) =~= all);
    }

    fn fail_aliases(&mut self, names: &Vec<String>, span: Span)
        requires
            old(self).wf(),
        ensures
            final(self).follows(*old(self)),
            final(self).st() == scope::fail_aliases(old(self).st(), model::all(names@), span),
    {
        let ghost all = model::all(names@);
        let mut i: usize = 0;
        assert(all.take(0).len() == 0);
        while i < names.len()
            invariant
                i <= names@.len(),
                all == model::all(names@),
                self.follows(*old(self)),
                self.st() == scope::fail_aliases(old(self).st(), all.take(i as int), span),
            decreases names@.len() - i,
        {
            assert(all.take(i + 1).drop_last() =~= all.take(i as int));
            assert(all.take(i + 1).last() == all[i as int]);
            if self.alias_taken(&names[i]) {
                self.alias_again(&names[i], span);
            } else {
                self.poison_import(&names[i], span);
            }
            i += 1;
        }
        assert(all.take(all.len() as int) =~= all);
    }

    fn no_module(&mut self, key: &String, span: Span)
        requires
            old(self).wf(),
        ensures
            final(self).follows(*old(self)),
            final(self).st() == scope::no_module(old(self).st(), key@, span),
    {
        self.poison_import(key, span);
        let d = Diagnostic::error(
            cat3("cannot find module `", key.as_str(), "`").as_str(),
        ).with_label(span, "unknown module").with_code("E202");
        self.report(d);
    }

    fn import_leaf(&mut self, parent: &ModuleSpec, parent_key: &String, leaf: &String, key: &String, span: Span)
        requires
            old(self).wf(),
        ensures
            final(self).follows(*old(self)),
            final(self).st() == scope::import_leaf(old(self).st(), parent@, parent_key@, leaf@, key@, span),
    {
        if self.alias_taken(leaf) {
            self.alias_again(leaf, span);
            return ;
        }
        if has_name(&parent.poisoned_exports, leaf.as_str()) {
            self.poison_import(leaf, span);
            return ;
        }
        match parent.lookup(leaf.as_str()) {
            Some(_) => {
                if has_name(&parent.global_dependent_exports, leaf.as_str()) {
                    self.report(depends_on_globals(key.as_str(), span));
                    self.poison_import(leaf, span);
                    return ;
                }
                self.import_symbol(leaf, &parent.path, span);
                let mut segments: Vec<String> = Vec::new();
                segments.push(parent_key.clone());
                segments.push(leaf.clone());
                assert(model::all(segments@) =~= seq![parent_key@, leaf@]);
                self.imports.insert(
                    leaf.clone(),
                    ModuleSpec {
                        path: ModulePath::new(segments),
                        exports: Vec::new(),
                        objects: Vec::new(),
                        unions: Vec::new(),
                        parse_poisoned: parent.parse_poisoned,
                        poisoned_exports: Vec::new(),
                        global_dependent_exports: Vec::new(),
                    },
                );
            },
            None => {
                self.poison_import(leaf, span);
                self.poison_import(key, span);
                if !parent.parse_poisoned {
                    self.report(no_export(parent_key.as_str(), leaf.as_str(), span));
                }
            },
        }
    }

    fn resolve_use(&mut self, path: &Vec<String>, names: &Option<Vec<String>>, span: Span)
        requires
            old(self).wf(),
        ensures
            final(self).follows(*old(self)),
            final(self).st() == scope::resolve_use(
                old(self).env(),
                old(self).st(),
                model::all(path@),
                match *names {
                    Some(v) => Some(model::all(v@)),
                    None => None,
                },
                span,
            ),
    {
        proof {
            reveal(scope::resolve_use);
        }
        let key = dotted(path);
        let modules = self.modules;
        match module_with_path(modules, key.as_str()) {
            Some(m) => match names {
                Some(ns) => self.import_names(m, &key, ns, span),
                None => {
                    let alias = if path.len() > 0 {
                        path[path.len() - 1].clone()
                    } else {
                        String::new()
                    };
                    assert(alias@ =~= if path@.len() > 0 {
                        model::all(path@).last()
                    } else {
                        Seq::empty()
                    });
                    if self.alias_taken(&alias) {
                        self.alias_again(&alias, span);
                    } else {
                        self.imports.insert(alias.clone(), m.clone());
                        self.import_spans.insert(alias, span);
                    }
                },
            },
            None => match names {
                Some(ns) => {
                    self.fail_aliases(ns, span);
                    self.no_module(&key, span);
                },
                None => {
                    if path.len() == 0 {
                        self.no_module(&key, span);
                        return ;
                    }
                    let leaf = &path[path.len() - 1];
                    if path.len() >= 2 {
                        let parent_key = dotted(&front(path));
                        match module_with_path(modules, parent_key.as_str()) {
                            Some(parent) => {
                                self.import_leaf(parent, &parent_key, leaf, &key, span);
                                return ;
                            },
                            None => {},
                        }
                    }
                    if self.alias_taken(leaf) {
                        self.alias_again(leaf, span);
                    } else {
                        self.poison_import(leaf, span);
                        self.no_module(&key, span);
                    }
                },
            },
        }
    }

    fn use_path(&mut self, path: &Vec<String>, span: Span) -> (r: bool)
        requires
            old(self).wf(),
        ensures
            final(self).follows(*old(self)),
            match scope::use_path(old(self).env(), old(self).st(), model::all(path@), span) {
                Some(after) => r && final(self).st() == after,
                None => !r && final(self).st() == old(self).st(),
            },
    {
        proof {
            reveal(scope::use_path);
        }
        if path.len() == 0 {
            return false;
        }
        let modules = self.modules;
        let head = &path[0];
        if path.len() == 1 {
            match self.lookup(head) {
                Some(id) => {
                    self.use_at(span, id);
                    return true;
                },
                None => {},
            }
            if self.poisoned.contains(head.as_str()) {
                self.use_poisoned(head.clone(), span);
                return true;
            }
            let symbol: Option<SymbolRef> = match self.import_symbols.get(head) {
                Some(s) => Some(s.clone()),
                None => None,
            };
            match symbol {
                Some(s) => {
                    let found: Option<&Export> = match module_at(modules, &s.module) {
                        Some(m) => m.lookup(s.name.as_str()),
                        None => None,
                    };
                    match found {
                        Some(x) => self.use_outside(
                            head.clone(),
                            span,
                            Some(x.sig.clone()),
                            Some(x.kind),
                            DefKind::ImportedFunction,
                            Some(s),
                        ),
                        None => self.use_outside(
                            head.clone(),
                            span,
                            None,
                            None,
                            DefKind::ImportedFunction,
                            Some(s),
                        ),
                    }
                    return true;
                },
                None => {},
            }
            if self.imports.contains(head) {
                self.use_outside(head.clone(), span, None, None, DefKind::ModuleAlias, None);
                return true;
            }
            return false;
        }
        let full = dotted(path);
        if self.poisoned.contains(full.as_str()) || self.poisoned.contains(head.as_str()) {
            self.use_poisoned(full, span);
            return true;
        }
        if path.len() != 2 {
            return false;
        }
        let m: ModuleSpec = match self.imports.get(head) {
            Some(m) => m.clone(),
            None => return false,
        };
        let name = path[1].as_str();
        match m.lookup(name) {
            None => {
                if has_name(&m.poisoned_exports, name) || m.parse_poisoned {
                    self.poisoned.insert(full.clone());
                    self.use_poisoned(full, span);
                    return true;
                }
                false
            },
            Some(x) => {
                if has_name(&m.global_dependent_exports, name) {
                    let what = member(m.path.as_string().as_str(), name);
                    self.report(depends_on_globals(what.as_str(), span));
                    self.poisoned.insert(full.clone());
                    self.use_poisoned(full, span);
                    return true;
                }
                self.use_outside(
                    full,
                    span,
                    Some(x.sig.clone()),
                    Some(x.kind),
                    DefKind::ImportedFunction,
                    Some(SymbolRef { module: m.path.clone(), name: owned(name) }),
                );
                true
            },
        }
    }

    fn use_local_method(&mut self, owner: &String, shown: &str, method: &String, span: Span)
        requires
            old(self).wf(),
        ensures
            final(self).follows(*old(self)),
            final(self).st() == scope::use_local_method(old(self).env(), old(self).st(), owner@, shown@, method@, span),
    {
        let key = Member(owner.clone(), method.clone());
        let found: Option<DefId> = match self.assoc.get(&key) {
            Some(id) => Some(*id),
            None => None,
        };
        match found {
            Some(id) => self.use_at(span, id),
            None => {
                let is_field = match self.local_fields.get(owner) {
                    Some(names) => has_name(&names.0, method.as_str()),
                    None => false,
                };
                self.report(missing_method(shown, method.as_str(), span, is_field));
            },
        }
    }

    fn use_imported_method(&mut self, m: &ModuleSpec, object: &ObjectExport, shown: &str, method: &str, key: &String, full: String, span: Span)
        requires
            old(self).wf(),
        ensures
            final(self).follows(*old(self)),
            final(self).st() == scope::use_imported_method(old(self).st(), m@, object@, shown@, method@, key@, full@, span),
    {
        match object.lookup_method(method) {
            None => {
                let is_field = has_field_sig(&object.fields, method);
                self.report(missing_method(shown, method, span, is_field));
            },
            Some(x) => {
                if has_name(&m.global_dependent_exports, key.as_str()) {
                    let what = member(m.path.as_string().as_str(), key.as_str());
                    self.report(depends_on_globals(what.as_str(), span));
                    self.poisoned.insert(full.clone());
                    self.use_poisoned(full, span);
                    return ;
                }
                self.use_outside(
                    full,
                    span,
                    Some(x.sig.clone()),
                    Some(x.kind),
                    DefKind::ImportedFunction,
                    Some(SymbolRef { module: m.path.clone(), name: key.clone() }),
                );
            },
        }
    }

    fn use_alias_method(&mut self, m: &ModuleSpec, object: &str, method: &str, full: String, span: Span)
        requires
            old(self).wf(),
        ensures
            final(self).follows(*old(self)),
            final(self).st() == scope::use_alias_method(old(self).st(), m@, object@, method@, full@, span),
    {
        let key = member(object, method);
        if has_name(&m.poisoned_exports, key.as_str()) {
            self.use_poisoned(full, span);
            return ;
        }
        match object_named(m.objects.as_slice(), object) {
            None => {
                let path = m.path.as_string();
                let d = Diagnostic::error(
                    cat5(
                        "module `",
                        path.as_str(),
                        "` has no object type `",
                        object,
                        "`",
                    ).as_str(),
                ).with_label(span, "unknown object type").with_code("E302");
                self.report(d);
            },
            Some(o) => self.use_imported_method(
                m,
                o,
                o.qualified.as_str(),
                method,
                &key,
                full,
                span,
            ),
        }
    }

    fn use_qualified_method(&mut self, owner: &str, method: &str, full: String, span: Span) -> (r: bool)
        requires
            old(self).wf(),
        ensures
            final(self).follows(*old(self)),
            match scope::use_qualified_method(old(self).env().modules, old(self).st(), owner@, method@, full@, span) {
                Some(after) => r && final(self).st() == after,
                None => !r && final(self).st() == old(self).st(),
            },
    {
        let modules = self.modules;
        let ghost all = model::all(modules@);
        let ghost start = self.st();
        let mut i: usize = 0;
        assert(all.take(0).len() == 0);
        while i < modules.len()
            invariant
                i <= modules@.len(),
                modules == self.modules,
                all == model::all(modules@),
                *self == *old(self),
                self.wf(),
                start == self.st(),
                scope::use_qualified_method(
                    all.take(i as int),
                    start,
                    owner@,
                    method@,
                    full@,
                    span,
                ) is None,
            decreases modules@.len() - i,
        {
            let m = &modules[i];
            assert(all.take(i + 1).drop_last() =~= all.take(i as int));
            assert(all.take(i + 1).last() == m@);
            match object_qualified(m.objects.as_slice(), owner) {
                None => {},
                Some(o) => {
                    proof {
                        qualified_stays(all, i + 1, start, owner@, method@, full@, span);
                    }
                    let key = member(o.name.as_str(), method);
                    if has_name(&m.poisoned_exports, key.as_str()) {
                        self.use_poisoned(full, span);
                    } else {
                        self.use_imported_method(m, o, owner, method, &key, full, span);
                    }
                    return true;
                },
            }
            i += 1;
        }
        assert(all.take(all.len() as int) =~= all);
        false
    }

    /// The variants of the union type that a name means.
    fn union_of(&self, name: &String) -> (r: Option<Vec<String>>)
        ensures
            model::opt_all(r) == scope::union_of(self.env(), self.st(), name@),
    {
        match self.unions.get(name) {
            Some(names) => return Some(clone_vec(&names.0)),
            None => {},
        }
        if str_eq(name.as_str(), "Option") && self.lookup(name).is_none() && !self.alias_taken(
            name,
        ) && !self.local_objects.contains(name.as_str()) {
            let mut variants: Vec<String> = Vec::new();
            variants.push(owned("None"));
            variants.push(owned("Some"));
            assert(model::all(variants@) =~= scope::option_variants());
            return Some(variants);
        }
        None
    }

    /// The union that the base of a field access names.
    fn field_union(&self, base: &Expr) -> (r: Option<(String, Vec<String>)>)
        ensures
            match r {
                Some((u, variants)) => scope::field_union(self.env(), self.st(), base@) == Some(
                    (u@, model::all(variants@)),
                ),
                None => scope::field_union(self.env(), self.st(), base@) is None,
            },
    {
        match base {
            Expr::Var { path, .. } => if path.len() == 1 {
                match self.union_of(&path[0]) {
                    Some(variants) => Some((path[0].clone(), variants)),
                    None => None,
                }
            } else {
                None
            },
            _ => None,
        }
    }

    fn use_variant(&mut self, union: &String, variants: &Vec<String>, variant: &String, span: Span)
        requires
            old(self).wf(),
        ensures
            final(self).follows(*old(self)),
            final(self).st() == scope::use_variant(old(self).st(), union@, model::all(variants@), variant@, span),
    {
        if has_name(variants, variant.as_str()) {
            self.out.variants.insert(
                Place::of(span),
                VariantUse { union: union.clone(), variant: variant.clone() },
            );
        } else {
            self.report(no_variant(union.as_str(), variant.as_str(), span));
        }
    }

    fn use_member_callee(&mut self, callee: &Vec<String>, span: Span) -> (r: bool)
        requires
            old(self).wf(),
        ensures
            final(self).follows(*old(self)),
            match scope::use_member_callee(old(self).env(), old(self).st(), model::all(callee@), span) {
                Some(after) => r && final(self).st() == after,
                None => !r && final(self).st() == old(self).st(),
            },
    {
        proof {
            reveal(scope::use_member_callee);
        }
        if callee.len() < 2 {
            return false;
        }
        let head = &callee[0];
        let full = dotted(callee);
        if self.poisoned.contains(full.as_str()) || self.poisoned.contains(head.as_str()) {
            self.use_poisoned(full, span);
            return true;
        }
        if callee.len() == 2 {
            match self.union_of(head) {
                Some(variants) => {
                    self.use_variant(head, &variants, &callee[1], span);
                    return true;
                },
                None => {},
            }
        }
        let object = self.local_objects.contains(head.as_str());
        if callee.len() == 2 && object {
            self.use_local_method(head, head.as_str(), &callee[1], span);
            return true;
        }
        if !object {
            match self.lookup(head) {
                Some(id) => {
                    self.out.sugar_receivers.insert(Place::of(span), id);
                    return true;
                },
                None => {},
            }
        }
        if callee.len() == 3 {
            let imported: Option<ModuleSpec> = match self.imports.get(head) {
                Some(m) => Some(m.clone()),
                None => None,
            };
            match imported {
                Some(m) => {
                    self.use_alias_method(&m, callee[1].as_str(), callee[2].as_str(), full, span);
                    return true;
                },
                None => {},
            }
        }
        if callee.len() < 3 {
            return false;
        }
        let method = &callee[callee.len() - 1];
        let owner = dotted(&front(callee));
        let prefix = cat(self.module.as_str(), ".");
        match behind(owner.as_str(), prefix.as_str()) {
            Some(local) => {
                if self.local_objects.contains(local.as_str()) {
                    self.use_local_method(&local, owner.as_str(), method, span);
                    return true;
                }
            },
            None => {},
        }
        self.use_qualified_method(owner.as_str(), method.as_str(), full, span)
    }

    fn resolve_callee(&mut self, callee: &Vec<String>, span: Span, type_args: &Vec<VlType>, type_args_span: Option<Span>)
        requires
            old(self).wf(),
        ensures
            final(self).follows(*old(self)),
            final(self).st() == scope::resolve_callee(
                old(self).env(),
                old(self).st(),
                model::all(callee@),
                span,
                model::all(type_args@),
                type_args_span,
            ),
    {
        proof {
            reveal(scope::resolve_callee);
        }
        let full = dotted(callee);
        if callee.len() == 2 && str_eq(callee[0].as_str(), "Array") && str_eq(
            callee[1].as_str(),
            "new",
        ) {
            if type_args.len() == 1 {
                let mut params: Vec<ParamSig> = Vec::new();
                params.push(ParamSig { name: owned("count"), ty: VlType::U64 });
                let sig = FuncSig::generic(
                    Vec::new(),
                    params,
                    VlType::Array(Box::new(type_args[0].clone())),
                );
                assert(sig@.params =~= scope::array_new_sig(type_args@[0]@).params);
                self.use_outside(full, span, Some(sig), None, DefKind::External, None);
            } else {
                if type_args.len() > 1 {
                    let message = cat(
                        "`Array.new` expects exactly one type argument, got ",
                        dec_u64(type_args.len() as u64).as_str(),
                    );
                    let at = match type_args_span {
                        Some(s) => s,
                        None => span,
                    };
                    let d = Diagnostic::error(message.as_str()).with_label(
                        at,
                        "write `Array.new::[T](count)`, e.g. `Array.new::[u64](3)`",
                    ).with_code("E303");
                    self.report(d);
                }
                self.use_outside(full, span, None, None, DefKind::External, None);
            }
            return ;
        }
        if callee.len() > 0 && str_eq(callee[0].as_str(), "U64Array") {
            self.report(
                not_found(
                    full.as_str(),
                    span,
                    "`U64Array` was removed",
                    "use `Array[u64]` and `Array.new::[u64](n)` instead",
                ),
            );
            return ;
        }
        if self.use_member_callee(callee, span) {
            return ;
        }
        if self.use_path(callee, span) {
            return ;
        }
        self.report(
            not_found(
                full.as_str(),
                span,
                "undefined function",
                "did you mean to `fun`-define it first?",
            ),
        );
    }

    fn resolve_expr(&mut self, x: &Expr)
        requires
            old(self).wf(),
        ensures
            final(self).follows(*old(self)),
            final(self).st() == scope::resolve_expr(old(self).env(), old(self).st(), x@),
        decreases x,
    {
        proof {
            reveal(scope::resolve_expr);
            reveal(scope::resolve_exprs);
            reveal(scope::resolve_named);
            reveal(scope::resolve_elems);
        }
        match x {
            Expr::Literal(_, _) => {},
            Expr::String(_, _) => {},
            Expr::Null(_) => {},
            Expr::ObjectLiteral { fields, .. } => self.resolve_named(fields),
            Expr::ArrayLiteral { elems, .. } => self.resolve_exprs(elems),
            Expr::TupleLiteral { elems, .. } => self.resolve_elems(elems),
            Expr::TupleIndex { base, .. } => self.resolve_expr(base),
            Expr::Index { base, index, .. } => {
                self.resolve_expr(base);
                self.resolve_expr(index);
            },
            Expr::Field { base, name, span } => {
                let union = self.field_union(base);
                match union {
                    Some((u, variants)) => self.use_variant(&u, &variants, name, *span),
                    None => self.resolve_expr(base),
                }
            },
            Expr::Var { path, span } => {
                if !self.use_path(path, *span) {
                    self.report(
                        not_found(
                            dotted(path).as_str(),
                            *span,
                            "undefined variable",
                            "did you mean to `var`/`val`-bind it first?",
                        ),
                    );
                }
            },
            Expr::Call { callee, callee_span, type_args, type_args_span, args, .. } => {
                self.resolve_callee(callee, *callee_span, type_args, *type_args_span);
                self.resolve_exprs(args);
            },
            Expr::Unary { rhs, .. } => self.resolve_expr(rhs),
            Expr::Binary { lhs, rhs, .. } => {
                self.resolve_expr(lhs);
                self.resolve_expr(rhs);
            },
            Expr::Cast { inner, .. } => self.resolve_expr(inner),
        }
    }

    fn resolve_exprs(&mut self, xs: &Vec<Expr>)
        requires
            old(self).wf(),
        ensures
            final(self).follows(*old(self)),
            final(self).st() == scope::resolve_exprs(old(self).env(), old(self).st(), ast::exprs_view(xs@)),
        decreases xs,
    {
        let ghost all = ast::exprs_view(xs@);
        let mut i: usize = 0;
        assert(all.take(0).len() == 0);
        proof {
            reveal(scope::resolve_exprs);
            reveal(scope::resolve_expr);
        }
        while i < xs.len()
            invariant
                i <= xs@.len(),
                all == ast::exprs_view(xs@),
                self.follows(*old(self)),
                self.st() == scope::resolve_exprs(old(self).env(), old(self).st(), all.take(i as int)),
            decreases xs@.len() - i,
        {
            assert(all.take(i + 1).drop_last() =~= all.take(i as int));
            assert(all.take(i + 1).last() == all[i as int]);
            proof {
                reveal(scope::resolve_exprs);
                reveal(scope::resolve_expr);
            }
            self.resolve_expr(&xs[i]);
            i += 1;
        }
        assert(all.take(all.len() as int) =~= all);
    }

    fn resolve_named(&mut self, xs: &Vec<(String, Span, Expr)>)
        requires
            old(self).wf(),
        ensures
            final(self).follows(*old(self)),
            final(self).st() == scope::resolve_named(old(self).env(), old(self).st(), ast::named_view(xs@)),
        decreases xs,
    {
        let ghost all = ast::named_view(xs@);
        let mut i: usize = 0;
        assert(all.take(0).len() == 0);
        proof {
            reveal(scope::resolve_named);
            reveal(scope::resolve_expr);
        }
        while i < xs.len()
            invariant
                i <= xs@.len(),
                all == ast::named_view(xs@),
                self.follows(*old(self)),
                self.st() == scope::resolve_named(old(self).env(), old(self).st(), all.take(i as int)),
            decreases xs@.len() - i,
        {
            assert(all.take(i + 1).drop_last() =~= all.take(i as int));
            assert(all.take(i + 1).last() == all[i as int]);
            proof {
                reveal(scope::resolve_named);
                reveal(scope::resolve_expr);
            }
            self.resolve_expr(&xs[i].2);
            i += 1;
        }
        assert(all.take(all.len() as int) =~= all);
    }

    fn resolve_elems(&mut self, xs: &Vec<(Option<String>, Span, Expr)>)
        requires
            old(self).wf(),
        ensures
            final(self).follows(*old(self)),
            final(self).st() == scope::resolve_elems(old(self).env(), old(self).st(), ast::elems_view(xs@)),
        decreases xs,
    {
        let ghost all = ast::elems_view(xs@);
        let mut i: usize = 0;
        assert(all.take(0).len() == 0);
        proof {
            reveal(scope::resolve_elems);
            reveal(scope::resolve_expr);
        }
        while i < xs.len()
            invariant
                i <= xs@.len(),
                all == ast::elems_view(xs@),
                self.follows(*old(self)),
                self.st() == scope::resolve_elems(old(self).env(), old(self).st(), all.take(i as int)),
            decreases xs@.len() - i,
        {
            assert(all.take(i + 1).drop_last() =~= all.take(i as int));
            assert(all.take(i + 1).last() == all[i as int]);
            proof {
                reveal(scope::resolve_elems);
                reveal(scope::resolve_expr);
            }
            self.resolve_expr(&xs[i].2);
            i += 1;
        }
        assert(all.take(all.len() as int) =~= all);
    }

    fn assign_to(&mut self, name: &String, span: Span)
        requires
            old(self).wf(),
        ensures
            final(self).follows(*old(self)),
            final(self).st() == scope::assign_to(old(self).st(), name@, span),
    {
        proof {
            reveal(scope::assign_to);
        }
        match self.lookup(name) {
            Some(id) => {
                self.use_at(span, id);
                let mut i: usize = 0;
                while i < self.poisoned_params.len()
                    invariant
                        i <= self.poisoned_params@.len(),
                        self.follows(*old(self)),
                        self.st() == scope::use_at(old(self).st(), span, id),
                        scope::lookup(old(self).st().scopes, name@) == Some(id),
                        forall|k: int| 0 <= k < i ==> self.poisoned_params@[k] != id.0,
                    decreases self.poisoned_params@.len() - i,
                {
                    if self.poisoned_params[i] == id.0 {
                        proof {
                            reveal(scope::assign_to);
                        }
                        assert(self.poisoned_params@.contains(id.0));
                        return ;
                    }
                    i += 1;
                }
                assert(!self.poisoned_params@.contains(id.0));
                let fixed: Option<bool> = match find_def(&self.out.defs, id) {
                    Some(d) => {
                        let val = match d.binding {
                            Some(BindingKind::Val) => true,
                            _ => false,
                        };
                        if d.kind == DefKind::Parameter {
                            Some(true)
                        } else if val {
                            Some(false)
                        } else {
                            None
                        }
                    },
                    None => None,
                };
                match fixed {
                    Some(parameter) => self.report(fixed_binding(name.as_str(), span, parameter)),
                    None => {},
                }
            },
            None => self.report(
                not_found(
                    name.as_str(),
                    span,
                    "undefined variable",
                    "did you mean to `var`/`val`-bind it first?",
                ),
            ),
        }
    }

    fn declare_fields(&mut self, bs: &Vec<DestructureBinding>, kind: BindingKind)
        requires
            old(self).wf(),
        ensures
            final(self).follows(*old(self)),
            final(self).st() == scope::declare_fields(old(self).st(), model::all(bs@), kind),
    {
        let ghost all = model::all(bs@);
        let mut i: usize = 0;
        assert(all.take(0).len() == 0);
        while i < bs.len()
            invariant
                i <= bs@.len(),
                all == model::all(bs@),
                self.follows(*old(self)),
                self.st() == scope::declare_fields(old(self).st(), all.take(i as int), kind),
            decreases bs@.len() - i,
        {
            assert(all.take(i + 1).drop_last() =~= all.take(i as int));
            assert(all.take(i + 1).last() == all[i as int]);
            self.declare_local(&bs[i].binding, bs[i].binding_span, kind);
            i += 1;
        }
        assert(all.take(all.len() as int) =~= all);
    }

    fn declare_names(&mut self, names: &Vec<(String, Span)>)
        requires
            old(self).wf(),
        ensures
            final(self).follows(*old(self)),
            final(self).st() == scope::declare_names(old(self).st(), ast::names_view(names@)),
    {
        let ghost all = ast::names_view(names@);
        let mut i: usize = 0;
        assert(all.take(0).len() == 0);
        while i < names.len()
            invariant
                i <= names@.len(),
                all == ast::names_view(names@),
                self.follows(*old(self)),
                self.st() == scope::declare_names(old(self).st(), all.take(i as int)),
            decreases names@.len() - i,
        {
            assert(all.take(i + 1).drop_last() =~= all.take(i as int));
            assert(all.take(i + 1).last() == all[i as int]);
            self.declare_local(&names[i].0, names[i].1, BindingKind::Val);
            i += 1;
        }
        assert(all.take(all.len() as int) =~= all);
    }

    fn resolve_pattern(&mut self, path: &Vec<String>, span: Span)
        requires
            old(self).wf(),
        ensures
            final(self).follows(*old(self)),
            final(self).st() == scope::resolve_pattern(old(self).env(), old(self).st(), model::all(path@), span),
    {
        proof {
            reveal(scope::resolve_pattern);
        }
        if path.len() == 1 && str_eq(path[0].as_str(), "null") {
            assert(model::all(path@) =~= seq!["null"@]);
            return ;
        }
        assert(model::all(path@) != seq!["null"@]) by {
            if model::all(path@) == seq!["null"@] {
                assert(model::all(path@).len() == seq!["null"@].len());
                assert(model::all(path@)[0] == path@[0]@);
            }
        }
        let variants: Option<Vec<String>> = if path.len() == 2 {
            self.union_of(&path[0])
        } else {
            None
        };
        match variants {
            None => {
                let d = Diagnostic::error(
                    cat3("cannot find union variant `", dotted(path).as_str(), "`").as_str(),
                ).with_label(span, "unknown union").with_code("E201");
                self.report(d);
            },
            Some(names) => {
                self.out.match_patterns.insert(Place::of(span), path[0].clone());
                if !has_name(&names, path[1].as_str()) {
                    self.report(no_variant(path[0].as_str(), path[1].as_str(), span));
                }
            },
        }
    }

    fn resolve_stmt(&mut self, x: &Stmt)
        requires
            old(self).wf(),
        ensures
            final(self).follows(*old(self)),
            final(self).st() == scope::resolve_stmt(old(self).env(), old(self).st(), x@),
        decreases x, 0nat,
    {
        proof {
            reveal(scope::resolve_stmt);
            reveal(scope::resolve_body);
            reveal(scope::resolve_arms);
        }
        match x {
            Stmt::Let { name, name_span, kind, value, .. } => {
                self.resolve_expr(value);
                self.declare_local(name, *name_span, *kind);
            },
            Stmt::Assign { name, name_span, value, .. } => {
                self.resolve_expr(value);
                self.assign_to(name, *name_span);
            },
            Stmt::IndexAssign { array, index, value, .. } => {
                self.resolve_expr(array);
                self.resolve_expr(index);
                self.resolve_expr(value);
            },
            Stmt::FieldAssign { base, value, .. } => {
                self.resolve_expr(base);
                self.resolve_expr(value);
            },
            Stmt::TupleAssign { base, value, .. } => {
                self.resolve_expr(base);
                self.resolve_expr(value);
            },
            Stmt::Destructure { bindings, kind, value, .. } => {
                self.resolve_expr(value);
                self.declare_fields(bindings, *kind);
            },
            Stmt::Expr(value) => self.resolve_expr(value),
            Stmt::Return { value, .. } => match value {
                Some(v) => self.resolve_expr(v),
                None => {},
            },
            Stmt::Break { span } => {
                if !self.in_loop {
                    self.report(
                        Diagnostic::error("`break` outside of a loop").with_label(
                            *span,
                            "no enclosing `while`",
                        ).with_code("E204"),
                    );
                }
            },
            Stmt::Continue { span } => {
                if !self.in_loop {
                    self.report(
                        Diagnostic::error("`continue` outside of a loop").with_label(
                            *span,
                            "no enclosing `while`",
                        ).with_code("E204"),
                    );
                }
            },
            Stmt::While { condition, body, .. } => {
                self.resolve_expr(condition);
                let outer = self.in_loop;
                self.in_loop = true;
                self.resolve_body(body);
                self.in_loop = outer;
            },
            Stmt::If { condition, then_body, else_body, .. } => {
                self.resolve_expr(condition);
                self.resolve_body(then_body);
                match else_body {
                    Some(body) => self.resolve_body(body),
                    None => {},
                }
            },
            Stmt::Match { scrutinee, arms, else_body, .. } => {
                self.resolve_expr(scrutinee);
                self.resolve_arms(arms);
                match else_body {
                    Some(body) => self.resolve_body(body),
                    None => {},
                }
            },
        }
    }

    fn resolve_stmts(&mut self, xs: &Vec<Stmt>)
        requires
            old(self).wf(),
        ensures
            final(self).follows(*old(self)),
            final(self).st() == scope::resolve_stmts(old(self).env(), old(self).st(), ast::stmts_view(xs@)),
        decreases xs, 0nat,
    {
        let ghost all = ast::stmts_view(xs@);
        let mut i: usize = 0;
        assert(all.take(0).len() == 0);
        proof {
            reveal(scope::resolve_stmts);
            reveal(scope::resolve_stmt);
        }
        while i < xs.len()
            invariant
                i <= xs@.len(),
                all == ast::stmts_view(xs@),
                self.follows(*old(self)),
                self.st() == scope::resolve_stmts(old(self).env(), old(self).st(), all.take(i as int)),
            decreases xs@.len() - i,
        {
            assert(all.take(i + 1).drop_last() =~= all.take(i as int));
            assert(all.take(i + 1).last() == all[i as int]);
            proof {
                reveal(scope::resolve_stmts);
                reveal(scope::resolve_stmt);
            }
            self.resolve_stmt(&xs[i]);
            i += 1;
        }
        assert(all.take(all.len() as int) =~= all);
    }

    fn resolve_body(&mut self, xs: &Vec<Stmt>)
        requires
            old(self).wf(),
        ensures
            final(self).follows(*old(self)),
            final(self).st() == scope::resolve_body(old(self).env(), old(self).st(), ast::stmts_view(xs@)),
        decreases xs, 1nat,
    {
        proof {
            reveal(scope::resolve_body);
            reveal(scope::resolve_stmts);
        }
        self.enter();
        self.resolve_stmts(xs);
        self.leave();
    }

    fn resolve_arms(&mut self, arms: &Vec<MatchArm>)
        requires
            old(self).wf(),
        ensures
            final(self).follows(*old(self)),
            final(self).st() == scope::resolve_arms(old(self).env(), old(self).st(), ast::arms_view(arms@)),
        decreases arms, 0nat,
    {
        let ghost all = ast::arms_view(arms@);
        let mut i: usize = 0;
        assert(all.take(0).len() == 0);
        proof {
            reveal(scope::resolve_arms);
            reveal(scope::resolve_stmts);
        }
        while i < arms.len()
            invariant
                i <= arms@.len(),
                all == ast::arms_view(arms@),
                self.follows(*old(self)),
                self.st() == scope::resolve_arms(old(self).env(), old(self).st(), all.take(i as int)),
            decreases arms@.len() - i,
        {
            assert(all.take(i + 1).drop_last() =~= all.take(i as int));
            assert(all.take(i + 1).last() == all[i as int]);
            proof {
                reveal(scope::resolve_arms);
                reveal(scope::resolve_stmts);
            }
            let arm = &arms[i];
            self.resolve_pattern(&arm.path, arm.path_span);
            self.enter();
            self.declare_names(&arm.bindings);
            self.resolve_stmts(&arm.body);
            self.leave();
            i += 1;
        }
        assert(all.take(all.len() as int) =~= all);
    }

    fn declare_param(&mut self, p: &Param)
        requires
            old(self).wf(),
        ensures
            final(self).follows(*old(self)),
            final(self).st() == scope::declare_param(old(self).st(), p@),
    {
        let top: usize = self.scopes.len() - 1;
        let taken: Option<DefId> = match self.scopes[top].get(&p.name) {
            Some(id) => Some(*id),
            None => None,
        };
        match taken {
            Some(id) => {
                let d = Diagnostic::error(
                    cat3("duplicate parameter `", p.name.as_str(), "`").as_str(),
                ).with_label(p.name_span, "redefined here").with_code("E200");
                let shown = match find_def(&self.out.defs, id) {
                    Some(previous) => d.with_bare_label(previous.span),
                    None => d,
                };
                self.report(shown);
                let ghost before = self.poisoned_params@;
                self.poisoned_params.push(id.0);
                proof {
                    let a = Set::new(|x: u32| self.poisoned_params@.contains(x));
                    let b = Set::new(|x: u32| before.contains(x)).insert(id.0);
                    assert forall|x: u32| a.contains(x) == b.contains(x) by {
                        if before.contains(x) {
                            let k = choose|k: int| 0 <= k < before.len() && before[k] == x;
                            assert(self.poisoned_params@[k] == x);
                        }
                        if x == id.0 {
                            assert(self.poisoned_params@[before.len() as int] == x);
                        }
                        if self.poisoned_params@.contains(x) {
                            let k = choose|k: int|
                                0 <= k < self.poisoned_params@.len() && self.poisoned_params@[k]
                                    == x;
                            if k < before.len() {
                                assert(before[k] == x);
                            }
                        }
                    }
                    assert(a =~= b);
                }
            },
            None => {
                let id = self.define(
                    p.name.clone(),
                    p.name_span,
                    DefKind::Parameter,
                    None,
                    None,
                    None,
                    None,
                );
                self.bind(p.name.clone(), id);
            },
        }
    }

    fn declare_params(&mut self, ps: &Vec<Param>)
        requires
            old(self).wf(),
        ensures
            final(self).follows(*old(self)),
            final(self).st() == scope::declare_params(old(self).st(), model::all(ps@)),
    {
        let ghost all = model::all(ps@);
        let mut i: usize = 0;
        assert(all.take(0).len() == 0);
        while i < ps.len()
            invariant
                i <= ps@.len(),
                all == model::all(ps@),
                self.follows(*old(self)),
                self.st() == scope::declare_params(old(self).st(), all.take(i as int)),
            decreases ps@.len() - i,
        {
            assert(all.take(i + 1).drop_last() =~= all.take(i as int));
            assert(all.take(i + 1).last() == all[i as int]);
            self.declare_param(&ps[i]);
            i += 1;
        }
        assert(all.take(all.len() as int) =~= all);
    }

    fn resolve_fn(&mut self, ps: &Vec<Param>, body: &Vec<Stmt>)
        requires
            old(self).wf(),
        ensures
            final(self).follows(*old(self)),
            final(self).st() == scope::resolve_fn(old(self).env(), old(self).st(), model::all(ps@), ast::stmts_view(body@)),
    {
        self.enter();
        self.declare_params(ps);
        self.resolve_stmts(body);
        self.leave();
    }

    fn resolve_methods(&mut self, ms: &Vec<FunctionDecl>)
        requires
            old(self).wf(),
        ensures
            final(self).follows(*old(self)),
            final(self).st() == scope::resolve_methods(old(self).env(), old(self).st(), model::all(ms@)),
    {
        let ghost all = model::all(ms@);
        let mut i: usize = 0;
        assert(all.take(0).len() == 0);
        while i < ms.len()
            invariant
                i <= ms@.len(),
                all == model::all(ms@),
                self.follows(*old(self)),
                self.st() == scope::resolve_methods(old(self).env(), old(self).st(), all.take(i as int)),
            decreases ms@.len() - i,
        {
            assert(all.take(i + 1).drop_last() =~= all.take(i as int));
            assert(all.take(i + 1).last() == all[i as int]);
            self.resolve_fn(&ms[i].params, &ms[i].body);
            i += 1;
        }
        assert(all.take(all.len() as int) =~= all);
    }

    fn resolve_uses(&mut self, items: &Vec<Item>)
        requires
            old(self).wf(),
        ensures
            final(self).follows(*old(self)),
            final(self).st() == scope::resolve_uses(old(self).env(), old(self).st(), model::all(items@)),
    {
        let ghost all = model::all(items@);
        let mut i: usize = 0;
        assert(all.take(0).len() == 0);
        while i < items.len()
            invariant
                i <= items@.len(),
                all == model::all(items@),
                self.follows(*old(self)),
                self.st() == scope::resolve_uses(old(self).env(), old(self).st(), all.take(i as int)),
            decreases items@.len() - i,
        {
            assert(all.take(i + 1).drop_last() =~= all.take(i as int));
            assert(all.take(i + 1).last() == all[i as int]);
            match &items[i] {
                Item::Use { path, names, span } => self.resolve_use(path, names, *span),
                _ => {},
            }
            i += 1;
        }
        assert(all.take(all.len() as int) =~= all);
    }

    fn duplicate_type(&mut self, what: &str, name: &String, span: Span, spans: &Table<String, Span>)
        requires
            old(self).wf(),
        ensures
            final(self).follows(*old(self)),
            final(self).st() == scope::duplicate_type(old(self).st(), what@, name@, span, spans@),
    {
        match spans.get(name) {
            Some(previous) => {
                let d = Diagnostic::error(
                    cat5("duplicate ", what, " type `", name.as_str(), "`").as_str(),
                ).with_label(span, "redefined here").with_bare_label(*previous).with_code("E200");
                self.report(d);
            },
            None => {},
        }
    }

    fn report_duplicate_types(&mut self, items: &Vec<Item>)
        requires
            old(self).wf(),
        ensures
            final(self).follows(*old(self)),
            final(self).st() == scope::report_duplicate_types(old(self).st(), model::all(items@)),
    {
        let ghost all = model::all(items@);
        let mut i: usize = 0;
        let mut spans: Table<String, Span> = Table::new();
        assert(all.take(0).len() == 0);
        while i < items.len()
            invariant
                i <= items@.len(),
                all == model::all(items@),
                self.follows(*old(self)),
                self.st() == scope::report_duplicate_types(old(self).st(), all.take(i as int)),
                spans@ == scope::type_spans(all.take(i as int)),
            decreases items@.len() - i,
        {
            assert(all.take(i + 1).drop_last() =~= all.take(i as int));
            assert(all.take(i + 1).last() == all[i as int]);
            match &items[i] {
                Item::Object { name, name_span, .. } => {
                    self.duplicate_type("object", name, *name_span, &spans);
                    spans.insert(name.clone(), *name_span);
                },
                Item::Union { name, name_span, .. } => {
                    self.duplicate_type("union", name, *name_span, &spans);
                    spans.insert(name.clone(), *name_span);
                },
                _ => {},
            }
            i += 1;
        }
        assert(all.take(all.len() as int) =~= all);
    }

    fn declare_methods(&mut self, owner: &String, ms: &Vec<FunctionDecl>)
        requires
            old(self).wf(),
        ensures
            final(self).scopes@.len() == old(self).scopes@.len(),
            (final(self).env(), final(self).st()) == scope::declare_methods(
                old(self).env(),
                old(self).st(),
                owner@,
                model::all(ms@),
            ),
    {
        let ghost all = model::all(ms@);
        let mut i: usize = 0;
        assert(all.take(0).len() == 0);
        while i < ms.len()
            invariant
                i <= ms@.len(),
                all == model::all(ms@),
                self.wf(),
                self.scopes@.len() == old(self).scopes@.len(),
                (self.env(), self.st()) == scope::declare_methods(
                    old(self).env(),
                    old(self).st(),
                    owner@,
                    all.take(i as int),
                ),
            decreases ms@.len() - i,
        {
            assert(all.take(i + 1).drop_last() =~= all.take(i as int));
            assert(all.take(i + 1).last() == all[i as int]);
            let m = &ms[i];
            let id = self.define(
                member(owner.as_str(), m.name.as_str()),
                m.name_span,
                DefKind::Local,
                None,
                None,
                None,
                None,
            );
            let key = Member(owner.clone(), m.name.clone());
            if !self.assoc.contains(&key) {
                self.assoc.insert(key, id);
            }
            i += 1;
        }
        assert(all.take(all.len() as int) =~= all);
    }

    fn declare_types(&mut self, items: &Vec<Item>)
        requires
            old(self).wf(),
        ensures
            final(self).scopes@.len() == old(self).scopes@.len(),
            (final(self).env(), final(self).st()) == scope::declare_types(
                old(self).env(),
                old(self).st(),
                model::all(items@),
            ),
    {
        let ghost all = model::all(items@);
        let mut i: usize = 0;
        assert(all.take(0).len() == 0);
        while i < items.len()
            invariant
                i <= items@.len(),
                all == model::all(items@),
                self.wf(),
                self.scopes@.len() == old(self).scopes@.len(),
                (self.env(), self.st()) == scope::declare_types(
                    old(self).env(),
                    old(self).st(),
                    all.take(i as int),
                ),
            decreases items@.len() - i,
        {
            assert(all.take(i + 1).drop_last() =~= all.take(i as int));
            assert(all.take(i + 1).last() == all[i as int]);
            match &items[i] {
                Item::Object { name, fields, methods, .. } => {
                    self.local_objects.insert(name.clone());
                    if !self.local_fields.contains(name) {
                        self.local_fields.insert(name.clone(), Names(field_names(fields)));
                    }
                    self.declare_methods(name, methods);
                },
                Item::Union { name, variants, .. } => {
                    if !self.unions.contains(name) {
                        self.unions.insert(name.clone(), Names(variant_names(variants)));
                    }
                },
                _ => {},
            }
            i += 1;
        }
        assert(all.take(all.len() as int) =~= all);
    }

    fn declare_global_fields(&mut self, bs: &Vec<DestructureBinding>, kind: BindingKind)
        requires
            old(self).wf(),
        ensures
            final(self).follows(*old(self)),
            final(self).st() == scope::declare_global_fields(old(self).st(), model::all(bs@), kind),
    {
        let ghost all = model::all(bs@);
        let mut i: usize = 0;
        assert(all.take(0).len() == 0);
        while i < bs.len()
            invariant
                i <= bs@.len(),
                all == model::all(bs@),
                self.follows(*old(self)),
                self.st() == scope::declare_global_fields(old(self).st(), all.take(i as int), kind),
            decreases bs@.len() - i,
        {
            assert(all.take(i + 1).drop_last() =~= all.take(i as int));
            assert(all.take(i + 1).last() == all[i as int]);
            self.declare_global(&bs[i].binding, bs[i].binding_span, Some(kind));
            i += 1;
        }
        assert(all.take(all.len() as int) =~= all);
    }

    fn declare_globals(&mut self, items: &Vec<Item>)
        requires
            old(self).wf(),
        ensures
            final(self).follows(*old(self)),
            final(self).st() == scope::declare_globals(old(self).st(), model::all(items@)),
    {
        let ghost all = model::all(items@);
        let mut i: usize = 0;
        assert(all.take(0).len() == 0);
        while i < items.len()
            invariant
                i <= items@.len(),
                all == model::all(items@),
                self.follows(*old(self)),
                self.st() == scope::declare_globals(old(self).st(), all.take(i as int)),
            decreases items@.len() - i,
        {
            assert(all.take(i + 1).drop_last() =~= all.take(i as int));
            assert(all.take(i + 1).last() == all[i as int]);
            match &items[i] {
                Item::Let { name, name_span, kind, .. } => self.declare_global(
                    name,
                    *name_span,
                    Some(*kind),
                ),
                Item::Destructure { bindings, kind, .. } => self.declare_global_fields(
                    bindings,
                    *kind,
                ),
                Item::Function { name, name_span, .. } => self.declare_global(
                    name,
                    *name_span,
                    None,
                ),
                _ => {},
            }
            i += 1;
        }
        assert(all.take(all.len() as int) =~= all);
    }

    fn resolve_bodies(&mut self, items: &Vec<Item>)
        requires
            old(self).wf(),
        ensures
            final(self).follows(*old(self)),
            final(self).st() == scope::resolve_bodies(old(self).env(), old(self).st(), model::all(items@)),
    {
        let ghost all = model::all(items@);
        let mut i: usize = 0;
        assert(all.take(0).len() == 0);
        while i < items.len()
            invariant
                i <= items@.len(),
                all == model::all(items@),
                self.follows(*old(self)),
                self.st() == scope::resolve_bodies(old(self).env(), old(self).st(), all.take(i as int)),
            decreases items@.len() - i,
        {
            assert(all.take(i + 1).drop_last() =~= all.take(i as int));
            assert(all.take(i + 1).last() == all[i as int]);
            match &items[i] {
                Item::Object { methods, .. } => self.resolve_methods(methods),
                Item::Let { value, .. } => self.resolve_expr(value),
                Item::Destructure { value, .. } => self.resolve_expr(value),
                Item::Function { params, body, .. } => self.resolve_fn(params, body),
                _ => {},
            }
            i += 1;
        }
        assert(all.take(all.len() as int) =~= all);
    }
}

/// Resolves a program against the default catalog.
pub fn resolve(prog: &Program) -> (r: (Resolution, Vec<Diagnostic>))
    ensures
        (r.0@, model::all(r.1@)) == scope::resolved(prog@, scope::default_catalog()),
{
    let modules = default_modules();
    resolve_with_modules(prog, modules.as_slice())
}

/// Resolves a program against a catalog of modules.
pub fn resolve_with_modules(prog: &Program, modules: &[ModuleSpec]) -> (r: (
    Resolution,
    Vec<Diagnostic>,
))
    ensures
        (r.0@, model::all(r.1@)) == scope::resolved(prog@, model::all(modules@)),
{
    let mut scopes: Vec<Table<String, DefId>> = Vec::new();
    scopes.push(Table::new());
    let mut r = Resolver {
        modules,
        module: prog.module.clone(),
        local_objects: NameSet::new(),
        local_fields: Table::new(),
        assoc: Table::new(),
        unions: Table::new(),
        scopes,
        out: Resolution::new(),
        diags: Vec::new(),
        imports: Table::new(),
        import_symbols: Table::new(),
        poisoned: NameSet::new(),
        import_spans: Table::new(),
        poisoned_params: Vec::new(),
        in_loop: false,
    };
    proof {
        assert(r.st().scopes =~= scope::initial_state().scopes);
        assert(r.st().poisoned_params =~= Set::<u32>::empty());
        assert(r.st() == scope::initial_state());
        assert(r.env() == scope::initial_env(prog@, model::all(modules@)));
    }
    r.resolve_uses(&prog.items);
    r.report_duplicate_types(&prog.items);
    r.declare_types(&prog.items);
    r.declare_globals(&prog.items);
    r.resolve_bodies(&prog.items);
    let poisoned_imports = !r.poisoned.is_empty();
    let mut out = r.out;
    out.poisoned_imports = poisoned_imports;
    (out, r.diags)
}

pub(crate) fn param(name: &str, ty: VlType) -> (r: ParamSig)
    ensures
        r@ == scope::target_param(name@, ty@),
{
    ParamSig { name: owned(name), ty }
}

pub(crate) fn native(name: &str, params: Vec<ParamSig>, ret: VlType) -> (r: Export)
    ensures
        r@ == scope::target_fn(name@, model::all(params@), ret@),
{
    Export::target(owned(name), FuncSig { type_params: Vec::new(), params, ret })
}

pub(crate) fn native_module(path: Vec<String>, exports: Vec<Export>) -> (r: ModuleSpec)
    ensures
        r@ == scope::target_module(model::all(path@), model::all(exports@)),
{
    ModuleSpec {
        path: ModulePath::new(path),
        exports,
        objects: Vec::new(),
        unions: Vec::new(),
        parse_poisoned: false,
        poisoned_exports: Vec::new(),
        global_dependent_exports: Vec::new(),
    }
}

/// The modules that programs are resolved against: those that the targets know.
pub fn default_modules() -> (r: Vec<ModuleSpec>)
    ensures
        model::all(r@) == scope::default_catalog(),
{
    codegen::modules()
}

} // verus!
