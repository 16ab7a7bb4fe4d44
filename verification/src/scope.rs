//! What names mean: the behaviour of the resolver over its state.

use vstd::prelude::*;

use crate::ast::{
    BindingKind, DestructureBindingView, ExprView, FunctionDeclView, ItemView, MatchArmView,
    ParamView, ProgramView, StmtView,
};
use crate::diagnostic::{error_view, DiagnosticView, Severity};
use crate::module::{
    ExportKind, ExportView, FuncSigView, ModuleSpecView, ObjectExportView, ParamSigView, SymbolView,
};
use crate::resolution::{DefId, DefKind, DefView, ResolutionView, VariantUseView};
use crate::span::Span;
use crate::ty::TypeView;
use crate::{grammar, module, resolution, table, text};

verus! {

/// What a module declares, and what it can import.
pub struct Env {
    /// The catalog of modules.
    pub modules: Seq<ModuleSpecView>,
    /// The name of the module itself.
    pub module: Seq<char>,
    /// The object types of the module.
    pub local_objects: Set<Seq<char>>,
    /// The field names of each object type.
    pub local_fields: Map<Seq<char>, Seq<Seq<char>>>,
    /// The associated functions, by owner and name.
    pub assoc: Map<(Seq<char>, Seq<char>), DefId>,
    /// The variant names of each union type.
    pub unions: Map<Seq<char>, Seq<Seq<char>>>,
}

/// The state of the resolver.
pub struct State {
    /// The names in scope, from the global scope inwards.
    pub scopes: Seq<Map<Seq<char>, DefId>>,
    pub out: ResolutionView,
    pub diags: Seq<DiagnosticView>,
    pub imports: Map<Seq<char>, ModuleSpecView>,
    pub import_symbols: Map<Seq<char>, SymbolView>,
    /// The import aliases and paths that stay silent.
    pub poisoned: Set<Seq<char>>,
    pub import_spans: Map<Seq<char>, Span>,
    /// The parameters with a duplicate.
    pub poisoned_params: Set<u32>,
    pub in_loop: bool,
}

/// Reporting a problem.
pub open spec fn report(r: State, d: DiagnosticView) -> State {
    State { diags: r.diags.push(d), ..r }
}

/// The text of a dotted path.
pub open spec fn dotted(path: Seq<Seq<char>>) -> Seq<char> {
    module::dotted(path)
}

/// Two names with a dot between them.
pub open spec fn member(a: Seq<char>, b: Seq<char>) -> Seq<char> {
    a + "."@ + b
}

// ---------------------------------------------------------------------------
// Definitions
// ---------------------------------------------------------------------------

/// The identifier of the next definition.
pub open spec fn next_id(r: State) -> DefId {
    DefId(r.out.defs.len() as usize as u32)
}

/// A new definition.
pub open spec fn define(
    r: State,
    name: Seq<char>,
    span: Span,
    kind: DefKind,
    sig: Option<FuncSigView>,
    export_kind: Option<ExportKind>,
    binding: Option<BindingKind>,
    symbol: Option<SymbolView>,
) -> State {
    State {
        out: ResolutionView {
            defs: r.out.defs.push(
                DefView { id: next_id(r), name, span, kind, sig, export_kind, binding, symbol },
            ),
            ..r.out
        },
        ..r
    }
}

/// A use at a place.
pub open spec fn use_at(r: State, span: Span, id: DefId) -> State {
    State {
        out: ResolutionView { uses: r.out.uses.insert(table::place_of(span), id), ..r.out },
        ..r
    }
}

/// A new definition from outside the module, and its use at its place.
pub open spec fn use_outside(
    r: State,
    name: Seq<char>,
    span: Span,
    sig: Option<FuncSigView>,
    export_kind: Option<ExportKind>,
    kind: DefKind,
    symbol: Option<SymbolView>,
) -> State {
    use_at(define(r, name, span, kind, sig, export_kind, None, symbol), span, next_id(r))
}

/// A name that stands for a failed import: it stays silent.
pub open spec fn use_poisoned(r: State, name: Seq<char>, span: Span) -> State {
    use_outside(r, name, span, None, None, DefKind::ImportedFunction, None)
}

/// A name bound in the innermost scope.
pub open spec fn bind(r: State, name: Seq<char>, id: DefId) -> State {
    State { scopes: r.scopes.drop_last().push(r.scopes.last().insert(name, id)), ..r }
}

/// A new innermost scope.
pub open spec fn enter(r: State) -> State {
    State { scopes: r.scopes.push(Map::empty()), ..r }
}

/// Leaving the innermost scope.
pub open spec fn leave(r: State) -> State {
    State { scopes: r.scopes.drop_last(), ..r }
}

/// What a name means in the given scopes: the innermost binding.
pub open spec fn lookup(scopes: Seq<Map<Seq<char>, DefId>>, name: Seq<char>) -> Option<DefId>
    decreases scopes.len(),
{
    if scopes.len() == 0 {
        None
    } else if scopes.last().dom().contains(name) {
        Some(scopes.last()[name])
    } else {
        lookup(scopes.drop_last(), name)
    }
}

/// Declaring a local binding. Shadowing is allowed, with a warning.
pub open spec fn declare_local(r: State, name: Seq<char>, span: Span, binding: BindingKind) -> State {
    let r1 = if r.scopes.last().dom().contains(name) {
        report(
            r,
            DiagnosticView {
                severity: Severity::Warning,
                ..error_view("`"@ + name + "` shadows a previous binding"@)
            }.label(span, "shadowing definition"@),
        )
    } else {
        r
    };
    bind(define(r1, name, span, DefKind::Local, None, None, Some(binding), None), name, next_id(r1))
}

/// The diagnostic for a definition whose name an import has taken.
pub open spec fn import_conflict(name: Seq<char>, span: Span) -> DiagnosticView {
    error_view("import alias `"@ + name + "` conflicts with a top-level definition"@).label(
        span,
        "definition declared here"@,
    ).coded("E206"@)
}

/// A diagnostic with a bare label at the place of an earlier import, if any.
pub open spec fn with_previous(d: DiagnosticView, spans: Map<Seq<char>, Span>, name: Seq<char>) -> DiagnosticView {
    if spans.dom().contains(name) {
        d.bare_label(spans[name])
    } else {
        d
    }
}

/// Declaring a global.
pub open spec fn declare_global(
    r: State,
    name: Seq<char>,
    span: Span,
    binding: Option<BindingKind>,
) -> State {
    if r.poisoned.contains(name) {
        report(r, with_previous(import_conflict(name, span), r.import_spans, name))
    } else if r.imports.dom().contains(name) || r.import_symbols.dom().contains(name) {
        State {
            poisoned: r.poisoned.insert(name),
            ..report(r, import_conflict(name, span))
        }
    } else {
        let previous = if r.scopes[0].dom().contains(name) {
            resolution::def_with_id(r.out.defs, r.scopes[0][name])
        } else {
            None
        };
        match previous {
            Some(d) => report(
                r,
                error_view("duplicate definition of `"@ + name + "`"@).label(
                    span,
                    "redefined here"@,
                ).bare_label(d.span).coded("E200"@),
            ),
            None => {
                let r1 = define(r, name, span, DefKind::Local, None, None, binding, None);
                State { scopes: r1.scopes.update(0, r1.scopes[0].insert(name, next_id(r))), ..r1 }
            },
        }
    }
}

// ---------------------------------------------------------------------------
// Imports
// ---------------------------------------------------------------------------

/// Marking an import alias as failed.
pub open spec fn poison_import(r: State, alias: Seq<char>, span: Span) -> State {
    State {
        poisoned: r.poisoned.insert(alias),
        import_spans: if r.import_spans.dom().contains(alias) {
            r.import_spans
        } else {
            r.import_spans.insert(alias, span)
        },
        ..r
    }
}

/// Whether an import alias is taken.
pub open spec fn alias_taken(r: State, alias: Seq<char>) -> bool {
    r.poisoned.contains(alias) || r.imports.dom().contains(alias)
        || r.import_symbols.dom().contains(alias)
}

/// Reporting an import alias that is taken.
pub open spec fn alias_again(r: State, alias: Seq<char>, span: Span) -> State {
    State {
        poisoned: r.poisoned.insert(alias),
        ..report(
            r,
            with_previous(
                error_view("duplicate import alias `"@ + alias + "`"@).label(
                    span,
                    "imported again here"@,
                ).coded("E206"@),
                r.import_spans,
                alias,
            ),
        )
    }
}

/// The first module with the given dotted path.
pub open spec fn module_with_path(modules: Seq<ModuleSpecView>, key: Seq<char>) -> Option<
    ModuleSpecView,
>
    decreases modules.len(),
{
    if modules.len() == 0 {
        None
    } else {
        match module_with_path(modules.drop_last(), key) {
            Some(m) => Some(m),
            None => if dotted(modules.last().path) == key {
                Some(modules.last())
            } else {
                None
            },
        }
    }
}

/// The export with the given name.
pub open spec fn export_of(m: ModuleSpecView, name: Seq<char>) -> Option<ExportView> {
    match module::first_named(m.exports, name) {
        Some(i) => Some(m.exports[i]),
        None => None,
    }
}

/// An imported function.
pub open spec fn import_symbol(r: State, name: Seq<char>, from: Seq<Seq<char>>, span: Span) -> State {
    State {
        import_symbols: r.import_symbols.insert(name, SymbolView { module: from, name }),
        import_spans: r.import_spans.insert(name, span),
        ..r
    }
}

/// The report of an import that depends on the globals of its module.
pub open spec fn depends_on_globals(what: Seq<char>, span: Span) -> DiagnosticView {
    error_view("imported function `"@ + what + "` depends on module globals"@).label(
        span,
        "unsupported cross-module boundary"@,
    ).coded("E208"@)
}

/// The report of an import of what a module does not export.
pub open spec fn no_export(key: Seq<char>, name: Seq<char>, span: Span) -> DiagnosticView {
    error_view("module `"@ + key + "` has no export `"@ + name + "`"@).label(
        span,
        "unknown module export"@,
    ).coded("E203"@)
}

/// Importing one name of a module.
pub open spec fn import_name(
    r: State,
    m: ModuleSpecView,
    key: Seq<char>,
    name: Seq<char>,
    span: Span,
) -> State {
    if alias_taken(r, name) {
        alias_again(r, name, span)
    } else if export_of(m, name) is None {
        if grammar::has_name(m.poisoned_exports, name) {
            poison_import(r, name, span)
        } else {
            let r1 = poison_import(poison_import(r, name, span), member(key, name), span);
            if m.parse_poisoned {
                r1
            } else {
                report(r1, no_export(key, name, span))
            }
        }
    } else if grammar::has_name(m.global_dependent_exports, name) {
        poison_import(report(r, depends_on_globals(member(key, name), span)), name, span)
    } else {
        import_symbol(r, name, m.path, span)
    }
}

/// Importing several names of a module.
pub open spec fn import_names(
    r: State,
    m: ModuleSpecView,
    key: Seq<char>,
    names: Seq<Seq<char>>,
    span: Span,
) -> State
    decreases names.len(),
{
    if names.len() == 0 {
        r
    } else {
        import_name(import_names(r, m, key, names.drop_last(), span), m, key, names.last(), span)
    }
}

/// Marking an alias as failed, unless it is taken.
pub open spec fn fail_alias(r: State, name: Seq<char>, span: Span) -> State {
    if alias_taken(r, name) {
        alias_again(r, name, span)
    } else {
        poison_import(r, name, span)
    }
}

/// Marking several aliases as failed.
pub open spec fn fail_aliases(r: State, names: Seq<Seq<char>>, span: Span) -> State
    decreases names.len(),
{
    if names.len() == 0 {
        r
    } else {
        fail_alias(fail_aliases(r, names.drop_last(), span), names.last(), span)
    }
}

/// The report of a module that does not exist.
pub open spec fn no_module(r: State, key: Seq<char>, span: Span) -> State {
    report(
        poison_import(r, key, span),
        error_view("cannot find module `"@ + key + "`"@).label(span, "unknown module"@).coded(
            "E202"@,
        ),
    )
}

/// Importing a single export by the path of its module and its name.
pub open spec fn import_leaf(
    r: State,
    parent: ModuleSpecView,
    parent_key: Seq<char>,
    leaf: Seq<char>,
    key: Seq<char>,
    span: Span,
) -> State {
    if alias_taken(r, leaf) {
        alias_again(r, leaf, span)
    } else if grammar::has_name(parent.poisoned_exports, leaf) {
        poison_import(r, leaf, span)
    } else if export_of(parent, leaf) is Some {
        if grammar::has_name(parent.global_dependent_exports, leaf) {
            poison_import(report(r, depends_on_globals(key, span)), leaf, span)
        } else {
            let r1 = import_symbol(r, leaf, parent.path, span);
            State {
                imports: r1.imports.insert(
                    leaf,
                    ModuleSpecView {
                        path: seq![parent_key, leaf],
                        exports: Seq::empty(),
                        objects: Seq::empty(),
                        unions: Seq::empty(),
                        parse_poisoned: parent.parse_poisoned,
                        poisoned_exports: Seq::empty(),
                        global_dependent_exports: Seq::empty(),
                    },
                ),
                ..r1
            }
        }
    } else {
        let r1 = poison_import(poison_import(r, leaf, span), key, span);
        if parent.parse_poisoned {
            r1
        } else {
            report(r1, no_export(parent_key, leaf, span))
        }
    }
}

/// Resolving a `use` item.
#[verifier::opaque]
pub open spec fn resolve_use(
    e: Env,
    r: State,
    path: Seq<Seq<char>>,
    names: Option<Seq<Seq<char>>>,
    span: Span,
) -> State {
    let key = dotted(path);
    match module_with_path(e.modules, key) {
        Some(m) => match names {
            Some(ns) => import_names(r, m, key, ns, span),
            None => {
                let alias = if path.len() > 0 {
                    path.last()
                } else {
                    Seq::empty()
                };
                if alias_taken(r, alias) {
                    alias_again(r, alias, span)
                } else {
                    State {
                        imports: r.imports.insert(alias, m),
                        import_spans: r.import_spans.insert(alias, span),
                        ..r
                    }
                }
            },
        },
        None => {
            let parent_key = dotted(path.drop_last());
            let parent = if names is None && path.len() >= 2 {
                module_with_path(e.modules, parent_key)
            } else {
                None
            };
            match (parent, names) {
                (Some(p), _) => import_leaf(r, p, parent_key, path.last(), key, span),
                (None, Some(ns)) => no_module(fail_aliases(r, ns, span), key, span),
                (None, None) => if path.len() == 0 {
                    no_module(r, key, span)
                } else if alias_taken(r, path.last()) {
                    alias_again(r, path.last(), span)
                } else {
                    no_module(poison_import(r, path.last(), span), key, span)
                },
            }
        },
    }
}

// ---------------------------------------------------------------------------
// Paths and callees
// ---------------------------------------------------------------------------

/// The first module with the given path.
pub open spec fn module_at(modules: Seq<ModuleSpecView>, path: Seq<Seq<char>>) -> Option<
    ModuleSpecView,
>
    decreases modules.len(),
{
    if modules.len() == 0 {
        None
    } else {
        match module_at(modules.drop_last(), path) {
            Some(m) => Some(m),
            None => if modules.last().path == path {
                Some(modules.last())
            } else {
                None
            },
        }
    }
}

/// The export that an imported symbol is.
pub open spec fn symbol_export(e: Env, s: SymbolView) -> Option<ExportView> {
    match module_at(e.modules, s.module) {
        Some(m) => export_of(m, s.name),
        None => None,
    }
}

/// Using a path, where it means something.
#[verifier::opaque]
pub open spec fn use_path(e: Env, r: State, path: Seq<Seq<char>>, span: Span) -> Option<State> {
    let full = dotted(path);
    if path.len() == 0 {
        None
    } else if path.len() == 1 {
        let name = path[0];
        if lookup(r.scopes, name) is Some {
            Some(use_at(r, span, lookup(r.scopes, name)->0))
        } else if r.poisoned.contains(name) {
            Some(use_poisoned(r, name, span))
        } else if r.import_symbols.dom().contains(name) {
            let symbol = r.import_symbols[name];
            match symbol_export(e, symbol) {
                Some(x) => Some(
                    use_outside(
                        r,
                        name,
                        span,
                        Some(x.sig),
                        Some(x.kind),
                        DefKind::ImportedFunction,
                        Some(symbol),
                    ),
                ),
                None => Some(
                    use_outside(r, name, span, None, None, DefKind::ImportedFunction, Some(symbol)),
                ),
            }
        } else if r.imports.dom().contains(name) {
            Some(use_outside(r, name, span, None, None, DefKind::ModuleAlias, None))
        } else {
            None
        }
    } else if r.poisoned.contains(full) || r.poisoned.contains(path[0]) {
        Some(use_poisoned(r, full, span))
    } else if !r.imports.dom().contains(path[0]) || path.len() != 2 {
        None
    } else {
        let m = r.imports[path[0]];
        match export_of(m, path[1]) {
            None => if grammar::has_name(m.poisoned_exports, path[1]) || m.parse_poisoned {
                Some(
                    use_poisoned(State { poisoned: r.poisoned.insert(full), ..r }, full, span),
                )
            } else {
                None
            },
            Some(x) => if grammar::has_name(m.global_dependent_exports, path[1]) {
                let r1 = report(r, depends_on_globals(member(dotted(m.path), path[1]), span));
                Some(
                    use_poisoned(State { poisoned: r1.poisoned.insert(full), ..r1 }, full, span),
                )
            } else {
                Some(
                    use_outside(
                        r,
                        full,
                        span,
                        Some(x.sig),
                        Some(x.kind),
                        DefKind::ImportedFunction,
                        Some(SymbolView { module: m.path, name: path[1] }),
                    ),
                )
            },
        }
    }
}

/// The report of an associated function that an object type does not have.
pub open spec fn missing_method(
    owner: Seq<char>,
    method: Seq<char>,
    span: Span,
    is_field: bool,
) -> DiagnosticView {
    let d = error_view(
        "object `"@ + owner + "` has no associated function `"@ + method + "`"@,
    ).label(span, "unknown associated function"@).coded("E302"@);
    if is_field {
        d.noted("`"@ + method + "` is a field of `"@ + owner + "`; read it without `(...)`"@)
    } else {
        d.noted(
            "declare it inside the object body: `fun "@ + method + "(...)` in `type "@ + owner
                + " = object { ... }`"@,
        )
    }
}

/// Whether fields hold a name.
pub open spec fn has_field(fields: Seq<ParamSigView>, name: Seq<char>) -> bool {
    exists|i: int| 0 <= i < fields.len() && (#[trigger] fields[i]).name == name
}

/// Whether an object type of the module has a field of the given name.
pub open spec fn local_field(e: Env, owner: Seq<char>, name: Seq<char>) -> bool {
    e.local_fields.dom().contains(owner) && grammar::has_name(e.local_fields[owner], name)
}

/// Calling an associated function of an object type of the module.
pub open spec fn use_local_method(
    e: Env,
    r: State,
    owner: Seq<char>,
    shown: Seq<char>,
    method: Seq<char>,
    span: Span,
) -> State {
    if e.assoc.dom().contains((owner, method)) {
        use_at(r, span, e.assoc[(owner, method)])
    } else {
        report(r, missing_method(shown, method, span, local_field(e, owner, method)))
    }
}

/// The first object with the given name.
pub open spec fn object_named(objects: Seq<ObjectExportView>, name: Seq<char>) -> Option<
    ObjectExportView,
>
    decreases objects.len(),
{
    if objects.len() == 0 {
        None
    } else {
        match object_named(objects.drop_last(), name) {
            Some(o) => Some(o),
            None => if objects.last().name == name {
                Some(objects.last())
            } else {
                None
            },
        }
    }
}

/// The first object with the given qualified name.
pub open spec fn object_qualified(objects: Seq<ObjectExportView>, name: Seq<char>) -> Option<
    ObjectExportView,
>
    decreases objects.len(),
{
    if objects.len() == 0 {
        None
    } else {
        match object_qualified(objects.drop_last(), name) {
            Some(o) => Some(o),
            None => if objects.last().qualified == name {
                Some(objects.last())
            } else {
                None
            },
        }
    }
}

/// Calling an associated function of an imported object type.
pub open spec fn use_imported_method(
    r: State,
    m: ModuleSpecView,
    object: ObjectExportView,
    shown: Seq<char>,
    method: Seq<char>,
    key: Seq<char>,
    full: Seq<char>,
    span: Span,
) -> State {
    match module::first_named(object.methods, method) {
        None => report(r, missing_method(shown, method, span, has_field(object.fields, method))),
        Some(i) => if grammar::has_name(m.global_dependent_exports, key) {
            let r1 = report(r, depends_on_globals(member(dotted(m.path), key), span));
            use_poisoned(State { poisoned: r1.poisoned.insert(full), ..r1 }, full, span)
        } else {
            use_outside(
                r,
                full,
                span,
                Some(object.methods[i].sig),
                Some(object.methods[i].kind),
                DefKind::ImportedFunction,
                Some(SymbolView { module: m.path, name: key }),
            )
        },
    }
}

/// Calling `alias.Object.method`.
pub open spec fn use_alias_method(
    r: State,
    m: ModuleSpecView,
    object: Seq<char>,
    method: Seq<char>,
    full: Seq<char>,
    span: Span,
) -> State {
    let key = member(object, method);
    if grammar::has_name(m.poisoned_exports, key) {
        use_poisoned(r, full, span)
    } else {
        match object_named(m.objects, object) {
            None => report(
                r,
                error_view(
                    "module `"@ + dotted(m.path) + "` has no object type `"@ + object + "`"@,
                ).label(span, "unknown object type"@).coded("E302"@),
            ),
            Some(o) => use_imported_method(r, m, o, o.qualified, method, key, full, span),
        }
    }
}

/// Calling an associated function by the qualified name of its object type, in
/// the first of the modules that has it.
pub open spec fn use_qualified_method(
    modules: Seq<ModuleSpecView>,
    r: State,
    owner: Seq<char>,
    method: Seq<char>,
    full: Seq<char>,
    span: Span,
) -> Option<State>
    decreases modules.len(),
{
    if modules.len() == 0 {
        None
    } else {
        match use_qualified_method(modules.drop_last(), r, owner, method, full, span) {
            Some(r1) => Some(r1),
            None => match object_qualified(modules.last().objects, owner) {
                None => None,
                Some(o) => {
                    let key = member(o.name, method);
                    if grammar::has_name(modules.last().poisoned_exports, key) {
                        Some(use_poisoned(r, full, span))
                    } else {
                        Some(
                            use_imported_method(
                                r,
                                modules.last(),
                                o,
                                owner,
                                method,
                                key,
                                full,
                                span,
                            ),
                        )
                    }
                },
            },
        }
    }
}

/// The variants of the built-in union.
pub open spec fn option_variants() -> Seq<Seq<char>> {
    seq!["None"@, "Some"@]
}

/// The variants of the union type that a name means, if it means one.
pub open spec fn union_of(e: Env, r: State, name: Seq<char>) -> Option<Seq<Seq<char>>> {
    if e.unions.dom().contains(name) {
        Some(e.unions[name])
    } else if name == "Option"@ && lookup(r.scopes, name) is None && !alias_taken(r, name)
        && !e.local_objects.contains(name) {
        Some(option_variants())
    } else {
        None
    }
}

/// The report of a variant that a union does not have.
pub open spec fn no_variant(union: Seq<char>, variant: Seq<char>, span: Span) -> DiagnosticView {
    error_view("union `"@ + union + "` has no variant `"@ + variant + "`"@).label(
        span,
        "unknown variant"@,
    ).coded("E302"@)
}

/// Constructing a variant.
pub open spec fn use_variant(
    r: State,
    union: Seq<char>,
    variants: Seq<Seq<char>>,
    variant: Seq<char>,
    span: Span,
) -> State {
    if grammar::has_name(variants, variant) {
        State {
            out: ResolutionView {
                variants: r.out.variants.insert(
                    table::place_of(span),
                    VariantUseView { union, variant },
                ),
                ..r.out
            },
            ..r
        }
    } else {
        report(r, no_variant(union, variant, span))
    }
}

/// The rest of a text behind a prefix.
pub open spec fn behind(s: Seq<char>, prefix: Seq<char>) -> Option<Seq<char>> {
    if prefix.len() <= s.len() && s.take(prefix.len() as int) == prefix {
        Some(s.skip(prefix.len() as int))
    } else {
        None
    }
}

/// Using a dotted callee as a variant, an associated function, or a method of a
/// value, where it is one.
#[verifier::opaque]
pub open spec fn use_member_callee(e: Env, r: State, callee: Seq<Seq<char>>, span: Span) -> Option<
    State,
> {
    let full = dotted(callee);
    if callee.len() < 2 {
        None
    } else if r.poisoned.contains(full) || r.poisoned.contains(callee[0]) {
        Some(use_poisoned(r, full, span))
    } else if callee.len() == 2 && union_of(e, r, callee[0]) is Some {
        Some(use_variant(r, callee[0], union_of(e, r, callee[0])->0, callee[1], span))
    } else if callee.len() == 2 && e.local_objects.contains(callee[0]) {
        Some(use_local_method(e, r, callee[0], callee[0], callee[1], span))
    } else if !e.local_objects.contains(callee[0]) && lookup(r.scopes, callee[0]) is Some {
        Some(
            State {
                out: ResolutionView {
                    sugar_receivers: r.out.sugar_receivers.insert(
                        table::place_of(span),
                        lookup(r.scopes, callee[0])->0,
                    ),
                    ..r.out
                },
                ..r
            },
        )
    } else if callee.len() == 3 && r.imports.dom().contains(callee[0]) {
        Some(use_alias_method(r, r.imports[callee[0]], callee[1], callee[2], full, span))
    } else if callee.len() >= 3 {
        let method = callee.last();
        let owner = dotted(callee.drop_last());
        let local = behind(owner, e.module + "."@);
        if local is Some && e.local_objects.contains(local->0) {
            Some(use_local_method(e, r, local->0, owner, method, span))
        } else {
            use_qualified_method(e.modules, r, owner, method, full, span)
        }
    } else {
        None
    }
}

/// The signature of `Array.new::[T]`.
pub open spec fn array_new_sig(elem: TypeView) -> FuncSigView {
    FuncSigView {
        type_params: Seq::empty(),
        params: seq![ParamSigView { name: "count"@, ty: TypeView::U64 }],
        ret: TypeView::Array(Box::new(elem)),
    }
}

/// The report of a name that means nothing.
pub open spec fn not_found(name: Seq<char>, span: Span, remark: Seq<char>, note: Seq<char>) -> DiagnosticView {
    error_view("cannot find `"@ + name + "` in this scope"@).label(span, remark).noted(note).coded(
        "E201"@,
    )
}

/// Resolving a callee.
#[verifier::opaque]
pub open spec fn resolve_callee(
    e: Env,
    r: State,
    callee: Seq<Seq<char>>,
    span: Span,
    type_args: Seq<TypeView>,
    type_args_span: Option<Span>,
) -> State {
    let full = dotted(callee);
    if callee.len() == 2 && callee[0] == "Array"@ && callee[1] == "new"@ {
        if type_args.len() == 1 {
            use_outside(
                r,
                full,
                span,
                Some(array_new_sig(type_args[0])),
                None,
                DefKind::External,
                None,
            )
        } else {
            let r1 = if type_args.len() > 1 {
                report(
                    r,
                    error_view(
                        "`Array.new` expects exactly one type argument, got "@ + text::dec(
                            type_args.len(),
                        ),
                    ).label(
                        match type_args_span {
                            Some(s) => s,
                            None => span,
                        },
                        "write `Array.new::[T](count)`, e.g. `Array.new::[u64](3)`"@,
                    ).coded("E303"@),
                )
            } else {
                r
            };
            use_outside(r1, full, span, None, None, DefKind::External, None)
        }
    } else if callee.len() > 0 && callee[0] == "U64Array"@ {
        report(
            r,
            not_found(
                full,
                span,
                "`U64Array` was removed"@,
                "use `Array[u64]` and `Array.new::[u64](n)` instead"@,
            ),
        )
    } else {
        match use_member_callee(e, r, callee, span) {
            Some(r1) => r1,
            None => match use_path(e, r, callee, span) {
                Some(r1) => r1,
                None => report(
                    r,
                    not_found(
                        full,
                        span,
                        "undefined function"@,
                        "did you mean to `fun`-define it first?"@,
                    ),
                ),
            },
        }
    }
}

// ---------------------------------------------------------------------------
// Expressions and statements
// ---------------------------------------------------------------------------

/// The variant that `Union.Variant` means, if the base is a union.
pub open spec fn field_union(e: Env, r: State, base: ExprView) -> Option<(Seq<char>, Seq<Seq<char>>)> {
    match base {
        ExprView::Var { path, span } => if path.len() == 1 {
            match union_of(e, r, path[0]) {
                Some(variants) => Some((path[0], variants)),
                None => None,
            }
        } else {
            None
        },
        _ => None,
    }
}

/// Resolving an expression.
#[verifier::opaque]
pub open spec fn resolve_expr(e: Env, r: State, x: ExprView) -> State
    decreases x,
{
    match x {
        ExprView::Literal(..) | ExprView::String(..) | ExprView::Null(..) => r,
        ExprView::ObjectLiteral { fields, .. } => resolve_named(e, r, fields),
        ExprView::ArrayLiteral { elems, .. } => resolve_exprs(e, r, elems),
        ExprView::TupleLiteral { elems, .. } => resolve_elems(e, r, elems),
        ExprView::TupleIndex { base, .. } => resolve_expr(e, r, *base),
        ExprView::Index { base, index, .. } => resolve_expr(
            e,
            resolve_expr(e, r, *base),
            *index,
        ),
        ExprView::Field { base, name, span } => match field_union(e, r, *base) {
            Some((union, variants)) => use_variant(r, union, variants, name, span),
            None => resolve_expr(e, r, *base),
        },
        ExprView::Var { path, span } => match use_path(e, r, path, span) {
            Some(r1) => r1,
            None => report(
                r,
                not_found(
                    dotted(path),
                    span,
                    "undefined variable"@,
                    "did you mean to `var`/`val`-bind it first?"@,
                ),
            ),
        },
        ExprView::Call {
            callee,
            callee_span,
            type_args,
            type_args_span,
            args,
            ..
        } => resolve_exprs(
            e,
            resolve_callee(e, r, callee, callee_span, type_args, type_args_span),
            args,
        ),
        ExprView::Unary { rhs, .. } => resolve_expr(e, r, *rhs),
        ExprView::Binary { lhs, rhs, .. } => resolve_expr(e, resolve_expr(e, r, *lhs), *rhs),
        ExprView::Cast { inner, .. } => resolve_expr(e, r, *inner),
    }
}

/// Resolving expressions in order.
#[verifier::opaque]
pub open spec fn resolve_exprs(e: Env, r: State, xs: Seq<ExprView>) -> State
    decreases xs,
{
    if xs.len() == 0 {
        r
    } else {
        resolve_expr(e, resolve_exprs(e, r, xs.drop_last()), xs.last())
    }
}

/// Resolving the values of fields in order.
#[verifier::opaque]
pub open spec fn resolve_named(e: Env, r: State, xs: Seq<(Seq<char>, Span, ExprView)>) -> State
    decreases xs,
{
    if xs.len() == 0 {
        r
    } else {
        resolve_expr(e, resolve_named(e, r, xs.drop_last()), xs.last().2)
    }
}

/// Resolving the elements of a tuple in order.
#[verifier::opaque]
pub open spec fn resolve_elems(
    e: Env,
    r: State,
    xs: Seq<(Option<Seq<char>>, Span, ExprView)>,
) -> State
    decreases xs,
{
    if xs.len() == 0 {
        r
    } else {
        resolve_expr(e, resolve_elems(e, r, xs.drop_last()), xs.last().2)
    }
}

/// The report of an assignment to a fixed binding.
pub open spec fn fixed_binding(name: Seq<char>, span: Span, parameter: bool) -> DiagnosticView {
    if parameter {
        error_view("cannot rebind parameter `"@ + name + "`"@).label(
            span,
            "parameters are fixed bindings"@,
        ).noted(
            "parameters cannot be assigned; use a local `var` when rebinding is needed"@,
        ).coded("E205"@)
    } else {
        error_view("cannot rebind `val` binding `"@ + name + "`"@).label(
            span,
            "`val` bindings are fixed"@,
        ).noted(
            "`val` bindings cannot be assigned; use `var` when rebinding is needed"@,
        ).coded("E205"@)
    }
}

/// Assigning to a name.
#[verifier::opaque]
pub open spec fn assign_to(r: State, name: Seq<char>, span: Span) -> State {
    match lookup(r.scopes, name) {
        Some(id) => {
            let r1 = use_at(r, span, id);
            if r1.poisoned_params.contains(id.0) {
                r1
            } else {
                match resolution::def_with_id(r1.out.defs, id) {
                    Some(d) => if d.kind == DefKind::Parameter {
                        report(r1, fixed_binding(name, span, true))
                    } else if d.binding == Some(BindingKind::Val) {
                        report(r1, fixed_binding(name, span, false))
                    } else {
                        r1
                    },
                    None => r1,
                }
            }
        },
        None => report(
            r,
            not_found(
                name,
                span,
                "undefined variable"@,
                "did you mean to `var`/`val`-bind it first?"@,
            ),
        ),
    }
}

/// Declaring the names of a destructuring binding.
pub open spec fn declare_fields(r: State, bs: Seq<DestructureBindingView>, kind: BindingKind) -> State
    decreases bs.len(),
{
    if bs.len() == 0 {
        r
    } else {
        declare_local(
            declare_fields(r, bs.drop_last(), kind),
            bs.last().binding,
            bs.last().binding_span,
            kind,
        )
    }
}

/// Declaring the names that a match arm binds.
pub open spec fn declare_names(r: State, names: Seq<(Seq<char>, Span)>) -> State
    decreases names.len(),
{
    if names.len() == 0 {
        r
    } else {
        declare_local(
            declare_names(r, names.drop_last()),
            names.last().0,
            names.last().1,
            BindingKind::Val,
        )
    }
}

/// Resolving the pattern of a match arm.
#[verifier::opaque]
pub open spec fn resolve_pattern(e: Env, r: State, path: Seq<Seq<char>>, span: Span) -> State {
    if path == seq!["null"@] {
        r
    } else {
        match (if path.len() == 2 {
            union_of(e, r, path[0])
        } else {
            None
        }) {
            None => report(
                r,
                error_view("cannot find union variant `"@ + dotted(path) + "`"@).label(
                    span,
                    "unknown union"@,
                ).coded("E201"@),
            ),
            Some(variants) => {
                let r1 = State {
                    out: ResolutionView {
                        match_patterns: r.out.match_patterns.insert(table::place_of(span), path[0]),
                        ..r.out
                    },
                    ..r
                };
                if grammar::has_name(variants, path[1]) {
                    r1
                } else {
                    report(r1, no_variant(path[0], path[1], span))
                }
            },
        }
    }
}

/// Resolving a statement.
#[verifier::opaque]
pub open spec fn resolve_stmt(e: Env, r: State, x: StmtView) -> State
    decreases x,
{
    match x {
        StmtView::Let { name, name_span, kind, value, .. } => declare_local(
            resolve_expr(e, r, value),
            name,
            name_span,
            kind,
        ),
        StmtView::Assign { name, name_span, value, .. } => assign_to(
            resolve_expr(e, r, value),
            name,
            name_span,
        ),
        StmtView::IndexAssign { array, index, value, .. } => resolve_expr(
            e,
            resolve_expr(e, resolve_expr(e, r, *array), *index),
            *value,
        ),
        StmtView::FieldAssign { base, value, .. } => resolve_expr(
            e,
            resolve_expr(e, r, *base),
            *value,
        ),
        StmtView::TupleAssign { base, value, .. } => resolve_expr(
            e,
            resolve_expr(e, r, *base),
            *value,
        ),
        StmtView::Destructure { bindings, kind, value, .. } => declare_fields(
            resolve_expr(e, r, value),
            bindings,
            kind,
        ),
        StmtView::Expr(value) => resolve_expr(e, r, value),
        StmtView::Return { value, .. } => match value {
            Some(v) => resolve_expr(e, r, v),
            None => r,
        },
        StmtView::Break { span } => if r.in_loop {
            r
        } else {
            report(
                r,
                error_view("`break` outside of a loop"@).label(
                    span,
                    "no enclosing `while`"@,
                ).coded("E204"@),
            )
        },
        StmtView::Continue { span } => if r.in_loop {
            r
        } else {
            report(
                r,
                error_view("`continue` outside of a loop"@).label(
                    span,
                    "no enclosing `while`"@,
                ).coded("E204"@),
            )
        },
        StmtView::While { condition, body, .. } => {
            let r1 = resolve_expr(e, r, condition);
            let r2 = resolve_body(e, State { in_loop: true, ..r1 }, body);
            State { in_loop: r1.in_loop, ..r2 }
        },
        StmtView::If { condition, then_body, else_body, .. } => {
            let r1 = resolve_body(e, resolve_expr(e, r, condition), then_body);
            match else_body {
                Some(body) => resolve_body(e, r1, body),
                None => r1,
            }
        },
        StmtView::Match { scrutinee, arms, else_body, .. } => {
            let r1 = resolve_arms(e, resolve_expr(e, r, scrutinee), arms);
            match else_body {
                Some(body) => resolve_body(e, r1, body),
                None => r1,
            }
        },
    }
}

/// Resolving statements in order.
#[verifier::opaque]
pub open spec fn resolve_stmts(e: Env, r: State, xs: Seq<StmtView>) -> State
    decreases xs, 0nat,
{
    if xs.len() == 0 {
        r
    } else {
        resolve_stmt(e, resolve_stmts(e, r, xs.drop_last()), xs.last())
    }
}

/// Resolving statements in a scope of their own.
#[verifier::opaque]
pub open spec fn resolve_body(e: Env, r: State, xs: Seq<StmtView>) -> State
    decreases xs, 1nat,
{
    leave(resolve_stmts(e, enter(r), xs))
}

/// Resolving match arms in order.
#[verifier::opaque]
pub open spec fn resolve_arms(e: Env, r: State, arms: Seq<MatchArmView>) -> State
    decreases arms,
{
    if arms.len() == 0 {
        r
    } else {
        let arm = arms.last();
        let r1 = resolve_pattern(
            e,
            resolve_arms(e, r, arms.drop_last()),
            arm.path,
            arm.path_span,
        );
        leave(resolve_stmts(e, declare_names(enter(r1), arm.bindings), arm.body))
    }
}

// ---------------------------------------------------------------------------
// Programs
// ---------------------------------------------------------------------------

/// Declaring a parameter.
pub open spec fn declare_param(r: State, p: ParamView) -> State {
    let scope = r.scopes.last();
    if scope.dom().contains(p.name) {
        let d = error_view("duplicate parameter `"@ + p.name + "`"@).label(
            p.name_span,
            "redefined here"@,
        ).coded("E200"@);
        let shown = match resolution::def_with_id(r.out.defs, scope[p.name]) {
            Some(previous) => d.bare_label(previous.span),
            None => d,
        };
        State {
            poisoned_params: r.poisoned_params.insert(scope[p.name].0),
            ..report(r, shown)
        }
    } else {
        bind(
            define(r, p.name, p.name_span, DefKind::Parameter, None, None, None, None),
            p.name,
            next_id(r),
        )
    }
}

/// Declaring parameters in order.
pub open spec fn declare_params(r: State, ps: Seq<ParamView>) -> State
    decreases ps.len(),
{
    if ps.len() == 0 {
        r
    } else {
        declare_param(declare_params(r, ps.drop_last()), ps.last())
    }
}

/// Resolving a function.
pub open spec fn resolve_fn(e: Env, r: State, ps: Seq<ParamView>, body: Seq<StmtView>) -> State {
    leave(resolve_stmts(e, declare_params(enter(r), ps), body))
}

/// Resolving associated functions in order.
pub open spec fn resolve_methods(e: Env, r: State, ms: Seq<FunctionDeclView>) -> State
    decreases ms.len(),
{
    if ms.len() == 0 {
        r
    } else {
        resolve_fn(
            e,
            resolve_methods(e, r, ms.drop_last()),
            ms.last().params,
            ms.last().body,
        )
    }
}

/// Resolving the `use` items in order.
pub open spec fn resolve_uses(e: Env, r: State, items: Seq<ItemView>) -> State
    decreases items.len(),
{
    if items.len() == 0 {
        r
    } else {
        let r1 = resolve_uses(e, r, items.drop_last());
        match items.last() {
            ItemView::Use { path, names, span } => resolve_use(e, r1, path, names, span),
            _ => r1,
        }
    }
}

/// The place where each type was declared last among the items.
pub open spec fn type_spans(items: Seq<ItemView>) -> Map<Seq<char>, Span>
    decreases items.len(),
{
    if items.len() == 0 {
        Map::empty()
    } else {
        let m = type_spans(items.drop_last());
        match items.last() {
            ItemView::Object { name, name_span, .. } => m.insert(name, name_span),
            ItemView::Union { name, name_span, .. } => m.insert(name, name_span),
            _ => m,
        }
    }
}

/// The report of a type that is declared again.
pub open spec fn duplicate_type(
    r: State,
    what: Seq<char>,
    name: Seq<char>,
    span: Span,
    spans: Map<Seq<char>, Span>,
) -> State {
    if spans.dom().contains(name) {
        report(
            r,
            error_view("duplicate "@ + what + " type `"@ + name + "`"@).label(
                span,
                "redefined here"@,
            ).bare_label(spans[name]).coded("E200"@),
        )
    } else {
        r
    }
}

/// Reporting types that are declared again.
pub open spec fn report_duplicate_types(r: State, items: Seq<ItemView>) -> State
    decreases items.len(),
{
    if items.len() == 0 {
        r
    } else {
        let front = items.drop_last();
        let r1 = report_duplicate_types(r, front);
        match items.last() {
            ItemView::Object { name, name_span, .. } => duplicate_type(
                r1,
                "object"@,
                name,
                name_span,
                type_spans(front),
            ),
            ItemView::Union { name, name_span, .. } => duplicate_type(
                r1,
                "union"@,
                name,
                name_span,
                type_spans(front),
            ),
            _ => r1,
        }
    }
}

/// The environment with the associated functions of an object type, and the
/// state with their definitions. The first of several with one name counts.
pub open spec fn declare_methods(
    e: Env,
    r: State,
    owner: Seq<char>,
    ms: Seq<FunctionDeclView>,
) -> (Env, State)
    decreases ms.len(),
{
    if ms.len() == 0 {
        (e, r)
    } else {
        let (e1, r1) = declare_methods(e, r, owner, ms.drop_last());
        let m = ms.last();
        let r2 = define(
            r1,
            member(owner, m.name),
            m.name_span,
            DefKind::Local,
            None,
            None,
            None,
            None,
        );
        let e2 = if e1.assoc.dom().contains((owner, m.name)) {
            e1
        } else {
            Env { assoc: e1.assoc.insert((owner, m.name), next_id(r1)), ..e1 }
        };
        (e2, r2)
    }
}

/// The environment with the types of the items, and the state with the
/// definitions of their associated functions. The first declaration of a type
/// counts.
pub open spec fn declare_types(e: Env, r: State, items: Seq<ItemView>) -> (Env, State)
    decreases items.len(),
{
    if items.len() == 0 {
        (e, r)
    } else {
        let (e1, r1) = declare_types(e, r, items.drop_last());
        match items.last() {
            ItemView::Object { name, fields, methods, .. } => declare_methods(
                Env {
                    local_objects: e1.local_objects.insert(name),
                    local_fields: if e1.local_fields.dom().contains(name) {
                        e1.local_fields
                    } else {
                        e1.local_fields.insert(name, grammar::field_names(fields))
                    },
                    ..e1
                },
                r1,
                name,
                methods,
            ),
            ItemView::Union { name, variants, .. } => (
                if e1.unions.dom().contains(name) {
                    e1
                } else {
                    Env { unions: e1.unions.insert(name, grammar::variant_names(variants)), ..e1 }
                },
                r1,
            ),
            _ => (e1, r1),
        }
    }
}

/// Declaring the globals that a destructuring binding binds.
pub open spec fn declare_global_fields(
    r: State,
    bs: Seq<DestructureBindingView>,
    kind: BindingKind,
) -> State
    decreases bs.len(),
{
    if bs.len() == 0 {
        r
    } else {
        declare_global(
            declare_global_fields(r, bs.drop_last(), kind),
            bs.last().binding,
            bs.last().binding_span,
            Some(kind),
        )
    }
}

/// Declaring the globals of the items in order.
pub open spec fn declare_globals(r: State, items: Seq<ItemView>) -> State
    decreases items.len(),
{
    if items.len() == 0 {
        r
    } else {
        let r1 = declare_globals(r, items.drop_last());
        match items.last() {
            ItemView::Let { name, name_span, kind, .. } => declare_global(
                r1,
                name,
                name_span,
                Some(kind),
            ),
            ItemView::Destructure { bindings, kind, .. } => declare_global_fields(
                r1,
                bindings,
                kind,
            ),
            ItemView::Function { name, name_span, .. } => declare_global(
                r1,
                name,
                name_span,
                None,
            ),
            _ => r1,
        }
    }
}

/// Resolving the bodies of the items in order.
pub open spec fn resolve_bodies(e: Env, r: State, items: Seq<ItemView>) -> State
    decreases items.len(),
{
    if items.len() == 0 {
        r
    } else {
        let r1 = resolve_bodies(e, r, items.drop_last());
        match items.last() {
            ItemView::Object { methods, .. } => resolve_methods(e, r1, methods),
            ItemView::Let { value, .. } => resolve_expr(e, r1, value),
            ItemView::Destructure { value, .. } => resolve_expr(e, r1, value),
            ItemView::Function { params, body, .. } => resolve_fn(e, r1, params, body),
            _ => r1,
        }
    }
}

/// The environment before anything is declared.
pub open spec fn initial_env(prog: ProgramView, modules: Seq<ModuleSpecView>) -> Env {
    Env {
        modules,
        module: prog.module,
        local_objects: Set::empty(),
        local_fields: Map::empty(),
        assoc: Map::empty(),
        unions: Map::empty(),
    }
}

/// The state before anything is resolved.
pub open spec fn initial_state() -> State {
    State {
        scopes: seq![Map::empty()],
        out: resolution::nothing_resolved(),
        diags: Seq::empty(),
        imports: Map::empty(),
        import_symbols: Map::empty(),
        poisoned: Set::empty(),
        import_spans: Map::empty(),
        poisoned_params: Set::empty(),
        in_loop: false,
    }
}

/// The resolution of a program against a catalog of modules.
pub open spec fn resolved(prog: ProgramView, modules: Seq<ModuleSpecView>) -> (
    ResolutionView,
    Seq<DiagnosticView>,
) {
    let e = initial_env(prog, modules);
    let r1 = report_duplicate_types(
        resolve_uses(e, initial_state(), prog.items),
        prog.items,
    );
    let (e2, r2) = declare_types(e, r1, prog.items);
    let r3 = resolve_bodies(e2, declare_globals(r2, prog.items), prog.items);
    (
        ResolutionView { poisoned_imports: r3.poisoned != Set::<Seq<char>>::empty(), ..r3.out },
        r3.diags,
    )
}

// ---------------------------------------------------------------------------
// The default catalog
// ---------------------------------------------------------------------------

/// A function provided by the target.
pub open spec fn target_fn(name: Seq<char>, params: Seq<ParamSigView>, ret: TypeView) -> ExportView {
    ExportView {
        name,
        sig: FuncSigView { type_params: Seq::empty(), params, ret },
        kind: ExportKind::Target,
    }
}

/// A parameter.
pub open spec fn target_param(name: Seq<char>, ty: TypeView) -> ParamSigView {
    ParamSigView { name, ty }
}

/// A module provided by the target.
pub open spec fn target_module(path: Seq<Seq<char>>, exports: Seq<ExportView>) -> ModuleSpecView {
    ModuleSpecView {
        path,
        exports,
        objects: Seq::empty(),
        unions: Seq::empty(),
        parse_poisoned: false,
        poisoned_exports: Seq::empty(),
        global_dependent_exports: Seq::empty(),
    }
}

/// The modules that the targets know.
pub open spec fn default_catalog() -> Seq<ModuleSpecView> {
    seq![
        target_module(
            seq!["std"@],
            seq![
                target_fn("print"@, seq![target_param("value"@, TypeView::String)], TypeView::Void),
                target_fn(
                    "println"@,
                    seq![target_param("value"@, TypeView::String)],
                    TypeView::Void,
                ),
                target_fn("print_u64"@, seq![target_param("value"@, TypeView::U64)], TypeView::Void),
            ],
        ),
        target_module(
            seq!["std"@, "fs"@],
            seq![
                target_fn("open"@, seq![target_param("path"@, TypeView::String)], TypeView::File),
                target_fn("read"@, seq![target_param("file"@, TypeView::File)], TypeView::String),
            ],
        ),
        target_module(
            seq!["std"@, "string"@],
            seq![
                target_fn("len"@, seq![target_param("value"@, TypeView::String)], TypeView::U64),
                target_fn(
                    "concat"@,
                    seq![
                        target_param("a"@, TypeView::String),
                        target_param("b"@, TypeView::String),
                    ],
                    TypeView::String,
                ),
                target_fn(
                    "eq"@,
                    seq![
                        target_param("a"@, TypeView::String),
                        target_param("b"@, TypeView::String),
                    ],
                    TypeView::Bool,
                ),
                target_fn("to_u64"@, seq![target_param("value"@, TypeView::String)], TypeView::U64),
                target_fn(
                    "hex_to_u64"@,
                    seq![target_param("value"@, TypeView::String)],
                    TypeView::U64,
                ),
            ],
        ),
        target_module(
            seq!["std"@, "math"@],
            seq![
                target_fn(
                    "mod_u64"@,
                    seq![target_param("a"@, TypeView::U64), target_param("b"@, TypeView::U64)],
                    TypeView::U64,
                ),
            ],
        ),
        target_module(
            seq!["std"@, "fmt"@],
            seq![
                target_fn("u64_to_s"@, seq![target_param("value"@, TypeView::U64)], TypeView::String),
            ],
        ),
    ]
}

} // verus!
