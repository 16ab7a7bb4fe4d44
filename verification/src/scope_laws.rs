//! What holds of every resolution: identifiers are those of definitions, and
//! scopes are left as they were entered.

use vstd::prelude::*;

use crate::ast::{
    BindingKind, DestructureBindingView, ExprView, FunctionDeclView, ItemView, MatchArmView,
    ParamView, ProgramView, StmtView,
};
use crate::diagnostic::Severity;
use crate::module::{ExportKind, FuncSigView, ModuleSpecView, ObjectExportView, SymbolView};
use crate::resolution::{DefId, DefKind, DefView};
use crate::scope::{Env, State};
use crate::span::Span;
use crate::table::Place;
use crate::ty::TypeView;
use crate::{resolution, scope};

verus! {

/// Whether an identifier is that of a definition.
pub open spec fn known(defs: Seq<DefView>, id: DefId) -> bool {
    exists|i: int| 0 <= i < defs.len() && (#[trigger] defs[i]).id == id
}

/// Whether all identifiers in a map are those of definitions.
pub open spec fn all_known<K>(defs: Seq<DefView>, m: Map<K, DefId>) -> bool {
    forall|k: K| #[trigger] m.dom().contains(k) ==> known(defs, m[k])
}

/// Whether each definition has its position as its identifier, as far as that
/// holds it.
pub open spec fn numbered(defs: Seq<DefView>) -> bool {
    forall|i: int| 0 <= i < defs.len() ==> (#[trigger] defs[i]).id == DefId(i as usize as u32)
}

/// Whether definitions are numbered, the identifiers in a state and its
/// environment are those of definitions, and there is a scope.
pub open spec fn sound(e: Env, r: State) -> bool {
    &&& numbered(r.out.defs)
    &&& all_known(r.out.defs, r.out.uses)
    &&& all_known(r.out.defs, r.out.sugar_receivers)
    &&& all_known(r.out.defs, e.assoc)
    &&& forall|i: int| 0 <= i < r.scopes.len() ==> all_known(r.out.defs, #[trigger] r.scopes[i])
    &&& r.scopes.len() >= 1
}

/// Whether a state follows from another: definitions are only added, the scopes
/// around the innermost one stay, and so does whether the code is in a loop.
pub open spec fn follows(e: Env, r: State, t: State) -> bool {
    &&& r.out.defs.is_prefix_of(t.out.defs)
    &&& t.scopes.len() == r.scopes.len()
    &&& t.scopes.drop_last() == r.scopes.drop_last()
    &&& t.in_loop == r.in_loop
    &&& sound(e, r) ==> sound(e, t)
}

/// Whether a state follows from another with the same scopes.
pub open spec fn follows_in_scope(e: Env, r: State, t: State) -> bool {
    follows(e, r, t) && t.scopes == r.scopes
}

proof fn known_stays(a: Seq<DefView>, b: Seq<DefView>, id: DefId)
    requires
        a.is_prefix_of(b),
        known(a, id),
    ensures
        known(b, id),
{
    let i = choose|i: int| 0 <= i < a.len() && (#[trigger] a[i]).id == id;
    assert(b[i] == a[i]);
}

proof fn all_known_stays<K>(a: Seq<DefView>, b: Seq<DefView>, m: Map<K, DefId>)
    requires
        a.is_prefix_of(b),
        all_known(a, m),
    ensures
        all_known(b, m),
{
    assert forall|k: K| #[trigger] m.dom().contains(k) implies known(b, m[k]) by {
        known_stays(a, b, m[k]);
    }
}

proof fn follows_transitive(e: Env, r: State, s: State, t: State)
    requires
        follows(e, r, s),
        follows(e, s, t),
    ensures
        follows(e, r, t),
        follows_in_scope(e, r, s) && follows_in_scope(e, s, t) ==> follows_in_scope(e, r, t),
{
}

/// A state with the same definitions, uses and scopes.
spec fn same_names(r: State, t: State) -> bool {
    &&& t.out.defs == r.out.defs
    &&& t.out.uses == r.out.uses
    &&& t.out.sugar_receivers == r.out.sugar_receivers
    &&& t.scopes == r.scopes
    &&& t.in_loop == r.in_loop
}

proof fn same_follows(e: Env, r: State, t: State)
    requires
        same_names(r, t),
    ensures
        follows_in_scope(e, r, t),
{
}

proof fn looked_up(e: Env, defs: Seq<DefView>, scopes: Seq<Map<Seq<char>, DefId>>, name: Seq<char>)
    requires
        forall|i: int| 0 <= i < scopes.len() ==> all_known(defs, #[trigger] scopes[i]),
        scope::lookup(scopes, name) is Some,
    ensures
        known(defs, scope::lookup(scopes, name)->0),
    decreases scopes.len(),
{
    if scopes.last().dom().contains(name) {
        assert(all_known(defs, scopes[scopes.len() - 1]));
    } else {
        assert forall|i: int| 0 <= i < scopes.drop_last().len() implies all_known(
            defs,
            #[trigger] scopes.drop_last()[i],
        ) by {
            assert(scopes.drop_last()[i] == scopes[i]);
        }
        looked_up(e, defs, scopes.drop_last(), name);
    }
}

proof fn define_follows(
    e: Env,
    r: State,
    name: Seq<char>,
    span: Span,
    kind: DefKind,
    sig: Option<FuncSigView>,
    export_kind: Option<ExportKind>,
    binding: Option<BindingKind>,
    symbol: Option<SymbolView>,
)
    ensures
        follows_in_scope(
            e,
            r,
            scope::define(r, name, span, kind, sig, export_kind, binding, symbol),
        ),
        known(
            scope::define(r, name, span, kind, sig, export_kind, binding, symbol).out.defs,
            scope::next_id(r),
        ),
{
    let t = scope::define(r, name, span, kind, sig, export_kind, binding, symbol);
    assert(t.out.defs[r.out.defs.len() as int].id == scope::next_id(r));
    assert(r.out.defs.is_prefix_of(t.out.defs));
    if sound(e, r) {
        all_known_stays(r.out.defs, t.out.defs, r.out.uses);
        all_known_stays(r.out.defs, t.out.defs, r.out.sugar_receivers);
        all_known_stays(r.out.defs, t.out.defs, e.assoc);
        assert forall|i: int| 0 <= i < t.scopes.len() implies all_known(
            t.out.defs,
            #[trigger] t.scopes[i],
        ) by {
            all_known_stays(r.out.defs, t.out.defs, r.scopes[i]);
        }
    }
}

proof fn use_follows(e: Env, r: State, span: Span, id: DefId)
    requires
        sound(e, r) ==> known(r.out.defs, id),
    ensures
        follows_in_scope(e, r, scope::use_at(r, span, id)),
{
}

proof fn use_outside_follows(
    e: Env,
    r: State,
    name: Seq<char>,
    span: Span,
    sig: Option<FuncSigView>,
    export_kind: Option<ExportKind>,
    kind: DefKind,
    symbol: Option<SymbolView>,
)
    ensures
        follows_in_scope(
            e,
            r,
            scope::use_outside(r, name, span, sig, export_kind, kind, symbol),
        ),
{
    define_follows(e, r, name, span, kind, sig, export_kind, None, symbol);
    let s = scope::define(r, name, span, kind, sig, export_kind, None, symbol);
    use_follows(e, s, span, scope::next_id(r));
    follows_transitive(e, r, s, scope::use_at(s, span, scope::next_id(r)));
}

proof fn bind_follows(e: Env, r: State, name: Seq<char>, id: DefId)
    requires
        r.scopes.len() >= 1,
        sound(e, r) ==> known(r.out.defs, id),
    ensures
        follows(e, r, scope::bind(r, name, id)),
{
    let t = scope::bind(r, name, id);
    assert(t.scopes.drop_last() =~= r.scopes.drop_last());
    if sound(e, r) {
        assert forall|i: int| 0 <= i < t.scopes.len() implies all_known(
            t.out.defs,
            #[trigger] t.scopes[i],
        ) by {
            assert(all_known(r.out.defs, r.scopes[i]));
        }
    }
}

proof fn declare_local_follows(e: Env, r: State, name: Seq<char>, span: Span, binding: BindingKind)
    requires
        r.scopes.len() >= 1,
    ensures
        follows(e, r, scope::declare_local(r, name, span, binding)),
{
    let t = scope::declare_local(r, name, span, binding);
    let r1 = State { diags: t.diags, ..r };
    same_follows(e, r, r1);
    let d = scope::define(r1, name, span, DefKind::Local, None, None, Some(binding), None);
    define_follows(e, r1, name, span, DefKind::Local, None, None, Some(binding), None);
    bind_follows(e, d, name, scope::next_id(r1));
    follows_transitive(e, r, r1, d);
    follows_transitive(e, r, d, scope::bind(d, name, scope::next_id(r1)));
}

proof fn declare_global_follows(
    e: Env,
    r: State,
    name: Seq<char>,
    span: Span,
    binding: Option<BindingKind>,
)
    requires
        r.scopes.len() == 1,
    ensures
        follows(e, r, scope::declare_global(r, name, span, binding)),
{
    let t = scope::declare_global(r, name, span, binding);
    if t.out.defs == r.out.defs {
        same_follows(e, r, t);
    } else {
        let d = scope::define(r, name, span, DefKind::Local, None, None, binding, None);
        define_follows(e, r, name, span, DefKind::Local, None, None, binding, None);
        assert(t.scopes =~= scope::bind(d, name, scope::next_id(r)).scopes);
        bind_follows(e, d, name, scope::next_id(r));
        follows_transitive(e, r, d, t);
    }
}

// ---------------------------------------------------------------------------
// Imports
// ---------------------------------------------------------------------------

proof fn import_names_keep(
    r: State,
    m: ModuleSpecView,
    key: Seq<char>,
    names: Seq<Seq<char>>,
    span: Span,
)
    ensures
        same_names(r, scope::import_names(r, m, key, names, span)),
    decreases names.len(),
{
    if names.len() > 0 {
        import_names_keep(r, m, key, names.drop_last(), span);
    }
}

proof fn fail_aliases_keep(r: State, names: Seq<Seq<char>>, span: Span)
    ensures
        same_names(r, scope::fail_aliases(r, names, span)),
    decreases names.len(),
{
    if names.len() > 0 {
        fail_aliases_keep(r, names.drop_last(), span);
    }
}

proof fn resolve_use_keeps(
    e: Env,
    r: State,
    path: Seq<Seq<char>>,
    names: Option<Seq<Seq<char>>>,
    span: Span,
)
    ensures
        same_names(r, scope::resolve_use(e, r, path, names, span)),
{
    reveal(scope::resolve_use);
    let key = scope::dotted(path);
    match names {
        Some(ns) => {
            fail_aliases_keep(r, ns, span);
            match scope::module_with_path(e.modules, key) {
                Some(m) => import_names_keep(r, m, key, ns, span),
                None => {},
            }
        },
        None => {},
    }
}

proof fn resolve_uses_keep(e: Env, r: State, items: Seq<ItemView>)
    ensures
        same_names(r, scope::resolve_uses(e, r, items)),
    decreases items.len(),
{
    if items.len() > 0 {
        resolve_uses_keep(e, r, items.drop_last());
        match items.last() {
            ItemView::Use { path, names, span } => resolve_use_keeps(
                e,
                scope::resolve_uses(e, r, items.drop_last()),
                path,
                names,
                span,
            ),
            _ => {},
        }
    }
}

proof fn duplicate_types_keep(r: State, items: Seq<ItemView>)
    ensures
        same_names(r, scope::report_duplicate_types(r, items)),
    decreases items.len(),
{
    if items.len() > 0 {
        duplicate_types_keep(r, items.drop_last());
    }
}

// ---------------------------------------------------------------------------
// Paths and callees
// ---------------------------------------------------------------------------

proof fn use_poisoned_follows(e: Env, r: State, s: State, name: Seq<char>, span: Span)
    requires
        same_names(r, s),
    ensures
        follows_in_scope(e, r, scope::use_poisoned(s, name, span)),
{
    same_follows(e, r, s);
    use_outside_follows(e, s, name, span, None, None, DefKind::ImportedFunction, None);
    follows_transitive(e, r, s, scope::use_poisoned(s, name, span));
}

proof fn use_path_follows(e: Env, r: State, path: Seq<Seq<char>>, span: Span)
    ensures
        scope::use_path(e, r, path, span) matches Some(t) ==> follows_in_scope(e, r, t),
{
    reveal(scope::use_path);
    let full = scope::dotted(path);
    if path.len() == 1 {
        let name = path[0];
        if scope::lookup(r.scopes, name) is Some {
            let id = scope::lookup(r.scopes, name)->0;
            if sound(e, r) {
                looked_up(e, r.out.defs, r.scopes, name);
            }
            use_follows(e, r, span, id);
        } else if r.poisoned.contains(name) {
            use_poisoned_follows(e, r, r, name, span);
        } else if r.import_symbols.dom().contains(name) {
            let symbol = r.import_symbols[name];
            match scope::symbol_export(e, symbol) {
                Some(x) => use_outside_follows(
                    e,
                    r,
                    name,
                    span,
                    Some(x.sig),
                    Some(x.kind),
                    DefKind::ImportedFunction,
                    Some(symbol),
                ),
                None => use_outside_follows(
                    e,
                    r,
                    name,
                    span,
                    None,
                    None,
                    DefKind::ImportedFunction,
                    Some(symbol),
                ),
            }
        } else {
            use_outside_follows(e, r, name, span, None, None, DefKind::ModuleAlias, None);
        }
    } else if path.len() > 1 {
        let silent = State { poisoned: r.poisoned.insert(full), ..r };
        use_poisoned_follows(e, r, r, full, span);
        use_poisoned_follows(e, r, silent, full, span);
        if r.imports.dom().contains(path[0]) && path.len() == 2 {
            let m = r.imports[path[0]];
            match scope::export_of(m, path[1]) {
                Some(x) => {
                    let r1 = scope::report(
                        r,
                        scope::depends_on_globals(
                            scope::member(scope::dotted(m.path), path[1]),
                            span,
                        ),
                    );
                    use_poisoned_follows(
                        e,
                        r,
                        State { poisoned: r1.poisoned.insert(full), ..r1 },
                        full,
                        span,
                    );
                    use_outside_follows(
                        e,
                        r,
                        full,
                        span,
                        Some(x.sig),
                        Some(x.kind),
                        DefKind::ImportedFunction,
                        Some(SymbolView { module: m.path, name: path[1] }),
                    );
                },
                None => {},
            }
        }
    }
}

proof fn use_imported_method_follows(
    e: Env,
    r: State,
    m: ModuleSpecView,
    object: ObjectExportView,
    shown: Seq<char>,
    method: Seq<char>,
    key: Seq<char>,
    full: Seq<char>,
    span: Span,
)
    ensures
        follows_in_scope(
            e,
            r,
            scope::use_imported_method(r, m, object, shown, method, key, full, span),
        ),
{
    let t = scope::use_imported_method(r, m, object, shown, method, key, full, span);
    match crate::module::first_named(object.methods, method) {
        None => same_follows(e, r, t),
        Some(i) => {
            let r1 = scope::report(
                r,
                scope::depends_on_globals(scope::member(scope::dotted(m.path), key), span),
            );
            use_poisoned_follows(
                e,
                r,
                State { poisoned: r1.poisoned.insert(full), ..r1 },
                full,
                span,
            );
            use_outside_follows(
                e,
                r,
                full,
                span,
                Some(object.methods[i].sig),
                Some(object.methods[i].kind),
                DefKind::ImportedFunction,
                Some(SymbolView { module: m.path, name: key }),
            );
        },
    }
}

proof fn use_qualified_method_follows(
    e: Env,
    modules: Seq<ModuleSpecView>,
    r: State,
    owner: Seq<char>,
    method: Seq<char>,
    full: Seq<char>,
    span: Span,
)
    ensures
        scope::use_qualified_method(modules, r, owner, method, full, span) matches Some(t)
            ==> follows_in_scope(e, r, t),
    decreases modules.len(),
{
    if modules.len() > 0 {
        use_qualified_method_follows(e, modules.drop_last(), r, owner, method, full, span);
        match scope::object_qualified(modules.last().objects, owner) {
            Some(o) => {
                use_poisoned_follows(e, r, r, full, span);
                use_imported_method_follows(
                    e,
                    r,
                    modules.last(),
                    o,
                    owner,
                    method,
                    scope::member(o.name, method),
                    full,
                    span,
                );
            },
            None => {},
        }
    }
}

proof fn use_alias_method_follows(
    e: Env,
    r: State,
    m: ModuleSpecView,
    object: Seq<char>,
    method: Seq<char>,
    full: Seq<char>,
    span: Span,
)
    ensures
        follows_in_scope(e, r, scope::use_alias_method(r, m, object, method, full, span)),
{
    let t = scope::use_alias_method(r, m, object, method, full, span);
    let key = scope::member(object, method);
    use_poisoned_follows(e, r, r, full, span);
    match scope::object_named(m.objects, object) {
        Some(o) => use_imported_method_follows(e, r, m, o, o.qualified, method, key, full, span),
        None => {
            if !crate::grammar::has_name(m.poisoned_exports, key) {
                same_follows(e, r, t);
            }
        },
    }
}

proof fn use_local_method_follows(
    e: Env,
    r: State,
    owner: Seq<char>,
    shown: Seq<char>,
    method: Seq<char>,
    span: Span,
)
    ensures
        follows_in_scope(e, r, scope::use_local_method(e, r, owner, shown, method, span)),
{
    let t = scope::use_local_method(e, r, owner, shown, method, span);
    if e.assoc.dom().contains((owner, method)) {
        use_follows(e, r, span, e.assoc[(owner, method)]);
    } else {
        same_follows(e, r, t);
    }
}

proof fn use_member_callee_follows(e: Env, r: State, callee: Seq<Seq<char>>, span: Span)
    ensures
        scope::use_member_callee(e, r, callee, span) matches Some(t) ==> follows_in_scope(e, r, t),
{
    reveal(scope::use_member_callee);
    let full = scope::dotted(callee);
    match scope::use_member_callee(e, r, callee, span) {
        Some(t) => {
            if r.poisoned.contains(full) || r.poisoned.contains(callee[0]) {
                use_poisoned_follows(e, r, r, full, span);
            } else if callee.len() == 2 && scope::union_of(e, r, callee[0]) is Some {
                same_follows(e, r, t);
            } else if callee.len() == 2 && e.local_objects.contains(callee[0]) {
                use_local_method_follows(e, r, callee[0], callee[0], callee[1], span);
            } else if !e.local_objects.contains(callee[0]) && scope::lookup(r.scopes, callee[0])
                is Some {
                if sound(e, r) {
                    looked_up(e, r.out.defs, r.scopes, callee[0]);
                }
            } else if callee.len() == 3 && r.imports.dom().contains(callee[0]) {
                use_alias_method_follows(
                    e,
                    r,
                    r.imports[callee[0]],
                    callee[1],
                    callee[2],
                    full,
                    span,
                );
            } else {
                let method = callee.last();
                let owner = scope::dotted(callee.drop_last());
                let local = scope::behind(owner, e.module + "."@);
                if local is Some && e.local_objects.contains(local->0) {
                    use_local_method_follows(e, r, local->0, owner, method, span);
                } else {
                    use_qualified_method_follows(e, e.modules, r, owner, method, full, span);
                }
            }
        },
        None => {},
    }
}

proof fn resolve_callee_follows(
    e: Env,
    r: State,
    callee: Seq<Seq<char>>,
    span: Span,
    type_args: Seq<TypeView>,
    type_args_span: Option<Span>,
)
    ensures
        follows_in_scope(
            e,
            r,
            scope::resolve_callee(e, r, callee, span, type_args, type_args_span),
        ),
{
    reveal(scope::resolve_callee);
    let full = scope::dotted(callee);
    let t = scope::resolve_callee(e, r, callee, span, type_args, type_args_span);
    use_member_callee_follows(e, r, callee, span);
    use_path_follows(e, r, callee, span);
    if callee.len() == 2 && callee[0] == "Array"@ && callee[1] == "new"@ {
        if type_args.len() == 1 {
            use_outside_follows(
                e,
                r,
                full,
                span,
                Some(scope::array_new_sig(type_args[0])),
                None,
                DefKind::External,
                None,
            );
        } else {
            let r1 = State { diags: t.diags, ..r };
            same_follows(e, r, r1);
            use_outside_follows(e, r1, full, span, None, None, DefKind::External, None);
            follows_transitive(
                e,
                r,
                r1,
                scope::use_outside(r1, full, span, None, None, DefKind::External, None),
            );
        }
    } else if t.out.defs == r.out.defs && t.out.uses == r.out.uses && t.out.sugar_receivers
        == r.out.sugar_receivers && t.scopes == r.scopes && t.in_loop == r.in_loop {
        same_follows(e, r, t);
    }
}

// ---------------------------------------------------------------------------
// Expressions and statements
// ---------------------------------------------------------------------------

/// Resolving an expression adds definitions and uses, and leaves the scopes as
/// they are.
pub proof fn expr_keeps_scopes(e: Env, r: State, x: ExprView)
    ensures
        follows_in_scope(e, r, scope::resolve_expr(e, r, x)),
    decreases x,
{
    reveal(scope::resolve_expr);
    reveal(scope::resolve_exprs);
    reveal(scope::resolve_named);
    reveal(scope::resolve_elems);
    let t = scope::resolve_expr(e, r, x);
    match x {
        ExprView::Literal(..) | ExprView::String(..) | ExprView::Null(..) => same_follows(e, r, t),
        ExprView::ObjectLiteral { fields, .. } => named_keep_scopes(e, r, fields),
        ExprView::ArrayLiteral { elems, .. } => exprs_keep_scopes(e, r, elems),
        ExprView::TupleLiteral { elems, .. } => elems_keep_scopes(e, r, elems),
        ExprView::TupleIndex { base, .. } => expr_keeps_scopes(e, r, *base),
        ExprView::Index { base, index, .. } => {
            expr_keeps_scopes(e, r, *base);
            let r1 = scope::resolve_expr(e, r, *base);
            expr_keeps_scopes(e, r1, *index);
            follows_transitive(e, r, r1, t);
        },
        ExprView::Field { base, name, span } => {
            match scope::field_union(e, r, *base) {
                Some((union, variants)) => same_follows(e, r, t),
                None => expr_keeps_scopes(e, r, *base),
            }
        },
        ExprView::Var { path, span } => {
            use_path_follows(e, r, path, span);
            if scope::use_path(e, r, path, span) is None {
                same_follows(e, r, t);
            }
        },
        ExprView::Call { callee, callee_span, type_args, type_args_span, args, .. } => {
            resolve_callee_follows(e, r, callee, callee_span, type_args, type_args_span);
            let r1 = scope::resolve_callee(
                e,
                r,
                callee,
                callee_span,
                type_args,
                type_args_span,
            );
            exprs_keep_scopes(e, r1, args);
            follows_transitive(e, r, r1, t);
        },
        ExprView::Unary { rhs, .. } => expr_keeps_scopes(e, r, *rhs),
        ExprView::Binary { lhs, rhs, .. } => {
            expr_keeps_scopes(e, r, *lhs);
            let r1 = scope::resolve_expr(e, r, *lhs);
            expr_keeps_scopes(e, r1, *rhs);
            follows_transitive(e, r, r1, t);
        },
        ExprView::Cast { inner, .. } => expr_keeps_scopes(e, r, *inner),
    }
}

proof fn exprs_keep_scopes(e: Env, r: State, xs: Seq<ExprView>)
    ensures
        follows_in_scope(e, r, scope::resolve_exprs(e, r, xs)),
    decreases xs,
{
    reveal(scope::resolve_expr);
    reveal(scope::resolve_exprs);
    if xs.len() == 0 {
        same_follows(e, r, r);
    } else {
        exprs_keep_scopes(e, r, xs.drop_last());
        let r1 = scope::resolve_exprs(e, r, xs.drop_last());
        expr_keeps_scopes(e, r1, xs.last());
        follows_transitive(e, r, r1, scope::resolve_expr(e, r1, xs.last()));
    }
}

proof fn named_keep_scopes(e: Env, r: State, xs: Seq<(Seq<char>, Span, ExprView)>)
    ensures
        follows_in_scope(e, r, scope::resolve_named(e, r, xs)),
    decreases xs,
{
    reveal(scope::resolve_expr);
    reveal(scope::resolve_named);
    if xs.len() == 0 {
        same_follows(e, r, r);
    } else {
        named_keep_scopes(e, r, xs.drop_last());
        let r1 = scope::resolve_named(e, r, xs.drop_last());
        expr_keeps_scopes(e, r1, xs.last().2);
        follows_transitive(e, r, r1, scope::resolve_expr(e, r1, xs.last().2));
    }
}

proof fn elems_keep_scopes(e: Env, r: State, xs: Seq<(Option<Seq<char>>, Span, ExprView)>)
    ensures
        follows_in_scope(e, r, scope::resolve_elems(e, r, xs)),
    decreases xs,
{
    reveal(scope::resolve_expr);
    reveal(scope::resolve_elems);
    if xs.len() == 0 {
        same_follows(e, r, r);
    } else {
        elems_keep_scopes(e, r, xs.drop_last());
        let r1 = scope::resolve_elems(e, r, xs.drop_last());
        expr_keeps_scopes(e, r1, xs.last().2);
        follows_transitive(e, r, r1, scope::resolve_expr(e, r1, xs.last().2));
    }
}

proof fn assign_follows(e: Env, r: State, name: Seq<char>, span: Span)
    ensures
        follows_in_scope(e, r, scope::assign_to(r, name, span)),
{
    reveal(scope::assign_to);
    let t = scope::assign_to(r, name, span);
    match scope::lookup(r.scopes, name) {
        Some(id) => {
            if sound(e, r) {
                looked_up(e, r.out.defs, r.scopes, name);
            }
            let r1 = scope::use_at(r, span, id);
            use_follows(e, r, span, id);
            same_follows(e, r1, t);
            follows_transitive(e, r, r1, t);
        },
        None => same_follows(e, r, t),
    }
}

proof fn declare_fields_follow(
    e: Env,
    r: State,
    bs: Seq<DestructureBindingView>,
    kind: BindingKind,
)
    requires
        r.scopes.len() >= 1,
    ensures
        follows(e, r, scope::declare_fields(r, bs, kind)),
    decreases bs.len(),
{
    if bs.len() == 0 {
        same_follows(e, r, r);
    } else {
        declare_fields_follow(e, r, bs.drop_last(), kind);
        let r1 = scope::declare_fields(r, bs.drop_last(), kind);
        declare_local_follows(e, r1, bs.last().binding, bs.last().binding_span, kind);
        follows_transitive(e, r, r1, scope::declare_fields(r, bs, kind));
    }
}

proof fn declare_names_follow(e: Env, r: State, names: Seq<(Seq<char>, Span)>)
    requires
        r.scopes.len() >= 1,
    ensures
        follows(e, r, scope::declare_names(r, names)),
    decreases names.len(),
{
    if names.len() == 0 {
        same_follows(e, r, r);
    } else {
        declare_names_follow(e, r, names.drop_last());
        let r1 = scope::declare_names(r, names.drop_last());
        declare_local_follows(e, r1, names.last().0, names.last().1, BindingKind::Val);
        follows_transitive(e, r, r1, scope::declare_names(r, names));
    }
}

proof fn entering_is_sound(e: Env, r: State)
    ensures
        scope::enter(r).scopes.len() == r.scopes.len() + 1,
        scope::enter(r).scopes.drop_last() == r.scopes,
        sound(e, r) ==> sound(e, scope::enter(r)),
{
    let t = scope::enter(r);
    assert(t.scopes.drop_last() =~= r.scopes);
    if sound(e, r) {
        assert forall|i: int| 0 <= i < t.scopes.len() implies all_known(
            t.out.defs,
            #[trigger] t.scopes[i],
        ) by {
            if i < r.scopes.len() {
                assert(t.scopes[i] == r.scopes[i]);
            }
        }
    }
}

/// Leaving a scope that was entered: what was done inside follows.
proof fn leaving_follows(e: Env, r: State, inner: State)
    requires
        r.scopes.len() >= 1,
        follows(e, scope::enter(r), inner),
    ensures
        follows_in_scope(e, r, scope::leave(inner)),
{
    entering_is_sound(e, r);
    let t = scope::leave(inner);
    assert(t.scopes == r.scopes);
    if sound(e, r) {
        assert forall|i: int| 0 <= i < t.scopes.len() implies all_known(
            t.out.defs,
            #[trigger] t.scopes[i],
        ) by {
            assert(t.scopes[i] == inner.scopes[i]);
        }
    }
}

/// Resolving a statement adds definitions and uses, and changes only the
/// innermost scope.
pub proof fn stmt_keeps_scopes(e: Env, r: State, x: StmtView)
    requires
        r.scopes.len() >= 1,
    ensures
        follows(e, r, scope::resolve_stmt(e, r, x)),
    decreases x,
{
    reveal(scope::resolve_stmt);
    reveal(scope::resolve_stmts);
    reveal(scope::resolve_body);
    reveal(scope::resolve_arms);
    let t = scope::resolve_stmt(e, r, x);
    match x {
        StmtView::Let { name, name_span, kind, value, .. } => {
            expr_keeps_scopes(e, r, value);
            let r1 = scope::resolve_expr(e, r, value);
            declare_local_follows(e, r1, name, name_span, kind);
            follows_transitive(e, r, r1, t);
        },
        StmtView::Assign { name, name_span, value, .. } => {
            expr_keeps_scopes(e, r, value);
            let r1 = scope::resolve_expr(e, r, value);
            assign_follows(e, r1, name, name_span);
            follows_transitive(e, r, r1, t);
        },
        StmtView::IndexAssign { array, index, value, .. } => {
            expr_keeps_scopes(e, r, *array);
            let r1 = scope::resolve_expr(e, r, *array);
            expr_keeps_scopes(e, r1, *index);
            let r2 = scope::resolve_expr(e, r1, *index);
            expr_keeps_scopes(e, r2, *value);
            follows_transitive(e, r, r1, r2);
            follows_transitive(e, r, r2, t);
        },
        StmtView::FieldAssign { base, value, .. } => {
            expr_keeps_scopes(e, r, *base);
            let r1 = scope::resolve_expr(e, r, *base);
            expr_keeps_scopes(e, r1, *value);
            follows_transitive(e, r, r1, t);
        },
        StmtView::TupleAssign { base, value, .. } => {
            expr_keeps_scopes(e, r, *base);
            let r1 = scope::resolve_expr(e, r, *base);
            expr_keeps_scopes(e, r1, *value);
            follows_transitive(e, r, r1, t);
        },
        StmtView::Destructure { bindings, kind, value, .. } => {
            expr_keeps_scopes(e, r, value);
            let r1 = scope::resolve_expr(e, r, value);
            declare_fields_follow(e, r1, bindings, kind);
            follows_transitive(e, r, r1, t);
        },
        StmtView::Expr(value) => expr_keeps_scopes(e, r, value),
        StmtView::Return { value, .. } => {
            match value {
                Some(v) => expr_keeps_scopes(e, r, v),
                None => same_follows(e, r, t),
            }
        },
        StmtView::Break { .. } => same_follows(e, r, t),
        StmtView::Continue { .. } => same_follows(e, r, t),
        StmtView::While { condition, body, .. } => {
            expr_keeps_scopes(e, r, condition);
            let r1 = scope::resolve_expr(e, r, condition);
            let r2 = State { in_loop: true, ..r1 };
            body_keeps_scopes(e, r2, body);
            let r3 = scope::resolve_body(e, r2, body);
            assert(sound(e, r1) ==> sound(e, r2));
            assert(sound(e, r3) ==> sound(e, t));
            assert(follows(e, r1, t));
            follows_transitive(e, r, r1, t);
        },
        StmtView::If { condition, then_body, else_body, .. } => {
            expr_keeps_scopes(e, r, condition);
            let r1 = scope::resolve_expr(e, r, condition);
            body_keeps_scopes(e, r1, then_body);
            let r2 = scope::resolve_body(e, r1, then_body);
            follows_transitive(e, r, r1, r2);
            match else_body {
                Some(body) => {
                    body_keeps_scopes(e, r2, body);
                    follows_transitive(e, r, r2, t);
                },
                None => {},
            }
        },
        StmtView::Match { scrutinee, arms, else_body, .. } => {
            expr_keeps_scopes(e, r, scrutinee);
            let r1 = scope::resolve_expr(e, r, scrutinee);
            arms_keep_scopes(e, r1, arms);
            let r2 = scope::resolve_arms(e, r1, arms);
            follows_transitive(e, r, r1, r2);
            match else_body {
                Some(body) => {
                    body_keeps_scopes(e, r2, body);
                    follows_transitive(e, r, r2, t);
                },
                None => {},
            }
        },
    }
}

proof fn stmts_keep_scopes(e: Env, r: State, xs: Seq<StmtView>)
    requires
        r.scopes.len() >= 1,
    ensures
        follows(e, r, scope::resolve_stmts(e, r, xs)),
    decreases xs, 0nat,
{
    reveal(scope::resolve_stmt);
    reveal(scope::resolve_stmts);
    if xs.len() == 0 {
        same_follows(e, r, r);
    } else {
        stmts_keep_scopes(e, r, xs.drop_last());
        let r1 = scope::resolve_stmts(e, r, xs.drop_last());
        stmt_keeps_scopes(e, r1, xs.last());
        follows_transitive(e, r, r1, scope::resolve_stmt(e, r1, xs.last()));
    }
}

/// Resolving statements in a scope of their own leaves the scopes as they were.
pub proof fn body_keeps_scopes(e: Env, r: State, xs: Seq<StmtView>)
    requires
        r.scopes.len() >= 1,
    ensures
        follows_in_scope(e, r, scope::resolve_body(e, r, xs)),
    decreases xs, 1nat,
{
    reveal(scope::resolve_stmts);
    reveal(scope::resolve_body);
    entering_is_sound(e, r);
    stmts_keep_scopes(e, scope::enter(r), xs);
    leaving_follows(e, r, scope::resolve_stmts(e, scope::enter(r), xs));
}

proof fn arms_keep_scopes(e: Env, r: State, arms: Seq<MatchArmView>)
    requires
        r.scopes.len() >= 1,
    ensures
        follows_in_scope(e, r, scope::resolve_arms(e, r, arms)),
    decreases arms,
{
    reveal(scope::resolve_stmts);
    reveal(scope::resolve_arms);
    if arms.len() == 0 {
        same_follows(e, r, r);
    } else {
        let arm = arms.last();
        arms_keep_scopes(e, r, arms.drop_last());
        let r0 = scope::resolve_arms(e, r, arms.drop_last());
        let r1 = scope::resolve_pattern(e, r0, arm.path, arm.path_span);
        assert(same_names(r0, r1)) by {
            reveal(scope::resolve_pattern);
        }
        same_follows(e, r0, r1);
        follows_transitive(e, r, r0, r1);
        entering_is_sound(e, r1);
        let r2 = scope::enter(r1);
        declare_names_follow(e, r2, arm.bindings);
        let r3 = scope::declare_names(r2, arm.bindings);
        stmts_keep_scopes(e, r3, arm.body);
        let r4 = scope::resolve_stmts(e, r3, arm.body);
        follows_transitive(e, r2, r3, r4);
        leaving_follows(e, r1, r4);
        follows_transitive(e, r, r1, scope::leave(r4));
    }
}

// ---------------------------------------------------------------------------
// Programs
// ---------------------------------------------------------------------------

proof fn declare_params_follow(e: Env, r: State, ps: Seq<ParamView>)
    requires
        r.scopes.len() >= 1,
    ensures
        follows(e, r, scope::declare_params(r, ps)),
    decreases ps.len(),
{
    if ps.len() == 0 {
        same_follows(e, r, r);
    } else {
        declare_params_follow(e, r, ps.drop_last());
        let r1 = scope::declare_params(r, ps.drop_last());
        let p = ps.last();
        let t = scope::declare_param(r1, p);
        if r1.scopes.last().dom().contains(p.name) {
            same_follows(e, r1, t);
        } else {
            let d = scope::define(
                r1,
                p.name,
                p.name_span,
                DefKind::Parameter,
                None,
                None,
                None,
                None,
            );
            define_follows(
                e,
                r1,
                p.name,
                p.name_span,
                DefKind::Parameter,
                None,
                None,
                None,
                None,
            );
            bind_follows(e, d, p.name, scope::next_id(r1));
            follows_transitive(e, r1, d, t);
        }
        follows_transitive(e, r, r1, t);
    }
}

proof fn function_keeps_scopes(e: Env, r: State, ps: Seq<ParamView>, body: Seq<StmtView>)
    requires
        r.scopes.len() >= 1,
    ensures
        follows_in_scope(e, r, scope::resolve_fn(e, r, ps, body)),
{
    entering_is_sound(e, r);
    let r1 = scope::enter(r);
    declare_params_follow(e, r1, ps);
    let r2 = scope::declare_params(r1, ps);
    stmts_keep_scopes(e, r2, body);
    let r3 = scope::resolve_stmts(e, r2, body);
    follows_transitive(e, r1, r2, r3);
    leaving_follows(e, r, r3);
}

proof fn methods_keep_scopes(e: Env, r: State, ms: Seq<FunctionDeclView>)
    requires
        r.scopes.len() >= 1,
    ensures
        follows_in_scope(e, r, scope::resolve_methods(e, r, ms)),
    decreases ms.len(),
{
    if ms.len() == 0 {
        same_follows(e, r, r);
    } else {
        methods_keep_scopes(e, r, ms.drop_last());
        let r1 = scope::resolve_methods(e, r, ms.drop_last());
        function_keeps_scopes(e, r1, ms.last().params, ms.last().body);
        follows_transitive(e, r, r1, scope::resolve_methods(e, r, ms));
    }
}

proof fn declare_methods_is_sound(e: Env, r: State, owner: Seq<char>, ms: Seq<FunctionDeclView>)
    requires
        sound(e, r),
    ensures
        ({
            let (f, t) = scope::declare_methods(e, r, owner, ms);
            sound(f, t) && t.scopes == r.scopes
        }),
    decreases ms.len(),
{
    if ms.len() > 0 {
        declare_methods_is_sound(e, r, owner, ms.drop_last());
        let (e1, r1) = scope::declare_methods(e, r, owner, ms.drop_last());
        let m = ms.last();
        define_follows(
            e1,
            r1,
            scope::member(owner, m.name),
            m.name_span,
            DefKind::Local,
            None,
            None,
            None,
            None,
        );
    }
}

proof fn declare_types_is_sound(e: Env, r: State, items: Seq<ItemView>)
    requires
        sound(e, r),
    ensures
        ({
            let (f, t) = scope::declare_types(e, r, items);
            sound(f, t) && t.scopes == r.scopes
        }),
    decreases items.len(),
{
    if items.len() > 0 {
        declare_types_is_sound(e, r, items.drop_last());
        let (e1, r1) = scope::declare_types(e, r, items.drop_last());
        match items.last() {
            ItemView::Object { name, fields, methods, .. } => {
                let e2 = Env {
                    local_objects: e1.local_objects.insert(name),
                    local_fields: if e1.local_fields.dom().contains(name) {
                        e1.local_fields
                    } else {
                        e1.local_fields.insert(name, crate::grammar::field_names(fields))
                    },
                    ..e1
                };
                assert(sound(e2, r1));
                declare_methods_is_sound(e2, r1, name, methods);
            },
            _ => {},
        }
    }
}

proof fn declare_global_fields_follow(
    e: Env,
    r: State,
    bs: Seq<DestructureBindingView>,
    kind: BindingKind,
)
    requires
        r.scopes.len() == 1,
    ensures
        follows(e, r, scope::declare_global_fields(r, bs, kind)),
    decreases bs.len(),
{
    if bs.len() == 0 {
        same_follows(e, r, r);
    } else {
        declare_global_fields_follow(e, r, bs.drop_last(), kind);
        let r1 = scope::declare_global_fields(r, bs.drop_last(), kind);
        declare_global_follows(e, r1, bs.last().binding, bs.last().binding_span, Some(kind));
        follows_transitive(e, r, r1, scope::declare_global_fields(r, bs, kind));
    }
}

proof fn declare_globals_follow(e: Env, r: State, items: Seq<ItemView>)
    requires
        r.scopes.len() == 1,
    ensures
        follows(e, r, scope::declare_globals(r, items)),
    decreases items.len(),
{
    if items.len() == 0 {
        same_follows(e, r, r);
    } else {
        declare_globals_follow(e, r, items.drop_last());
        let r1 = scope::declare_globals(r, items.drop_last());
        match items.last() {
            ItemView::Let { name, name_span, kind, .. } => declare_global_follows(
                e,
                r1,
                name,
                name_span,
                Some(kind),
            ),
            ItemView::Destructure { bindings, kind, .. } => declare_global_fields_follow(
                e,
                r1,
                bindings,
                kind,
            ),
            ItemView::Function { name, name_span, .. } => declare_global_follows(
                e,
                r1,
                name,
                name_span,
                None,
            ),
            _ => same_follows(e, r1, r1),
        }
        follows_transitive(e, r, r1, scope::declare_globals(r, items));
    }
}

proof fn bodies_keep_scopes(e: Env, r: State, items: Seq<ItemView>)
    requires
        r.scopes.len() >= 1,
    ensures
        follows_in_scope(e, r, scope::resolve_bodies(e, r, items)),
    decreases items.len(),
{
    if items.len() == 0 {
        same_follows(e, r, r);
    } else {
        bodies_keep_scopes(e, r, items.drop_last());
        let r1 = scope::resolve_bodies(e, r, items.drop_last());
        match items.last() {
            ItemView::Object { methods, .. } => methods_keep_scopes(e, r1, methods),
            ItemView::Let { value, .. } => expr_keeps_scopes(e, r1, value),
            ItemView::Destructure { value, .. } => expr_keeps_scopes(e, r1, value),
            ItemView::Function { params, body, .. } => function_keeps_scopes(e, r1, params, body),
            _ => same_follows(e, r1, r1),
        }
        follows_transitive(e, r, r1, scope::resolve_bodies(e, r, items));
    }
}

proof fn known_is_found(defs: Seq<DefView>, id: DefId)
    requires
        known(defs, id),
    ensures
        resolution::def_with_id(defs, id) matches Some(d) && d.id == id,
    decreases defs.len(),
{
    if resolution::def_with_id(defs.drop_last(), id) is None && defs.last().id != id {
        let i = choose|i: int| 0 <= i < defs.len() && (#[trigger] defs[i]).id == id;
        assert(defs.drop_last()[i].id == id);
        known_is_found(defs.drop_last(), id);
    } else if known(defs.drop_last(), id) {
        known_is_found(defs.drop_last(), id);
    } else {
        found_is_known(defs.drop_last(), id);
    }
}

proof fn found_is_known(defs: Seq<DefView>, id: DefId)
    ensures
        resolution::def_with_id(defs, id) is Some ==> known(defs, id),
    decreases defs.len(),
{
    if defs.len() > 0 {
        found_is_known(defs.drop_last(), id);
        if defs.last().id == id {
            assert(defs[defs.len() - 1].id == id);
        } else if resolution::def_with_id(defs, id) is Some {
            known_stays(defs.drop_last(), defs, id);
        }
    }
}

proof fn resolving_is_sound(prog: ProgramView, modules: Seq<ModuleSpecView>)
    ensures
        numbered(scope::resolved(prog, modules).0.defs),
        all_known(
            scope::resolved(prog, modules).0.defs,
            scope::resolved(prog, modules).0.uses,
        ),
        all_known(
            scope::resolved(prog, modules).0.defs,
            scope::resolved(prog, modules).0.sugar_receivers,
        ),
{
    let e = scope::initial_env(prog, modules);
    let r0 = scope::initial_state();
    assert(sound(e, r0));
    resolve_uses_keep(e, r0, prog.items);
    let ra = scope::resolve_uses(e, r0, prog.items);
    duplicate_types_keep(ra, prog.items);
    let r1 = scope::report_duplicate_types(ra, prog.items);
    same_follows(e, r0, r1);
    declare_types_is_sound(e, r1, prog.items);
    let (e2, r2) = scope::declare_types(e, r1, prog.items);
    declare_globals_follow(e2, r2, prog.items);
    let r3 = scope::declare_globals(r2, prog.items);
    bodies_keep_scopes(e2, r3, prog.items);
    let r4 = scope::resolve_bodies(e2, r3, prog.items);
    assert(sound(e2, r4));
}

/// Every use that a resolution records, and every receiver of a method call,
/// refers to one of its definitions.
pub proof fn uses_refer_to_definitions(
    prog: ProgramView,
    modules: Seq<ModuleSpecView>,
    at: Place,
)
    ensures
        scope::resolved(prog, modules).0.uses.dom().contains(at) ==> (resolution::def_with_id(
            scope::resolved(prog, modules).0.defs,
            scope::resolved(prog, modules).0.uses[at],
        ) matches Some(d) && d.id == scope::resolved(prog, modules).0.uses[at]),
        scope::resolved(prog, modules).0.sugar_receivers.dom().contains(at)
            ==> resolution::def_with_id(
            scope::resolved(prog, modules).0.defs,
            scope::resolved(prog, modules).0.sugar_receivers[at],
        ) is Some,
{
    resolving_is_sound(prog, modules);
    let out = scope::resolved(prog, modules).0;
    if out.uses.dom().contains(at) {
        known_is_found(out.defs, out.uses[at]);
    }
    if out.sugar_receivers.dom().contains(at) {
        known_is_found(out.defs, out.sugar_receivers[at]);
    }
}

proof fn found_by_position(defs: Seq<DefView>, n: int)
    requires
        numbered(defs),
        0 <= n < defs.len() <= 0x1_0000_0000,
    ensures
        resolution::def_with_id(defs, DefId(n as u32)) == Some(defs[n]),
    decreases defs.len(),
{
    let front = defs.drop_last();
    assert forall|i: int| 0 <= i < front.len() implies (#[trigger] front[i]).id == DefId(
        i as usize as u32,
    ) by {
        assert(front[i] == defs[i]);
    }
    assert(defs[n].id == DefId(n as u32));
    if n < front.len() {
        found_by_position(front, n);
    } else {
        let id = DefId(n as u32);
        found_is_known(front, id);
        if known(front, id) {
            let i = choose|i: int| 0 <= i < front.len() && (#[trigger] front[i]).id == id;
            assert(front[i].id == DefId(i as u32));
        }
    }
}

/// Definitions are numbered by their positions, and every use and every receiver
/// of a method call has the number of one of them. Identifiers hold thirty-two
/// bits, so the law is about programs with no more definitions than that.
pub proof fn identifiers_are_positions(
    prog: ProgramView,
    modules: Seq<ModuleSpecView>,
    i: int,
    at: Place,
)
    requires
        scope::resolved(prog, modules).0.defs.len() <= 0x1_0000_0000,
    ensures
        ({
            let out = scope::resolved(prog, modules).0;
            &&& 0 <= i < out.defs.len() ==> out.defs[i].id == DefId(i as u32)
            &&& out.uses.dom().contains(at) ==> out.uses[at].0 < out.defs.len()
            &&& out.sugar_receivers.dom().contains(at) ==> out.sugar_receivers[at].0
                < out.defs.len()
        }),
{
    resolving_is_sound(prog, modules);
    let out = scope::resolved(prog, modules).0;
    if out.uses.dom().contains(at) {
        let k = choose|k: int| 0 <= k < out.defs.len() && (#[trigger] out.defs[k]).id == out.uses[at];
        assert(out.defs[k].id == DefId(k as u32));
    }
    if out.sugar_receivers.dom().contains(at) {
        let k = choose|k: int|
            0 <= k < out.defs.len() && (#[trigger] out.defs[k]).id == out.sugar_receivers[at];
        assert(out.defs[k].id == DefId(k as u32));
    }
}

/// A place is a use of the definition at the position that is recorded for it. A
/// place for which none is recorded, such as one where only a definition stands,
/// is a use of nothing.
pub proof fn uses_lead_to_their_definitions(
    prog: ProgramView,
    modules: Seq<ModuleSpecView>,
    span: Span,
)
    requires
        scope::resolved(prog, modules).0.defs.len() <= 0x1_0000_0000,
    ensures
        ({
            let out = scope::resolved(prog, modules).0;
            let at = crate::table::place_of(span);
            resolution::used_def(out, span) == if out.uses.dom().contains(at) {
                Some(out.defs[out.uses[at].0 as int])
            } else {
                None
            }
        }),
{
    let out = scope::resolved(prog, modules).0;
    let at = crate::table::place_of(span);
    resolving_is_sound(prog, modules);
    identifiers_are_positions(prog, modules, 0, at);
    if out.uses.dom().contains(at) {
        found_by_position(out.defs, out.uses[at].0 as int);
    }
}

// ---------------------------------------------------------------------------
// What names mean
// ---------------------------------------------------------------------------

/// A name means what the innermost of the scopes that bind it binds it to.
pub proof fn innermost_binding_wins(scopes: Seq<Map<Seq<char>, DefId>>, name: Seq<char>, i: int)
    requires
        0 <= i < scopes.len(),
        scopes[i].dom().contains(name),
        forall|j: int| i < j < scopes.len() ==> !(#[trigger] scopes[j]).dom().contains(name),
    ensures
        scope::lookup(scopes, name) == Some(scopes[i][name]),
    decreases scopes.len(),
{
    let front = scopes.drop_last();
    if i < scopes.len() - 1 {
        assert(!scopes[scopes.len() - 1].dom().contains(name));
        assert forall|j: int| i < j < front.len() implies !(#[trigger] front[j]).dom().contains(
            name,
        ) by {
            assert(front[j] == scopes[j]);
        }
        innermost_binding_wins(front, name, i);
    }
}

/// A name means nothing exactly where no scope binds it.
pub proof fn unbound_names_mean_nothing(scopes: Seq<Map<Seq<char>, DefId>>, name: Seq<char>)
    ensures
        scope::lookup(scopes, name) is None <==> forall|i: int|
            0 <= i < scopes.len() ==> !(#[trigger] scopes[i]).dom().contains(name),
    decreases scopes.len(),
{
    if scopes.len() > 0 {
        let front = scopes.drop_last();
        unbound_names_mean_nothing(front, name);
        assert(scopes.last() == scopes[scopes.len() - 1]);
        assert forall|i: int| 0 <= i < front.len() implies #[trigger] front[i] == scopes[i] by {}
        if forall|i: int| 0 <= i < scopes.len() ==> !(#[trigger] scopes[i]).dom().contains(name) {
            assert(!scopes[scopes.len() - 1].dom().contains(name));
        } else {
            let i = choose|i: int|
                0 <= i < scopes.len() && (#[trigger] scopes[i]).dom().contains(name);
            if i < front.len() {
                assert(front[i].dom().contains(name));
            }
        }
        if scope::lookup(scopes, name) is None {
            assert forall|i: int| 0 <= i < scopes.len() implies !(
            #[trigger] scopes[i]).dom().contains(name) by {
                if i < front.len() {
                    assert(front[i] == scopes[i]);
                }
            }
        }
    }
}

/// A name means nothing new in a scope that was just entered.
pub proof fn entering_changes_no_name(r: State, name: Seq<char>)
    ensures
        scope::lookup(scope::enter(r).scopes, name) == scope::lookup(r.scopes, name),
{
    assert(scope::enter(r).scopes.drop_last() =~= r.scopes);
}

proof fn binding_changes_one_name(r: State, name: Seq<char>, id: DefId, other: Seq<char>)
    requires
        r.scopes.len() >= 1,
    ensures
        scope::lookup(scope::bind(r, name, id).scopes, other) == if other == name {
            Some(id)
        } else {
            scope::lookup(r.scopes, other)
        },
{
    let t = scope::bind(r, name, id);
    assert(t.scopes.drop_last() =~= r.scopes.drop_last());
    assert(t.scopes.last() == r.scopes.last().insert(name, id));
}

/// Declaring a variable makes a definition at its place, which its name means
/// from there on. Other names keep their meaning, and so does the name itself
/// once the scope is left.
pub proof fn declared_variable_is_meant(
    r: State,
    name: Seq<char>,
    span: Span,
    kind: BindingKind,
    other: Seq<char>,
)
    requires
        r.scopes.len() >= 1,
    ensures
        ({
            let t = scope::declare_local(r, name, span, kind);
            let d = t.out.defs.last();
            &&& t.out.defs.drop_last() == r.out.defs
            &&& d.name == name
            &&& d.span == span
            &&& d.kind == DefKind::Local
            &&& d.binding == Some(kind)
            &&& scope::lookup(t.scopes, name) == Some(d.id)
            &&& other != name ==> scope::lookup(t.scopes, other) == scope::lookup(r.scopes, other)
            &&& scope::leave(t).scopes == scope::leave(r).scopes
        }),
{
    let t = scope::declare_local(r, name, span, kind);
    assert(t.out.defs.drop_last() =~= r.out.defs);
    let d = State {
        scopes: r.scopes,
        ..t
    };
    binding_changes_one_name(d, name, scope::next_id(r), name);
    binding_changes_one_name(d, name, scope::next_id(r), other);
    assert(t.scopes =~= scope::bind(d, name, scope::next_id(r)).scopes);
    assert(t.scopes.drop_last() =~= r.scopes.drop_last());
}

/// A variable that is used refers to what its name means. So does one that is
/// assigned to. Nothing is reported of the use.
pub proof fn uses_refer_to_what_is_meant(e: Env, r: State, name: Seq<char>, at: Span)
    requires
        scope::lookup(r.scopes, name) is Some,
    ensures
        ({
            let t = scope::resolve_expr(e, r, ExprView::Var { path: seq![name], span: at });
            let u = scope::assign_to(r, name, at);
            let place = crate::table::place_of(at);
            &&& t.out.uses == r.out.uses.insert(place, scope::lookup(r.scopes, name)->0)
            &&& u.out.uses == r.out.uses.insert(place, scope::lookup(r.scopes, name)->0)
            &&& t.out.defs == r.out.defs
            &&& u.out.defs == r.out.defs
            &&& t.diags == r.diags
        }),
{
    reveal(scope::resolve_expr);
    reveal(scope::use_path);
    reveal(scope::assign_to);
}

/// Right behind its declaration a variable's name refers to it, whatever the name
/// meant before.
pub proof fn declared_variable_is_used(
    e: Env,
    r: State,
    name: Seq<char>,
    name_span: Span,
    kind: BindingKind,
    ty: Option<TypeView>,
    ty_span: Option<Span>,
    value: ExprView,
    span: Span,
    at: Span,
)
    requires
        sound(e, r),
        scope::resolve_expr(e, r, value).out.defs.len() < 0x1_0000_0000,
    ensures
        ({
            let x = StmtView::Let { name, name_span, kind, ty, ty_span, value, span };
            let t = scope::resolve_stmt(e, r, x);
            let u = scope::resolve_expr(e, t, ExprView::Var { path: seq![name], span: at });
            resolution::used_def(u.out, at) matches Some(d) && d.name == name && d.span == name_span
                && d.binding == Some(kind)
        }),
{
    reveal(scope::resolve_stmt);
    let x = StmtView::Let { name, name_span, kind, ty, ty_span, value, span };
    let r1 = scope::resolve_expr(e, r, value);
    expr_keeps_scopes(e, r, value);
    stmt_keeps_scopes(e, r, x);
    let t = scope::resolve_stmt(e, r, x);
    declared_variable_is_meant(r1, name, name_span, kind, name);
    uses_refer_to_what_is_meant(e, t, name, at);
    assert(t.out.defs.len() == r1.out.defs.len() + 1);
    found_by_position(t.out.defs, r1.out.defs.len() as int);
}

/// A block keeps what every name means outside of it.
pub proof fn blocks_keep_names(e: Env, r: State, xs: Seq<StmtView>, name: Seq<char>)
    requires
        r.scopes.len() >= 1,
    ensures
        scope::lookup(scope::resolve_body(e, r, xs).scopes, name) == scope::lookup(r.scopes, name),
{
    body_keeps_scopes(e, r, xs);
}

/// In the body of a function the name of each parameter refers to the parameter,
/// and other names mean what they mean outside.
pub proof fn parameters_are_meant(r: State, ps: Seq<ParamView>, i: int, other: Seq<char>)
    requires
        forall|a: int, b: int| 0 <= a < b < ps.len() ==> (#[trigger] ps[a]).name != (#[trigger] ps[b]).name,
    ensures
        ({
            let t = scope::declare_params(scope::enter(r), ps);
            let n = r.out.defs.len();
            &&& t.out.defs.len() == n + ps.len()
            &&& t.diags == r.diags
            &&& 0 <= i < ps.len() ==> scope::lookup(t.scopes, ps[i].name) == Some(
                t.out.defs[n + i].id,
            ) && t.out.defs[n + i].span == ps[i].name_span && t.out.defs[n + i].name == ps[i].name
                && t.out.defs[n + i].kind == DefKind::Parameter
            &&& (forall|a: int| 0 <= a < ps.len() ==> (#[trigger] ps[a]).name != other)
                ==> scope::lookup(t.scopes, other) == scope::lookup(r.scopes, other)
        }),
{
    parameters_bind(r, ps);
    entering_changes_no_name(r, other);
    let t = scope::declare_params(scope::enter(r), ps);
    assert(t.scopes.drop_last() =~= r.scopes);
    if 0 <= i < ps.len() {
        assert(t.scopes.last().dom().contains(ps[i].name));
    }
    if forall|a: int| 0 <= a < ps.len() ==> (#[trigger] ps[a]).name != other {
        assert(!t.scopes.last().dom().contains(other));
    }
}

proof fn parameters_bind(r: State, ps: Seq<ParamView>)
    requires
        forall|a: int, b: int| 0 <= a < b < ps.len() ==> (#[trigger] ps[a]).name != (#[trigger] ps[b]).name,
    ensures
        ({
            let t = scope::declare_params(scope::enter(r), ps);
            let n = r.out.defs.len();
            &&& t.out.defs.len() == n + ps.len()
            &&& t.diags == r.diags
            &&& t.scopes.len() == r.scopes.len() + 1
            &&& t.scopes.drop_last() == r.scopes
            &&& forall|i: int|
                #![trigger ps[i]]
                0 <= i < ps.len() ==> {
                    &&& t.scopes.last().dom().contains(ps[i].name)
                    &&& t.scopes.last()[ps[i].name] == t.out.defs[n + i].id
                    &&& t.out.defs[n + i].span == ps[i].name_span
                    &&& t.out.defs[n + i].name == ps[i].name
                    &&& t.out.defs[n + i].kind == DefKind::Parameter
                }
            &&& forall|k: Seq<char>| #[trigger]
                t.scopes.last().dom().contains(k) ==> exists|i: int|
                    0 <= i < ps.len() && (#[trigger] ps[i]).name == k
        }),
    decreases ps.len(),
{
    let t = scope::declare_params(scope::enter(r), ps);
    if ps.len() == 0 {
        assert(t.scopes.drop_last() =~= r.scopes);
    } else {
        let front = ps.drop_last();
        assert forall|a: int, b: int| 0 <= a < b < front.len() implies (#[trigger] front[a]).name
            != (#[trigger] front[b]).name by {
            assert(front[a] == ps[a] && front[b] == ps[b]);
        }
        parameters_bind(r, front);
        let f = scope::declare_params(scope::enter(r), front);
        let p = ps.last();
        let n = r.out.defs.len();
        assert(p == ps[ps.len() - 1]);
        assert(!f.scopes.last().dom().contains(p.name)) by {
            if f.scopes.last().dom().contains(p.name) {
                let i = choose|i: int| 0 <= i < front.len() && (#[trigger] front[i]).name == p.name;
                assert(ps[i] == front[i]);
            }
        }
        assert(t.scopes.drop_last() =~= r.scopes);
        assert forall|i: int| #![trigger ps[i]] 0 <= i < ps.len() implies {
            &&& t.scopes.last().dom().contains(ps[i].name)
            &&& t.scopes.last()[ps[i].name] == t.out.defs[n + i].id
            &&& t.out.defs[n + i].span == ps[i].name_span
            &&& t.out.defs[n + i].name == ps[i].name
            &&& t.out.defs[n + i].kind == DefKind::Parameter
        } by {
            if i < front.len() {
                assert(front[i] == ps[i]);
                assert(t.out.defs[n + i] == f.out.defs[n + i]);
            }
        }
        assert forall|k: Seq<char>| #[trigger] t.scopes.last().dom().contains(k) implies exists|i: int|
            0 <= i < ps.len() && (#[trigger] ps[i]).name == k by {
            if k != p.name {
                assert(f.scopes.last().dom().contains(k));
                let i = choose|i: int| 0 <= i < front.len() && (#[trigger] front[i]).name == k;
                assert(ps[i] == front[i]);
            }
        }
    }
}

/// A variable that no scope binds and that no import stands for is reported once,
/// at its place, and refers to nothing.
pub proof fn unknown_variables_are_reported(e: Env, r: State, name: Seq<char>, at: Span)
    requires
        scope::lookup(r.scopes, name) is None,
        !r.poisoned.contains(name),
        !r.import_symbols.dom().contains(name),
        !r.imports.dom().contains(name),
    ensures
        ({
            let t = scope::resolve_expr(e, r, ExprView::Var { path: seq![name], span: at });
            &&& t.out == r.out
            &&& t.diags.drop_last() == r.diags
            &&& t.diags.len() == r.diags.len() + 1
            &&& t.diags.last().severity == Severity::Error
            &&& t.diags.last().labels.len() == 1
            &&& t.diags.last().labels[0].span == at
        }),
{
    reveal(scope::resolve_expr);
    reveal(scope::use_path);
    let t = scope::resolve_expr(e, r, ExprView::Var { path: seq![name], span: at });
    assert(t.diags.drop_last() =~= r.diags);
}

/// An assignment is refused exactly where the name means nothing, a parameter or a
/// `val`. A parameter that is declared twice was reported before.
pub proof fn only_variables_are_assigned(r: State, name: Seq<char>, at: Span)
    ensures
        ({
            let t = scope::assign_to(r, name, at);
            let fixed = match scope::lookup(r.scopes, name) {
                None => true,
                Some(id) => !r.poisoned_params.contains(id.0) && (resolution::def_with_id(
                    r.out.defs,
                    id,
                ) matches Some(d) && (d.kind == DefKind::Parameter || d.binding == Some(
                    BindingKind::Val,
                ))),
            };
            &&& fixed ==> t.diags.len() == r.diags.len() + 1 && t.diags.last().severity
                == Severity::Error && t.diags.last().labels.len() == 1
                && t.diags.last().labels[0].span == at
            &&& !fixed ==> t.diags == r.diags
        }),
{
    reveal(scope::assign_to);
}

/// `break` and `continue` stand in the body of a loop without a report, and
/// nowhere else.
pub proof fn jumps_stand_in_loops(e: Env, r: State, condition: ExprView, span: Span, at: Span)
    ensures
        scope::resolve_stmt(
            e,
            r,
            StmtView::While { condition, body: seq![StmtView::Break { span: at }], span },
        ).diags == scope::resolve_expr(e, r, condition).diags,
        scope::resolve_stmt(
            e,
            r,
            StmtView::While { condition, body: seq![StmtView::Continue { span: at }], span },
        ).diags == scope::resolve_expr(e, r, condition).diags,
        !r.in_loop ==> scope::resolve_stmt(e, r, StmtView::Break { span: at }).diags.len()
            == r.diags.len() + 1,
        !r.in_loop ==> scope::resolve_stmt(e, r, StmtView::Continue { span: at }).diags.len()
            == r.diags.len() + 1,
{
    reveal_with_fuel(scope::resolve_stmt, 2);
    reveal(scope::resolve_body);
    let r1 = State { in_loop: true, ..scope::resolve_expr(e, r, condition) };
    one_statement(e, scope::enter(r1), StmtView::Break { span: at });
    one_statement(e, scope::enter(r1), StmtView::Continue { span: at });
}

proof fn no_statements(e: Env, r: State)
    ensures
        scope::resolve_stmts(e, r, Seq::empty()) == r,
{
    reveal(scope::resolve_stmts);
}

proof fn one_statement(e: Env, r: State, x: StmtView)
    ensures
        scope::resolve_stmts(e, r, seq![x]) == scope::resolve_stmt(e, r, x),
{
    no_statements(e, r);
    reveal(scope::resolve_stmts);
    reveal(scope::resolve_stmt);
    assert(seq![x].drop_last() =~= Seq::<StmtView>::empty());
}

/// A module is found by its path, and it is the first with that path.
pub proof fn modules_are_found_by_path(modules: Seq<ModuleSpecView>, path: Seq<Seq<char>>, i: int)
    requires
        0 <= i < modules.len(),
        modules[i].path == path,
        forall|j: int| 0 <= j < i ==> (#[trigger] modules[j]).path != path,
    ensures
        scope::module_at(modules, path) == Some(modules[i]),
    decreases modules.len(),
{
    let front = modules.drop_last();
    if i < front.len() {
        assert forall|j: int| 0 <= j < i implies (#[trigger] front[j]).path != path by {
            assert(front[j] == modules[j]);
        }
        modules_are_found_by_path(front, path, i);
    } else {
        no_module_is_found(front, path);
    }
}

proof fn no_module_is_found(modules: Seq<ModuleSpecView>, path: Seq<Seq<char>>)
    requires
        forall|j: int| 0 <= j < modules.len() ==> (#[trigger] modules[j]).path != path,
    ensures
        scope::module_at(modules, path) is None,
    decreases modules.len(),
{
    if modules.len() > 0 {
        let front = modules.drop_last();
        assert forall|j: int| 0 <= j < front.len() implies (#[trigger] front[j]).path != path by {
            assert(front[j] == modules[j]);
        }
        assert(modules.last() == modules[modules.len() - 1]);
        no_module_is_found(front, path);
    }
}

/// A name that is imported from a module, and that nothing else stands for, means
/// the module's function of that name, with its signature.
pub proof fn imported_names_are_meant(
    e: Env,
    r: State,
    path: Seq<Seq<char>>,
    name: Seq<char>,
    span: Span,
    at: Span,
    m: ModuleSpecView,
    x: crate::module::ExportView,
)
    requires
        scope::module_with_path(e.modules, scope::dotted(path)) == Some(m),
        scope::module_at(e.modules, m.path) == Some(m),
        scope::export_of(m, name) == Some(x),
        !crate::grammar::has_name(m.global_dependent_exports, name),
        !scope::alias_taken(r, name),
        scope::lookup(r.scopes, name) is None,
    ensures
        ({
            let t = scope::resolve_use(e, r, path, Some(seq![name]), span);
            let u = scope::resolve_expr(e, t, ExprView::Var { path: seq![name], span: at });
            let d = u.out.defs.last();
            &&& t.diags == r.diags
            &&& u.diags == r.diags
            &&& u.out.defs.drop_last() == r.out.defs
            &&& d.name == name
            &&& d.symbol == Some(SymbolView { module: m.path, name })
            &&& d.sig == Some(x.sig)
            &&& u.out.uses == r.out.uses.insert(crate::table::place_of(at), d.id)
        }),
{
    reveal(scope::resolve_use);
    reveal(scope::resolve_expr);
    reveal(scope::use_path);
    reveal_with_fuel(scope::import_names, 2);
    assert(seq![name].drop_last() =~= Seq::<Seq<char>>::empty());
    let t = scope::resolve_use(e, r, path, Some(seq![name]), span);
    assert(t == scope::import_symbol(r, name, m.path, span));
    let u = scope::resolve_expr(e, t, ExprView::Var { path: seq![name], span: at });
    assert(u.out.defs.drop_last() =~= r.out.defs);
}

/// The callee of a call by a name refers to what the name means.
pub proof fn callees_refer_to_what_is_meant(
    e: Env,
    r: State,
    name: Seq<char>,
    at: Span,
    type_args: Seq<TypeView>,
    type_args_span: Option<Span>,
)
    requires
        scope::lookup(r.scopes, name) is Some,
        name != "U64Array"@,
    ensures
        ({
            let t = scope::resolve_callee(e, r, seq![name], at, type_args, type_args_span);
            &&& t.out.uses == r.out.uses.insert(
                crate::table::place_of(at),
                scope::lookup(r.scopes, name)->0,
            )
            &&& t.out.defs == r.out.defs
            &&& t.diags == r.diags
        }),
{
    reveal(scope::resolve_callee);
    reveal(scope::use_member_callee);
    reveal(scope::use_path);
}

} // verus!
