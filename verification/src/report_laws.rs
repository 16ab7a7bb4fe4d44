//! What holds of every report about a text, about its names and about its
//! interface: it can be drawn.

use vstd::prelude::*;

use crate::ast::{
    BindingKind, DestructureBindingView, ExprView, FunctionDeclView, ItemView, MatchArmView,
    ParamView, ProgramView, StmtView,
};
use crate::diagnostic::DiagnosticView;
use crate::interface::{Collected, Rules};
use crate::module::{ModuleSpecView, ObjectExportView};
use crate::resolution::{DefId, DefView};
use crate::scope::{Env, State};
use crate::span::Span;
use crate::ty::TypeView;
use crate::{diagnostic, grammar, grammar_laws, interface, lex, places, resolution, scope};

verus! {

/// Whether the places of definitions start no later than they end.
pub open spec fn defs_placed(defs: Seq<DefView>) -> bool {
    forall|i: int| 0 <= i < defs.len() ==> (#[trigger] defs[i]).span.ordered()
}

/// Whether the places in a map start no later than they end.
pub open spec fn spans_placed(m: Map<Seq<char>, Span>) -> bool {
    forall|k: Seq<char>| #[trigger] m.dom().contains(k) ==> m[k].ordered()
}

/// Whether the reports of a state can be drawn, and whether a report about what
/// it holds could be.
pub open spec fn drawable(r: State) -> bool {
    &&& lex::all_ordered(r.diags)
    &&& spans_placed(r.import_spans)
    &&& defs_placed(r.out.defs)
}

broadcast proof fn plain_ordered(message: Seq<char>)
    ensures
        #[trigger] diagnostic::error_view(message).ordered(),
{
}

broadcast proof fn label_ordered(d: DiagnosticView, span: Span, message: Seq<char>)
    requires
        d.ordered(),
        span.ordered(),
    ensures
        #[trigger] d.label(span, message).ordered(),
{
}

broadcast proof fn bare_label_ordered(d: DiagnosticView, span: Span)
    requires
        d.ordered(),
        span.ordered(),
    ensures
        #[trigger] d.bare_label(span).ordered(),
{
}

broadcast proof fn noted_ordered(d: DiagnosticView, note: Seq<char>)
    requires
        d.ordered(),
    ensures
        #[trigger] d.noted(note).ordered(),
{
}

broadcast proof fn coded_ordered(d: DiagnosticView, code: Seq<char>)
    requires
        d.ordered(),
    ensures
        #[trigger] d.coded(code).ordered(),
{
}

broadcast proof fn reporting_draws(r: State, d: DiagnosticView)
    requires
        drawable(r),
        d.ordered(),
    ensures
        #[trigger] drawable(scope::report(r, d)),
{
}

broadcast group group_reports {
    plain_ordered,
    label_ordered,
    bare_label_ordered,
    noted_ordered,
    coded_ordered,
    reporting_draws,
}

proof fn found_is_placed(defs: Seq<DefView>, id: DefId)
    requires
        defs_placed(defs),
    ensures
        resolution::def_with_id(defs, id) matches Some(d) ==> d.span.ordered(),
    decreases defs.len(),
{
    if defs.len() > 0 {
        assert forall|i: int| 0 <= i < defs.drop_last().len() implies (
        #[trigger] defs.drop_last()[i]).span.ordered() by {
            assert(defs.drop_last()[i] == defs[i]);
        }
        found_is_placed(defs.drop_last(), id);
        assert(defs.last() == defs[defs.len() - 1]);
    }
}

proof fn declare_local_draws(r: State, name: Seq<char>, span: Span, binding: BindingKind)
    requires
        drawable(r),
        span.ordered(),
    ensures
        drawable(scope::declare_local(r, name, span, binding)),
{
    broadcast use group_reports;

}

proof fn declare_global_draws(
    r: State,
    name: Seq<char>,
    span: Span,
    binding: Option<BindingKind>,
)
    requires
        drawable(r),
        span.ordered(),
    ensures
        drawable(scope::declare_global(r, name, span, binding)),
{
    broadcast use group_reports;

    found_is_placed(r.out.defs, r.scopes[0][name]);
}

// ---------------------------------------------------------------------------
// Imports
// ---------------------------------------------------------------------------

broadcast proof fn poisoning_draws(r: State, alias: Seq<char>, span: Span)
    requires
        drawable(r),
        span.ordered(),
    ensures
        #[trigger] drawable(scope::poison_import(r, alias, span)),
{
}

broadcast proof fn alias_again_draws(r: State, alias: Seq<char>, span: Span)
    requires
        drawable(r),
        span.ordered(),
    ensures
        #[trigger] drawable(scope::alias_again(r, alias, span)),
{
    broadcast use group_reports;

}

proof fn import_name_draws(
    r: State,
    m: ModuleSpecView,
    key: Seq<char>,
    name: Seq<char>,
    span: Span,
)
    requires
        drawable(r),
        span.ordered(),
    ensures
        drawable(scope::import_name(r, m, key, name, span)),
{
    broadcast use {group_reports, poisoning_draws, alias_again_draws};

}

proof fn import_names_draw(
    r: State,
    m: ModuleSpecView,
    key: Seq<char>,
    names: Seq<Seq<char>>,
    span: Span,
)
    requires
        drawable(r),
        span.ordered(),
    ensures
        drawable(scope::import_names(r, m, key, names, span)),
    decreases names.len(),
{
    if names.len() > 0 {
        import_names_draw(r, m, key, names.drop_last(), span);
        import_name_draws(
            scope::import_names(r, m, key, names.drop_last(), span),
            m,
            key,
            names.last(),
            span,
        );
    }
}

proof fn fail_aliases_draw(r: State, names: Seq<Seq<char>>, span: Span)
    requires
        drawable(r),
        span.ordered(),
    ensures
        drawable(scope::fail_aliases(r, names, span)),
    decreases names.len(),
{
    broadcast use {poisoning_draws, alias_again_draws};

    if names.len() > 0 {
        fail_aliases_draw(r, names.drop_last(), span);
    }
}

proof fn import_leaf_draws(
    r: State,
    parent: ModuleSpecView,
    parent_key: Seq<char>,
    leaf: Seq<char>,
    key: Seq<char>,
    span: Span,
)
    requires
        drawable(r),
        span.ordered(),
    ensures
        drawable(scope::import_leaf(r, parent, parent_key, leaf, key, span)),
{
    broadcast use {group_reports, poisoning_draws, alias_again_draws};

}

proof fn resolve_use_draws(
    e: Env,
    r: State,
    path: Seq<Seq<char>>,
    names: Option<Seq<Seq<char>>>,
    span: Span,
)
    requires
        drawable(r),
        span.ordered(),
    ensures
        drawable(scope::resolve_use(e, r, path, names, span)),
{
    broadcast use {group_reports, poisoning_draws, alias_again_draws};

    reveal(scope::resolve_use);
    let key = scope::dotted(path);
    let parent_key = scope::dotted(path.drop_last());
    match scope::module_with_path(e.modules, parent_key) {
        Some(p) => import_leaf_draws(r, p, parent_key, path.last(), key, span),
        None => {},
    }
    match names {
        Some(ns) => {
            fail_aliases_draw(r, ns, span);
            match scope::module_with_path(e.modules, key) {
                Some(m) => import_names_draw(r, m, key, ns, span),
                None => {},
            }
        },
        None => {},
    }
}

proof fn resolve_uses_draw(end: nat, e: Env, r: State, items: Seq<ItemView>)
    requires
        drawable(r),
        places::items_placed(end, items),
    ensures
        drawable(scope::resolve_uses(e, r, items)),
    decreases items.len(),
{
    if items.len() > 0 {
        let front = items.drop_last();
        fewer_placed(end, items);
        resolve_uses_draw(end, e, r, front);
        match items.last() {
            ItemView::Use { path, names, span } => resolve_use_draws(
                e,
                scope::resolve_uses(e, r, front),
                path,
                names,
                span,
            ),
            _ => {},
        }
    }
}

// ---------------------------------------------------------------------------
// Paths and callees
// ---------------------------------------------------------------------------

proof fn use_path_draws(e: Env, r: State, path: Seq<Seq<char>>, span: Span)
    requires
        drawable(r),
        span.ordered(),
    ensures
        scope::use_path(e, r, path, span) matches Some(t) ==> drawable(t),
{
    broadcast use group_reports;

    reveal(scope::use_path);
}

proof fn use_imported_method_draws(
    r: State,
    m: ModuleSpecView,
    object: ObjectExportView,
    shown: Seq<char>,
    method: Seq<char>,
    key: Seq<char>,
    full: Seq<char>,
    span: Span,
)
    requires
        drawable(r),
        span.ordered(),
    ensures
        drawable(scope::use_imported_method(r, m, object, shown, method, key, full, span)),
{
    broadcast use group_reports;

}

proof fn use_qualified_method_draws(
    modules: Seq<ModuleSpecView>,
    r: State,
    owner: Seq<char>,
    method: Seq<char>,
    full: Seq<char>,
    span: Span,
)
    requires
        drawable(r),
        span.ordered(),
    ensures
        scope::use_qualified_method(modules, r, owner, method, full, span) matches Some(t)
            ==> drawable(t),
    decreases modules.len(),
{
    if modules.len() > 0 {
        use_qualified_method_draws(modules.drop_last(), r, owner, method, full, span);
        match scope::object_qualified(modules.last().objects, owner) {
            Some(o) => use_imported_method_draws(
                r,
                modules.last(),
                o,
                owner,
                method,
                scope::member(o.name, method),
                full,
                span,
            ),
            None => {},
        }
    }
}

proof fn use_alias_method_draws(
    r: State,
    m: ModuleSpecView,
    object: Seq<char>,
    method: Seq<char>,
    full: Seq<char>,
    span: Span,
)
    requires
        drawable(r),
        span.ordered(),
    ensures
        drawable(scope::use_alias_method(r, m, object, method, full, span)),
{
    broadcast use group_reports;

    match scope::object_named(m.objects, object) {
        Some(o) => use_imported_method_draws(
            r,
            m,
            o,
            o.qualified,
            method,
            scope::member(object, method),
            full,
            span,
        ),
        None => {},
    }
}

proof fn use_member_callee_draws(e: Env, r: State, callee: Seq<Seq<char>>, span: Span)
    requires
        drawable(r),
        span.ordered(),
    ensures
        scope::use_member_callee(e, r, callee, span) matches Some(t) ==> drawable(t),
{
    broadcast use group_reports;

    reveal(scope::use_member_callee);
    let full = scope::dotted(callee);
    if callee.len() >= 2 {
        if callee.len() == 3 {
            use_alias_method_draws(r, r.imports[callee[0]], callee[1], callee[2], full, span);
        }
        let owner = scope::dotted(callee.drop_last());
        use_qualified_method_draws(e.modules, r, owner, callee.last(), full, span);
    }
}

proof fn resolve_callee_draws(
    e: Env,
    r: State,
    callee: Seq<Seq<char>>,
    span: Span,
    type_args: Seq<TypeView>,
    type_args_span: Option<Span>,
)
    requires
        drawable(r),
        span.ordered(),
        places::maybe_ordered(type_args_span),
    ensures
        drawable(scope::resolve_callee(e, r, callee, span, type_args, type_args_span)),
{
    broadcast use group_reports;

    reveal(scope::resolve_callee);
    use_member_callee_draws(e, r, callee, span);
    use_path_draws(e, r, callee, span);
}

// ---------------------------------------------------------------------------
// Expressions and statements
// ---------------------------------------------------------------------------

proof fn expr_draws(end: nat, e: Env, r: State, x: ExprView)
    requires
        drawable(r),
        places::expr_placed(end, x),
    ensures
        drawable(scope::resolve_expr(e, r, x)),
    decreases x,
{
    broadcast use group_reports;

    reveal(places::expr_placed);
    reveal(places::exprs_placed);
    reveal(places::named_placed);
    reveal(places::elems_placed);
    reveal(scope::resolve_expr);
    reveal(scope::resolve_exprs);
    reveal(scope::resolve_named);
    reveal(scope::resolve_elems);
    match x {
        ExprView::Literal(..) | ExprView::String(..) | ExprView::Null(..) => {},
        ExprView::ObjectLiteral { fields, .. } => named_draw(end, e, r, fields),
        ExprView::ArrayLiteral { elems, .. } => exprs_draw(end, e, r, elems),
        ExprView::TupleLiteral { elems, .. } => elems_draw(end, e, r, elems),
        ExprView::TupleIndex { base, .. } => expr_draws(end, e, r, *base),
        ExprView::Index { base, index, .. } => {
            expr_draws(end, e, r, *base);
            expr_draws(end, e, scope::resolve_expr(e, r, *base), *index);
        },
        ExprView::Field { base, name, span } => {
            if scope::field_union(e, r, *base) is None {
                expr_draws(end, e, r, *base);
            }
        },
        ExprView::Var { path, span } => use_path_draws(e, r, path, span),
        ExprView::Call { callee, callee_span, type_args, type_args_span, args, .. } => {
            resolve_callee_draws(e, r, callee, callee_span, type_args, type_args_span);
            let r1 = scope::resolve_callee(
                e,
                r,
                callee,
                callee_span,
                type_args,
                type_args_span,
            );
            exprs_draw(end, e, r1, args);
        },
        ExprView::Unary { rhs, .. } => expr_draws(end, e, r, *rhs),
        ExprView::Binary { lhs, rhs, .. } => {
            expr_draws(end, e, r, *lhs);
            expr_draws(end, e, scope::resolve_expr(e, r, *lhs), *rhs);
        },
        ExprView::Cast { inner, .. } => expr_draws(end, e, r, *inner),
    }
}

proof fn exprs_draw(end: nat, e: Env, r: State, xs: Seq<ExprView>)
    requires
        drawable(r),
        places::exprs_placed(end, xs),
    ensures
        drawable(scope::resolve_exprs(e, r, xs)),
    decreases xs,
{
    reveal(scope::resolve_expr);
    reveal(scope::resolve_exprs);
    if xs.len() > 0 {
        assert(xs.drop_last().push(xs.last()) =~= xs);
        places::exprs_placed_push(end, xs.drop_last(), xs.last());
        exprs_draw(end, e, r, xs.drop_last());
        expr_draws(end, e, scope::resolve_exprs(e, r, xs.drop_last()), xs.last());
    }
}

proof fn named_draw(end: nat, e: Env, r: State, xs: Seq<(Seq<char>, Span, ExprView)>)
    requires
        drawable(r),
        places::named_placed(end, xs),
    ensures
        drawable(scope::resolve_named(e, r, xs)),
    decreases xs,
{
    reveal(scope::resolve_expr);
    reveal(scope::resolve_named);
    if xs.len() > 0 {
        assert(xs.drop_last().push(xs.last()) =~= xs);
        places::named_placed_push(end, xs.drop_last(), xs.last());
        named_draw(end, e, r, xs.drop_last());
        expr_draws(end, e, scope::resolve_named(e, r, xs.drop_last()), xs.last().2);
    }
}

proof fn elems_draw(end: nat, e: Env, r: State, xs: Seq<(Option<Seq<char>>, Span, ExprView)>)
    requires
        drawable(r),
        places::elems_placed(end, xs),
    ensures
        drawable(scope::resolve_elems(e, r, xs)),
    decreases xs,
{
    reveal(scope::resolve_expr);
    reveal(scope::resolve_elems);
    if xs.len() > 0 {
        assert(xs.drop_last().push(xs.last()) =~= xs);
        places::elems_placed_push(end, xs.drop_last(), xs.last());
        elems_draw(end, e, r, xs.drop_last());
        expr_draws(end, e, scope::resolve_elems(e, r, xs.drop_last()), xs.last().2);
    }
}

proof fn assign_draws(r: State, name: Seq<char>, span: Span)
    requires
        drawable(r),
        span.ordered(),
    ensures
        drawable(scope::assign_to(r, name, span)),
{
    broadcast use group_reports;

    reveal(scope::assign_to);
}

proof fn declare_fields_draw(r: State, bs: Seq<DestructureBindingView>, kind: BindingKind)
    requires
        drawable(r),
        places::bindings_placed(bs),
    ensures
        drawable(scope::declare_fields(r, bs, kind)),
    decreases bs.len(),
{
    if bs.len() > 0 {
        let b = bs[bs.len() - 1];
        declare_fields_draw(r, bs.drop_last(), kind);
        declare_local_draws(
            scope::declare_fields(r, bs.drop_last(), kind),
            b.binding,
            b.binding_span,
            kind,
        );
    }
}

proof fn declare_names_draw(r: State, names: Seq<(Seq<char>, Span)>)
    requires
        drawable(r),
        places::names_placed(names),
    ensures
        drawable(scope::declare_names(r, names)),
    decreases names.len(),
{
    if names.len() > 0 {
        let n = names[names.len() - 1];
        declare_names_draw(r, names.drop_last());
        declare_local_draws(
            scope::declare_names(r, names.drop_last()),
            n.0,
            n.1,
            BindingKind::Val,
        );
    }
}

proof fn pattern_draws(e: Env, r: State, path: Seq<Seq<char>>, span: Span)
    requires
        drawable(r),
        span.ordered(),
    ensures
        drawable(scope::resolve_pattern(e, r, path, span)),
{
    broadcast use group_reports;

    reveal(scope::resolve_pattern);
}

proof fn stmt_draws(end: nat, e: Env, r: State, x: StmtView)
    requires
        drawable(r),
        places::stmt_placed(end, x),
    ensures
        drawable(scope::resolve_stmt(e, r, x)),
    decreases x,
{
    broadcast use group_reports;

    reveal(places::stmt_placed);
    reveal(places::stmts_placed);
    reveal(places::arms_placed);
    reveal(scope::resolve_stmt);
    reveal(scope::resolve_stmts);
    reveal(scope::resolve_body);
    reveal(scope::resolve_arms);
    match x {
        StmtView::Let { name, name_span, kind, value, .. } => {
            expr_draws(end, e, r, value);
            declare_local_draws(scope::resolve_expr(e, r, value), name, name_span, kind);
        },
        StmtView::Assign { name, name_span, value, .. } => {
            expr_draws(end, e, r, value);
            assign_draws(scope::resolve_expr(e, r, value), name, name_span);
        },
        StmtView::IndexAssign { array, index, value, .. } => {
            expr_draws(end, e, r, *array);
            let r1 = scope::resolve_expr(e, r, *array);
            expr_draws(end, e, r1, *index);
            expr_draws(end, e, scope::resolve_expr(e, r1, *index), *value);
        },
        StmtView::FieldAssign { base, value, .. } => {
            expr_draws(end, e, r, *base);
            expr_draws(end, e, scope::resolve_expr(e, r, *base), *value);
        },
        StmtView::TupleAssign { base, value, .. } => {
            expr_draws(end, e, r, *base);
            expr_draws(end, e, scope::resolve_expr(e, r, *base), *value);
        },
        StmtView::Destructure { bindings, kind, value, .. } => {
            expr_draws(end, e, r, value);
            declare_fields_draw(scope::resolve_expr(e, r, value), bindings, kind);
        },
        StmtView::Expr(value) => expr_draws(end, e, r, value),
        StmtView::Return { value, .. } => {
            match value {
                Some(v) => expr_draws(end, e, r, v),
                None => {},
            }
        },
        StmtView::Break { .. } => {},
        StmtView::Continue { .. } => {},
        StmtView::While { condition, body, .. } => {
            expr_draws(end, e, r, condition);
            let r1 = scope::resolve_expr(e, r, condition);
            body_draws(end, e, State { in_loop: true, ..r1 }, body);
        },
        StmtView::If { condition, then_body, else_body, .. } => {
            expr_draws(end, e, r, condition);
            let r1 = scope::resolve_expr(e, r, condition);
            body_draws(end, e, r1, then_body);
            match else_body {
                Some(body) => body_draws(end, e, scope::resolve_body(e, r1, then_body), body),
                None => {},
            }
        },
        StmtView::Match { scrutinee, arms, else_body, .. } => {
            expr_draws(end, e, r, scrutinee);
            let r1 = scope::resolve_expr(e, r, scrutinee);
            arms_draw(end, e, r1, arms);
            match else_body {
                Some(body) => body_draws(end, e, scope::resolve_arms(e, r1, arms), body),
                None => {},
            }
        },
    }
}

proof fn stmts_draw(end: nat, e: Env, r: State, xs: Seq<StmtView>)
    requires
        drawable(r),
        places::stmts_placed(end, xs),
    ensures
        drawable(scope::resolve_stmts(e, r, xs)),
    decreases xs, 0nat,
{
    reveal(scope::resolve_stmt);
    reveal(scope::resolve_stmts);
    if xs.len() > 0 {
        assert(xs.drop_last().push(xs.last()) =~= xs);
        places::stmts_placed_push(end, xs.drop_last(), xs.last());
        stmts_draw(end, e, r, xs.drop_last());
        stmt_draws(end, e, scope::resolve_stmts(e, r, xs.drop_last()), xs.last());
    }
}

proof fn body_draws(end: nat, e: Env, r: State, xs: Seq<StmtView>)
    requires
        drawable(r),
        places::stmts_placed(end, xs),
    ensures
        drawable(scope::resolve_body(e, r, xs)),
    decreases xs, 1nat,
{
    reveal(scope::resolve_stmts);
    reveal(scope::resolve_body);
    stmts_draw(end, e, scope::enter(r), xs);
}

proof fn arms_draw(end: nat, e: Env, r: State, arms: Seq<MatchArmView>)
    requires
        drawable(r),
        places::arms_placed(end, arms),
    ensures
        drawable(scope::resolve_arms(e, r, arms)),
    decreases arms,
{
    reveal(scope::resolve_stmts);
    reveal(scope::resolve_arms);
    if arms.len() > 0 {
        let arm = arms.last();
        assert(arms.drop_last().push(arm) =~= arms);
        places::arms_placed_push(end, arms.drop_last(), arm);
        arms_draw(end, e, r, arms.drop_last());
        let r0 = scope::resolve_arms(e, r, arms.drop_last());
        pattern_draws(e, r0, arm.path, arm.path_span);
        let r1 = scope::enter(scope::resolve_pattern(e, r0, arm.path, arm.path_span));
        declare_names_draw(r1, arm.bindings);
        stmts_draw(end, e, scope::declare_names(r1, arm.bindings), arm.body);
    }
}

// ---------------------------------------------------------------------------
// Programs
// ---------------------------------------------------------------------------

proof fn declare_params_draw(r: State, ps: Seq<ParamView>)
    requires
        drawable(r),
        places::params_placed(ps),
    ensures
        drawable(scope::declare_params(r, ps)),
    decreases ps.len(),
{
    broadcast use group_reports;

    if ps.len() > 0 {
        let p = ps[ps.len() - 1];
        declare_params_draw(r, ps.drop_last());
        let r1 = scope::declare_params(r, ps.drop_last());
        assert(p.name_span.ordered());
        found_is_placed(r1.out.defs, r1.scopes.last()[p.name]);
    }
}

proof fn function_draws(end: nat, e: Env, r: State, ps: Seq<ParamView>, body: Seq<StmtView>)
    requires
        drawable(r),
        places::params_placed(ps),
        places::stmts_placed(end, body),
    ensures
        drawable(scope::resolve_fn(e, r, ps, body)),
{
    declare_params_draw(scope::enter(r), ps);
    stmts_draw(end, e, scope::declare_params(scope::enter(r), ps), body);
}

proof fn methods_draw(end: nat, e: Env, r: State, ms: Seq<FunctionDeclView>)
    requires
        drawable(r),
        places::functions_placed(end, ms),
    ensures
        drawable(scope::resolve_methods(e, r, ms)),
    decreases ms.len(),
{
    if ms.len() > 0 {
        let m = ms[ms.len() - 1];
        assert(places::function_placed(end, m));
        methods_draw(end, e, r, ms.drop_last());
        function_draws(end, e, scope::resolve_methods(e, r, ms.drop_last()), m.params, m.body);
    }
}

proof fn declare_methods_draw(end: nat, e: Env, r: State, owner: Seq<char>, ms: Seq<FunctionDeclView>)
    requires
        drawable(r),
        places::functions_placed(end, ms),
    ensures
        drawable(scope::declare_methods(e, r, owner, ms).1),
    decreases ms.len(),
{
    if ms.len() > 0 {
        assert(places::function_placed(end, ms[ms.len() - 1]));
        declare_methods_draw(end, e, r, owner, ms.drop_last());
    }
}

proof fn fewer_placed(end: nat, items: Seq<ItemView>)
    requires
        places::items_placed(end, items),
        items.len() > 0,
    ensures
        places::items_placed(end, items.drop_last()),
        places::item_placed(end, items.last()),
{
    let front = items.drop_last();
    assert forall|i: int| 0 <= i < front.len() implies places::item_placed(end, #[trigger] front[i]) by {
        assert(front[i] == items[i]);
    }
    assert(places::item_placed(end, items[items.len() - 1]));
}

proof fn type_spans_are_placed(end: nat, items: Seq<ItemView>)
    requires
        places::items_placed(end, items),
    ensures
        spans_placed(scope::type_spans(items)),
    decreases items.len(),
{
    if items.len() > 0 {
        fewer_placed(end, items);
        type_spans_are_placed(end, items.drop_last());
    }
}

proof fn duplicate_types_draw(end: nat, r: State, items: Seq<ItemView>)
    requires
        drawable(r),
        places::items_placed(end, items),
    ensures
        drawable(scope::report_duplicate_types(r, items)),
    decreases items.len(),
{
    broadcast use group_reports;

    if items.len() > 0 {
        fewer_placed(end, items);
        type_spans_are_placed(end, items.drop_last());
        duplicate_types_draw(end, r, items.drop_last());
    }
}

proof fn declare_types_draw(end: nat, e: Env, r: State, items: Seq<ItemView>)
    requires
        drawable(r),
        places::items_placed(end, items),
    ensures
        drawable(scope::declare_types(e, r, items).1),
    decreases items.len(),
{
    if items.len() > 0 {
        fewer_placed(end, items);
        declare_types_draw(end, e, r, items.drop_last());
        let (e1, r1) = scope::declare_types(e, r, items.drop_last());
        match items.last() {
            ItemView::Object { name, fields, methods, .. } => {
                let e2 = Env {
                    local_objects: e1.local_objects.insert(name),
                    local_fields: if e1.local_fields.dom().contains(name) {
                        e1.local_fields
                    } else {
                        e1.local_fields.insert(name, grammar::field_names(fields))
                    },
                    ..e1
                };
                declare_methods_draw(end, e2, r1, name, methods);
            },
            _ => {},
        }
    }
}

proof fn declare_global_fields_draw(
    r: State,
    bs: Seq<DestructureBindingView>,
    kind: BindingKind,
)
    requires
        drawable(r),
        places::bindings_placed(bs),
    ensures
        drawable(scope::declare_global_fields(r, bs, kind)),
    decreases bs.len(),
{
    if bs.len() > 0 {
        let b = bs[bs.len() - 1];
        declare_global_fields_draw(r, bs.drop_last(), kind);
        declare_global_draws(
            scope::declare_global_fields(r, bs.drop_last(), kind),
            b.binding,
            b.binding_span,
            Some(kind),
        );
    }
}

proof fn declare_globals_draw(end: nat, r: State, items: Seq<ItemView>)
    requires
        drawable(r),
        places::items_placed(end, items),
    ensures
        drawable(scope::declare_globals(r, items)),
    decreases items.len(),
{
    if items.len() > 0 {
        fewer_placed(end, items);
        declare_globals_draw(end, r, items.drop_last());
        let r1 = scope::declare_globals(r, items.drop_last());
        match items.last() {
            ItemView::Let { name, name_span, kind, .. } => declare_global_draws(
                r1,
                name,
                name_span,
                Some(kind),
            ),
            ItemView::Destructure { bindings, kind, .. } => declare_global_fields_draw(
                r1,
                bindings,
                kind,
            ),
            ItemView::Function { name, name_span, .. } => declare_global_draws(
                r1,
                name,
                name_span,
                None,
            ),
            _ => {},
        }
    }
}

proof fn bodies_draw(end: nat, e: Env, r: State, items: Seq<ItemView>)
    requires
        drawable(r),
        places::items_placed(end, items),
    ensures
        drawable(scope::resolve_bodies(e, r, items)),
    decreases items.len(),
{
    if items.len() > 0 {
        fewer_placed(end, items);
        bodies_draw(end, e, r, items.drop_last());
        let r1 = scope::resolve_bodies(e, r, items.drop_last());
        match items.last() {
            ItemView::Object { methods, .. } => methods_draw(end, e, r1, methods),
            ItemView::Let { value, .. } => expr_draws(end, e, r1, value),
            ItemView::Destructure { value, .. } => expr_draws(end, e, r1, value),
            ItemView::Function { params, body, .. } => function_draws(end, e, r1, params, body),
            _ => {},
        }
    }
}

/// Every report about the names of a program whose places start no later than
/// they end can be drawn, and every definition in it stands at such a place.
pub proof fn resolve_reports_are_ordered(end: nat, prog: ProgramView, modules: Seq<ModuleSpecView>)
    requires
        places::items_placed(end, prog.items),
    ensures
        lex::all_ordered(scope::resolved(prog, modules).1),
        defs_placed(scope::resolved(prog, modules).0.defs),
{
    let e = scope::initial_env(prog, modules);
    let r0 = scope::initial_state();
    resolve_uses_draw(end, e, r0, prog.items);
    duplicate_types_draw(end, scope::resolve_uses(e, r0, prog.items), prog.items);
    let r1 = scope::report_duplicate_types(scope::resolve_uses(e, r0, prog.items), prog.items);
    declare_types_draw(end, e, r1, prog.items);
    let (e2, r2) = scope::declare_types(e, r1, prog.items);
    declare_globals_draw(end, r2, prog.items);
    bodies_draw(end, e2, scope::declare_globals(r2, prog.items), prog.items);
}

// ---------------------------------------------------------------------------
// Interfaces
// ---------------------------------------------------------------------------

/// Whether the reports about an interface can be drawn, and whether a report
/// about what was seen could be.
spec fn collection_drawable(c: Collected) -> bool {
    lex::all_ordered(c.diags) && spans_placed(c.seen)
}

proof fn collect_methods_draw(end: nat, u: Rules,
    c: Collected,
    owner: Seq<char>,
    ms: Seq<FunctionDeclView>,
)
    requires
        collection_drawable(c),
        places::functions_placed(end, ms),
    ensures
        collection_drawable(interface::collect_methods(u, c, owner, ms).0),
    decreases ms.len(),
{
    broadcast use group_reports;

    if ms.len() > 0 {
        let m = ms[ms.len() - 1];
        assert(places::function_placed(end, m));
        collect_methods_draw(end, u, c, owner, ms.drop_last());
        let key = scope::member(owner, m.name);
        assert(interface::incomplete_report(
            "associated function"@,
            key,
            m.name_span,
        ).ordered());
    }
}

proof fn collect_types_draw(end: nat, u: Rules, c: Collected, items: Seq<ItemView>)
    requires
        collection_drawable(c),
        places::items_placed(end, items),
    ensures
        collection_drawable(interface::collect_types(u, c, items)),
    decreases items.len(),
{
    if items.len() > 0 {
        fewer_placed(end, items);
        collect_types_draw(end, u, c, items.drop_last());
        let c1 = interface::collect_types(u, c, items.drop_last());
        match items.last() {
            ItemView::Object { name, methods, .. } => collect_methods_draw(end, u, c1, name, methods),
            _ => {},
        }
    }
}

proof fn collect_function_draws(end: nat, u: Rules, c: Collected, f: FunctionDeclView)
    requires
        collection_drawable(c),
        places::function_placed(end, f),
    ensures
        collection_drawable(interface::collect_function(u, c, f)),
{
    broadcast use group_reports;

    assert(interface::incomplete_report("function"@, f.name, f.span).ordered());
}

proof fn collect_functions_draw(end: nat, u: Rules, c: Collected, items: Seq<ItemView>)
    requires
        collection_drawable(c),
        places::items_placed(end, items),
    ensures
        collection_drawable(interface::collect_functions(u, c, items)),
    decreases items.len(),
{
    if items.len() > 0 {
        fewer_placed(end, items);
        collect_functions_draw(end, u, c, items.drop_last());
        match items.last() {
            ItemView::Function {
                name,
                name_span,
                type_params,
                params,
                ret,
                ret_span,
                body,
                signature_poisoned,
                span,
            } => collect_function_draws(
                end,
                u,
                interface::collect_functions(u, c, items.drop_last()),
                FunctionDeclView {
                    name,
                    name_span,
                    type_params,
                    params,
                    ret,
                    ret_span,
                    body,
                    signature_poisoned,
                    span,
                },
            ),
            _ => {},
        }
    }
}

/// Every report about the interface of a program whose places start no later
/// than they end can be drawn.
pub proof fn interface_reports_are_ordered(end: nat, prog: ProgramView, diagnose: bool)
    requires
        places::items_placed(end, prog.items),
    ensures
        lex::all_ordered(interface::collected(prog, diagnose).1),
{
    let u = interface::rules_for(prog, diagnose);
    let c = interface::nothing_collected();
    collect_types_draw(end, u, c, prog.items);
    collect_functions_draw(end, u, interface::collect_types(u, c, prog.items), prog.items);
}

// ---------------------------------------------------------------------------
// From a text to its reports
// ---------------------------------------------------------------------------

/// Everything that is reported about a text, by the lexer, by the parser, about
/// its names or about its interface, can be drawn.
pub proof fn reports_can_be_drawn(
    text: Seq<char>,
    module: Seq<char>,
    modules: Seq<ModuleSpecView>,
    diagnose: bool,
)
    requires
        vstd::utf8::encode_utf8(text).len() <= usize::MAX,
    ensures
        lex::all_ordered(lex::lexed(text).1),
        lex::all_ordered(grammar::parsed(lex::lexed(text).0, module).1),
        lex::all_ordered(
            scope::resolved(grammar::parsed(lex::lexed(text).0, module).0, modules).1,
        ),
        lex::all_ordered(
            interface::collected(grammar::parsed(lex::lexed(text).0, module).0, diagnose).1,
        ),
{
    lex::tokens_are_sound(text);
    grammar_laws::lexed_tokens_are_in_order(text);
    grammar_laws::parse_reports_are_ordered(lex::lexed(text).0, module);
    let prog = grammar::parsed(lex::lexed(text).0, module).0;
    let end = grammar_laws::limit(lex::lexed(text).0);
    resolve_reports_are_ordered(end, prog, modules);
    interface_reports_are_ordered(end, prog, diagnose);
}

} // verus!
