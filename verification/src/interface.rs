//! Module interfaces: what a module exports, and which of its functions depend
//! on its globals and so cannot be used from elsewhere.

use vstd::prelude::*;

use crate::ast::{
    DestructureBinding, DestructureBindingView, Expr, ExprView, FunctionDecl, FunctionDeclView, Item,
    ItemView, MatchArm, MatchArmView, ObjectField, Param, ParamView, Program, ProgramView, Stmt,
    StmtView, TypeParam, TypeParamView, UnionVariant, UnionVariantView,
};
use crate::diagnostic::{error_view, Diagnostic, DiagnosticView};
use crate::module::{
    Export, ExportKind, ExportView, FuncSig, FuncSigView, ModuleInterface, ModuleInterfaceView,
    ModuleOrigin, ModulePath, ObjectExport, ObjectExportView, ObjectFieldSig, ParamSig,
    ParamSigView, TypeParamSig, TypeParamSigView, UnionExport, UnionExportView, UnionVariantSig,
    UnionVariantSigView,
};
use crate::parser::has_name;
use crate::resolver::{dotted, member};
use crate::span::Span;
use crate::table::{NameSet, Table};
use crate::text::{cat3, chars_of, str_eq};
use crate::ty::{TupleField, TypeView, VlType};
use crate::diagnostic::clone_opt;
use crate::{ast, grammar, model, module, scope, ty};

verus! {

broadcast use {crate::model::group_model, crate::ast::group_ast};

// ---------------------------------------------------------------------------
// Calls
// ---------------------------------------------------------------------------

/// The callees of the calls in an expression, in order.
pub open spec fn expr_calls(x: ExprView) -> Seq<Seq<char>>
    decreases x,
{
    match x {
        ExprView::Call { callee, args, .. } => if callee.len() >= 1 {
            seq![scope::dotted(callee)] + exprs_calls(args)
        } else {
            exprs_calls(args)
        },
        ExprView::ArrayLiteral { elems, .. } => exprs_calls(elems),
        ExprView::ObjectLiteral { fields, .. } => named_calls(fields),
        ExprView::TupleLiteral { elems, .. } => elems_calls(elems),
        ExprView::TupleIndex { base, .. } => expr_calls(*base),
        ExprView::Index { base, index, .. } => expr_calls(*base) + expr_calls(*index),
        ExprView::Field { base, .. } => expr_calls(*base),
        ExprView::Unary { rhs, .. } => expr_calls(*rhs),
        ExprView::Cast { inner, .. } => expr_calls(*inner),
        ExprView::Binary { lhs, rhs, .. } => expr_calls(*lhs) + expr_calls(*rhs),
        ExprView::Literal(..) | ExprView::String(..) | ExprView::Null(..) => Seq::empty(),
        ExprView::Var { .. } => Seq::empty(),
    }
}

/// The callees of the calls in expressions, in order.
pub open spec fn exprs_calls(xs: Seq<ExprView>) -> Seq<Seq<char>>
    decreases xs,
{
    if xs.len() == 0 {
        Seq::empty()
    } else {
        exprs_calls(xs.drop_last()) + expr_calls(xs.last())
    }
}

/// The callees of the calls in the values of fields, in order.
pub open spec fn named_calls(xs: Seq<(Seq<char>, Span, ExprView)>) -> Seq<Seq<char>>
    decreases xs,
{
    if xs.len() == 0 {
        Seq::empty()
    } else {
        named_calls(xs.drop_last()) + expr_calls(xs.last().2)
    }
}

/// The callees of the calls in the elements of a tuple, in order.
pub open spec fn elems_calls(xs: Seq<(Option<Seq<char>>, Span, ExprView)>) -> Seq<Seq<char>>
    decreases xs,
{
    if xs.len() == 0 {
        Seq::empty()
    } else {
        elems_calls(xs.drop_last()) + expr_calls(xs.last().2)
    }
}

/// The callees of the calls in a statement, in order.
pub open spec fn stmt_calls(x: StmtView) -> Seq<Seq<char>>
    decreases x,
{
    match x {
        StmtView::Let { value, .. } => expr_calls(value),
        StmtView::Assign { value, .. } => expr_calls(value),
        StmtView::Expr(value) => expr_calls(value),
        StmtView::IndexAssign { array, index, value, .. } => expr_calls(*array) + expr_calls(*index)
            + expr_calls(*value),
        StmtView::FieldAssign { base, value, .. } => expr_calls(*base) + expr_calls(*value),
        StmtView::TupleAssign { base, value, .. } => expr_calls(*base) + expr_calls(*value),
        StmtView::Destructure { value, .. } => expr_calls(value),
        StmtView::If { condition, then_body, else_body, .. } => expr_calls(condition) + stmts_calls(
            then_body,
        ) + (match else_body {
            Some(b) => stmts_calls(b),
            None => Seq::empty(),
        }),
        StmtView::Match { scrutinee, arms, else_body, .. } => expr_calls(scrutinee) + arms_calls(
            arms,
        ) + (match else_body {
            Some(b) => stmts_calls(b),
            None => Seq::empty(),
        }),
        StmtView::While { condition, body, .. } => expr_calls(condition) + stmts_calls(body),
        StmtView::Return { value, .. } => match value {
            Some(v) => expr_calls(v),
            None => Seq::empty(),
        },
        StmtView::Break { .. } | StmtView::Continue { .. } => Seq::empty(),
    }
}

/// The callees of the calls in statements, in order.
pub open spec fn stmts_calls(xs: Seq<StmtView>) -> Seq<Seq<char>>
    decreases xs,
{
    if xs.len() == 0 {
        Seq::empty()
    } else {
        stmts_calls(xs.drop_last()) + stmt_calls(xs.last())
    }
}

/// The callees of the calls in the bodies of match arms, in order.
pub open spec fn arms_calls(xs: Seq<MatchArmView>) -> Seq<Seq<char>>
    decreases xs,
{
    if xs.len() == 0 {
        Seq::empty()
    } else {
        arms_calls(xs.drop_last()) + stmts_calls(xs.last().body)
    }
}

fn visit_expr(x: &Expr, calls: &mut Vec<String>)
    ensures
        model::all(final(calls)@) == model::all(old(calls)@) + expr_calls(x@),
    decreases x,
{
    let ghost start = model::all(calls@);
    match x {
        Expr::Call { callee, args, .. } => {
            if callee.len() >= 1 {
                calls.push(dotted(callee));
            }
            visit_exprs(args, calls);
        },
        Expr::ArrayLiteral { elems, .. } => visit_exprs(elems, calls),
        Expr::ObjectLiteral { fields, .. } => visit_named(fields, calls),
        Expr::TupleLiteral { elems, .. } => visit_elems(elems, calls),
        Expr::TupleIndex { base, .. } => visit_expr(base, calls),
        Expr::Index { base, index, .. } => {
            visit_expr(base, calls);
            visit_expr(index, calls);
        },
        Expr::Field { base, .. } => visit_expr(base, calls),
        Expr::Unary { rhs, .. } => visit_expr(rhs, calls),
        Expr::Cast { inner, .. } => visit_expr(inner, calls),
        Expr::Binary { lhs, rhs, .. } => {
            visit_expr(lhs, calls);
            visit_expr(rhs, calls);
        },
        Expr::Literal(_, _) => {},
        Expr::String(_, _) => {},
        Expr::Null(_) => {},
        Expr::Var { .. } => {},
    }
    assert(model::all(calls@) =~= start + expr_calls(x@));
}

fn visit_exprs(xs: &Vec<Expr>, calls: &mut Vec<String>)
    ensures
        model::all(final(calls)@) == model::all(old(calls)@) + exprs_calls(ast::exprs_view(xs@)),
    decreases xs,
{
    let ghost all = ast::exprs_view(xs@);
    let ghost start = model::all(calls@);
    let mut i: usize = 0;
    assert(all.take(0).len() == 0);
    assert(start + exprs_calls(all.take(0)) =~= start);
    while i < xs.len()
        invariant
            i <= xs@.len(),
            all == ast::exprs_view(xs@),
            model::all(calls@) == start + exprs_calls(all.take(i as int)),
        decreases xs@.len() - i,
    {
        assert(all.take(i + 1).drop_last() =~= all.take(i as int));
        assert(all.take(i + 1).last() == all[i as int]);
        visit_expr(&xs[i], calls);
        assert(model::all(calls@) =~= start + exprs_calls(all.take(i + 1)));
        i += 1;
    }
    assert(all.take(all.len() as int) =~= all);
}

fn visit_named(xs: &Vec<(String, Span, Expr)>, calls: &mut Vec<String>)
    ensures
        model::all(final(calls)@) == model::all(old(calls)@) + named_calls(ast::named_view(xs@)),
    decreases xs,
{
    let ghost all = ast::named_view(xs@);
    let ghost start = model::all(calls@);
    let mut i: usize = 0;
    assert(all.take(0).len() == 0);
    assert(start + named_calls(all.take(0)) =~= start);
    while i < xs.len()
        invariant
            i <= xs@.len(),
            all == ast::named_view(xs@),
            model::all(calls@) == start + named_calls(all.take(i as int)),
        decreases xs@.len() - i,
    {
        assert(all.take(i + 1).drop_last() =~= all.take(i as int));
        assert(all.take(i + 1).last() == all[i as int]);
        visit_expr(&xs[i].2, calls);
        assert(model::all(calls@) =~= start + named_calls(all.take(i + 1)));
        i += 1;
    }
    assert(all.take(all.len() as int) =~= all);
}

fn visit_elems(xs: &Vec<(Option<String>, Span, Expr)>, calls: &mut Vec<String>)
    ensures
        model::all(final(calls)@) == model::all(old(calls)@) + elems_calls(ast::elems_view(xs@)),
    decreases xs,
{
    let ghost all = ast::elems_view(xs@);
    let ghost start = model::all(calls@);
    let mut i: usize = 0;
    assert(all.take(0).len() == 0);
    assert(start + elems_calls(all.take(0)) =~= start);
    while i < xs.len()
        invariant
            i <= xs@.len(),
            all == ast::elems_view(xs@),
            model::all(calls@) == start + elems_calls(all.take(i as int)),
        decreases xs@.len() - i,
    {
        assert(all.take(i + 1).drop_last() =~= all.take(i as int));
        assert(all.take(i + 1).last() == all[i as int]);
        visit_expr(&xs[i].2, calls);
        assert(model::all(calls@) =~= start + elems_calls(all.take(i + 1)));
        i += 1;
    }
    assert(all.take(all.len() as int) =~= all);
}

fn visit_stmt(x: &Stmt, calls: &mut Vec<String>)
    ensures
        model::all(final(calls)@) == model::all(old(calls)@) + stmt_calls(x@),
    decreases x,
{
    let ghost start = model::all(calls@);
    match x {
        Stmt::Let { value, .. } => visit_expr(value, calls),
        Stmt::Assign { value, .. } => visit_expr(value, calls),
        Stmt::Expr(value) => visit_expr(value, calls),
        Stmt::IndexAssign { array, index, value, .. } => {
            visit_expr(array, calls);
            visit_expr(index, calls);
            visit_expr(value, calls);
        },
        Stmt::FieldAssign { base, value, .. } => {
            visit_expr(base, calls);
            visit_expr(value, calls);
        },
        Stmt::TupleAssign { base, value, .. } => {
            visit_expr(base, calls);
            visit_expr(value, calls);
        },
        Stmt::Destructure { value, .. } => visit_expr(value, calls),
        Stmt::If { condition, then_body, else_body, .. } => {
            visit_expr(condition, calls);
            collect_local_calls(then_body, calls);
            match else_body {
                Some(body) => collect_local_calls(body, calls),
                None => {},
            }
        },
        Stmt::Match { scrutinee, arms, else_body, .. } => {
            visit_expr(scrutinee, calls);
            visit_arms(arms, calls);
            match else_body {
                Some(body) => collect_local_calls(body, calls),
                None => {},
            }
        },
        Stmt::While { condition, body, .. } => {
            visit_expr(condition, calls);
            collect_local_calls(body, calls);
        },
        Stmt::Return { value, .. } => match value {
            Some(v) => visit_expr(v, calls),
            None => {},
        },
        Stmt::Break { .. } => {},
        Stmt::Continue { .. } => {},
    }
    assert(model::all(calls@) =~= start + stmt_calls(x@));
}

/// Appends the callees of the calls in statements.
fn collect_local_calls(xs: &Vec<Stmt>, calls: &mut Vec<String>)
    ensures
        model::all(final(calls)@) == model::all(old(calls)@) + stmts_calls(ast::stmts_view(xs@)),
    decreases xs,
{
    let ghost all = ast::stmts_view(xs@);
    let ghost start = model::all(calls@);
    let mut i: usize = 0;
    assert(all.take(0).len() == 0);
    assert(start + stmts_calls(all.take(0)) =~= start);
    while i < xs.len()
        invariant
            i <= xs@.len(),
            all == ast::stmts_view(xs@),
            model::all(calls@) == start + stmts_calls(all.take(i as int)),
        decreases xs@.len() - i,
    {
        assert(all.take(i + 1).drop_last() =~= all.take(i as int));
        assert(all.take(i + 1).last() == all[i as int]);
        visit_stmt(&xs[i], calls);
        assert(model::all(calls@) =~= start + stmts_calls(all.take(i + 1)));
        i += 1;
    }
    assert(all.take(all.len() as int) =~= all);
}

fn visit_arms(xs: &Vec<MatchArm>, calls: &mut Vec<String>)
    ensures
        model::all(final(calls)@) == model::all(old(calls)@) + arms_calls(ast::arms_view(xs@)),
    decreases xs,
{
    let ghost all = ast::arms_view(xs@);
    let ghost start = model::all(calls@);
    let mut i: usize = 0;
    assert(all.take(0).len() == 0);
    assert(start + arms_calls(all.take(0)) =~= start);
    while i < xs.len()
        invariant
            i <= xs@.len(),
            all == ast::arms_view(xs@),
            model::all(calls@) == start + arms_calls(all.take(i as int)),
        decreases xs@.len() - i,
    {
        assert(all.take(i + 1).drop_last() =~= all.take(i as int));
        assert(all.take(i + 1).last() == all[i as int]);
        collect_local_calls(&xs[i].body, calls);
        assert(model::all(calls@) =~= start + arms_calls(all.take(i + 1)));
        i += 1;
    }
    assert(all.take(all.len() as int) =~= all);
}

// ---------------------------------------------------------------------------
// Dependence on globals
// ---------------------------------------------------------------------------

/// The names that decide whether code depends on globals.
pub struct Names {
    /// The globals of the module.
    pub globals: Set<Seq<char>>,
    /// The object types of the module, which are not values.
    pub types: Set<Seq<char>>,
}

/// Whether an expression reads a global, where the given names are local.
pub open spec fn expr_depends(x: ExprView, locals: Set<Seq<char>>, n: Names) -> bool
    decreases x,
{
    match x {
        ExprView::Var { path, .. } => path.len() == 1 && n.globals.contains(path[0])
            && !locals.contains(path[0]),
        ExprView::ArrayLiteral { elems, .. } => exprs_depend(elems, locals, n),
        ExprView::ObjectLiteral { fields, .. } => named_depend(fields, locals, n),
        ExprView::TupleLiteral { elems, .. } => elems_depend(elems, locals, n),
        ExprView::TupleIndex { base, .. } => expr_depends(*base, locals, n),
        ExprView::Index { base, index, .. } => expr_depends(*base, locals, n) || expr_depends(
            *index,
            locals,
            n,
        ),
        ExprView::Field { base, .. } => expr_depends(*base, locals, n),
        ExprView::Unary { rhs, .. } => expr_depends(*rhs, locals, n),
        ExprView::Cast { inner, .. } => expr_depends(*inner, locals, n),
        ExprView::Call { callee, args, .. } => (callee.len() >= 2 && n.globals.contains(callee[0])
            && !locals.contains(callee[0]) && !n.types.contains(callee[0])) || exprs_depend(
            args,
            locals,
            n,
        ),
        ExprView::Binary { lhs, rhs, .. } => expr_depends(*lhs, locals, n) || expr_depends(
            *rhs,
            locals,
            n,
        ),
        ExprView::Literal(..) | ExprView::String(..) | ExprView::Null(..) => false,
    }
}

/// Whether one of the expressions reads a global.
pub open spec fn exprs_depend(xs: Seq<ExprView>, locals: Set<Seq<char>>, n: Names) -> bool
    decreases xs,
{
    if xs.len() == 0 {
        false
    } else {
        exprs_depend(xs.drop_last(), locals, n) || expr_depends(xs.last(), locals, n)
    }
}

/// Whether the value of one of the fields reads a global.
pub open spec fn named_depend(
    xs: Seq<(Seq<char>, Span, ExprView)>,
    locals: Set<Seq<char>>,
    n: Names,
) -> bool
    decreases xs,
{
    if xs.len() == 0 {
        false
    } else {
        named_depend(xs.drop_last(), locals, n) || expr_depends(xs.last().2, locals, n)
    }
}

/// Whether one of the elements of a tuple reads a global.
pub open spec fn elems_depend(
    xs: Seq<(Option<Seq<char>>, Span, ExprView)>,
    locals: Set<Seq<char>>,
    n: Names,
) -> bool
    decreases xs,
{
    if xs.len() == 0 {
        false
    } else {
        elems_depend(xs.drop_last(), locals, n) || expr_depends(xs.last().2, locals, n)
    }
}

/// The names with those of a destructuring binding.
pub open spec fn with_bindings(locals: Set<Seq<char>>, bs: Seq<DestructureBindingView>) -> Set<
    Seq<char>,
>
    decreases bs.len(),
{
    if bs.len() == 0 {
        locals
    } else {
        with_bindings(locals, bs.drop_last()).insert(bs.last().binding)
    }
}

/// The names with those that a match arm binds.
pub open spec fn with_names(locals: Set<Seq<char>>, ns: Seq<(Seq<char>, Span)>) -> Set<Seq<char>>
    decreases ns.len(),
{
    if ns.len() == 0 {
        locals
    } else {
        with_names(locals, ns.drop_last()).insert(ns.last().0)
    }
}

/// The local names behind a statement.
pub open spec fn locals_after(x: StmtView, locals: Set<Seq<char>>) -> Set<Seq<char>> {
    match x {
        StmtView::Let { name, .. } => locals.insert(name),
        StmtView::Destructure { bindings, .. } => with_bindings(locals, bindings),
        _ => locals,
    }
}

/// Whether a statement reads or assigns a global.
pub open spec fn stmt_depends(x: StmtView, locals: Set<Seq<char>>, n: Names) -> bool
    decreases x,
{
    match x {
        StmtView::Let { value, .. } => expr_depends(value, locals, n),
        StmtView::Assign { name, value, .. } => (n.globals.contains(name) && !locals.contains(name))
            || expr_depends(value, locals, n),
        StmtView::IndexAssign { array, index, value, .. } => expr_depends(*array, locals, n)
            || expr_depends(*index, locals, n) || expr_depends(*value, locals, n),
        StmtView::FieldAssign { base, value, .. } => expr_depends(*base, locals, n) || expr_depends(
            *value,
            locals,
            n,
        ),
        StmtView::TupleAssign { base, value, .. } => expr_depends(*base, locals, n) || expr_depends(
            *value,
            locals,
            n,
        ),
        StmtView::Destructure { value, .. } => expr_depends(value, locals, n),
        StmtView::If { condition, then_body, else_body, .. } => expr_depends(condition, locals, n)
            || stmts_depend(then_body, locals, n) || (match else_body {
            Some(b) => stmts_depend(b, locals, n),
            None => false,
        }),
        StmtView::Match { scrutinee, arms, else_body, .. } => expr_depends(scrutinee, locals, n)
            || arms_depend(arms, locals, n) || (match else_body {
            Some(b) => stmts_depend(b, locals, n),
            None => false,
        }),
        StmtView::While { condition, body, .. } => expr_depends(condition, locals, n)
            || stmts_depend(body, locals, n),
        StmtView::Return { value, .. } => match value {
            Some(v) => expr_depends(v, locals, n),
            None => false,
        },
        StmtView::Expr(value) => expr_depends(value, locals, n),
        StmtView::Break { .. } | StmtView::Continue { .. } => false,
    }
}

/// Whether one of the statements reads or assigns a global. A binding makes its
/// name local for the statements behind it.
pub open spec fn stmts_depend(xs: Seq<StmtView>, locals: Set<Seq<char>>, n: Names) -> bool
    decreases xs,
{
    if xs.len() == 0 {
        false
    } else {
        stmt_depends(xs[0], locals, n) || stmts_depend(
            xs.drop_first(),
            locals_after(xs[0], locals),
            n,
        )
    }
}

/// Whether the body of one of the match arms reads or assigns a global.
pub open spec fn arms_depend(xs: Seq<MatchArmView>, locals: Set<Seq<char>>, n: Names) -> bool
    decreases xs,
{
    if xs.len() == 0 {
        false
    } else {
        arms_depend(xs.drop_last(), locals, n) || stmts_depend(
            xs.last().body,
            with_names(locals, xs.last().bindings),
            n,
        )
    }
}

/// The names of parameters.
pub open spec fn param_set(ps: Seq<ParamView>) -> Set<Seq<char>>
    decreases ps.len(),
{
    if ps.len() == 0 {
        Set::empty()
    } else {
        param_set(ps.drop_last()).insert(ps.last().name)
    }
}

/// Whether a function reads or assigns a global itself.
pub open spec fn function_depends(ps: Seq<ParamView>, body: Seq<StmtView>, n: Names) -> bool {
    stmts_depend(body, param_set(ps), n)
}

fn expr_dependence(x: &Expr, locals: &NameSet, globals: &NameSet, types: &NameSet) -> (r: bool)
    ensures
        r == expr_depends(x@, locals@, Names { globals: globals@, types: types@ }),
    decreases x,
{
    match x {
        Expr::Var { path, .. } => path.len() == 1 && globals.contains(path[0].as_str())
            && !locals.contains(path[0].as_str()),
        Expr::ArrayLiteral { elems, .. } => exprs_dependence(elems, locals, globals, types),
        Expr::ObjectLiteral { fields, .. } => named_dependence(fields, locals, globals, types),
        Expr::TupleLiteral { elems, .. } => elems_dependence(elems, locals, globals, types),
        Expr::TupleIndex { base, .. } => expr_dependence(base, locals, globals, types),
        Expr::Index { base, index, .. } => expr_dependence(base, locals, globals, types) || expr_dependence(index, locals, globals, types),
        Expr::Field { base, .. } => expr_dependence(base, locals, globals, types),
        Expr::Unary { rhs, .. } => expr_dependence(rhs, locals, globals, types),
        Expr::Cast { inner, .. } => expr_dependence(inner, locals, globals, types),
        Expr::Call { callee, args, .. } => (callee.len() >= 2 && globals.contains(
            callee[0].as_str(),
        ) && !locals.contains(callee[0].as_str()) && !types.contains(callee[0].as_str()))
            || exprs_dependence(args, locals, globals, types),
        Expr::Binary { lhs, rhs, .. } => expr_dependence(lhs, locals, globals, types) || expr_dependence(rhs, locals, globals, types),
        Expr::Literal(_, _) => false,
        Expr::String(_, _) => false,
        Expr::Null(_) => false,
    }
}

fn exprs_dependence(xs: &Vec<Expr>, locals: &NameSet, globals: &NameSet, types: &NameSet) -> (r: bool)
    ensures
        r == exprs_depend(ast::exprs_view(xs@), locals@, Names { globals: globals@, types: types@ }),
    decreases xs,
{
    let ghost all = ast::exprs_view(xs@);
    let ghost n = Names { globals: globals@, types: types@ };
    let mut r = false;
    let mut i: usize = 0;
    assert(all.take(0).len() == 0);
    while i < xs.len()
        invariant
            i <= xs@.len(),
            all == ast::exprs_view(xs@),
            n == (Names { globals: globals@, types: types@ }),
            r == exprs_depend(all.take(i as int), locals@, n),
        decreases xs@.len() - i,
    {
        assert(all.take(i + 1).drop_last() =~= all.take(i as int));
        assert(all.take(i + 1).last() == all[i as int]);
        let next = expr_dependence(&xs[i], locals, globals, types);
        r = r || next;
        i += 1;
    }
    assert(all.take(all.len() as int) =~= all);
    r
}

fn named_dependence(xs: &Vec<(String, Span, Expr)>, locals: &NameSet, globals: &NameSet, types: &NameSet) -> (r: bool)
    ensures
        r == named_depend(ast::named_view(xs@), locals@, Names { globals: globals@, types: types@ }),
    decreases xs,
{
    let ghost all = ast::named_view(xs@);
    let ghost n = Names { globals: globals@, types: types@ };
    let mut r = false;
    let mut i: usize = 0;
    assert(all.take(0).len() == 0);
    while i < xs.len()
        invariant
            i <= xs@.len(),
            all == ast::named_view(xs@),
            n == (Names { globals: globals@, types: types@ }),
            r == named_depend(all.take(i as int), locals@, n),
        decreases xs@.len() - i,
    {
        assert(all.take(i + 1).drop_last() =~= all.take(i as int));
        assert(all.take(i + 1).last() == all[i as int]);
        let next = expr_dependence(&xs[i].2, locals, globals, types);
        r = r || next;
        i += 1;
    }
    assert(all.take(all.len() as int) =~= all);
    r
}

fn elems_dependence(xs: &Vec<(Option<String>, Span, Expr)>, locals: &NameSet, globals: &NameSet, types: &NameSet) -> (r: bool)
    ensures
        r == elems_depend(ast::elems_view(xs@), locals@, Names { globals: globals@, types: types@ }),
    decreases xs,
{
    let ghost all = ast::elems_view(xs@);
    let ghost n = Names { globals: globals@, types: types@ };
    let mut r = false;
    let mut i: usize = 0;
    assert(all.take(0).len() == 0);
    while i < xs.len()
        invariant
            i <= xs@.len(),
            all == ast::elems_view(xs@),
            n == (Names { globals: globals@, types: types@ }),
            r == elems_depend(all.take(i as int), locals@, n),
        decreases xs@.len() - i,
    {
        assert(all.take(i + 1).drop_last() =~= all.take(i as int));
        assert(all.take(i + 1).last() == all[i as int]);
        let next = expr_dependence(&xs[i].2, locals, globals, types);
        r = r || next;
        i += 1;
    }
    assert(all.take(all.len() as int) =~= all);
    r
}

fn stmt_dependence(x: &Stmt, locals: &NameSet, globals: &NameSet, types: &NameSet) -> (r: bool)
    ensures
        r == stmt_depends(x@, locals@, Names { globals: globals@, types: types@ }),
    decreases x,
{
    match x {
        Stmt::Let { value, .. } => expr_dependence(value, locals, globals, types),
        Stmt::Assign { name, value, .. } => (globals.contains(name.as_str()) && !locals.contains(
            name.as_str(),
        )) || expr_dependence(value, locals, globals, types),
        Stmt::IndexAssign { array, index, value, .. } => expr_dependence(array, locals, globals, types) || expr_dependence(index, locals, globals, types) || expr_dependence(value, locals, globals, types),
        Stmt::FieldAssign { base, value, .. } => expr_dependence(base, locals, globals, types) || expr_dependence(value, locals, globals, types),
        Stmt::TupleAssign { base, value, .. } => expr_dependence(base, locals, globals, types) || expr_dependence(value, locals, globals, types),
        Stmt::Destructure { value, .. } => expr_dependence(value, locals, globals, types),
        Stmt::If { condition, then_body, else_body, .. } => expr_dependence(condition, locals, globals, types) || stmts_dependence(
            then_body,
            locals,
            globals,
            types,
        ) || (match else_body {
            Some(b) => stmts_dependence(b, locals, globals, types),
            None => false,
        }),
        Stmt::Match { scrutinee, arms, else_body, .. } => expr_dependence(scrutinee, locals, globals, types) || arms_dependence(
            arms,
            locals,
            globals,
            types,
        ) || (match else_body {
            Some(b) => stmts_dependence(b, locals, globals, types),
            None => false,
        }),
        Stmt::While { condition, body, .. } => expr_dependence(condition, locals, globals, types) || stmts_dependence(
            body,
            locals,
            globals,
            types,
        ),
        Stmt::Return { value, .. } => match value {
            Some(v) => expr_dependence(v, locals, globals, types),
            None => false,
        },
        Stmt::Expr(value) => expr_dependence(value, locals, globals, types),
        Stmt::Break { .. } => false,
        Stmt::Continue { .. } => false,
    }
}

fn stmts_dependence(xs: &Vec<Stmt>, locals: &NameSet, globals: &NameSet, types: &NameSet) -> (r: bool)
    ensures
        r == stmts_depend(ast::stmts_view(xs@), locals@, Names { globals: globals@, types: types@ }),
    decreases xs,
{
    let ghost all = ast::stmts_view(xs@);
    let ghost n = Names { globals: globals@, types: types@ };
    let mut inner = locals.duplicate();
    let mut i: usize = 0;
    assert(all.skip(0) =~= all);
    while i < xs.len()
        invariant
            i <= xs@.len(),
            all == ast::stmts_view(xs@),
            n == (Names { globals: globals@, types: types@ }),
            stmts_depend(all, locals@, n) == stmts_depend(all.skip(i as int), inner@, n),
        decreases xs@.len() - i,
    {
        assert(all.skip(i as int).drop_first() =~= all.skip(i + 1));
        assert(all.skip(i as int)[0] == all[i as int]);
        if stmt_dependence(&xs[i], &inner, globals, types) {
            return true;
        }
        match &xs[i] {
            Stmt::Let { name, .. } => inner.insert(name.clone()),
            Stmt::Destructure { bindings, .. } => bound_names(&mut inner, bindings),
            _ => {},
        }
        i += 1;
    }
    assert(all.skip(all.len() as int).len() == 0);
    false
}

fn arms_dependence(xs: &Vec<MatchArm>, locals: &NameSet, globals: &NameSet, types: &NameSet) -> (r: bool)
    ensures
        r == arms_depend(ast::arms_view(xs@), locals@, Names { globals: globals@, types: types@ }),
    decreases xs,
{
    let ghost all = ast::arms_view(xs@);
    let ghost n = Names { globals: globals@, types: types@ };
    let mut r = false;
    let mut i: usize = 0;
    assert(all.take(0).len() == 0);
    while i < xs.len()
        invariant
            i <= xs@.len(),
            all == ast::arms_view(xs@),
            n == (Names { globals: globals@, types: types@ }),
            r == arms_depend(all.take(i as int), locals@, n),
        decreases xs@.len() - i,
    {
        assert(all.take(i + 1).drop_last() =~= all.take(i as int));
        assert(all.take(i + 1).last() == all[i as int]);
        let mut inner = locals.duplicate();
        arm_names(&mut inner, &xs[i].bindings);
        let next = stmts_dependence(&xs[i].body, &inner, globals, types);
        r = r || next;
        i += 1;
    }
    assert(all.take(all.len() as int) =~= all);
    r
}

fn arm_names(names: &mut NameSet, ns: &Vec<(String, Span)>)
    ensures
        final(names)@ == with_names(old(names)@, ast::names_view(ns@)),
{
    let ghost all = ast::names_view(ns@);
    let mut i: usize = 0;
    assert(all.take(0).len() == 0);
    while i < ns.len()
        invariant
            i <= ns@.len(),
            all == ast::names_view(ns@),
            names@ == with_names(old(names)@, all.take(i as int)),
        decreases ns@.len() - i,
    {
        assert(all.take(i + 1).drop_last() =~= all.take(i as int));
        assert(all.take(i + 1).last() == all[i as int]);
        names.insert(ns[i].0.clone());
        i += 1;
    }
    assert(all.take(all.len() as int) =~= all);
}

/// Whether a function reads or assigns a global itself.
fn function_depends_on_global(
    params: &Vec<Param>,
    body: &Vec<Stmt>,
    globals: &NameSet,
    types: &NameSet,
) -> (r: bool)
    ensures
        r == function_depends(
            model::all(params@),
            ast::stmts_view(body@),
            Names { globals: globals@, types: types@ },
        ),
{
    let ghost all = model::all(params@);
    let mut locals = NameSet::new();
    let mut i: usize = 0;
    assert(all.take(0).len() == 0);
    while i < params.len()
        invariant
            i <= params@.len(),
            all == model::all(params@),
            locals@ == param_set(all.take(i as int)),
        decreases params@.len() - i,
    {
        assert(all.take(i + 1).drop_last() =~= all.take(i as int));
        assert(all.take(i + 1).last() == all[i as int]);
        locals.insert(params[i].name.clone());
        i += 1;
    }
    assert(all.take(all.len() as int) =~= all);
    stmts_dependence(body, &locals, globals, types)
}

// ---------------------------------------------------------------------------
// Dependence through calls
// ---------------------------------------------------------------------------

/// A function or an associated function under the name it is called by.
pub struct Unit {
    pub key: Seq<char>,
    pub params: Seq<ParamView>,
    pub body: Seq<StmtView>,
}

/// Whether one of the units has a key.
pub open spec fn has_unit(units: Seq<Unit>, key: Seq<char>) -> bool {
    exists|i: int| 0 <= i < units.len() && (#[trigger] units[i]).key == key
}

/// The units with one more, unless its key is taken.
pub open spec fn with_unit(units: Seq<Unit>, u: Unit) -> Seq<Unit> {
    if has_unit(units, u.key) {
        units
    } else {
        units.push(u)
    }
}

/// The units with the associated functions of an object type.
pub open spec fn with_methods(units: Seq<Unit>, owner: Seq<char>, ms: Seq<FunctionDeclView>) -> Seq<
    Unit,
>
    decreases ms.len(),
{
    if ms.len() == 0 {
        units
    } else {
        with_unit(
            with_methods(units, owner, ms.drop_last()),
            Unit {
                key: scope::member(owner, ms.last().name),
                params: ms.last().params,
                body: ms.last().body,
            },
        )
    }
}

/// The functions and associated functions of the items, the first under each
/// name.
pub open spec fn units_of(items: Seq<ItemView>) -> Seq<Unit>
    decreases items.len(),
{
    if items.len() == 0 {
        Seq::empty()
    } else {
        let units = units_of(items.drop_last());
        match items.last() {
            ItemView::Function { name, params, body, .. } => with_unit(
                units,
                Unit { key: name, params, body },
            ),
            ItemView::Object { name, methods, .. } => with_methods(units, name, methods),
            _ => units,
        }
    }
}

/// The globals that items declare.
pub open spec fn globals_of(items: Seq<ItemView>) -> Set<Seq<char>>
    decreases items.len(),
{
    if items.len() == 0 {
        Set::empty()
    } else {
        let names = globals_of(items.drop_last());
        match items.last() {
            ItemView::Let { name, .. } => names.insert(name),
            ItemView::Destructure { bindings, .. } => with_bindings(names, bindings),
            _ => names,
        }
    }
}

/// The object types that items declare.
pub open spec fn objects_of(items: Seq<ItemView>) -> Set<Seq<char>>
    decreases items.len(),
{
    if items.len() == 0 {
        Set::empty()
    } else {
        let names = objects_of(items.drop_last());
        match items.last() {
            ItemView::Object { name, .. } => names.insert(name),
            _ => names,
        }
    }
}

/// The object and union types that items declare.
pub open spec fn types_of(items: Seq<ItemView>) -> Set<Seq<char>>
    decreases items.len(),
{
    if items.len() == 0 {
        Set::empty()
    } else {
        let names = types_of(items.drop_last());
        match items.last() {
            ItemView::Object { name, .. } => names.insert(name),
            ItemView::Union { name, .. } => names.insert(name),
            _ => names,
        }
    }
}

/// Whether one of the names is in a set.
pub open spec fn some_in(names: Seq<Seq<char>>, d: Set<Seq<char>>) -> bool {
    exists|i: int| 0 <= i < names.len() && d.contains(#[trigger] names[i])
}

/// Whether a unit depends on globals, given names that do.
pub open spec fn unit_depends(u: Unit, d: Set<Seq<char>>, n: Names) -> bool {
    function_depends(u.params, u.body, n) || some_in(stmts_calls(u.body), d)
}

/// Whether a set holds the globals and every unit that depends on its members.
pub open spec fn closed_under_calls(d: Set<Seq<char>>, units: Seq<Unit>, n: Names) -> bool {
    &&& n.globals.subset_of(d)
    &&& forall|i: int|
        0 <= i < units.len() && unit_depends(#[trigger] units[i], d, n) ==> d.contains(units[i].key)
}

/// The globals and the units that depend on them, directly or through calls:
/// the least set that is closed under calls.
pub open spec fn dependents(units: Seq<Unit>, n: Names) -> Set<Seq<char>> {
    Set::new(
        |name: Seq<char>|
            forall|d: Set<Seq<char>>| #[trigger] closed_under_calls(d, units, n) ==> d.contains(name),
    )
}

/// The set of dependents is itself closed under calls, and is contained in every
/// set that is.
pub proof fn dependents_are_least(units: Seq<Unit>, n: Names)
    ensures
        closed_under_calls(dependents(units, n), units, n),
        forall|d: Set<Seq<char>>| #[trigger]
            closed_under_calls(d, units, n) ==> dependents(units, n).subset_of(d),
{
    let l = dependents(units, n);
    assert forall|i: int| 0 <= i < units.len() && unit_depends(#[trigger] units[i], l, n) implies
        l.contains(units[i].key) by {
        assert forall|d: Set<Seq<char>>| #[trigger] closed_under_calls(d, units, n) implies
            d.contains(units[i].key) by {
            depends_is_monotone(units[i], l, d, n);
        }
    }
}

proof fn depends_is_monotone(u: Unit, a: Set<Seq<char>>, b: Set<Seq<char>>, n: Names)
    requires
        a.subset_of(b),
        unit_depends(u, a, n),
    ensures
        unit_depends(u, b, n),
{
    if some_in(stmts_calls(u.body), a) {
        let c = stmts_calls(u.body);
        let i = choose|i: int| 0 <= i < c.len() && a.contains(#[trigger] c[i]);
        assert(b.contains(c[i]));
    }
}

/// A unit with what it calls and whether it depends on globals by itself.
struct UnitInfo {
    key: String,
    calls: Vec<String>,
    direct: bool,
}

spec fn info_matches(infos: Seq<UnitInfo>, units: Seq<Unit>, n: Names) -> bool {
    &&& infos.len() == units.len()
    &&& forall|i: int|
        0 <= i < units.len() ==> {
            &&& (#[trigger] infos[i]).key@ == units[i].key
            &&& model::all(infos[i].calls@) == stmts_calls(units[i].body)
            &&& infos[i].direct == function_depends(units[i].params, units[i].body, n)
        }
}

fn has_info(infos: &Vec<UnitInfo>, key: &str, units: Ghost<Seq<Unit>>, n: Ghost<Names>) -> (r: bool)
    requires
        info_matches(infos@, units@, n@),
    ensures
        r == has_unit(units@, key@),
{
    let mut i: usize = 0;
    while i < infos.len()
        invariant
            i <= infos@.len(),
            info_matches(infos@, units@, n@),
            forall|k: int| 0 <= k < i ==> (#[trigger] units@[k]).key != key@,
        decreases infos@.len() - i,
    {
        if str_eq(infos[i].key.as_str(), key) {
            assert(units@[i as int].key == key@);
            return true;
        }
        assert(infos@[i as int].key@ == units@[i as int].key);
        i += 1;
    }
    false
}

fn add_info(
    infos: &mut Vec<UnitInfo>,
    key: String,
    params: &Vec<Param>,
    body: &Vec<Stmt>,
    globals: &NameSet,
    types: &NameSet,
    units: Ghost<Seq<Unit>>,
)
    requires
        info_matches(old(infos)@, units@, Names { globals: globals@, types: types@ }),
    ensures
        info_matches(
            final(infos)@,
            with_unit(
                units@,
                Unit { key: key@, params: model::all(params@), body: ast::stmts_view(body@) },
            ),
            Names { globals: globals@, types: types@ },
        ),
{
    let ghost n = Names { globals: globals@, types: types@ };
    if has_info(infos, key.as_str(), units, Ghost(n)) {
        return ;
    }
    let mut calls: Vec<String> = Vec::new();
    collect_local_calls(body, &mut calls);
    assert(model::all(calls@) =~= stmts_calls(ast::stmts_view(body@)));
    let direct = function_depends_on_global(params, body, globals, types);
    let ghost before = infos@;
    let ghost u = Unit { key: key@, params: model::all(params@), body: ast::stmts_view(body@) };
    infos.push(UnitInfo { key, calls, direct });
    assert forall|i: int| 0 <= i < units@.push(u).len() implies {
        &&& (#[trigger] infos@[i]).key@ == units@.push(u)[i].key
        &&& model::all(infos@[i].calls@) == stmts_calls(units@.push(u)[i].body)
        &&& infos@[i].direct == function_depends(
            units@.push(u)[i].params,
            units@.push(u)[i].body,
            n,
        )
    } by {
        if i < before.len() {
            assert(infos@[i] == before[i]);
        }
    }
}

fn add_methods(
    infos: &mut Vec<UnitInfo>,
    owner: &String,
    ms: &Vec<FunctionDecl>,
    globals: &NameSet,
    types: &NameSet,
    units: Ghost<Seq<Unit>>,
)
    requires
        info_matches(old(infos)@, units@, Names { globals: globals@, types: types@ }),
    ensures
        info_matches(
            final(infos)@,
            with_methods(units@, owner@, model::all(ms@)),
            Names { globals: globals@, types: types@ },
        ),
{
    let ghost all = model::all(ms@);
    let mut i: usize = 0;
    assert(all.take(0).len() == 0);
    while i < ms.len()
        invariant
            i <= ms@.len(),
            all == model::all(ms@),
            info_matches(
                infos@,
                with_methods(units@, owner@, all.take(i as int)),
                Names { globals: globals@, types: types@ },
            ),
        decreases ms@.len() - i,
    {
        assert(all.take(i + 1).drop_last() =~= all.take(i as int));
        assert(all.take(i + 1).last() == all[i as int]);
        let m = &ms[i];
        let key = member(owner.as_str(), m.name.as_str());
        add_info(
            infos,
            key,
            &m.params,
            &m.body,
            globals,
            types,
            Ghost(with_methods(units@, owner@, all.take(i as int))),
        );
        i += 1;
    }
    assert(all.take(all.len() as int) =~= all);
}

fn unit_infos(items: &Vec<Item>, globals: &NameSet, types: &NameSet) -> (r: Vec<UnitInfo>)
    ensures
        info_matches(
            r@,
            units_of(model::all(items@)),
            Names { globals: globals@, types: types@ },
        ),
{
    let ghost all = model::all(items@);
    let ghost n = Names { globals: globals@, types: types@ };
    let mut infos: Vec<UnitInfo> = Vec::new();
    let mut i: usize = 0;
    assert(all.take(0).len() == 0);
    while i < items.len()
        invariant
            i <= items@.len(),
            all == model::all(items@),
            info_matches(
                infos@,
                units_of(all.take(i as int)),
                Names { globals: globals@, types: types@ },
            ),
        decreases items@.len() - i,
    {
        assert(all.take(i + 1).drop_last() =~= all.take(i as int));
        assert(all.take(i + 1).last() == all[i as int]);
        match &items[i] {
            Item::Function { name, params, body, .. } => add_info(
                &mut infos,
                name.clone(),
                params,
                body,
                globals,
                types,
                Ghost(units_of(all.take(i as int))),
            ),
            Item::Object { name, methods, .. } => add_methods(
                &mut infos,
                name,
                methods,
                globals,
                types,
                Ghost(units_of(all.take(i as int))),
            ),
            _ => {},
        }
        i += 1;
    }
    assert(all.take(all.len() as int) =~= all);
    infos
}

fn any_in(names: &Vec<String>, d: &NameSet) -> (r: bool)
    ensures
        r == some_in(model::all(names@), d@),
{
    let mut i: usize = 0;
    while i < names.len()
        invariant
            i <= names@.len(),
            forall|k: int| 0 <= k < i ==> !d@.contains(#[trigger] model::all(names@)[k]),
        decreases names@.len() - i,
    {
        if d.contains(names[i].as_str()) {
            assert(d@.contains(model::all(names@)[i as int]));
            return true;
        }
        i += 1;
    }
    false
}

spec fn unmarked(s: Seq<bool>) -> nat
    decreases s.len(),
{
    if s.len() == 0 {
        0
    } else {
        unmarked(s.drop_last()) + (if s.last() { 0nat } else { 1nat })
    }
}

proof fn marking_counts(s: Seq<bool>, i: int)
    requires
        0 <= i < s.len(),
        !s[i],
    ensures
        unmarked(s.update(i, true)) == unmarked(s) - 1,
    decreases s.len(),
{
    if i == s.len() - 1 {
        assert(s.update(i, true).drop_last() =~= s.drop_last());
    } else {
        assert(s.update(i, true).drop_last() =~= s.drop_last().update(i, true));
        marking_counts(s.drop_last(), i);
    }
}

/// The names that depend on globals: adds units until nothing changes.
fn find_dependents(
    infos: &Vec<UnitInfo>,
    globals: &NameSet,
    units: Ghost<Seq<Unit>>,
    n: Ghost<Names>,
) -> (r: NameSet)
    requires
        info_matches(infos@, units@, n@),
        n@.globals == globals@,
    ensures
        r@ == dependents(units@, n@),
{
    let mut d = globals.duplicate();
    let mut marked: Vec<bool> = Vec::new();
    let mut j: usize = 0;
    while j < infos.len()
        invariant
            j <= infos@.len(),
            marked@.len() == j,
            forall|k: int| 0 <= k < j ==> !(#[trigger] marked@[k]),
        decreases infos@.len() - j,
    {
        marked.push(false);
        j += 1;
    }
    let mut changed = true;
    while changed
        invariant
            marked@.len() == infos@.len(),
            info_matches(infos@, units@, n@),
            n@.globals.subset_of(d@),
            forall|k: int| 0 <= k < infos@.len() && #[trigger] marked@[k] ==> d@.contains(units@[k].key),
            forall|e: Set<Seq<char>>| #[trigger]
                closed_under_calls(e, units@, n@) ==> d@.subset_of(e),
            !changed ==> closed_under_calls(d@, units@, n@),
        decreases unmarked(marked@), (if changed { 1int } else { 0 }),
    {
        changed = false;
        let ghost start = unmarked(marked@);
        let ghost d0 = d@;
        let mut i: usize = 0;
        while i < infos.len()
            invariant
                i <= infos@.len(),
                marked@.len() == infos@.len(),
                info_matches(infos@, units@, n@),
                n@.globals.subset_of(d@),
                forall|k: int|
                    0 <= k < infos@.len() && #[trigger] marked@[k] ==> d@.contains(units@[k].key),
                forall|e: Set<Seq<char>>| #[trigger]
                    closed_under_calls(e, units@, n@) ==> d@.subset_of(e),
                unmarked(marked@) <= start,
                changed ==> unmarked(marked@) < start,
                !changed ==> d@ == d0,
                !changed ==> forall|k: int|
                    0 <= k < i ==> (marked@[k] || !unit_depends(#[trigger] units@[k], d@, n@)),
            decreases infos@.len() - i,
        {
            let info = &infos[i];
            assert(infos@[i as int].key@ == units@[i as int].key);
            if !marked[i] && (info.direct || any_in(&info.calls, &d)) {
                assert(unit_depends(units@[i as int], d@, n@));
                let ghost before = d@;
                d.insert(info.key.clone());
                proof {
                    marking_counts(marked@, i as int);
                    assert forall|e: Set<Seq<char>>| #[trigger]
                        closed_under_calls(e, units@, n@) implies d@.subset_of(e) by {
                        depends_is_monotone(units@[i as int], before, e, n@);
                        assert(e.contains(units@[i as int].key));
                    }
                }
                marked.set(i, true);
                changed = true;
            }
            i += 1;
        }
        proof {
            if !changed {
                assert forall|k: int|
                    0 <= k < units@.len() && unit_depends(#[trigger] units@[k], d@, n@) implies
                    d@.contains(units@[k].key) by {
                    assert(marked@[k]);
                }
            }
        }
    }
    proof {
        dependents_are_least(units@, n@);
        assert(d@.subset_of(dependents(units@, n@)));
        assert(dependents(units@, n@).subset_of(d@));
        assert(d@ =~= dependents(units@, n@));
    }
    d
}

// ---------------------------------------------------------------------------
// Exported types and signatures
// ---------------------------------------------------------------------------

/// A type as it is seen from other modules: the types of the module are named
/// with the module.
pub open spec fn qualified(t: TypeView, module: Seq<char>, local: Set<Seq<char>>) -> TypeView
    decreases t,
{
    match t {
        TypeView::Object(name) => if !name.contains('.') && local.contains(name) {
            TypeView::Object(scope::member(module, name))
        } else {
            t
        },
        TypeView::Array(e) => TypeView::Array(Box::new(qualified(*e, module, local))),
        TypeView::Mutable(e) => TypeView::Mutable(Box::new(qualified(*e, module, local))),
        TypeView::Nullable(e) => TypeView::Nullable(Box::new(qualified(*e, module, local))),
        TypeView::Tuple(fs) => TypeView::Tuple(qualified_fields(fs, module, local)),
        _ => t,
    }
}

/// The fields of a tuple type as they are seen from other modules.
pub open spec fn qualified_fields(
    fs: Seq<(Option<Seq<char>>, TypeView)>,
    module: Seq<char>,
    local: Set<Seq<char>>,
) -> Seq<(Option<Seq<char>>, TypeView)>
    decreases fs,
{
    Seq::new(
        fs.len(),
        |i: int|
            if 0 <= i < fs.len() {
                (fs[i].0, qualified(fs[i].1, module, local))
            } else {
                arbitrary()
            },
    )
}

fn has_dot(s: &str) -> (r: bool)
    ensures
        r == s@.contains('.'),
{
    let cs = chars_of(s);
    let mut i: usize = 0;
    while i < cs.len()
        invariant
            i <= cs@.len(),
            cs@ == s@,
            forall|k: int| 0 <= k < i ==> s@[k] != '.',
        decreases cs@.len() - i,
    {
        if cs[i] == '.' {
            assert(s@[i as int] == '.');
            return true;
        }
        i += 1;
    }
    false
}

fn qualify_export_ty(t: &VlType, module: &str, local: &NameSet) -> (r: VlType)
    ensures
        r@ == qualified(t@, module@, local@),
    decreases t,
{
    match t {
        VlType::Object(name) => if !has_dot(name.as_str()) && local.contains(name.as_str()) {
            VlType::Object(member(module, name.as_str()))
        } else {
            t.clone()
        },
        VlType::Array(e) => VlType::Array(Box::new(qualify_export_ty(e, module, local))),
        VlType::Mutable(e) => VlType::Mutable(Box::new(qualify_export_ty(e, module, local))),
        VlType::Nullable(e) => VlType::Nullable(Box::new(qualify_export_ty(e, module, local))),
        VlType::Tuple(fs) => {
            let mut out: Vec<TupleField> = Vec::new();
            let mut i: usize = 0;
            while i < fs.len()
                invariant
                    i <= fs@.len(),
                    *t matches VlType::Tuple(g) && g == *fs,
                    out@.len() == i,
                    forall|k: int|
                        0 <= k < i ==> (#[trigger] out@[k])@ == qualified_fields(
                            ty::tuple_fields_view(fs@),
                            module@,
                            local@,
                        )[k],
                decreases fs@.len() - i,
            {
                let f = TupleField {
                    name: clone_opt(&fs[i].name),
                    ty: Box::new(qualify_export_ty(&fs[i].ty, module, local)),
                };
                out.push(f);
                i += 1;
            }
            assert(ty::tuple_fields_view(out@) =~= qualified_fields(
                ty::tuple_fields_view(fs@),
                module@,
                local@,
            )) by {
                assert forall|k: int| 0 <= k < out@.len() implies ty::tuple_fields_view(out@)[k]
                    == qualified_fields(ty::tuple_fields_view(fs@), module@, local@)[k] by {
                    assert(out@[k]@ == qualified_fields(
                        ty::tuple_fields_view(fs@),
                        module@,
                        local@,
                    )[k]);
                }
            }
            VlType::Tuple(out)
        },
        _ => t.clone(),
    }
}

/// The type parameters of a signature.
pub open spec fn type_param_sigs(ps: Seq<TypeParamView>) -> Seq<TypeParamSigView> {
    Seq::new(ps.len(), |i: int| TypeParamSigView { name: ps[i].name, bound: ps[i].bound })
}

/// The type that stands where one is missing.
pub open spec fn or_void(t: Option<TypeView>, module: Seq<char>, local: Set<Seq<char>>) -> TypeView {
    match t {
        Some(x) => qualified(x, module, local),
        None => TypeView::Void,
    }
}

/// The parameters of a signature.
pub open spec fn param_sigs(ps: Seq<ParamView>, module: Seq<char>, local: Set<Seq<char>>) -> Seq<
    ParamSigView,
> {
    Seq::new(
        ps.len(),
        |i: int| ParamSigView { name: ps[i].name, ty: or_void(ps[i].ty, module, local) },
    )
}

/// The signature of an exported function.
pub open spec fn exported_sig(
    tps: Seq<TypeParamView>,
    ps: Seq<ParamView>,
    ret: Option<TypeView>,
    module: Seq<char>,
    local: Set<Seq<char>>,
) -> FuncSigView {
    FuncSigView {
        type_params: type_param_sigs(tps),
        params: param_sigs(ps, module, local),
        ret: or_void(ret, module, local),
    }
}

/// Whether a signature lacks a type, or could not be read.
pub open spec fn incomplete(poisoned: bool, ps: Seq<ParamView>, ret: Option<TypeView>) -> bool {
    poisoned || ret is None || exists|i: int| 0 <= i < ps.len() && (#[trigger] ps[i]).ty is None
}

fn is_incomplete(poisoned: bool, ps: &Vec<Param>, ret: &Option<VlType>) -> (r: bool)
    ensures
        r == incomplete(poisoned, model::all(ps@), model::opt(*ret)),
{
    if poisoned || ret.is_none() {
        return true;
    }
    let mut i: usize = 0;
    while i < ps.len()
        invariant
            i <= ps@.len(),
            forall|k: int| 0 <= k < i ==> (#[trigger] model::all(ps@)[k]).ty is Some,
        decreases ps@.len() - i,
    {
        if ps[i].ty.is_none() {
            assert(model::all(ps@)[i as int].ty is None);
            return true;
        }
        i += 1;
    }
    false
}

fn make_type_param_sigs(ps: &Vec<TypeParam>) -> (r: Vec<TypeParamSig>)
    ensures
        model::all(r@) == type_param_sigs(model::all(ps@)),
{
    let mut out: Vec<TypeParamSig> = Vec::new();
    let mut i: usize = 0;
    while i < ps.len()
        invariant
            i <= ps@.len(),
            out@.len() == i,
            forall|k: int|
                0 <= k < i ==> (#[trigger] out@[k])@ == type_param_sigs(model::all(ps@))[k],
        decreases ps@.len() - i,
    {
        out.push(TypeParamSig { name: ps[i].name.clone(), bound: ps[i].bound });
        i += 1;
    }
    assert(model::all(out@) =~= type_param_sigs(model::all(ps@)));
    out
}

fn make_or_void(t: &Option<VlType>, module: &str, local: &NameSet) -> (r: VlType)
    ensures
        r@ == or_void(model::opt(*t), module@, local@),
{
    match t {
        Some(x) => qualify_export_ty(x, module, local),
        None => VlType::Void,
    }
}

fn make_sig(
    tps: &Vec<TypeParam>,
    ps: &Vec<Param>,
    ret: &Option<VlType>,
    module: &str,
    local: &NameSet,
) -> (r: FuncSig)
    ensures
        r@ == exported_sig(
            model::all(tps@),
            model::all(ps@),
            model::opt(*ret),
            module@,
            local@,
        ),
{
    let mut params: Vec<ParamSig> = Vec::new();
    let mut i: usize = 0;
    while i < ps.len()
        invariant
            i <= ps@.len(),
            params@.len() == i,
            forall|k: int|
                0 <= k < i ==> (#[trigger] params@[k])@ == param_sigs(
                    model::all(ps@),
                    module@,
                    local@,
                )[k],
        decreases ps@.len() - i,
    {
        params.push(
            ParamSig { name: ps[i].name.clone(), ty: make_or_void(&ps[i].ty, module, local) },
        );
        i += 1;
    }
    assert(model::all(params@) =~= param_sigs(model::all(ps@), module@, local@));
    FuncSig::generic(make_type_param_sigs(tps), params, make_or_void(ret, module, local))
}

// ---------------------------------------------------------------------------
// The interface
// ---------------------------------------------------------------------------

/// What decides how the items of a module are exported.
pub struct Rules {
    pub module: Seq<char>,
    /// The types of the module.
    pub local: Set<Seq<char>>,
    /// The names that depend on globals.
    pub dependents: Set<Seq<char>>,
    /// Whether incomplete signatures are reported.
    pub diagnose: bool,
}

/// The interface under collection.
pub struct Collected {
    pub functions: Seq<ExportView>,
    pub objects: Seq<ObjectExportView>,
    pub unions: Seq<UnionExportView>,
    pub diags: Seq<DiagnosticView>,
    pub poisoned: Seq<Seq<char>>,
    pub dependent: Seq<Seq<char>>,
    /// The place of the last function under each name.
    pub seen: Map<Seq<char>, Span>,
}

/// The report of an incomplete signature.
pub open spec fn incomplete_report(what: Seq<char>, name: Seq<char>, span: Span) -> DiagnosticView {
    error_view("exported "@ + what + " `"@ + name + "` has an incomplete signature"@).label(
        span,
        "unsupported cross-module boundary"@,
    ).coded("E208"@)
}

/// Exporting an associated function, into the exports of its object type.
pub open spec fn collect_method(
    u: Rules,
    c: Collected,
    out: Seq<ExportView>,
    owner: Seq<char>,
    m: FunctionDeclView,
) -> (Collected, Seq<ExportView>) {
    let key = scope::member(owner, m.name);
    if incomplete(m.signature_poisoned, m.params, m.ret) {
        (
            Collected {
                poisoned: c.poisoned.push(key),
                diags: if u.diagnose {
                    c.diags.push(incomplete_report("associated function"@, key, m.name_span))
                } else {
                    c.diags
                },
                ..c
            },
            out,
        )
    } else {
        (
            Collected {
                dependent: if u.dependents.contains(key) {
                    c.dependent.push(key)
                } else {
                    c.dependent
                },
                ..c
            },
            out.push(
                ExportView {
                    name: m.name,
                    sig: exported_sig(m.type_params, m.params, m.ret, u.module, u.local),
                    kind: ExportKind::Source,
                },
            ),
        )
    }
}

/// Exporting associated functions in order.
pub open spec fn collect_methods(
    u: Rules,
    c: Collected,
    owner: Seq<char>,
    ms: Seq<FunctionDeclView>,
) -> (Collected, Seq<ExportView>)
    decreases ms.len(),
{
    if ms.len() == 0 {
        (c, Seq::empty())
    } else {
        let (c1, out) = collect_methods(u, c, owner, ms.drop_last());
        collect_method(u, c1, out, owner, ms.last())
    }
}

/// Whether an object was exported under a name.
pub open spec fn has_object(objects: Seq<ObjectExportView>, name: Seq<char>) -> bool {
    exists|i: int| 0 <= i < objects.len() && (#[trigger] objects[i]).name == name
}

/// Whether a union was exported under a name.
pub open spec fn has_union(unions: Seq<UnionExportView>, name: Seq<char>) -> bool {
    exists|i: int| 0 <= i < unions.len() && (#[trigger] unions[i]).name == name
}

/// The payload types of a variant.
pub open spec fn payload_sigs(
    ps: Seq<(TypeView, Span)>,
    module: Seq<char>,
    local: Set<Seq<char>>,
) -> Seq<TypeView> {
    Seq::new(ps.len(), |i: int| qualified(ps[i].0, module, local))
}

/// The variants of an exported union.
pub open spec fn variant_sigs(
    vs: Seq<UnionVariantView>,
    module: Seq<char>,
    local: Set<Seq<char>>,
) -> Seq<UnionVariantSigView> {
    Seq::new(
        vs.len(),
        |i: int|
            UnionVariantSigView {
                name: vs[i].name,
                payload: payload_sigs(vs[i].payload, module, local),
            },
    )
}

/// Exporting a type. The first declaration under a name counts.
pub open spec fn collect_type(u: Rules, c: Collected, item: ItemView) -> Collected {
    match item {
        ItemView::Object { name, fields, methods, .. } => if has_object(c.objects, name) {
            c
        } else {
            let (c1, out) = collect_methods(u, c, name, methods);
            Collected {
                objects: c1.objects.push(
                    ObjectExportView {
                        name,
                        qualified: scope::member(u.module, name),
                        fields: param_sigs(fields, u.module, u.local),
                        methods: out,
                    },
                ),
                ..c1
            }
        },
        ItemView::Union { name, type_params, variants, .. } => if has_union(c.unions, name) {
            c
        } else {
            Collected {
                unions: c.unions.push(
                    UnionExportView {
                        name,
                        qualified: scope::member(u.module, name),
                        type_params: type_param_sigs(type_params),
                        variants: variant_sigs(variants, u.module, u.local),
                    },
                ),
                ..c
            }
        },
        _ => c,
    }
}

/// Exporting the types of the items in order.
pub open spec fn collect_types(u: Rules, c: Collected, items: Seq<ItemView>) -> Collected
    decreases items.len(),
{
    if items.len() == 0 {
        c
    } else {
        collect_type(u, collect_types(u, c, items.drop_last()), items.last())
    }
}

/// The exports without those under a name.
pub open spec fn without(fs: Seq<ExportView>, name: Seq<char>) -> Seq<ExportView>
    decreases fs.len(),
{
    if fs.len() == 0 {
        Seq::empty()
    } else if fs.last().name == name {
        without(fs.drop_last(), name)
    } else {
        without(fs.drop_last(), name).push(fs.last())
    }
}

/// Exporting a function. A second function under a name is reported, and
/// neither can be used.
pub open spec fn collect_function(u: Rules, c: Collected, f: FunctionDeclView) -> Collected {
    if c.seen.dom().contains(f.name) {
        Collected {
            seen: c.seen.insert(f.name, f.name_span),
            diags: c.diags.push(
                error_view("duplicate export `"@ + f.name + "`"@).label(
                    f.name_span,
                    "redefined here"@,
                ).bare_label(c.seen[f.name]).coded("E200"@),
            ),
            functions: without(c.functions, f.name),
            poisoned: if grammar::has_name(c.poisoned, f.name) {
                c.poisoned
            } else {
                c.poisoned.push(f.name)
            },
            ..c
        }
    } else {
        let c1 = Collected {
            seen: c.seen.insert(f.name, f.name_span),
            dependent: if u.dependents.contains(f.name) {
                c.dependent.push(f.name)
            } else {
                c.dependent
            },
            ..c
        };
        if incomplete(f.signature_poisoned, f.params, f.ret) {
            Collected {
                poisoned: c1.poisoned.push(f.name),
                diags: if u.diagnose {
                    c1.diags.push(incomplete_report("function"@, f.name, f.span))
                } else {
                    c1.diags
                },
                ..c1
            }
        } else {
            Collected {
                functions: c1.functions.push(
                    ExportView {
                        name: f.name,
                        sig: exported_sig(f.type_params, f.params, f.ret, u.module, u.local),
                        kind: ExportKind::Source,
                    },
                ),
                ..c1
            }
        }
    }
}

/// Exporting the functions of the items in order.
pub open spec fn collect_functions(u: Rules, c: Collected, items: Seq<ItemView>) -> Collected
    decreases items.len(),
{
    if items.len() == 0 {
        c
    } else {
        let c1 = collect_functions(u, c, items.drop_last());
        match items.last() {
            ItemView::Function {
                name,
                name_span,
                type_params,
                params,
                ret,
                ret_span,
                body,
                signature_poisoned,
                span,
            } => collect_function(
                u,
                c1,
                FunctionDeclView {
                    name,
                    name_span,
                    type_params,
                    params,
                    ret,
                    ret_span,
                    body,
                    signature_poisoned,
                    span,
                },
            ),
            _ => c1,
        }
    }
}

/// The rules for the items of a module.
pub open spec fn rules_for(prog: ProgramView, diagnose: bool) -> Rules {
    Rules {
        module: prog.module,
        local: types_of(prog.items),
        dependents: dependents(
            units_of(prog.items),
            Names { globals: globals_of(prog.items), types: objects_of(prog.items) },
        ),
        diagnose,
    }
}

/// Nothing collected.
pub open spec fn nothing_collected() -> Collected {
    Collected {
        functions: Seq::empty(),
        objects: Seq::empty(),
        unions: Seq::empty(),
        diags: Seq::empty(),
        poisoned: Seq::empty(),
        dependent: Seq::empty(),
        seen: Map::empty(),
    }
}

/// The interface of a module, and what was reported about it.
pub open spec fn collected(prog: ProgramView, diagnose: bool) -> (
    ModuleInterfaceView,
    Seq<DiagnosticView>,
) {
    let u = rules_for(prog, diagnose);
    let c = collect_functions(u, collect_types(u, nothing_collected(), prog.items), prog.items);
    (
        ModuleInterfaceView {
            path: module::dot_pieces(prog.module),
            origin: ModuleOrigin::Source,
            functions: c.functions,
            objects: c.objects,
            unions: c.unions,
            parse_poisoned: false,
            poisoned_exports: c.poisoned,
            global_dependent_exports: c.dependent,
        },
        c.diags,
    )
}

// ---------------------------------------------------------------------------
// Collecting quietly
// ---------------------------------------------------------------------------

/// The diagnostics other than those about incomplete signatures.
pub open spec fn without_incomplete(ds: Seq<DiagnosticView>) -> Seq<DiagnosticView>
    decreases ds.len(),
{
    if ds.len() == 0 {
        Seq::empty()
    } else if ds.last().code == Some("E208"@) {
        without_incomplete(ds.drop_last())
    } else {
        without_incomplete(ds.drop_last()).push(ds.last())
    }
}

spec fn hushed(c: Collected) -> Collected {
    Collected { diags: without_incomplete(c.diags), ..c }
}

proof fn one_more(ds: Seq<DiagnosticView>, d: DiagnosticView)
    ensures
        without_incomplete(ds.push(d)) == if d.code == Some("E208"@) {
            without_incomplete(ds)
        } else {
            without_incomplete(ds).push(d)
        },
{
    assert(ds.push(d).drop_last() =~= ds);
}

proof fn methods_hush(u: Rules, q: Rules, c: Collected, owner: Seq<char>, ms: Seq<FunctionDeclView>)
    requires
        u.diagnose,
        q == (Rules { diagnose: false, ..u }),
    ensures
        collect_methods(q, hushed(c), owner, ms) == (
            hushed(collect_methods(u, c, owner, ms).0),
            collect_methods(u, c, owner, ms).1,
        ),
    decreases ms.len(),
{
    if ms.len() > 0 {
        methods_hush(u, q, c, owner, ms.drop_last());
        let c1 = collect_methods(u, c, owner, ms.drop_last()).0;
        let m = ms.last();
        one_more(
            c1.diags,
            incomplete_report("associated function"@, scope::member(owner, m.name), m.name_span),
        );
    }
}

proof fn types_hush(u: Rules, q: Rules, c: Collected, items: Seq<ItemView>)
    requires
        u.diagnose,
        q == (Rules { diagnose: false, ..u }),
    ensures
        collect_types(q, hushed(c), items) == hushed(collect_types(u, c, items)),
    decreases items.len(),
{
    if items.len() > 0 {
        types_hush(u, q, c, items.drop_last());
        let c1 = collect_types(u, c, items.drop_last());
        match items.last() {
            ItemView::Object { name, methods, .. } => methods_hush(u, q, c1, name, methods),
            _ => {},
        }
    }
}

proof fn function_hushes(u: Rules, q: Rules, c: Collected, f: FunctionDeclView)
    requires
        u.diagnose,
        q == (Rules { diagnose: false, ..u }),
    ensures
        collect_function(q, hushed(c), f) == hushed(collect_function(u, c, f)),
{
    reveal_strlit("E200");
    reveal_strlit("E208");
    assert("E200"@[3] != "E208"@[3]);
    one_more(c.diags, incomplete_report("function"@, f.name, f.span));
    if c.seen.dom().contains(f.name) {
        one_more(
            c.diags,
            error_view("duplicate export `"@ + f.name + "`"@).label(
                f.name_span,
                "redefined here"@,
            ).bare_label(c.seen[f.name]).coded("E200"@),
        );
    }
}

proof fn functions_hush(u: Rules, q: Rules, c: Collected, items: Seq<ItemView>)
    requires
        u.diagnose,
        q == (Rules { diagnose: false, ..u }),
    ensures
        collect_functions(q, hushed(c), items) == hushed(collect_functions(u, c, items)),
    decreases items.len(),
{
    if items.len() > 0 {
        functions_hush(u, q, c, items.drop_last());
        let c1 = collect_functions(u, c, items.drop_last());
        match items.last() {
            ItemView::Function {
                name,
                name_span,
                type_params,
                params,
                ret,
                ret_span,
                body,
                signature_poisoned,
                span,
            } => function_hushes(
                u,
                q,
                c1,
                FunctionDeclView {
                    name,
                    name_span,
                    type_params,
                    params,
                    ret,
                    ret_span,
                    body,
                    signature_poisoned,
                    span,
                },
            ),
            _ => {},
        }
    }
}

/// Collecting quietly gives the same interface, and the same diagnostics but for
/// those about incomplete signatures.
pub proof fn quiet_collection_only_hushes(prog: ProgramView)
    ensures
        collected(prog, false).0 == collected(prog, true).0,
        collected(prog, false).1 == without_incomplete(collected(prog, true).1),
{
    let u = rules_for(prog, true);
    let q = rules_for(prog, false);
    types_hush(u, q, nothing_collected(), prog.items);
    functions_hush(u, q, collect_types(u, nothing_collected(), prog.items), prog.items);
}

// ---------------------------------------------------------------------------
// Exports are distinct
// ---------------------------------------------------------------------------

/// Whether no two exports have one name.
pub open spec fn names_differ(fs: Seq<ExportView>) -> bool {
    forall|i: int, j: int|
        0 <= i < j < fs.len() ==> (#[trigger] fs[i]).name != (#[trigger] fs[j]).name
}

/// Whether no two object types have one name, and no two unions.
pub open spec fn types_differ(c: Collected) -> bool {
    &&& forall|i: int, j: int|
        0 <= i < j < c.objects.len() ==> (#[trigger] c.objects[i]).name != (
        #[trigger] c.objects[j]).name
    &&& forall|i: int, j: int|
        0 <= i < j < c.unions.len() ==> (#[trigger] c.unions[i]).name != (
        #[trigger] c.unions[j]).name
}

spec fn functions_known(c: Collected) -> bool {
    &&& names_differ(c.functions)
    &&& forall|i: int|
        0 <= i < c.functions.len() ==> c.seen.dom().contains((#[trigger] c.functions[i]).name)
}

spec fn is_export(fs: Seq<ExportView>, x: ExportView) -> bool {
    exists|i: int| 0 <= i < fs.len() && #[trigger] fs[i] == x
}

proof fn dropping_keeps_apart(fs: Seq<ExportView>, name: Seq<char>)
    requires
        names_differ(fs),
    ensures
        names_differ(without(fs, name)),
        forall|i: int|
            0 <= i < without(fs, name).len() ==> (#[trigger] without(fs, name)[i]).name != name
                && is_export(fs, without(fs, name)[i]),
    decreases fs.len(),
{
    if fs.len() > 0 {
        let front = fs.drop_last();
        assert(forall|i: int| 0 <= i < front.len() ==> #[trigger] front[i] == fs[i]);
        dropping_keeps_apart(front, name);
        let a = without(front, name);
        let r = without(fs, name);
        assert forall|i: int| 0 <= i < r.len() implies (#[trigger] r[i]).name != name && is_export(
            fs,
            r[i],
        ) by {
            if i < a.len() {
                assert(r[i] == a[i]);
                let k = choose|k: int| 0 <= k < front.len() && #[trigger] front[k] == a[i];
                assert(fs[k] == r[i]);
            } else {
                assert(fs[fs.len() - 1] == r[i]);
            }
        }
        assert forall|i: int, j: int| 0 <= i < j < r.len() implies (#[trigger] r[i]).name != (
        #[trigger] r[j]).name by {
            assert(r[i] == a[i]);
            if j < a.len() {
                assert(r[j] == a[j]);
            } else {
                let k = choose|k: int| 0 <= k < front.len() && #[trigger] front[k] == a[i];
                assert(fs[k].name != fs[fs.len() - 1].name);
            }
        }
    }
}

proof fn collecting_functions_keeps_apart(u: Rules, c: Collected, items: Seq<ItemView>)
    requires
        functions_known(c),
    ensures
        functions_known(collect_functions(u, c, items)),
        collect_functions(u, c, items).objects == c.objects,
        collect_functions(u, c, items).unions == c.unions,
    decreases items.len(),
{
    if items.len() > 0 {
        collecting_functions_keeps_apart(u, c, items.drop_last());
        let c1 = collect_functions(u, c, items.drop_last());
        match items.last() {
            ItemView::Function { name, .. } => {
                let t = collect_functions(u, c, items);
                if c1.seen.dom().contains(name) {
                    dropping_keeps_apart(c1.functions, name);
                    assert forall|i: int| 0 <= i < t.functions.len() implies t.seen.dom().contains(
                        (#[trigger] t.functions[i]).name,
                    ) by {
                        let x = t.functions[i];
                        let k = choose|k: int|
                            0 <= k < c1.functions.len() && #[trigger] c1.functions[k] == x;
                        assert(c1.seen.dom().contains(c1.functions[k].name));
                    }
                } else {
                    assert(forall|i: int|
                        0 <= i < c1.functions.len() ==> t.functions[i] == #[trigger] c1.functions[i]);
                }
            },
            _ => {},
        }
    }
}

proof fn collecting_methods_keeps(u: Rules, c: Collected, owner: Seq<char>, ms: Seq<FunctionDeclView>)
    ensures
        collect_methods(u, c, owner, ms).0.objects == c.objects,
        collect_methods(u, c, owner, ms).0.unions == c.unions,
        collect_methods(u, c, owner, ms).0.functions == c.functions,
        collect_methods(u, c, owner, ms).0.seen == c.seen,
    decreases ms.len(),
{
    if ms.len() > 0 {
        collecting_methods_keeps(u, c, owner, ms.drop_last());
    }
}

proof fn collecting_types_keeps_apart(u: Rules, c: Collected, items: Seq<ItemView>)
    requires
        types_differ(c),
    ensures
        types_differ(collect_types(u, c, items)),
        collect_types(u, c, items).functions == c.functions,
        collect_types(u, c, items).seen == c.seen,
    decreases items.len(),
{
    if items.len() > 0 {
        collecting_types_keeps_apart(u, c, items.drop_last());
        let c1 = collect_types(u, c, items.drop_last());
        match items.last() {
            ItemView::Object { name, methods, .. } => {
                collecting_methods_keeps(u, c1, name, methods);
            },
            _ => {},
        }
    }
}

/// An interface exports no two functions, no two object types and no two unions
/// under one name.
pub proof fn exports_are_distinct(prog: ProgramView, diagnose: bool)
    ensures
        names_differ(collected(prog, diagnose).0.functions),
        forall|i: int, j: int|
            0 <= i < j < collected(prog, diagnose).0.objects.len() ==> (#[trigger] collected(
                prog,
                diagnose,
            ).0.objects[i]).name != (#[trigger] collected(prog, diagnose).0.objects[j]).name,
        forall|i: int, j: int|
            0 <= i < j < collected(prog, diagnose).0.unions.len() ==> (#[trigger] collected(
                prog,
                diagnose,
            ).0.unions[i]).name != (#[trigger] collected(prog, diagnose).0.unions[j]).name,
{
    let u = rules_for(prog, diagnose);
    collecting_types_keeps_apart(u, nothing_collected(), prog.items);
    let c = collect_types(u, nothing_collected(), prog.items);
    collecting_functions_keeps_apart(u, c, prog.items);
}

/// The collector at work.
struct Collector<'a> {
    module: &'a str,
    local: NameSet,
    dependents: NameSet,
    diagnose: bool,
    functions: Vec<Export>,
    objects: Vec<ObjectExport>,
    unions: Vec<UnionExport>,
    diags: Vec<Diagnostic>,
    poisoned: Vec<String>,
    dependent: Vec<String>,
    seen: Table<String, Span>,
}

impl<'a> Collector<'a> {
    spec fn rules(&self) -> Rules {
        Rules {
            module: self.module@,
            local: self.local@,
            dependents: self.dependents@,
            diagnose: self.diagnose,
        }
    }

    spec fn st(&self) -> Collected {
        Collected {
            functions: model::all(self.functions@),
            objects: model::all(self.objects@),
            unions: model::all(self.unions@),
            diags: model::all(self.diags@),
            poisoned: model::all(self.poisoned@),
            dependent: model::all(self.dependent@),
            seen: self.seen@,
        }
    }

    fn report_incomplete(&mut self, what: &str, name: &str, span: Span)
        ensures
            final(self).rules() == old(self).rules(),
            final(self).st() == (Collected {
                diags: if old(self).diagnose {
                    old(self).st().diags.push(incomplete_report(what@, name@, span))
                } else {
                    old(self).st().diags
                },
                ..old(self).st()
            }),
    {
        if self.diagnose {
            let message = crate::text::cat5(
                "exported ",
                what,
                " `",
                name,
                "` has an incomplete signature",
            );
            self.diags.push(
                Diagnostic::error(message.as_str()).with_label(
                    span,
                    "unsupported cross-module boundary",
                ).with_code("E208"),
            );
        }
    }

    fn collect_methods(&mut self, owner: &String, ms: &Vec<FunctionDecl>) -> (r: Vec<Export>)
        ensures
            final(self).rules() == old(self).rules(),
            (final(self).st(), model::all(r@)) == collect_methods(
                old(self).rules(),
                old(self).st(),
                owner@,
                model::all(ms@),
            ),
    {
        let ghost all = model::all(ms@);
        let mut out: Vec<Export> = Vec::new();
        let mut i: usize = 0;
        assert(all.take(0).len() == 0);
        while i < ms.len()
            invariant
                i <= ms@.len(),
                all == model::all(ms@),
                self.rules() == old(self).rules(),
                (self.st(), model::all(out@)) == collect_methods(
                    old(self).rules(),
                    old(self).st(),
                    owner@,
                    all.take(i as int),
                ),
            decreases ms@.len() - i,
        {
            assert(all.take(i + 1).drop_last() =~= all.take(i as int));
            assert(all.take(i + 1).last() == all[i as int]);
            let m = &ms[i];
            let key = member(owner.as_str(), m.name.as_str());
            if is_incomplete(m.signature_poisoned, &m.params, &m.ret) {
                self.poisoned.push(key.clone());
                self.report_incomplete("associated function", key.as_str(), m.name_span);
            } else {
                if self.dependents.contains(key.as_str()) {
                    self.dependent.push(key);
                }
                let sig = make_sig(&m.type_params, &m.params, &m.ret, self.module, &self.local);
                out.push(Export::source(m.name.clone(), sig));
            }
            i += 1;
        }
        assert(all.take(all.len() as int) =~= all);
        out
    }

    fn has_object(&self, name: &str) -> (r: bool)
        ensures
            r == has_object(self.st().objects, name@),
    {
        let mut i: usize = 0;
        while i < self.objects.len()
            invariant
                i <= self.objects@.len(),
                forall|k: int| 0 <= k < i ==> (#[trigger] model::all(self.objects@)[k]).name != name@,
            decreases self.objects@.len() - i,
        {
            if str_eq(self.objects[i].name.as_str(), name) {
                assert(model::all(self.objects@)[i as int].name == name@);
                return true;
            }
            i += 1;
        }
        false
    }

    fn has_union(&self, name: &str) -> (r: bool)
        ensures
            r == has_union(self.st().unions, name@),
    {
        let mut i: usize = 0;
        while i < self.unions.len()
            invariant
                i <= self.unions@.len(),
                forall|k: int| 0 <= k < i ==> (#[trigger] model::all(self.unions@)[k]).name != name@,
            decreases self.unions@.len() - i,
        {
            if str_eq(self.unions[i].name.as_str(), name) {
                assert(model::all(self.unions@)[i as int].name == name@);
                return true;
            }
            i += 1;
        }
        false
    }

    fn field_sigs(&self, fields: &Vec<ObjectField>) -> (r: Vec<ObjectFieldSig>)
        ensures
            model::all(r@) == param_sigs(
                model::all(fields@),
                self.rules().module,
                self.rules().local,
            ),
    {
        let mut out: Vec<ObjectFieldSig> = Vec::new();
        let mut i: usize = 0;
        while i < fields.len()
            invariant
                i <= fields@.len(),
                out@.len() == i,
                forall|k: int|
                    0 <= k < i ==> (#[trigger] out@[k])@ == param_sigs(
                        model::all(fields@),
                        self.rules().module,
                        self.rules().local,
                    )[k],
            decreases fields@.len() - i,
        {
            out.push(
                ObjectFieldSig {
                    name: fields[i].name.clone(),
                    ty: make_or_void(&fields[i].ty, self.module, &self.local),
                },
            );
            i += 1;
        }
        assert(model::all(out@) =~= param_sigs(
            model::all(fields@),
            self.rules().module,
            self.rules().local,
        ));
        out
    }

    fn payload_sigs(&self, ps: &Vec<(VlType, Span)>) -> (r: Vec<VlType>)
        ensures
            model::all(r@) == payload_sigs(
                ast::payload_view(ps@),
                self.rules().module,
                self.rules().local,
            ),
    {
        let mut out: Vec<VlType> = Vec::new();
        let mut i: usize = 0;
        while i < ps.len()
            invariant
                i <= ps@.len(),
                out@.len() == i,
                forall|k: int|
                    0 <= k < i ==> (#[trigger] out@[k])@ == payload_sigs(
                        ast::payload_view(ps@),
                        self.rules().module,
                        self.rules().local,
                    )[k],
            decreases ps@.len() - i,
        {
            out.push(qualify_export_ty(&ps[i].0, self.module, &self.local));
            i += 1;
        }
        assert(model::all(out@) =~= payload_sigs(
            ast::payload_view(ps@),
            self.rules().module,
            self.rules().local,
        ));
        out
    }

    fn variant_sigs(&self, vs: &Vec<UnionVariant>) -> (r: Vec<UnionVariantSig>)
        ensures
            model::all(r@) == variant_sigs(
                model::all(vs@),
                self.rules().module,
                self.rules().local,
            ),
    {
        let mut out: Vec<UnionVariantSig> = Vec::new();
        let mut i: usize = 0;
        while i < vs.len()
            invariant
                i <= vs@.len(),
                out@.len() == i,
                forall|k: int|
                    0 <= k < i ==> (#[trigger] out@[k])@ == variant_sigs(
                        model::all(vs@),
                        self.rules().module,
                        self.rules().local,
                    )[k],
            decreases vs@.len() - i,
        {
            out.push(
                UnionVariantSig {
                    name: vs[i].name.clone(),
                    payload: self.payload_sigs(&vs[i].payload),
                },
            );
            i += 1;
        }
        assert(model::all(out@) =~= variant_sigs(
            model::all(vs@),
            self.rules().module,
            self.rules().local,
        ));
        out
    }

    fn collect_types(&mut self, items: &Vec<Item>)
        ensures
            final(self).rules() == old(self).rules(),
            final(self).st() == collect_types(
                old(self).rules(),
                old(self).st(),
                model::all(items@),
            ),
    {
        let ghost all = model::all(items@);
        let mut i: usize = 0;
        assert(all.take(0).len() == 0);
        while i < items.len()
            invariant
                i <= items@.len(),
                all == model::all(items@),
                self.rules() == old(self).rules(),
                self.st() == collect_types(old(self).rules(), old(self).st(), all.take(i as int)),
            decreases items@.len() - i,
        {
            assert(all.take(i + 1).drop_last() =~= all.take(i as int));
            assert(all.take(i + 1).last() == all[i as int]);
            match &items[i] {
                Item::Object { name, fields, methods, .. } => {
                    if !self.has_object(name.as_str()) {
                        let out = self.collect_methods(name, methods);
                        let export = ObjectExport {
                            name: name.clone(),
                            qualified: member(self.module, name.as_str()),
                            fields: self.field_sigs(fields),
                            methods: out,
                        };
                        self.objects.push(export);
                    }
                },
                Item::Union { name, type_params, variants, .. } => {
                    if !self.has_union(name.as_str()) {
                        let export = UnionExport {
                            name: name.clone(),
                            qualified: member(self.module, name.as_str()),
                            type_params: make_type_param_sigs(type_params),
                            variants: self.variant_sigs(variants),
                        };
                        self.unions.push(export);
                    }
                },
                _ => {},
            }
            i += 1;
        }
        assert(all.take(all.len() as int) =~= all);
    }

    fn drop_function(&mut self, name: &str)
        ensures
            final(self).rules() == old(self).rules(),
            final(self).st() == (Collected {
                functions: without(old(self).st().functions, name@),
                ..old(self).st()
            }),
    {
        let ghost all = model::all(self.functions@);
        let mut kept: Vec<Export> = Vec::new();
        let mut i: usize = 0;
        assert(all.take(0).len() == 0);
        while i < self.functions.len()
            invariant
                i <= self.functions@.len(),
                *self == *old(self),
                all == model::all(self.functions@),
                model::all(kept@) == without(all.take(i as int), name@),
            decreases self.functions@.len() - i,
        {
            assert(all.take(i + 1).drop_last() =~= all.take(i as int));
            assert(all.take(i + 1).last() == all[i as int]);
            if !str_eq(self.functions[i].name.as_str(), name) {
                kept.push(self.functions[i].clone());
            }
            i += 1;
        }
        assert(all.take(all.len() as int) =~= all);
        self.functions = kept;
    }

    fn collect_functions(&mut self, items: &Vec<Item>)
        ensures
            final(self).rules() == old(self).rules(),
            final(self).st() == collect_functions(
                old(self).rules(),
                old(self).st(),
                model::all(items@),
            ),
    {
        let ghost all = model::all(items@);
        let mut i: usize = 0;
        assert(all.take(0).len() == 0);
        while i < items.len()
            invariant
                i <= items@.len(),
                all == model::all(items@),
                self.rules() == old(self).rules(),
                self.st() == collect_functions(
                    old(self).rules(),
                    old(self).st(),
                    all.take(i as int),
                ),
            decreases items@.len() - i,
        {
            assert(all.take(i + 1).drop_last() =~= all.take(i as int));
            assert(all.take(i + 1).last() == all[i as int]);
            match &items[i] {
                Item::Function {
                    name,
                    name_span,
                    type_params,
                    params,
                    ret,
                    signature_poisoned,
                    span,
                    ..
                } => {
                    let previous: Option<Span> = match self.seen.get(name) {
                        Some(at) => Some(*at),
                        None => None,
                    };
                    self.seen.insert(name.clone(), *name_span);
                    match previous {
                        Some(at) => {
                            self.diags.push(
                                Diagnostic::error(
                                    cat3("duplicate export `", name.as_str(), "`").as_str(),
                                ).with_label(*name_span, "redefined here").with_bare_label(
                                    at,
                                ).with_code("E200"),
                            );
                            self.drop_function(name.as_str());
                            if !has_name(&self.poisoned, name.as_str()) {
                                self.poisoned.push(name.clone());
                            }
                        },
                        None => {
                            if self.dependents.contains(name.as_str()) {
                                self.dependent.push(name.clone());
                            }
                            if is_incomplete(*signature_poisoned, params, ret) {
                                self.poisoned.push(name.clone());
                                self.report_incomplete("function", name.as_str(), *span);
                            } else {
                                let sig = make_sig(
                                    type_params,
                                    params,
                                    ret,
                                    self.module,
                                    &self.local,
                                );
                                self.functions.push(Export::source(name.clone(), sig));
                            }
                        },
                    }
                },
                _ => {},
            }
            i += 1;
        }
        assert(all.take(all.len() as int) =~= all);
    }
}

fn bound_names(names: &mut NameSet, bs: &Vec<DestructureBinding>)
    ensures
        final(names)@ == with_bindings(old(names)@, model::all(bs@)),
{
    let ghost all = model::all(bs@);
    let mut i: usize = 0;
    assert(all.take(0).len() == 0);
    while i < bs.len()
        invariant
            i <= bs@.len(),
            all == model::all(bs@),
            names@ == with_bindings(old(names)@, all.take(i as int)),
        decreases bs@.len() - i,
    {
        assert(all.take(i + 1).drop_last() =~= all.take(i as int));
        assert(all.take(i + 1).last() == all[i as int]);
        names.insert(bs[i].binding.clone());
        i += 1;
    }
    assert(all.take(all.len() as int) =~= all);
}

/// The globals, the object types, and all the types of the items.
fn declared_names(items: &Vec<Item>) -> (r: (NameSet, NameSet, NameSet))
    ensures
        r.0@ == globals_of(model::all(items@)),
        r.1@ == objects_of(model::all(items@)),
        r.2@ == types_of(model::all(items@)),
{
    let ghost all = model::all(items@);
    let mut globals = NameSet::new();
    let mut objects = NameSet::new();
    let mut types = NameSet::new();
    let mut i: usize = 0;
    assert(all.take(0).len() == 0);
    while i < items.len()
        invariant
            i <= items@.len(),
            all == model::all(items@),
            globals@ == globals_of(all.take(i as int)),
            objects@ == objects_of(all.take(i as int)),
            types@ == types_of(all.take(i as int)),
        decreases items@.len() - i,
    {
        assert(all.take(i + 1).drop_last() =~= all.take(i as int));
        assert(all.take(i + 1).last() == all[i as int]);
        match &items[i] {
            Item::Let { name, .. } => globals.insert(name.clone()),
            Item::Destructure { bindings, .. } => bound_names(&mut globals, bindings),
            Item::Object { name, .. } => {
                objects.insert(name.clone());
                types.insert(name.clone());
            },
            Item::Union { name, .. } => types.insert(name.clone()),
            _ => {},
        }
        i += 1;
    }
    assert(all.take(all.len() as int) =~= all);
    (globals, objects, types)
}

fn collect_interface_impl(prog: &Program, diagnose: bool) -> (r: (
    ModuleInterface,
    Vec<Diagnostic>,
))
    ensures
        (r.0@, model::all(r.1@)) == collected(prog@, diagnose),
{
    let (globals, objects, types) = declared_names(&prog.items);
    let infos = unit_infos(&prog.items, &globals, &objects);
    let ghost n = Names { globals: globals@, types: objects@ };
    let dependents = find_dependents(
        &infos,
        &globals,
        Ghost(units_of(model::all(prog.items@))),
        Ghost(n),
    );
    let mut c = Collector {
        module: prog.module.as_str(),
        local: types,
        dependents,
        diagnose,
        functions: Vec::new(),
        objects: Vec::new(),
        unions: Vec::new(),
        diags: Vec::new(),
        poisoned: Vec::new(),
        dependent: Vec::new(),
        seen: Table::new(),
    };
    c.collect_types(&prog.items);
    c.collect_functions(&prog.items);
    (
        ModuleInterface {
            path: ModulePath::from_dotted(prog.module.as_str()),
            origin: ModuleOrigin::Source,
            functions: c.functions,
            objects: c.objects,
            unions: c.unions,
            parse_poisoned: false,
            poisoned_exports: c.poisoned,
            global_dependent_exports: c.dependent,
        },
        c.diags,
    )
}

/// Collects the interface of a module, and reports incomplete signatures.
pub fn collect_interface(prog: &Program) -> (r: (ModuleInterface, Vec<Diagnostic>))
    ensures
        (r.0@, model::all(r.1@)) == collected(prog@, true),
{
    collect_interface_impl(prog, true)
}

/// Collects the interface of a module without reporting incomplete signatures.
pub fn collect_interface_quiet(prog: &Program) -> (r: (ModuleInterface, Vec<Diagnostic>))
    ensures
        (r.0@, model::all(r.1@)) == collected(prog@, false),
{
    collect_interface_impl(prog, false)
}

} // verus!
