//! Where the parts of a tree stand: expressions lie inside those around them, and
//! the places that name resolution and the collection of interfaces put in their
//! reports start no later than they end, so that the reports can be drawn.

use vstd::prelude::*;

use crate::ast::{
    BinOp, BindingKind, DestructureBindingView, ExprView, FunctionDeclView, ItemView, MatchArmView,
    ParamView, Scalar, StmtView, UnOp,
};
use crate::span::Span;
use crate::ty::TypeView;

verus! {

/// Whether an expression and those in it lie before an offset, each inside the one
/// around it, and the places that name resolution reports in them start no later
/// than they end.
#[verifier::opaque]
pub open spec fn expr_placed(end: nat, x: ExprView) -> bool
    decreases x,
{
    &&& x.span().ordered()
    &&& x.span().end <= end
    &&& match x {
        ExprView::Literal(..) | ExprView::String(..) | ExprView::Null(..) => true,
        ExprView::ArrayLiteral { elems, span } => exprs_placed(end, elems) && exprs_inside(
            span,
            elems,
        ),
        ExprView::ObjectLiteral { fields, span, .. } => named_placed(end, fields) && named_inside(
            span,
            fields,
        ),
        ExprView::TupleLiteral { elems, span } => elems_placed(end, elems) && elems_inside(
            span,
            elems,
        ),
        ExprView::Index { base, index, span } => expr_inside(span, *base) && expr_placed(end, *base)
            && expr_inside(span, *index) && expr_placed(end, *index),
        ExprView::Field { base, span, .. } => expr_inside(span, *base) && expr_placed(end, *base),
        ExprView::TupleIndex { base, span, .. } => expr_inside(span, *base) && expr_placed(
            end,
            *base,
        ),
        ExprView::Var { .. } => true,
        ExprView::Call { callee_span, type_args_span, args, span, .. } => callee_span.ordered()
            && maybe_ordered(type_args_span) && exprs_placed(end, args) && exprs_inside(span, args),
        ExprView::Unary { rhs, span, .. } => expr_inside(span, *rhs) && expr_placed(end, *rhs),
        ExprView::Binary { lhs, rhs, span, .. } => span == lhs.span().joined(rhs.span())
            && expr_placed(end, *lhs) && expr_placed(end, *rhs),
        ExprView::Cast { inner, span, .. } => expr_inside(span, *inner) && expr_placed(end, *inner),
    }
}

/// Whether an expression lies inside a span.
pub open spec fn expr_inside(span: Span, x: ExprView) -> bool {
    span.start <= x.span().start && x.span().end <= span.end
}

/// Whether expressions lie inside a span.
pub open spec fn exprs_inside(span: Span, xs: Seq<ExprView>) -> bool {
    forall|i: int| 0 <= i < xs.len() ==> expr_inside(span, #[trigger] xs[i])
}

/// Whether the values of fields lie inside a span.
pub open spec fn named_inside(span: Span, xs: Seq<(Seq<char>, Span, ExprView)>) -> bool {
    forall|i: int| 0 <= i < xs.len() ==> expr_inside(span, (#[trigger] xs[i]).2)
}

/// Whether the elements of a tuple lie inside a span.
pub open spec fn elems_inside(span: Span, xs: Seq<(Option<Seq<char>>, Span, ExprView)>) -> bool {
    forall|i: int| 0 <= i < xs.len() ==> expr_inside(span, (#[trigger] xs[i]).2)
}

/// Whether a place, where there is one, starts no later than it ends.
pub open spec fn maybe_ordered(span: Option<Span>) -> bool {
    match span {
        Some(s) => s.ordered(),
        None => true,
    }
}

/// Whether the places in expressions start no later than they end.
#[verifier::opaque]
pub open spec fn exprs_placed(end: nat, xs: Seq<ExprView>) -> bool
    decreases xs,
{
    xs.len() == 0 || (exprs_placed(end, xs.drop_last()) && expr_placed(end, xs.last()))
}

/// Whether the places in the values of fields start no later than they end.
#[verifier::opaque]
pub open spec fn named_placed(end: nat, xs: Seq<(Seq<char>, Span, ExprView)>) -> bool
    decreases xs,
{
    xs.len() == 0 || (named_placed(end, xs.drop_last()) && expr_placed(end, xs.last().2))
}

/// Whether the places in the elements of a tuple start no later than they end.
#[verifier::opaque]
pub open spec fn elems_placed(end: nat, xs: Seq<(Option<Seq<char>>, Span, ExprView)>) -> bool
    decreases xs,
{
    xs.len() == 0 || (elems_placed(end, xs.drop_last()) && expr_placed(end, xs.last().2))
}

/// Whether the places of the names of a pattern start no later than they end.
pub open spec fn bindings_placed(bs: Seq<DestructureBindingView>) -> bool {
    forall|i: int| 0 <= i < bs.len() ==> (#[trigger] bs[i]).binding_span.ordered()
}

/// Whether the places of names start no later than they end.
pub open spec fn names_placed(ns: Seq<(Seq<char>, Span)>) -> bool {
    forall|i: int| 0 <= i < ns.len() ==> (#[trigger] ns[i]).1.ordered()
}

/// Whether the places that name resolution reports in a statement start no later
/// than they end.
#[verifier::opaque]
pub open spec fn stmt_placed(end: nat, x: StmtView) -> bool
    decreases x,
{
    match x {
        StmtView::Let { name_span, value, .. } => name_span.ordered() && expr_placed(end, value),
        StmtView::Assign { name_span, value, .. } => name_span.ordered() && expr_placed(end, value),
        StmtView::IndexAssign { array, index, value, .. } => expr_placed(end, *array)
            && expr_placed(end, *index) && expr_placed(end, *value),
        StmtView::FieldAssign { base, value, .. } => expr_placed(end, *base) && expr_placed(
            end,
            *value,
        ),
        StmtView::TupleAssign { base, value, .. } => expr_placed(end, *base) && expr_placed(
            end,
            *value,
        ),
        StmtView::Destructure { bindings, value, .. } => bindings_placed(bindings) && expr_placed(
            end,
            value,
        ),
        StmtView::If { condition, then_body, else_body, .. } => expr_placed(end, condition)
            && stmts_placed(end, then_body) && (match else_body {
            Some(b) => stmts_placed(end, b),
            None => true,
        }),
        StmtView::Match { scrutinee, arms, else_body, .. } => expr_placed(end, scrutinee)
            && arms_placed(end, arms) && (match else_body {
            Some(b) => stmts_placed(end, b),
            None => true,
        }),
        StmtView::While { condition, body, .. } => expr_placed(end, condition) && stmts_placed(
            end,
            body,
        ),
        StmtView::Break { span } => span.ordered(),
        StmtView::Continue { span } => span.ordered(),
        StmtView::Return { value, .. } => match value {
            Some(v) => expr_placed(end, v),
            None => true,
        },
        StmtView::Expr(e) => expr_placed(end, e),
    }
}

/// Whether the places in statements start no later than they end.
#[verifier::opaque]
pub open spec fn stmts_placed(end: nat, xs: Seq<StmtView>) -> bool
    decreases xs,
{
    xs.len() == 0 || (stmts_placed(end, xs.drop_last()) && stmt_placed(end, xs.last()))
}

/// Whether the places in match arms start no later than they end.
#[verifier::opaque]
pub open spec fn arms_placed(end: nat, xs: Seq<MatchArmView>) -> bool
    decreases xs,
{
    xs.len() == 0 || (arms_placed(end, xs.drop_last()) && xs.last().path_span.ordered()
        && names_placed(xs.last().bindings) && stmts_placed(end, xs.last().body))
}

/// Whether the places of parameters start no later than they end.
pub open spec fn params_placed(ps: Seq<ParamView>) -> bool {
    forall|i: int| 0 <= i < ps.len() ==> (#[trigger] ps[i]).name_span.ordered()
}

/// Whether the places in a function start no later than they end.
pub open spec fn function_placed(end: nat, f: FunctionDeclView) -> bool {
    &&& f.name_span.ordered()
    &&& params_placed(f.params)
    &&& stmts_placed(end, f.body)
    &&& f.span.ordered()
}

/// Whether the places in functions start no later than they end.
pub open spec fn functions_placed(end: nat, fs: Seq<FunctionDeclView>) -> bool {
    forall|i: int| 0 <= i < fs.len() ==> function_placed(end, #[trigger] fs[i])
}

/// Whether the places that name resolution reports in an item start no later
/// than they end.
pub open spec fn item_placed(end: nat, x: ItemView) -> bool {
    match x {
        ItemView::Use { span, .. } => span.ordered(),
        ItemView::Object { name_span, methods, .. } => name_span.ordered() && functions_placed(
            end,
            methods,
        ),
        ItemView::Union { name_span, .. } => name_span.ordered(),
        ItemView::Let { name_span, value, .. } => name_span.ordered() && expr_placed(end, value),
        ItemView::Destructure { bindings, value, .. } => bindings_placed(bindings) && expr_placed(
            end,
            value,
        ),
        ItemView::Function { name_span, params, body, span, .. } => name_span.ordered()
            && params_placed(params) && stmts_placed(end, body) && span.ordered(),
    }
}

/// Whether the places in items start no later than they end.
pub open spec fn items_placed(end: nat, xs: Seq<ItemView>) -> bool {
    forall|i: int| 0 <= i < xs.len() ==> item_placed(end, #[trigger] xs[i])
}

// ---------------------------------------------------------------------------
// One step of each predicate
// ---------------------------------------------------------------------------

/// Nothing is placed.
pub proof fn nothing_placed(end: nat)
    ensures
        exprs_placed(end, Seq::empty()),
        named_placed(end, Seq::empty()),
        elems_placed(end, Seq::empty()),
        stmts_placed(end, Seq::empty()),
        arms_placed(end, Seq::empty()),
{
    reveal(expr_placed);
    reveal(exprs_placed);
    reveal(named_placed);
    reveal(elems_placed);
    reveal(stmt_placed);
    reveal(stmts_placed);
    reveal(arms_placed);
}

/// What is placed with one more at the end.
pub broadcast proof fn exprs_placed_push(end: nat, xs: Seq<ExprView>, x: ExprView)
    ensures
        #[trigger] exprs_placed(end, xs.push(x)) == (exprs_placed(end, xs) && expr_placed(end, x)),
{
    reveal(expr_placed);
    reveal(exprs_placed);
    reveal(named_placed);
    reveal(elems_placed);
    assert(xs.push(x).drop_last() =~= xs);
}

/// What is placed with one more at the end.
pub broadcast proof fn named_placed_push(end: nat, xs: Seq<(Seq<char>, Span, ExprView)>, x: (Seq<char>, Span, ExprView))
    ensures
        #[trigger] named_placed(end, xs.push(x)) == (named_placed(end, xs) && expr_placed(end, x.2)),
{
    reveal(expr_placed);
    reveal(exprs_placed);
    reveal(named_placed);
    reveal(elems_placed);
    assert(xs.push(x).drop_last() =~= xs);
}

/// What is placed with one more at the end.
pub broadcast proof fn elems_placed_push(
    end: nat,
    xs: Seq<(Option<Seq<char>>, Span, ExprView)>,
    x: (Option<Seq<char>>, Span, ExprView),
)
    ensures
        #[trigger] elems_placed(end, xs.push(x)) == (elems_placed(end, xs) && expr_placed(end, x.2)),
{
    reveal(expr_placed);
    reveal(exprs_placed);
    reveal(named_placed);
    reveal(elems_placed);
    assert(xs.push(x).drop_last() =~= xs);
}

/// What is placed with one more at the end.
pub broadcast proof fn stmts_placed_push(end: nat, xs: Seq<StmtView>, x: StmtView)
    ensures
        #[trigger] stmts_placed(end, xs.push(x)) == (stmts_placed(end, xs) && stmt_placed(end, x)),
{
    reveal(stmt_placed);
    reveal(stmts_placed);
    reveal(arms_placed);
    assert(xs.push(x).drop_last() =~= xs);
}

/// What is placed with one more at the end.
pub broadcast proof fn arms_placed_push(end: nat, xs: Seq<MatchArmView>, x: MatchArmView)
    ensures
        #[trigger] arms_placed(end, xs.push(x)) == (
            arms_placed(end, xs) && x.path_span.ordered() && names_placed(x.bindings)
            && stmts_placed(end, x.body)),
{
    reveal(stmt_placed);
    reveal(stmts_placed);
    reveal(arms_placed);
    assert(xs.push(x).drop_last() =~= xs);
}

/// What a tree of this form needs.
pub broadcast proof fn literal_placed(end: nat, v: Scalar, span: Span)
    ensures
        #[trigger] expr_placed(end, ExprView::Literal(v, span)) == (span.ordered() && span.end <= end),
{
    reveal(expr_placed);
    reveal(exprs_placed);
    reveal(named_placed);
    reveal(elems_placed);
}

/// What a tree of this form needs.
pub broadcast proof fn text_placed(end: nat, v: Seq<u8>, span: Span)
    ensures
        #[trigger] expr_placed(end, ExprView::String(v, span)) == (span.ordered() && span.end <= end),
{
    reveal(expr_placed);
    reveal(exprs_placed);
    reveal(named_placed);
    reveal(elems_placed);
}

/// What a tree of this form needs.
pub broadcast proof fn null_placed(end: nat, span: Span)
    ensures
        #[trigger] expr_placed(end, ExprView::Null(span)) == (span.ordered() && span.end <= end),
{
    reveal(expr_placed);
    reveal(exprs_placed);
    reveal(named_placed);
    reveal(elems_placed);
}

/// What a tree of this form needs.
pub broadcast proof fn array_placed(end: nat, elems: Seq<ExprView>, span: Span)
    ensures
        #[trigger] expr_placed(end, ExprView::ArrayLiteral { elems, span }) == (span.ordered() && span.end <= end
            && exprs_placed(end, elems) && exprs_inside(span, elems)),
{
    reveal(expr_placed);
    reveal(exprs_placed);
    reveal(named_placed);
    reveal(elems_placed);
}

/// What a tree of this form needs.
pub broadcast proof fn object_placed(
    end: nat,
    name: Seq<char>,
    name_span: Span,
    fields: Seq<(Seq<char>, Span, ExprView)>,
    span: Span,
)
    ensures
        #[trigger] expr_placed(end, ExprView::ObjectLiteral { name, name_span, fields, span }) == (
            span.ordered() && span.end <= end && named_placed(end, fields) && named_inside(span, fields)),
{
    reveal(expr_placed);
    reveal(exprs_placed);
    reveal(named_placed);
    reveal(elems_placed);
}

/// What a tree of this form needs.
pub broadcast proof fn tuple_placed(end: nat, elems: Seq<(Option<Seq<char>>, Span, ExprView)>, span: Span)
    ensures
        #[trigger] expr_placed(end, ExprView::TupleLiteral { elems, span }) == (span.ordered() && span.end <= end
            && elems_placed(end, elems) && elems_inside(span, elems)),
{
    reveal(expr_placed);
    reveal(exprs_placed);
    reveal(named_placed);
    reveal(elems_placed);
}

/// What a tree of this form needs.
pub broadcast proof fn index_placed(end: nat, base: Box<ExprView>, index: Box<ExprView>, span: Span)
    ensures
        #[trigger] expr_placed(end, ExprView::Index { base, index, span }) == (span.ordered() && span.end <= end
            && expr_inside(span, *base) && expr_placed(end, *base) && expr_inside(span, *index)
            && expr_placed(end, *index)),
{
    reveal(expr_placed);
    reveal(exprs_placed);
    reveal(named_placed);
    reveal(elems_placed);
}

/// What a tree of this form needs.
pub broadcast proof fn field_placed(end: nat, base: Box<ExprView>, name: Seq<char>, span: Span)
    ensures
        #[trigger] expr_placed(end, ExprView::Field { base, name, span }) == (span.ordered() && span.end <= end
            && expr_inside(span, *base) && expr_placed(end, *base)),
{
    reveal(expr_placed);
    reveal(exprs_placed);
    reveal(named_placed);
    reveal(elems_placed);
}

/// What a tree of this form needs.
pub broadcast proof fn tuple_index_placed(end: nat, base: Box<ExprView>, index: usize, index_span: Span, span: Span)
    ensures
        #[trigger] expr_placed(end, ExprView::TupleIndex { base, index, index_span, span }) == (
            span.ordered() && span.end <= end && expr_inside(span, *base) && expr_placed(end, *base)),
{
    reveal(expr_placed);
    reveal(exprs_placed);
    reveal(named_placed);
    reveal(elems_placed);
}

/// What a tree of this form needs.
pub broadcast proof fn var_placed(end: nat, path: Seq<Seq<char>>, span: Span)
    ensures
        #[trigger] expr_placed(end, ExprView::Var { path, span }) == (span.ordered() && span.end <= end),
{
    reveal(expr_placed);
    reveal(exprs_placed);
    reveal(named_placed);
    reveal(elems_placed);
}

/// What a tree of this form needs.
pub broadcast proof fn call_placed(
    end: nat,
    callee: Seq<Seq<char>>,
    callee_span: Span,
    type_args: Seq<TypeView>,
    type_args_span: Option<Span>,
    args: Seq<ExprView>,
    span: Span,
)
    ensures
        #[trigger] expr_placed(end, ExprView::Call { callee, callee_span, type_args, type_args_span, args, span }) == (
            span.ordered() && span.end <= end && callee_span.ordered() && maybe_ordered(type_args_span)
            && exprs_placed(end, args) && exprs_inside(span, args)),
{
    reveal(expr_placed);
    reveal(exprs_placed);
    reveal(named_placed);
    reveal(elems_placed);
}

/// What a tree of this form needs.
pub broadcast proof fn unary_placed(end: nat, op: UnOp, rhs: Box<ExprView>, span: Span)
    ensures
        #[trigger] expr_placed(end, ExprView::Unary { op, rhs, span }) == (span.ordered() && span.end <= end
            && expr_inside(span, *rhs) && expr_placed(end, *rhs)),
{
    reveal(expr_placed);
    reveal(exprs_placed);
    reveal(named_placed);
    reveal(elems_placed);
}

/// What a tree of this form needs.
pub broadcast proof fn binary_placed(end: nat, op: BinOp, lhs: Box<ExprView>, rhs: Box<ExprView>, span: Span)
    ensures
        #[trigger] expr_placed(end, ExprView::Binary { op, lhs, rhs, span }) == (span.ordered() && span.end <= end
            && span == lhs.span().joined(rhs.span()) && expr_placed(end, *lhs) && expr_placed(
            end,
            *rhs,
        )),
{
    reveal(expr_placed);
    reveal(exprs_placed);
    reveal(named_placed);
    reveal(elems_placed);
}

/// What a tree of this form needs.
pub broadcast proof fn cast_placed(end: nat, inner: Box<ExprView>, target: TypeView, target_span: Span, span: Span)
    ensures
        #[trigger] expr_placed(end, ExprView::Cast { inner, target, target_span, span }) == (
            span.ordered() && span.end <= end && expr_inside(span, *inner) && expr_placed(end, *inner)),
{
    reveal(expr_placed);
    reveal(exprs_placed);
    reveal(named_placed);
    reveal(elems_placed);
}

/// What a tree of this form needs.
pub broadcast proof fn let_placed(
    end: nat,
    name: Seq<char>,
    name_span: Span,
    kind: BindingKind,
    ty: Option<TypeView>,
    ty_span: Option<Span>,
    value: ExprView,
    span: Span,
)
    ensures
        #[trigger] stmt_placed(
            end,
            StmtView::Let { name, name_span, kind, ty, ty_span, value, span },
        ) == (name_span.ordered() && expr_placed(end, value)),
{
    reveal(stmt_placed);
    reveal(stmts_placed);
    reveal(arms_placed);
}

/// What a tree of this form needs.
pub broadcast proof fn assign_placed(end: nat, name: Seq<char>, name_span: Span, value: ExprView, span: Span)
    ensures
        #[trigger] stmt_placed(end, StmtView::Assign { name, name_span, value, span }) == (
            name_span.ordered() && expr_placed(end, value)),
{
    reveal(stmt_placed);
    reveal(stmts_placed);
    reveal(arms_placed);
}

/// What a tree of this form needs.
pub broadcast proof fn index_assign_placed(
    end: nat,
    array: Box<ExprView>,
    index: Box<ExprView>,
    value: Box<ExprView>,
    span: Span,
)
    ensures
        #[trigger] stmt_placed(end, StmtView::IndexAssign { array, index, value, span }) == (
            expr_placed(end, *array) && expr_placed(end, *index)
            && expr_placed(end, *value)),
{
    reveal(stmt_placed);
    reveal(stmts_placed);
    reveal(arms_placed);
}

/// What a tree of this form needs.
pub broadcast proof fn field_assign_placed(
    end: nat,
    base: Box<ExprView>,
    field: Seq<char>,
    field_span: Span,
    value: Box<ExprView>,
    span: Span,
)
    ensures
        #[trigger] stmt_placed(end, StmtView::FieldAssign { base, field, field_span, value, span }) == (
            expr_placed(end, *base) && expr_placed(end, *value)),
{
    reveal(stmt_placed);
    reveal(stmts_placed);
    reveal(arms_placed);
}

/// What a tree of this form needs.
pub broadcast proof fn tuple_assign_placed(
    end: nat,
    base: Box<ExprView>,
    index: usize,
    index_span: Span,
    value: Box<ExprView>,
    span: Span,
)
    ensures
        #[trigger] stmt_placed(end, StmtView::TupleAssign { base, index, index_span, value, span }) == (
            expr_placed(end, *base) && expr_placed(end, *value)),
{
    reveal(stmt_placed);
    reveal(stmts_placed);
    reveal(arms_placed);
}

/// What a tree of this form needs.
pub broadcast proof fn destructure_placed(
    end: nat,
    bindings: Seq<DestructureBindingView>,
    kind: BindingKind,
    ty: Option<TypeView>,
    ty_span: Option<Span>,
    value: ExprView,
    span: Span,
)
    ensures
        #[trigger] stmt_placed(
            end,
            StmtView::Destructure { bindings, kind, ty, ty_span, value, span },
        ) == (bindings_placed(bindings) && expr_placed(end, value)),
{
    reveal(stmt_placed);
    reveal(stmts_placed);
    reveal(arms_placed);
}

/// What a tree of this form needs.
pub broadcast proof fn if_placed(
    end: nat,
    condition: ExprView,
    then_body: Seq<StmtView>,
    else_body: Option<Seq<StmtView>>,
    span: Span,
)
    ensures
        #[trigger] stmt_placed(end, StmtView::If { condition, then_body, else_body, span }) == (
            expr_placed(end, condition)
            && stmts_placed(end, then_body) && (else_body is Some ==> stmts_placed(end, else_body->0))),
{
    reveal(stmt_placed);
    reveal(stmts_placed);
    reveal(arms_placed);
}

/// What a tree of this form needs.
pub broadcast proof fn match_placed(
    end: nat,
    scrutinee: ExprView,
    arms: Seq<MatchArmView>,
    else_body: Option<Seq<StmtView>>,
    span: Span,
)
    ensures
        #[trigger] stmt_placed(end, StmtView::Match { scrutinee, arms, else_body, span }) == (
            expr_placed(end, scrutinee)
            && arms_placed(end, arms) && (else_body is Some ==> stmts_placed(end, else_body->0))),
{
    reveal(stmt_placed);
    reveal(stmts_placed);
    reveal(arms_placed);
}

/// What a tree of this form needs.
pub broadcast proof fn while_placed(end: nat, condition: ExprView, body: Seq<StmtView>, span: Span)
    ensures
        #[trigger] stmt_placed(end, StmtView::While { condition, body, span }) == (expr_placed(end, condition)
            && stmts_placed(end, body)),
{
    reveal(stmt_placed);
    reveal(stmts_placed);
    reveal(arms_placed);
}

/// What a tree of this form needs.
pub broadcast proof fn break_placed(end: nat, span: Span)
    ensures
        #[trigger] stmt_placed(end, StmtView::Break { span }) == (span.ordered()),
{
    reveal(stmt_placed);
    reveal(stmts_placed);
    reveal(arms_placed);
}

/// What a tree of this form needs.
pub broadcast proof fn continue_placed(end: nat, span: Span)
    ensures
        #[trigger] stmt_placed(end, StmtView::Continue { span }) == (span.ordered()),
{
    reveal(stmt_placed);
    reveal(stmts_placed);
    reveal(arms_placed);
}

/// What a tree of this form needs.
pub broadcast proof fn return_placed(end: nat, value: Option<ExprView>, span: Span)
    ensures
        #[trigger] stmt_placed(end, StmtView::Return { value, span }) == (
            value is Some ==> expr_placed(end, value->0)),
{
    reveal(stmt_placed);
    reveal(stmts_placed);
    reveal(arms_placed);
}

/// What a tree of this form needs.
pub broadcast proof fn expr_stmt_placed(end: nat, e: ExprView)
    ensures
        #[trigger] stmt_placed(end, StmtView::Expr(e)) == (expr_placed(end, e)),
{
    reveal(stmt_placed);
    reveal(stmts_placed);
    reveal(arms_placed);
}

/// One step into an expression.
pub broadcast group group_exprs_placed {
    exprs_placed_push,
    named_placed_push,
    elems_placed_push,
    literal_placed,
    text_placed,
    null_placed,
    array_placed,
    object_placed,
    tuple_placed,
    index_placed,
    field_placed,
    tuple_index_placed,
    var_placed,
    call_placed,
    unary_placed,
    binary_placed,
    cast_placed,
}

/// One step into a statement.
pub broadcast group group_stmts_placed {
    stmts_placed_push,
    arms_placed_push,
    let_placed,
    assign_placed,
    index_assign_placed,
    field_assign_placed,
    tuple_assign_placed,
    destructure_placed,
    if_placed,
    match_placed,
    while_placed,
    break_placed,
    continue_placed,
    return_placed,
    expr_stmt_placed,
}

// ---------------------------------------------------------------------------
// Nesting
// ---------------------------------------------------------------------------

/// Whether an expression is a direct part of another.
pub open spec fn is_part(x: ExprView, y: ExprView) -> bool {
    match x {
        ExprView::Literal(..)
        | ExprView::String(..)
        | ExprView::Null(..)
        | ExprView::Var { .. } => false,
        ExprView::ArrayLiteral { elems, .. } => exists|i: int|
            0 <= i < elems.len() && #[trigger] elems[i] == y,
        ExprView::ObjectLiteral { fields, .. } => exists|i: int|
            0 <= i < fields.len() && (#[trigger] fields[i]).2 == y,
        ExprView::TupleLiteral { elems, .. } => exists|i: int|
            0 <= i < elems.len() && (#[trigger] elems[i]).2 == y,
        ExprView::Index { base, index, .. } => y == *base || y == *index,
        ExprView::Field { base, .. } => y == *base,
        ExprView::TupleIndex { base, .. } => y == *base,
        ExprView::Call { args, .. } => exists|i: int|
            0 <= i < args.len() && #[trigger] args[i] == y,
        ExprView::Unary { rhs, .. } => y == *rhs,
        ExprView::Binary { lhs, rhs, .. } => y == *lhs || y == *rhs,
        ExprView::Cast { inner, .. } => y == *inner,
    }
}

proof fn one_of_exprs(end: nat, xs: Seq<ExprView>, i: int)
    requires
        exprs_placed(end, xs),
        0 <= i < xs.len(),
    ensures
        expr_placed(end, xs[i]),
    decreases xs.len(),
{
    exprs_placed_push(end, xs.drop_last(), xs.last());
    assert(xs.drop_last().push(xs.last()) =~= xs);
    if i < xs.len() - 1 {
        one_of_exprs(end, xs.drop_last(), i);
    }
}

proof fn one_of_named(end: nat, xs: Seq<(Seq<char>, Span, ExprView)>, i: int)
    requires
        named_placed(end, xs),
        0 <= i < xs.len(),
    ensures
        expr_placed(end, xs[i].2),
    decreases xs.len(),
{
    named_placed_push(end, xs.drop_last(), xs.last());
    assert(xs.drop_last().push(xs.last()) =~= xs);
    if i < xs.len() - 1 {
        one_of_named(end, xs.drop_last(), i);
    }
}

proof fn one_of_elems(end: nat, xs: Seq<(Option<Seq<char>>, Span, ExprView)>, i: int)
    requires
        elems_placed(end, xs),
        0 <= i < xs.len(),
    ensures
        expr_placed(end, xs[i].2),
    decreases xs.len(),
{
    elems_placed_push(end, xs.drop_last(), xs.last());
    assert(xs.drop_last().push(xs.last()) =~= xs);
    if i < xs.len() - 1 {
        one_of_elems(end, xs.drop_last(), i);
    }
}

/// An expression whose parts are placed starts no later than it ends, ends no
/// later than the text, and lies around each of its direct parts, of which the
/// same holds. A binary expression reaches exactly from one operand to the other.
pub proof fn placed_expressions_nest(end: nat, x: ExprView, y: ExprView)
    requires
        expr_placed(end, x),
    ensures
        x.span().ordered(),
        x.span().end <= end,
        is_part(x, y) ==> expr_inside(x.span(), y) && expr_placed(end, y),
        x matches ExprView::Binary { lhs, rhs, .. } ==> x.span() == lhs.span().joined(rhs.span()),
{
    reveal(expr_placed);
    reveal(exprs_placed);
    reveal(named_placed);
    reveal(elems_placed);
    if is_part(x, y) {
        match x {
            ExprView::ArrayLiteral { elems, .. } => {
                let i = choose|i: int| 0 <= i < elems.len() && #[trigger] elems[i] == y;
                one_of_exprs(end, elems, i);
            },
            ExprView::ObjectLiteral { fields, .. } => {
                let i = choose|i: int| 0 <= i < fields.len() && (#[trigger] fields[i]).2 == y;
                one_of_named(end, fields, i);
            },
            ExprView::TupleLiteral { elems, .. } => {
                let i = choose|i: int| 0 <= i < elems.len() && (#[trigger] elems[i]).2 == y;
                one_of_elems(end, elems, i);
            },
            ExprView::Call { args, .. } => {
                let i = choose|i: int| 0 <= i < args.len() && #[trigger] args[i] == y;
                one_of_exprs(end, args, i);
            },
            _ => {},
        }
    }
}

// ---------------------------------------------------------------------------
// The expressions of a tree
// ---------------------------------------------------------------------------

/// Whether an expression is another one or stands in it, at any depth.
pub open spec fn expr_holds(x: ExprView, e: ExprView) -> bool
    decreases x,
{
    ||| x == e
    ||| match x {
        ExprView::Literal(..)
        | ExprView::String(..)
        | ExprView::Null(..)
        | ExprView::Var { .. } => false,
        ExprView::ArrayLiteral { elems, .. } => exprs_hold(elems, e),
        ExprView::ObjectLiteral { fields, .. } => named_hold(fields, e),
        ExprView::TupleLiteral { elems, .. } => elems_hold(elems, e),
        ExprView::Index { base, index, .. } => expr_holds(*base, e) || expr_holds(*index, e),
        ExprView::Field { base, .. } => expr_holds(*base, e),
        ExprView::TupleIndex { base, .. } => expr_holds(*base, e),
        ExprView::Call { args, .. } => exprs_hold(args, e),
        ExprView::Unary { rhs, .. } => expr_holds(*rhs, e),
        ExprView::Binary { lhs, rhs, .. } => expr_holds(*lhs, e) || expr_holds(*rhs, e),
        ExprView::Cast { inner, .. } => expr_holds(*inner, e),
    }
}

/// Whether an expression stands in one of several.
pub open spec fn exprs_hold(xs: Seq<ExprView>, e: ExprView) -> bool
    decreases xs,
{
    xs.len() > 0 && (exprs_hold(xs.drop_last(), e) || expr_holds(xs.last(), e))
}

/// Whether an expression stands in the value of a field.
pub open spec fn named_hold(xs: Seq<(Seq<char>, Span, ExprView)>, e: ExprView) -> bool
    decreases xs,
{
    xs.len() > 0 && (named_hold(xs.drop_last(), e) || expr_holds(xs.last().2, e))
}

/// Whether an expression stands in an element of a tuple.
pub open spec fn elems_hold(xs: Seq<(Option<Seq<char>>, Span, ExprView)>, e: ExprView) -> bool
    decreases xs,
{
    xs.len() > 0 && (elems_hold(xs.drop_last(), e) || expr_holds(xs.last().2, e))
}

/// Whether an expression stands in a statement.
pub open spec fn stmt_holds(x: StmtView, e: ExprView) -> bool
    decreases x,
{
    match x {
        StmtView::Let { value, .. } => expr_holds(value, e),
        StmtView::Assign { value, .. } => expr_holds(value, e),
        StmtView::IndexAssign { array, index, value, .. } => expr_holds(*array, e) || expr_holds(
            *index,
            e,
        ) || expr_holds(*value, e),
        StmtView::FieldAssign { base, value, .. } => expr_holds(*base, e) || expr_holds(*value, e),
        StmtView::TupleAssign { base, value, .. } => expr_holds(*base, e) || expr_holds(*value, e),
        StmtView::Destructure { value, .. } => expr_holds(value, e),
        StmtView::If { condition, then_body, else_body, .. } => expr_holds(condition, e)
            || stmts_hold(then_body, e) || (match else_body {
            Some(b) => stmts_hold(b, e),
            None => false,
        }),
        StmtView::Match { scrutinee, arms, else_body, .. } => expr_holds(scrutinee, e) || arms_hold(
            arms,
            e,
        ) || (match else_body {
            Some(b) => stmts_hold(b, e),
            None => false,
        }),
        StmtView::While { condition, body, .. } => expr_holds(condition, e) || stmts_hold(body, e),
        StmtView::Break { .. } | StmtView::Continue { .. } => false,
        StmtView::Return { value, .. } => match value {
            Some(v) => expr_holds(v, e),
            None => false,
        },
        StmtView::Expr(v) => expr_holds(v, e),
    }
}

/// Whether an expression stands in one of several statements.
pub open spec fn stmts_hold(xs: Seq<StmtView>, e: ExprView) -> bool
    decreases xs,
{
    xs.len() > 0 && (stmts_hold(xs.drop_last(), e) || stmt_holds(xs.last(), e))
}

/// Whether an expression stands in a match arm.
pub open spec fn arms_hold(xs: Seq<MatchArmView>, e: ExprView) -> bool
    decreases xs,
{
    xs.len() > 0 && (arms_hold(xs.drop_last(), e) || stmts_hold(xs.last().body, e))
}

/// Whether an expression stands in an item.
pub open spec fn item_holds(x: ItemView, e: ExprView) -> bool {
    match x {
        ItemView::Use { .. } | ItemView::Union { .. } => false,
        ItemView::Object { methods, .. } => exists|i: int|
            0 <= i < methods.len() && stmts_hold((#[trigger] methods[i]).body, e),
        ItemView::Let { value, .. } => expr_holds(value, e),
        ItemView::Destructure { value, .. } => expr_holds(value, e),
        ItemView::Function { body, .. } => stmts_hold(body, e),
    }
}

/// Whether an expression stands in one of several items.
pub open spec fn items_hold(xs: Seq<ItemView>, e: ExprView) -> bool {
    exists|i: int| 0 <= i < xs.len() && item_holds(#[trigger] xs[i], e)
}

proof fn expr_held(end: nat, x: ExprView, e: ExprView)
    requires
        expr_placed(end, x),
        expr_holds(x, e),
    ensures
        expr_placed(end, e),
    decreases x,
{
    reveal(expr_placed);
    reveal(exprs_placed);
    reveal(named_placed);
    reveal(elems_placed);
    if x != e {
        match x {
            ExprView::ArrayLiteral { elems, .. } => exprs_held(end, elems, e),
            ExprView::ObjectLiteral { fields, .. } => named_held(end, fields, e),
            ExprView::TupleLiteral { elems, .. } => elems_held(end, elems, e),
            ExprView::Index { base, index, .. } => {
                if expr_holds(*base, e) {
                    expr_held(end, *base, e);
                } else {
                    expr_held(end, *index, e);
                }
            },
            ExprView::Field { base, .. } => expr_held(end, *base, e),
            ExprView::TupleIndex { base, .. } => expr_held(end, *base, e),
            ExprView::Call { args, .. } => exprs_held(end, args, e),
            ExprView::Unary { rhs, .. } => expr_held(end, *rhs, e),
            ExprView::Binary { lhs, rhs, .. } => {
                if expr_holds(*lhs, e) {
                    expr_held(end, *lhs, e);
                } else {
                    expr_held(end, *rhs, e);
                }
            },
            ExprView::Cast { inner, .. } => expr_held(end, *inner, e),
            _ => {},
        }
    }
}

proof fn exprs_held(end: nat, xs: Seq<ExprView>, e: ExprView)
    requires
        exprs_placed(end, xs),
        exprs_hold(xs, e),
    ensures
        expr_placed(end, e),
    decreases xs,
{
    reveal(expr_placed);
    reveal(exprs_placed);
    reveal(named_placed);
    reveal(elems_placed);
    if exprs_hold(xs.drop_last(), e) {
        exprs_held(end, xs.drop_last(), e);
    } else {
        expr_held(end, xs.last(), e);
    }
}

proof fn named_held(end: nat, xs: Seq<(Seq<char>, Span, ExprView)>, e: ExprView)
    requires
        named_placed(end, xs),
        named_hold(xs, e),
    ensures
        expr_placed(end, e),
    decreases xs,
{
    reveal(expr_placed);
    reveal(exprs_placed);
    reveal(named_placed);
    reveal(elems_placed);
    if named_hold(xs.drop_last(), e) {
        named_held(end, xs.drop_last(), e);
    } else {
        expr_held(end, xs.last().2, e);
    }
}

proof fn elems_held(end: nat, xs: Seq<(Option<Seq<char>>, Span, ExprView)>, e: ExprView)
    requires
        elems_placed(end, xs),
        elems_hold(xs, e),
    ensures
        expr_placed(end, e),
    decreases xs,
{
    reveal(expr_placed);
    reveal(exprs_placed);
    reveal(named_placed);
    reveal(elems_placed);
    if elems_hold(xs.drop_last(), e) {
        elems_held(end, xs.drop_last(), e);
    } else {
        expr_held(end, xs.last().2, e);
    }
}

proof fn either_held(end: nat, x: ExprView, y: ExprView, e: ExprView)
    requires
        expr_placed(end, x),
        expr_placed(end, y),
        expr_holds(x, e) || expr_holds(y, e),
    ensures
        expr_placed(end, e),
{
    if expr_holds(x, e) {
        expr_held(end, x, e);
    } else {
        expr_held(end, y, e);
    }
}

proof fn stmt_held(end: nat, x: StmtView, e: ExprView)
    requires
        stmt_placed(end, x),
        stmt_holds(x, e),
    ensures
        expr_placed(end, e),
    decreases x,
{
    reveal(stmt_placed);
    reveal(stmts_placed);
    reveal(arms_placed);
    match x {
        StmtView::Let { value, .. } => expr_held(end, value, e),
        StmtView::Assign { value, .. } => expr_held(end, value, e),
        StmtView::IndexAssign { array, index, value, .. } => {
            if expr_holds(*array, e) {
                expr_held(end, *array, e);
            } else {
                either_held(end, *index, *value, e);
            }
        },
        StmtView::FieldAssign { base, value, .. } => either_held(end, *base, *value, e),
        StmtView::TupleAssign { base, value, .. } => either_held(end, *base, *value, e),
        StmtView::Destructure { value, .. } => expr_held(end, value, e),
        StmtView::If { condition, then_body, else_body, .. } => {
            if expr_holds(condition, e) {
                expr_held(end, condition, e);
            } else if stmts_hold(then_body, e) {
                stmts_held(end, then_body, e);
            } else {
                stmts_held(end, else_body->0, e);
            }
        },
        StmtView::Match { scrutinee, arms, else_body, .. } => {
            if expr_holds(scrutinee, e) {
                expr_held(end, scrutinee, e);
            } else if arms_hold(arms, e) {
                arms_held(end, arms, e);
            } else {
                stmts_held(end, else_body->0, e);
            }
        },
        StmtView::While { condition, body, .. } => {
            if expr_holds(condition, e) {
                expr_held(end, condition, e);
            } else {
                stmts_held(end, body, e);
            }
        },
        StmtView::Return { value, .. } => expr_held(end, value->0, e),
        StmtView::Expr(v) => expr_held(end, v, e),
        _ => {},
    }
}

proof fn stmts_held(end: nat, xs: Seq<StmtView>, e: ExprView)
    requires
        stmts_placed(end, xs),
        stmts_hold(xs, e),
    ensures
        expr_placed(end, e),
    decreases xs,
{
    reveal(stmt_placed);
    reveal(stmts_placed);
    reveal(arms_placed);
    if stmts_hold(xs.drop_last(), e) {
        stmts_held(end, xs.drop_last(), e);
    } else {
        stmt_held(end, xs.last(), e);
    }
}

proof fn arms_held(end: nat, xs: Seq<MatchArmView>, e: ExprView)
    requires
        arms_placed(end, xs),
        arms_hold(xs, e),
    ensures
        expr_placed(end, e),
    decreases xs,
{
    reveal(stmt_placed);
    reveal(stmts_placed);
    reveal(arms_placed);
    if arms_hold(xs.drop_last(), e) {
        arms_held(end, xs.drop_last(), e);
    } else {
        stmts_held(end, xs.last().body, e);
    }
}

/// What is placed in a tree is placed in each expression that stands in it.
pub proof fn items_held(end: nat, xs: Seq<ItemView>, e: ExprView)
    requires
        items_placed(end, xs),
        items_hold(xs, e),
    ensures
        expr_placed(end, e),
{
    let i = choose|i: int| 0 <= i < xs.len() && item_holds(#[trigger] xs[i], e);
    match xs[i] {
        ItemView::Object { methods, .. } => {
            let k = choose|k: int|
                0 <= k < methods.len() && stmts_hold((#[trigger] methods[k]).body, e);
            stmts_held(end, methods[k].body, e);
        },
        ItemView::Let { value, .. } => expr_held(end, value, e),
        ItemView::Destructure { value, .. } => expr_held(end, value, e),
        ItemView::Function { body, .. } => stmts_held(end, body, e),
        _ => {},
    }
}

} // verus!
