//! Lowering to instructions keeps what a program means: running the code of a
//! function does what the function does.

use vstd::prelude::*;

use crate::ast::Scalar;
use crate::hir::{HirBinOp, HirExprView, HirId, HirItemView, HirProgramView, HirStmtView};
use crate::lir::{FuncSymbolView, InstrView, Reg};
use crate::lir_lowering::{Code, Context, GlobalLet};
use crate::meaning::{Event, Flow, Params, Run, Store, Types, Value, World};
use crate::module::SymbolView;
use crate::span::Span;
use crate::ty::TypeView;
use crate::typed::{TyView, TypedView};
use crate::{lir_lowering, meaning, scope, typed};

verus! {

// ---------------------------------------------------------------------------
// What types say
// ---------------------------------------------------------------------------

/// The type of a node, with type parameters replaced, where it is known.
pub open spec fn node_type(x: Context, id: HirId) -> Option<TyView> {
    if x.typed.types.dom().contains(id.0) && !(typed::substituted(x.typed.types[id.0], x.env)
        is Error) && typed::concrete(typed::substituted(x.typed.types[id.0], x.env)) {
        Some(typed::substituted(x.typed.types[id.0], x.env))
    } else {
        None
    }
}

/// The value of a literal of a type. One whose type the context decides wraps
/// around in an unsigned type.
pub open spec fn literal_value(v: Scalar, t: Option<TyView>) -> Value {
    match (v, t) {
        (Scalar::Int(n), Some(TyView::U64)) => Value::Num(n as int % 0x1_0000_0000_0000_0000),
        (Scalar::Int(n), Some(TyView::U8)) => Value::Num(n as int % 256),
        _ => meaning::plain(v),
    }
}

/// The instance that a call refers to, where it refers to one.
pub open spec fn instance_at(x: Context, id: HirId) -> Option<Seq<char>> {
    match x.outer {
        Some(outer) => if x.typed.inst_calls.dom().contains((outer, id.0)) {
            Some(x.typed.inst_calls[(outer, id.0)])
        } else {
            None
        },
        None => if x.typed.root_calls.dom().contains(id.0) {
            Some(x.typed.root_calls[id.0])
        } else {
            None
        },
    }
}

/// The function that a call goes to: of the module of the symbol, or else of the
/// module at hand, the instance, or else the function that is named.
pub open spec fn function_called(x: Context, id: HirId, name: Seq<char>, symbol: Option<SymbolView>) -> FuncSymbolView {
    FuncSymbolView {
        module: match symbol {
            Some(s) => scope::dotted(s.module),
            None => x.module,
        },
        function: match (instance_at(x, id), symbol) {
            (Some(i), _) => i,
            (None, Some(s)) => s.name,
            (None, None) => name,
        },
    }
}

/// Whether an expression has a value: the types of its nodes are known, and its
/// variables are there.
pub open spec fn has_value(x: Context, vars: Set<u32>, e: HirExprView) -> bool
    decreases e,
{
    &&& node_type(x, e.id()) is Some
    &&& match e {
        HirExprView::Var { def, .. } => def matches Some(d) && (vars.contains(d.0)
            || x.globals.dom().contains(d.0)),
        HirExprView::ArrayLiteral { id, elems, .. } => all_have(x, vars, elems)
            && typed::element_of(node_type(x, id)->0) is Some,
        HirExprView::ObjectLiteral { fields, .. } => fields_have(x, vars, fields),
        HirExprView::Index { base, index, .. } => has_value(x, vars, *base) && has_value(
            x,
            vars,
            *index,
        ) && typed::element_of(node_type(x, base.id())->0) is Some,
        HirExprView::Field { base, .. } => has_value(x, vars, *base),
        HirExprView::Call { id, name, args, .. } => all_have(x, vars, args) && (name
            == "Array.new"@ ==> args.len() == 1 && typed::element_of(node_type(x, id)->0) is Some),
        HirExprView::Binary { lhs, rhs, .. } => has_value(x, vars, *lhs) && has_value(
            x,
            vars,
            *rhs,
        ),
        HirExprView::Unary { inner, .. } => has_value(x, vars, *inner),
        HirExprView::Cast { inner, .. } => has_value(x, vars, *inner),
        _ => true,
    }
}

/// Whether each of several expressions has a value.
pub open spec fn all_have(x: Context, vars: Set<u32>, es: Seq<HirExprView>) -> bool
    decreases es,
{
    es.len() == 0 || (all_have(x, vars, es.drop_last()) && has_value(x, vars, es.last()))
}

/// Whether each of several fields has a value.
pub open spec fn fields_have(x: Context, vars: Set<u32>, es: Seq<(Seq<char>, HirExprView)>) -> bool
    decreases es,
{
    es.len() == 0 || (fields_have(x, vars, es.drop_last()) && has_value(x, vars, es.last().1))
}

/// Whether statements bind a variable that is there already.
pub open spec fn binds_again(xs: Seq<HirStmtView>, vars: Set<u32>) -> bool {
    exists|d: u32| vars.contains(d) && #[trigger] meaning::stmts_bind(xs, d)
}

/// What the types of a module say about the nodes of a body. A loop has a meaning
/// where its body binds no variable that is there already, as no loop of a
/// resolved module does.
pub open spec fn types_in(x: Context) -> Types {
    Types {
        known: |id: HirId| node_type(x, id) is Some,
        literal: |id: HirId, v: Scalar| literal_value(v, node_type(x, id)),
        shares: |id: HirId|
            {
                let t = typed::erased(node_type(x, id)->0);
                !(t is Object) && !(t is Array)
            },
        called: |id: HirId, name: Seq<char>, symbol: Option<SymbolView>, given: Seq<TypeView>|
            function_called(x, id, name, symbol),
        elem: |id: HirId|
            match node_type(x, id) {
                Some(t) => match typed::element_of(t) {
                    Some(e) => Some(typed::erased(e)),
                    None => None,
                },
                None => None,
            },
        ty: |id: HirId| typed::erased(node_type(x, id)->0),
        target: |id: HirId, target: TypeView| typed::erased(node_type(x, id)->0),
        ready: |vars: Set<u32>, e: HirExprView| has_value(x, vars, e),
        loops: |vars: Set<u32>, body: Seq<HirStmtView>| !binds_again(body, vars),
        globals: x.globals,
    }
}

// ---------------------------------------------------------------------------
// Runs
// ---------------------------------------------------------------------------

/// A program under execution: the world, the code and the arguments.
pub struct Job {
    pub w: World,
    pub p: Seq<InstrView>,
    pub args: Seq<Value>,
}

spec fn go(j: Job, m: Run, t: Run) -> bool {
    meaning::reaches(j.w, j.p, j.args, m, t)
}

spec fn one(j: Job, m: Run) -> Run {
    meaning::step(j.w, j.p, j.args, m)
}

proof fn stay(j: Job, m: Run)
    ensures
        go(j, m, m),
{
    assert(meaning::steps(j.w, j.p, j.args, m, 0) == m);
}

proof fn steps_add(j: Job, m: Run, a: nat, b: nat)
    ensures
        meaning::steps(j.w, j.p, j.args, m, a + b) == meaning::steps(
            j.w,
            j.p,
            j.args,
            meaning::steps(j.w, j.p, j.args, m, a),
            b,
        ),
    decreases b,
{
    if b > 0 {
        steps_add(j, m, a, (b - 1) as nat);
    }
}

proof fn join(j: Job, a: Run, b: Run, c: Run)
    requires
        go(j, a, b),
        go(j, b, c),
    ensures
        go(j, a, c),
{
    let k = choose|k: nat| #[trigger] meaning::steps(j.w, j.p, j.args, a, k) == b;
    let l = choose|l: nat| #[trigger] meaning::steps(j.w, j.p, j.args, b, l) == c;
    steps_add(j, a, k, l);
}

proof fn more(j: Job, a: Run, b: Run)
    requires
        go(j, a, b),
    ensures
        go(j, a, one(j, b)),
{
    reveal_with_fuel(meaning::steps, 2);
    assert(meaning::steps(j.w, j.p, j.args, b, 1) == one(j, b));
    join(j, a, b, one(j, b));
}

// ---------------------------------------------------------------------------
// Code only grows
// ---------------------------------------------------------------------------

/// Whether code is the start of other code.
pub open spec fn begins(a: Seq<InstrView>, b: Seq<InstrView>) -> bool {
    a.len() <= b.len() && forall|i: int| 0 <= i < a.len() ==> #[trigger] b[i] == a[i]
}

spec fn grows(c: Code, d: Code) -> bool {
    &&& begins(c.instrs, d.instrs)
    &&& !d.full ==> !c.full && c.next <= d.next && c.next_label <= d.next_label
}

proof fn expr_grows(x: Context, c: Code, e: HirExprView)
    ensures
        grows(c, lowered(x, c, e).1),
        !lowered(x, c, e).1.full && lives(c) ==> below(lowered(x, c, e).0, lowered(x, c, e).1),
        lowered(x, c, e).1.bindings == c.bindings,
        lowered(x, c, e).1.loops == c.loops,
    decreases e,
{
    lir_lowering::expr_keeps_loops(x, c, e);
    if lir_lowering::resolved(x, e.id()) is Some {
        match e {
            HirExprView::ArrayLiteral { elems, .. } => exprs_grow(x, c, elems),
            HirExprView::ObjectLiteral { fields, .. } => named_grow(x, c, fields),
            HirExprView::Index { base, index, .. } => {
                expr_grows(x, c, *base);
                expr_grows(x, lowered(x, c, *base).1, *index);
            },
            HirExprView::Field { base, .. } => expr_grows(x, c, *base),
            HirExprView::Call { args, .. } => exprs_grow(x, c, args),
            HirExprView::Binary { op, lhs, rhs, span, .. } => {
                expr_grows(x, c, *lhs);
                match lowered(x, c, *lhs) {
                    (Some(l), c1) => {
                        if op is And {
                            expr_grows(x, lir_lowering::and_start(c1, l, span), *rhs);
                        } else if op is Or {
                            expr_grows(x, lir_lowering::or_start(c1, l, span), *rhs);
                        } else {
                            expr_grows(x, c1, *rhs);
                        }
                    },
                    _ => {},
                }
            },
            HirExprView::Unary { inner, .. } => expr_grows(x, c, *inner),
            HirExprView::Cast { inner, .. } => expr_grows(x, c, *inner),
            _ => {},
        }
    }
}

spec fn lowered(x: Context, c: Code, e: HirExprView) -> (Option<Reg>, Code) {
    lir_lowering::lowered_expr(x, c, e)
}

spec fn below(r: Option<Reg>, c: Code) -> bool {
    match r {
        Some(Reg(n)) => n < c.next,
        None => true,
    }
}

/// Whether variables live in registers that were taken.
pub open spec fn lives(c: Code) -> bool {
    forall|d: u32| #[trigger] c.bindings.dom().contains(d) ==> c.bindings[d].0 < c.next
}

proof fn exprs_grow(x: Context, c: Code, es: Seq<HirExprView>)
    ensures
        grows(c, lir_lowering::lowered_exprs(x, c, es).1),
        lir_lowering::lowered_exprs(x, c, es).1.bindings == c.bindings,
        lir_lowering::lowered_exprs(x, c, es).1.loops == c.loops,
    decreases es,
{
    if es.len() > 0 {
        exprs_grow(x, c, es.drop_last());
        expr_grows(x, lir_lowering::lowered_exprs(x, c, es.drop_last()).1, es.last());
    }
}

proof fn named_grow(x: Context, c: Code, es: Seq<(Seq<char>, HirExprView)>)
    ensures
        grows(c, lir_lowering::lowered_named(x, c, es).1),
        lir_lowering::lowered_named(x, c, es).1.bindings == c.bindings,
        lir_lowering::lowered_named(x, c, es).1.loops == c.loops,
    decreases es,
{
    if es.len() > 0 {
        named_grow(x, c, es.drop_last());
        expr_grows(x, lir_lowering::lowered_named(x, c, es.drop_last()).1, es.last().1);
    }
}

#[verifier::rlimit(30)]
proof fn stmt_grows(x: Context, c: Code, s: HirStmtView)
    ensures
        grows(c, lir_lowering::lowered_stmt(x, c, s)),
        lir_lowering::lowered_stmt(x, c, s).loops == c.loops,
        lives(c) && !lir_lowering::lowered_stmt(x, c, s).full ==> lives(
            lir_lowering::lowered_stmt(x, c, s),
        ),
    decreases s,
{
    lir_lowering::stmt_keeps_loops(x, c, s);
    match s {
        HirStmtView::Let { value, .. } => expr_grows(x, c, value),
        HirStmtView::Expr(value) => expr_grows(x, c, value),
        HirStmtView::Return { value, .. } => {
            match value {
                Some(e) => expr_grows(x, c, e),
                None => {},
            }
        },
        HirStmtView::If { condition, then_body, else_body, span } => {
            expr_grows(x, c, condition);
            match lowered(x, c, condition) {
                (Some(cond), c0) => {
                    let a = if_start(c0, cond, span);
                    stmts_grow(x, a, then_body);
                    let b = if_middle(c0, lir_lowering::lowered_stmts(x, a, then_body), span);
                    match else_body {
                        Some(els) => stmts_grow(x, b, els),
                        None => {},
                    }
                },
                _ => {},
            }
        },
        HirStmtView::Assign { value, .. } => expr_grows(x, c, value),
        HirStmtView::IndexAssign { array, index, value, .. } => {
            expr_grows(x, c, *array);
            let c1 = lowered(x, c, *array).1;
            expr_grows(x, c1, *index);
            expr_grows(x, lowered(x, c1, *index).1, *value);
        },
        HirStmtView::FieldAssign { base, value, .. } => {
            expr_grows(x, c, *base);
            expr_grows(x, lowered(x, c, *base).1, *value);
        },
        HirStmtView::While { condition, body, span } => {
            let a = loop_start(c, span);
            expr_grows(x, a, condition);
            match lowered(x, a, condition) {
                (Some(cond), c3) => {
                    let c4 = loop_body(c, c3, cond, span);
                    stmts_grow(x, c4, body);
                },
                _ => {},
            }
        },
        _ => {},
    }
}

proof fn stmts_grow(x: Context, c: Code, ss: Seq<HirStmtView>)
    ensures
        grows(c, lir_lowering::lowered_stmts(x, c, ss)),
        lir_lowering::lowered_stmts(x, c, ss).loops == c.loops,
        lives(c) && !lir_lowering::lowered_stmts(x, c, ss).full ==> lives(
            lir_lowering::lowered_stmts(x, c, ss),
        ),
    decreases ss,
{
    if ss.len() > 0 {
        stmts_grow(x, c, ss.drop_last());
        stmt_grows(x, lir_lowering::lowered_stmts(x, c, ss.drop_last()), ss.last());
    }
}

spec fn if_start(c: Code, cond: Reg, span: Span) -> Code {
    lir_lowering::emit(
        lir_lowering::after_label(lir_lowering::after_label(c)),
        InstrView::BranchIfFalse { cond, target: lir_lowering::label_after(c, 0), span },
    )
}

spec fn if_middle(c: Code, d: Code, span: Span) -> Code {
    Code {
        bindings: c.bindings,
        ..lir_lowering::emit(
            lir_lowering::emit(
                d,
                InstrView::Jump { target: lir_lowering::label_after(c, 1), span },
            ),
            InstrView::Label { id: lir_lowering::label_after(c, 0), span },
        )
    }
}

spec fn loop_start(c: Code, span: Span) -> Code {
    let d = lir_lowering::after_label(lir_lowering::after_label(c));
    lir_lowering::emit(
        Code {
            loops: c.loops.push(
                (lir_lowering::label_after(c, 1), lir_lowering::label_after(c, 0)),
            ),
            ..d
        },
        InstrView::Label { id: lir_lowering::label_after(c, 0), span },
    )
}

spec fn loop_body(c: Code, d: Code, cond: Reg, span: Span) -> Code {
    lir_lowering::emit(
        d,
        InstrView::BranchIfFalse { cond, target: lir_lowering::label_after(c, 1), span },
    )
}

// ---------------------------------------------------------------------------
// Labels
// ---------------------------------------------------------------------------

/// Whether every label stands at most once.
pub open spec fn labels_differ(p: Seq<InstrView>) -> bool {
    forall|id: u32| #[trigger] lir_lowering::count_labels(p, id) <= 1
}

proof fn label_counts(p: Seq<InstrView>, id: u32, i: int)
    requires
        0 <= i < p.len(),
        p[i] matches InstrView::Label { id: own, .. } && own == id,
    ensures
        lir_lowering::count_labels(p, id) >= 1,
        lir_lowering::count_labels(p, id) == 1 ==> meaning::label_position(p, id) == i,
    decreases p.len(),
{
    if i < p.len() - 1 {
        label_counts(p.drop_last(), id, i);
    } else if lir_lowering::count_labels(p, id) == 1 {
    }
}

proof fn label_is_at(p: Seq<InstrView>, id: u32, i: int)
    requires
        labels_differ(p),
        0 <= i < p.len(),
        p[i] matches InstrView::Label { id: own, .. } && own == id,
    ensures
        meaning::label_position(p, id) == i,
{
    label_counts(p, id, i);
    assert(lir_lowering::count_labels(p, id) <= 1);
}


// ---------------------------------------------------------------------------
// Expressions
// ---------------------------------------------------------------------------

/// Whether registers hold what cells hold, one register for one cell.
pub open spec fn linked(l: Map<Reg, nat>, cells: Seq<Value>, regs: Map<Reg, Value>, next: u32) -> bool {
    &&& forall|r: Reg| #[trigger]
        l.dom().contains(r) ==> l[r] < cells.len() && regs[r] == cells[l[r] as int] && r.0 < next
    &&& forall|r: Reg, q: Reg|
        #![trigger l.dom().contains(r), l.dom().contains(q)]
        l.dom().contains(r) && l.dom().contains(q) && l[r] == l[q] ==> r == q
}

/// Whether links are among others.
pub open spec fn within(l: Map<Reg, nat>, l2: Map<Reg, nat>) -> bool {
    forall|r: Reg| #[trigger] l.dom().contains(r) ==> l2.dom().contains(r) && l2[r] == l[r]
}

/// Whether the registers of variables are those of their cells.
pub open spec fn homes_linked(l: Map<Reg, nat>, bindings: Map<u32, Reg>, env: Map<u32, nat>) -> bool {
    &&& bindings.dom() == env.dom()
    &&& forall|d: u32| #[trigger]
        env.dom().contains(d) ==> l.dom().contains(bindings[d]) && l[bindings[d]] == env[d]
}

/// Whether a run stands behind code, in a state of the program.
pub open spec fn stands(l: Map<Reg, nat>, c: Code, s: Store, m: Run) -> bool {
    &&& m.pc == c.instrs.len()
    &&& m.result is None
    &&& m.trace == s.trace
    &&& linked(l, s.cells, m.regs, c.next)
    &&& homes_linked(l, c.bindings, s.env)
}

/// Whether a run leaves the registers that were taken as they are.
pub open spec fn leaves(c: Code, m: Run, t: Run) -> bool {
    forall|r: Reg| r.0 < c.next ==> #[trigger] t.regs[r] == m.regs[r]
}

proof fn stands_lives(l: Map<Reg, nat>, c: Code, s: Store, m: Run)
    requires
        stands(l, c, s, m),
    ensures
        lives(c),
{
    assert forall|d: u32| #[trigger] c.bindings.dom().contains(d) implies c.bindings[d].0
        < c.next by {
        assert(s.env.dom().contains(d));
        assert(l.dom().contains(c.bindings[d]));
    }
}

proof fn still_stands(l: Map<Reg, nat>, c: Code, s: Store, m: Run, d: Code, s1: Store, t: Run)
    requires
        stands(l, c, s, m),
        leaves(c, m, t),
        c.next <= d.next,
        d.bindings == c.bindings,
        s1.env == s.env,
        s1.cells == s.cells,
        t.pc == d.instrs.len(),
        t.result is None,
        t.trace == s1.trace,
    ensures
        stands(l, d, s1, t),
{
    assert forall|r: Reg| #[trigger] l.dom().contains(r) implies l[r] < s1.cells.len() && t.regs[r]
        == s1.cells[l[r] as int] && r.0 < d.next by {
        assert(t.regs[r] == m.regs[r]);
    }
}

proof fn starts_with(a: Seq<InstrView>, b: Seq<InstrView>, c: Seq<InstrView>)
    requires
        begins(a, b),
        begins(b, c),
    ensures
        begins(a, c),
{
    assert forall|i: int| 0 <= i < a.len() implies #[trigger] c[i] == a[i] by {
        assert(b[i] == a[i]);
    }
}

proof fn literals_agree(v: Scalar, t: TyView)
    ensures
        meaning::plain(lir_lowering::typed_literal(v, t)) == literal_value(v, Some(t)),
{
}

proof fn ops_agree(w: World, op: HirBinOp, a: Value, b: Value)
    requires
        !(op is And) && !(op is Or),
    ensures
        meaning::lir_op(w, lir_lowering::lowered_op(op), a, b) == meaning::hir_op(w, op, a, b),
{
}

proof fn types_agree(x: Context, id: HirId)
    ensures
        lir_lowering::resolved(x, id) == node_type(x, id),
        (types_in(x).known)(id) == (node_type(x, id) is Some),
        (types_in(x).elem)(id) == lir_lowering::elem_ty(x, id),
        node_type(x, id) is Some ==> lir_lowering::runtime_ty(x, id) == Some((types_in(x).ty)(id)),
{
}

/// What evaluating expressions leaves alone.
proof fn value_keeps(w: World, t: Types, s: Store, e: HirExprView)
    ensures
        meaning::value_of(w, t, s, e) matches Some(r) ==> r.1.env == s.env && r.1.cells == s.cells,
    decreases e,
{
    match e {
        HirExprView::ArrayLiteral { elems, .. } => values_keep(w, t, s, elems),
        HirExprView::ObjectLiteral { fields, .. } => fields_keep(w, t, s, fields),
        HirExprView::Variant { args, .. } => values_keep(w, t, s, args),
        HirExprView::Index { base, index, .. } => {
            value_keeps(w, t, s, *base);
            if let Some((_, s1)) = meaning::value_of(w, t, s, *base) {
                value_keeps(w, t, s1, *index);
            }
        },
        HirExprView::Field { base, .. } => value_keeps(w, t, s, *base),
        HirExprView::TupleLiteral { elems, .. } => elems_keep(w, t, s, elems),
        HirExprView::TupleIndex { base, .. } => value_keeps(w, t, s, *base),
        HirExprView::Call { args, .. } => values_keep(w, t, s, args),
        HirExprView::MethodCall { receiver, args, .. } => {
            value_keeps(w, t, s, *receiver);
            if let Some((_, s1)) = meaning::value_of(w, t, s, *receiver) {
                values_keep(w, t, s1, args);
            }
        },
        HirExprView::Binary { lhs, rhs, .. } => {
            value_keeps(w, t, s, *lhs);
            if let Some((_, s1)) = meaning::value_of(w, t, s, *lhs) {
                value_keeps(w, t, s1, *rhs);
            }
        },
        HirExprView::Unary { inner, .. } => value_keeps(w, t, s, *inner),
        HirExprView::Cast { inner, .. } => value_keeps(w, t, s, *inner),
        _ => {},
    }
}

proof fn values_keep(w: World, t: Types, s: Store, es: Seq<HirExprView>)
    ensures
        meaning::values_of(w, t, s, es) matches Some(r) ==> r.1.env == s.env && r.1.cells == s.cells
            && r.0.len() == es.len(),
    decreases es,
{
    if es.len() > 0 {
        values_keep(w, t, s, es.drop_last());
        if let Some((_, s1)) = meaning::values_of(w, t, s, es.drop_last()) {
            value_keeps(w, t, s1, es.last());
        }
    }
}

proof fn fields_keep(w: World, t: Types, s: Store, es: Seq<(Seq<char>, HirExprView)>)
    ensures
        meaning::fields_of(w, t, s, es) matches Some(r) ==> r.1.env == s.env && r.1.cells == s.cells
            && r.0.len() == es.len(),
    decreases es,
{
    if es.len() > 0 {
        fields_keep(w, t, s, es.drop_last());
        if let Some((_, s1)) = meaning::fields_of(w, t, s, es.drop_last()) {
            value_keeps(w, t, s1, es.last().1);
        }
    }
}

proof fn elems_keep(w: World, t: Types, s: Store, es: Seq<(Option<Seq<char>>, HirExprView)>)
    ensures
        meaning::elems_of(w, t, s, es) matches Some(r) ==> r.1.env == s.env && r.1.cells == s.cells,
    decreases es,
{
    if es.len() > 0 {
        elems_keep(w, t, s, es.drop_last());
        if let Some((_, s1)) = meaning::elems_of(w, t, s, es.drop_last()) {
            value_keeps(w, t, s1, es.last().1);
        }
    }
}

proof fn code_has_value(x: Context, c: Code, e: HirExprView)
    requires
        has_value(x, c.bindings.dom(), e),
        !lowered(x, c, e).1.full,
    ensures
        lowered(x, c, e).0 is Some,
    decreases e,
{
    types_agree(x, e.id());
    expr_grows(x, c, e);
    match e {
        HirExprView::ArrayLiteral { elems, .. } => codes_have(x, c, elems),
        HirExprView::ObjectLiteral { fields, .. } => named_have(x, c, fields),
        HirExprView::Index { base, index, .. } => {
            expr_grows(x, c, *base);
            expr_grows(x, lowered(x, c, *base).1, *index);
            types_agree(x, base.id());
            code_has_value(x, c, *base);
            code_has_value(x, lowered(x, c, *base).1, *index);
        },
        HirExprView::Field { base, .. } => code_has_value(x, c, *base),
        HirExprView::Call { args, .. } => codes_have(x, c, args),
        HirExprView::Binary { op, lhs, rhs, span, .. } => {
            expr_grows(x, c, *lhs);
            let c1 = lowered(x, c, *lhs).1;
            if let Some(l) = lowered(x, c, *lhs).0 {
                expr_grows(x, c1, *rhs);
                expr_grows(x, lir_lowering::and_start(c1, l, span), *rhs);
                expr_grows(x, lir_lowering::or_start(c1, l, span), *rhs);
            }
            code_has_value(x, c, *lhs);
            let l = lowered(x, c, *lhs).0->0;
            if op is And {
                code_has_value(x, lir_lowering::and_start(c1, l, span), *rhs);
            } else if op is Or {
                code_has_value(x, lir_lowering::or_start(c1, l, span), *rhs);
            } else {
                code_has_value(x, c1, *rhs);
            }
        },
        HirExprView::Unary { inner, .. } => code_has_value(x, c, *inner),
        HirExprView::Cast { inner, .. } => code_has_value(x, c, *inner),
        _ => {},
    }
}

proof fn codes_have(x: Context, c: Code, es: Seq<HirExprView>)
    requires
        all_have(x, c.bindings.dom(), es),
        !lir_lowering::lowered_exprs(x, c, es).1.full,
    ensures
        lir_lowering::lowered_exprs(x, c, es).0 is Some,
    decreases es,
{
    if es.len() > 0 {
        let c1 = lir_lowering::lowered_exprs(x, c, es.drop_last()).1;
        exprs_grow(x, c, es.drop_last());
        expr_grows(x, c1, es.last());
        codes_have(x, c, es.drop_last());
        code_has_value(x, c1, es.last());
    }
}

proof fn named_have(x: Context, c: Code, es: Seq<(Seq<char>, HirExprView)>)
    requires
        fields_have(x, c.bindings.dom(), es),
        !lir_lowering::lowered_named(x, c, es).1.full,
    ensures
        lir_lowering::lowered_named(x, c, es).0 is Some,
    decreases es,
{
    if es.len() > 0 {
        let c1 = lir_lowering::lowered_named(x, c, es.drop_last()).1;
        named_grow(x, c, es.drop_last());
        expr_grows(x, c1, es.last().1);
        named_have(x, c, es.drop_last());
        code_has_value(x, c1, es.last().1);
    }
}

spec fn ran(j: Job, c: Code, d: Code, s1: Store, m: Run, t: Run) -> bool {
    &&& go(j, m, t)
    &&& t.pc == d.instrs.len()
    &&& t.result is None
    &&& t.trace == s1.trace
    &&& leaves(c, m, t)
}

spec fn ready(j: Job, d: Code) -> bool {
    &&& !d.full
    &&& begins(d.instrs, j.p)
    &&& labels_differ(j.p)
}

spec fn meant(x: Context, j: Job, s: Store, e: HirExprView) -> Option<(Value, Store)> {
    meaning::value_of(j.w, types_in(x), s, e)
}

/// One more instruction, which puts a value into a new register.
proof fn puts(j: Job, c: Code, b: Code, s1: Store, m: Run, t: Run, i: InstrView, s2: Store, v: Value)
    requires
        ran(j, c, b, s1, m, t),
        c.next <= b.next,
        ready(j, lir_lowering::into_reg(b, i).1),
        one(j, t) == (Run {
            pc: t.pc + 1,
            regs: t.regs.insert(Reg(b.next), v),
            trace: s2.trace,
            result: t.result,
        }),
    ensures
        ran(j, c, lir_lowering::into_reg(b, i).1, s2, m, one(j, t)),
        one(j, t).regs[Reg(b.next)] == v,
{
    more(j, m, t);
    assert forall|r: Reg| r.0 < c.next implies #[trigger] one(j, t).regs[r] == m.regs[r] by {
        assert(t.regs[r] == m.regs[r]);
    }
}

#[verifier::rlimit(60)]
#[verifier::spinoff_prover]
proof fn expr_runs(x: Context, j: Job, l: Map<Reg, nat>, c: Code, s: Store, m: Run, e: HirExprView) -> (t:
    Run)
    requires
        stands(l, c, s, m),
        ready(j, lowered(x, c, e).1),
        meant(x, j, s, e) is Some,
    ensures
        lowered(x, c, e).0 is Some,
        ran(j, c, lowered(x, c, e).1, (meant(x, j, s, e)->0).1, m, t),
        t.regs[lowered(x, c, e).0->0] == (meant(x, j, s, e)->0).0,
        stands(l, lowered(x, c, e).1, (meant(x, j, s, e)->0).1, t),
    decreases e, 0nat,
{
    let ty = types_in(x);
    let d = lowered(x, c, e).1;
    let (v, s1) = meant(x, j, s, e)->0;
    types_agree(x, e.id());
    value_keeps(j.w, ty, s, e);
    stands_lives(l, c, s, m);
    expr_grows(x, c, e);
    stay(j, m);
    let t = match e {
        HirExprView::Literal { id, value, span } => {
            literals_agree(value, node_type(x, id)->0);
            let i = InstrView::Const {
                dst: Reg(c.next),
                value: lir_lowering::typed_literal(value, node_type(x, id)->0),
                span,
            };
            assert(j.p[m.pc] == i);
            puts(j, c, c, s, m, m, i, s1, v);
            one(j, m)
        },
        HirExprView::String { value, span, .. } => {
            let i = InstrView::StringConst { dst: Reg(c.next), value, span };
            assert(j.p[m.pc] == i);
            puts(j, c, c, s, m, m, i, s1, v);
            one(j, m)
        },
        HirExprView::Var { def, span, .. } => {
            let k = def->0;
            if s.env.dom().contains(k.0) {
                assert(c.bindings.dom().contains(k.0));
                assert(l.dom().contains(c.bindings[k.0]));
                m
            } else {
                assert(!c.bindings.dom().contains(k.0));
                let i = InstrView::GlobalLoad { dst: Reg(c.next), global: x.globals[k.0], span };
                assert(j.p[m.pc] == i);
                puts(j, c, c, s, m, m, i, s1, v);
                one(j, m)
            }
        },
        HirExprView::ArrayLiteral { id, elems, span } => {
            let (regs, b) = lir_lowering::lowered_exprs(x, c, elems);
            exprs_grow(x, c, elems);
            starts_with(b.instrs, d.instrs, j.p);
            let (vs, s2) = meaning::values_of(j.w, ty, s, elems)->0;
            let t = exprs_run(x, j, l, c, s, m, elems);
            let elem = lir_lowering::elem_ty(x, id)->0;
            let i = InstrView::ArrayLit { dst: Reg(b.next), elems: regs->0, elem, span };
            assert(j.p[t.pc] == i);
            assert(meaning::held(t, regs->0) =~= vs);
            puts(j, c, b, s2, m, t, i, s1, v);
            one(j, t)
        },
        HirExprView::ObjectLiteral { name, fields, span, .. } => {
            let (regs, b) = lir_lowering::lowered_named(x, c, fields);
            named_grow(x, c, fields);
            starts_with(b.instrs, d.instrs, j.p);
            let (vs, s2) = meaning::fields_of(j.w, ty, s, fields)->0;
            let t = named_run(x, j, l, c, s, m, fields);
            let i = InstrView::NewObject {
                dst: Reg(b.next),
                name,
                fields: lir_lowering::object_fields(fields, regs->0),
                span,
            };
            assert(j.p[t.pc] == i);
            assert(meaning::held_fields(t, lir_lowering::object_fields(fields, regs->0)) =~= vs);
            puts(j, c, b, s2, m, t, i, s1, v);
            one(j, t)
        },
        HirExprView::Index { base, index, span, .. } => {
            let c1 = lowered(x, c, *base).1;
            let c2 = lowered(x, c1, *index).1;
            let s2 = (meant(x, j, s, *base)->0).1;
            let s3 = (meant(x, j, s2, *index)->0).1;
            expr_grows(x, c, *base);
            expr_grows(x, c1, *index);
            types_agree(x, base.id());
            types_agree(x, index.id());
            if lowered(x, c, *base).0 is None {
                starts_with(c1.instrs, d.instrs, j.p);
                let q = expr_runs(x, j, l, c, s, m, *base);
            }
            if lowered(x, c1, *index).0 is None {
                starts_with(c1.instrs, c2.instrs, j.p);
                let q = expr_runs(x, j, l, c, s, m, *base);
                let q = expr_runs(x, j, l, c1, s2, q, *index);
            }
            starts_with(c2.instrs, d.instrs, j.p);
            starts_with(c1.instrs, c2.instrs, j.p);
            let t1 = expr_runs(x, j, l, c, s, m, *base);
            let t2 = expr_runs(x, j, l, c1, s2, t1, *index);
            join(j, m, t1, t2);
            twice(c, c1, m, t1, t2);
            let i = InstrView::ArrayGet {
                dst: Reg(c2.next),
                array: lowered(x, c, *base).0->0,
                index: lowered(x, c1, *index).0->0,
                elem: lir_lowering::elem_ty(x, base.id())->0,
                span,
            };
            assert(j.p[t2.pc] == i);
            assert(t2.regs[lowered(x, c, *base).0->0] == t1.regs[lowered(x, c, *base).0->0]);
            puts(j, c, c2, s3, m, t2, i, s1, v);
            one(j, t2)
        },
        HirExprView::Field { id, base, name, span } => {
            let c1 = lowered(x, c, *base).1;
            let s2 = (meant(x, j, s, *base)->0).1;
            expr_grows(x, c, *base);
            starts_with(c1.instrs, d.instrs, j.p);
            let t1 = expr_runs(x, j, l, c, s, m, *base);
            let i = InstrView::ObjectGet {
                dst: Reg(c1.next),
                object: lowered(x, c, *base).0->0,
                name,
                ty: lir_lowering::runtime_ty(x, id)->0,
                span,
            };
            assert(j.p[t1.pc] == i);
            puts(j, c, c1, s2, m, t1, i, s1, v);
            one(j, t1)
        },
        HirExprView::Call { id, name, symbol, type_args, args, span, .. } => {
            let (regs, b) = lir_lowering::lowered_exprs(x, c, args);
            exprs_grow(x, c, args);
            values_keep(j.w, ty, s, args);
            starts_with(b.instrs, d.instrs, j.p);
            let (vs, s2) = meaning::values_of(j.w, ty, s, args)->0;
            let t = exprs_run(x, j, l, c, s, m, args);
            assert(meaning::held(t, regs->0) =~= vs);
            if name == "Array.new"@ {
                let elem = lir_lowering::elem_ty(x, id)->0;
                let i = InstrView::NewArray { dst: Reg(b.next), len: (regs->0)[0], elem, span };
                assert(j.p[t.pc] == i);
                assert(t.regs[(regs->0)[0]] == vs[0]);
                puts(j, c, b, s2, m, t, i, s1, v);
            } else {
                let i = InstrView::Call {
                    dst: Reg(b.next),
                    callee: lir_lowering::callee_name(x, id, name),
                    symbol: lir_lowering::callee_symbol(x, id, name, symbol),
                    args: regs->0,
                    span,
                };
                assert(j.p[t.pc] == i);
                assert(lir_lowering::callee_symbol(x, id, name, symbol) == function_called(
                    x,
                    id,
                    name,
                    symbol,
                ));
                puts(j, c, b, s2, m, t, i, s1, v);
            }
            one(j, t)
        },
        HirExprView::Binary { op, lhs, rhs, span, .. } => {
            let c1 = lowered(x, c, *lhs).1;
            let s2 = (meant(x, j, s, *lhs)->0).1;
            expr_grows(x, c, *lhs);
            if lowered(x, c, *lhs).0 is Some {
                let r = lowered(x, c, *lhs).0->0;
                expr_grows(x, c1, *rhs);
                expr_grows(x, lir_lowering::and_start(c1, r, span), *rhs);
                expr_grows(x, lir_lowering::or_start(c1, r, span), *rhs);
            }
            assert(begins(c1.instrs, d.instrs) && !c1.full);
            starts_with(c1.instrs, d.instrs, j.p);
            let t1 = expr_runs(x, j, l, c, s, m, *lhs);
            if op is And {
                let a = (meant(x, j, s, *lhs)->0).0->Bool_0;
                let r = lowered(x, c, *lhs).0->0;
                assert(lowered(x, c, e) == and_code(x, c1, r, *rhs, span));
                let t = and_runs(x, j, l, c1, s2, t1, r, a, *rhs, span);
                join(j, m, t1, t);
                twice(c, c1, m, t1, t);
                t
            } else if op is Or {
                let a = (meant(x, j, s, *lhs)->0).0->Bool_0;
                let r = lowered(x, c, *lhs).0->0;
                assert(lowered(x, c, e) == or_code(x, c1, r, *rhs, span));
                let t = or_runs(x, j, l, c1, s2, t1, r, a, *rhs, span);
                join(j, m, t1, t);
                twice(c, c1, m, t1, t);
                t
            } else {
                let c2 = lowered(x, c1, *rhs).1;
                let s3 = (meant(x, j, s2, *rhs)->0).1;
                assert(begins(c2.instrs, d.instrs) && !c2.full);
                starts_with(c2.instrs, d.instrs, j.p);
                let t2 = expr_runs(x, j, l, c1, s2, t1, *rhs);
                join(j, m, t1, t2);
                twice(c, c1, m, t1, t2);
                let i = InstrView::BinOp {
                    dst: Reg(c2.next),
                    op: lir_lowering::lowered_op(op),
                    lhs: lowered(x, c, *lhs).0->0,
                    rhs: lowered(x, c1, *rhs).0->0,
                    span,
                };
                assert(j.p[t2.pc] == i);
                assert(t2.regs[lowered(x, c, *lhs).0->0] == t1.regs[lowered(x, c, *lhs).0->0]);
                ops_agree(
                    j.w,
                    op,
                    t2.regs[lowered(x, c, *lhs).0->0],
                    t2.regs[lowered(x, c1, *rhs).0->0],
                );
                puts(j, c, c2, s3, m, t2, i, s1, v);
                one(j, t2)
            }
        },
        HirExprView::Unary { inner, span, .. } => {
            let c1 = lowered(x, c, *inner).1;
            let s2 = (meant(x, j, s, *inner)->0).1;
            expr_grows(x, c, *inner);
            starts_with(c1.instrs, d.instrs, j.p);
            let t1 = expr_runs(x, j, l, c, s, m, *inner);
            let i = InstrView::Not {
                dst: Reg(c1.next),
                src: lowered(x, c, *inner).0->0,
                span,
            };
            assert(j.p[t1.pc] == i);
            puts(j, c, c1, s2, m, t1, i, s1, v);
            one(j, t1)
        },
        HirExprView::Cast { id, inner, span, .. } => {
            let c1 = lowered(x, c, *inner).1;
            let s2 = (meant(x, j, s, *inner)->0).1;
            expr_grows(x, c, *inner);
            starts_with(c1.instrs, d.instrs, j.p);
            let t1 = expr_runs(x, j, l, c, s, m, *inner);
            let i = InstrView::Cast {
                dst: Reg(c1.next),
                src: lowered(x, c, *inner).0->0,
                target: lir_lowering::runtime_ty(x, id)->0,
                span,
            };
            assert(j.p[t1.pc] == i);
            puts(j, c, c1, s2, m, t1, i, s1, v);
            one(j, t1)
        },
        _ => m,
    };
    still_stands(l, c, s, m, d, s1, t);
    t
}

proof fn twice(c: Code, d: Code, m: Run, a: Run, b: Run)
    requires
        leaves(c, m, a),
        leaves(d, a, b),
        c.next <= d.next,
    ensures
        leaves(c, m, b),
{
    assert forall|r: Reg| r.0 < c.next implies #[trigger] b.regs[r] == m.regs[r] by {
        assert(a.regs[r] == m.regs[r]);
    }
}

#[verifier::rlimit(30)]
#[verifier::spinoff_prover]
proof fn exprs_run(
    x: Context,
    j: Job,
    l: Map<Reg, nat>,
    c: Code,
    s: Store,
    m: Run,
    es: Seq<HirExprView>,
) -> (t: Run)
    requires
        stands(l, c, s, m),
        ready(j, lir_lowering::lowered_exprs(x, c, es).1),
        meaning::values_of(j.w, types_in(x), s, es) is Some,
    ensures
        lir_lowering::lowered_exprs(x, c, es).0 is Some,
        ({
            let (rs, d) = lir_lowering::lowered_exprs(x, c, es);
            let (vs, s1) = meaning::values_of(j.w, types_in(x), s, es)->0;
            &&& ran(j, c, d, s1, m, t)
            &&& stands(l, d, s1, t)
            &&& rs->0.len() == vs.len() == es.len()
            &&& forall|i: int| 0 <= i < vs.len() ==> (#[trigger] (rs->0)[i]).0 < d.next
                && t.regs[(rs->0)[i]] == vs[i]
        }),
    decreases es, 0nat,
{
    stay(j, m);
    if es.len() == 0 {
        m
    } else {
        let front = es.drop_last();
        let c1 = lir_lowering::lowered_exprs(x, c, front).1;
        let s1 = (meaning::values_of(j.w, types_in(x), s, front)->0).1;
        let d = lir_lowering::lowered_exprs(x, c, es).1;
        exprs_grow(x, c, front);
        expr_grows(x, c1, es.last());
        starts_with(c1.instrs, d.instrs, j.p);
        let t1 = exprs_run(x, j, l, c, s, m, front);
        stands_lives(l, c1, s1, t1);
        let t = expr_runs(x, j, l, c1, s1, t1, es.last());
        join(j, m, t1, t);
        twice(c, c1, m, t1, t);
        let rs = lir_lowering::lowered_exprs(x, c, front).0->0;
        assert forall|i: int| 0 <= i < rs.len() implies (#[trigger] rs[i]).0 < d.next && t.regs[rs[i]]
            == t1.regs[rs[i]] by {}
        t
    }
}

#[verifier::rlimit(30)]
#[verifier::spinoff_prover]
proof fn named_run(
    x: Context,
    j: Job,
    l: Map<Reg, nat>,
    c: Code,
    s: Store,
    m: Run,
    es: Seq<(Seq<char>, HirExprView)>,
) -> (t: Run)
    requires
        stands(l, c, s, m),
        ready(j, lir_lowering::lowered_named(x, c, es).1),
        meaning::fields_of(j.w, types_in(x), s, es) is Some,
    ensures
        lir_lowering::lowered_named(x, c, es).0 is Some,
        ({
            let (rs, d) = lir_lowering::lowered_named(x, c, es);
            let (vs, s1) = meaning::fields_of(j.w, types_in(x), s, es)->0;
            &&& ran(j, c, d, s1, m, t)
            &&& stands(l, d, s1, t)
            &&& rs->0.len() == vs.len() == es.len()
            &&& forall|i: int|
                0 <= i < vs.len() ==> (#[trigger] (rs->0)[i]).0 < d.next && vs[i].0 == es[i].0
                    && t.regs[(rs->0)[i]] == vs[i].1
        }),
    decreases es, 0nat,
{
    stay(j, m);
    if es.len() == 0 {
        m
    } else {
        let front = es.drop_last();
        let c1 = lir_lowering::lowered_named(x, c, front).1;
        let s1 = (meaning::fields_of(j.w, types_in(x), s, front)->0).1;
        let d = lir_lowering::lowered_named(x, c, es).1;
        named_grow(x, c, front);
        expr_grows(x, c1, es.last().1);
        starts_with(c1.instrs, d.instrs, j.p);
        let t1 = named_run(x, j, l, c, s, m, front);
        stands_lives(l, c1, s1, t1);
        let t = expr_runs(x, j, l, c1, s1, t1, es.last().1);
        join(j, m, t1, t);
        twice(c, c1, m, t1, t);
        let rs = lir_lowering::lowered_named(x, c, front).0->0;
        assert forall|i: int| 0 <= i < rs.len() implies (#[trigger] rs[i]).0 < d.next && t.regs[rs[i]]
            == t1.regs[rs[i]] by {}
        t
    }
}

/// From the label of falsehood, or from behind a true operand, to the end of a
/// logical operation.
#[verifier::rlimit(30)]
proof fn logic_ends(j: Job, c: Code, r: Reg, dst: Reg, f: u32, e: u32, span: Span, m: Run, holds: bool) -> (t:
    Run)
    requires
        ready(j, lir_lowering::logic_end(c, Some(r), dst, f, e, span).1),
        m.result is None,
        dst.0 < c.next,
        if holds {
            m.pc == c.instrs.len() && m.regs[r] == Value::Bool(true)
        } else {
            (m.pc == c.instrs.len() && m.regs[r] == Value::Bool(false)) || m.pc
                == meaning::label_position(j.p, f)
        },
    ensures
        go(j, m, t),
        t.pc == lir_lowering::logic_end(c, Some(r), dst, f, e, span).1.instrs.len(),
        t.result is None,
        t.trace == m.trace,
        t.regs[dst] == Value::Bool(holds),
        forall|q: Reg| q.0 < c.next && q != dst ==> #[trigger] t.regs[q] == m.regs[q],
{
    let d = lir_lowering::logic_end(c, Some(r), dst, f, e, span).1;
    let n = c.instrs.len() as int;
    assert(d.instrs.len() == n + 8);
    assert(j.p[n] == InstrView::BranchIfFalse { cond: r, target: f, span });
    assert(j.p[n + 1] == InstrView::Const { dst: Reg(c.next), value: Scalar::Bool(true), span });
    assert(j.p[n + 2] == InstrView::Copy { dst, src: Reg(c.next), span });
    assert(j.p[n + 3] == InstrView::Jump { target: e, span });
    assert(j.p[n + 4] == InstrView::Label { id: f, span });
    let c2 = lir_lowering::after_reg(c);
    assert(j.p[n + 5] == InstrView::Const { dst: Reg(c2.next), value: Scalar::Bool(false), span });
    assert(j.p[n + 6] == InstrView::Copy { dst, src: Reg(c2.next), span });
    assert(j.p[n + 7] == InstrView::Label { id: e, span });
    label_is_at(j.p, f, n + 4);
    label_is_at(j.p, e, n + 7);
    stay(j, m);
    if holds {
        let m1 = one(j, m);
        more(j, m, m);
        let m2 = one(j, m1);
        more(j, m, m1);
        let m3 = one(j, m2);
        more(j, m, m2);
        let m4 = one(j, m3);
        more(j, m, m3);
        more(j, m, m4);
        one(j, m4)
    } else {
        let m1 = if m.pc == n {
            more(j, m, m);
            one(j, m)
        } else {
            m
        };
        let m2 = one(j, m1);
        more(j, m, m1);
        let m3 = one(j, m2);
        more(j, m, m2);
        let m4 = one(j, m3);
        more(j, m, m3);
        more(j, m, m4);
        one(j, m4)
    }
}

#[verifier::rlimit(60)]
#[verifier::spinoff_prover]
proof fn and_runs(
    x: Context,
    j: Job,
    l: Map<Reg, nat>,
    c: Code,
    s: Store,
    m: Run,
    lr: Reg,
    a: bool,
    rhs: HirExprView,
    span: Span,
) -> (t: Run)
    requires
        stands(l, c, s, m),
        m.regs[lr] == Value::Bool(a),
        ready(j, and_code(x, c, lr, rhs, span).1),
        a ==> meaning::as_truth(meant(x, j, s, rhs)) is Some,
        !a ==> has_value(x, s.env.dom(), rhs),
    ensures
        and_code(x, c, lr, rhs, span).0 == Some(Reg(c.next)),
        ran(
            j,
            c,
            and_code(x, c, lr, rhs, span).1,
            if a {
                (meant(x, j, s, rhs)->0).1
            } else {
                s
            },
            m,
            t,
        ),
        t.regs[Reg(c.next)] == if a {
            (meant(x, j, s, rhs)->0).0
        } else {
            Value::Bool(false)
        },
    decreases rhs, 1nat,
{
    reveal_with_fuel(lir_lowering::label_after, 4);
    let st = lir_lowering::and_start(c, lr, span);
    let (r, c2) = lowered(x, st, rhs);
    let d = and_code(x, c, lr, rhs, span).1;
    let f = lir_lowering::label_after(lir_lowering::after_reg(c), 0);
    let e = lir_lowering::label_after(lir_lowering::after_reg(c), 1);
    expr_grows(x, st, rhs);
    assert(begins(c2.instrs, d.instrs) && !c2.full);
    starts_with(c2.instrs, d.instrs, j.p);
    starts_with(st.instrs, c2.instrs, j.p);
    assert(j.p[m.pc] == InstrView::BranchIfFalse { cond: lr, target: f, span });
    stay(j, m);
    more(j, m, m);
    let m1 = one(j, m);
    if a {
        still_stands(l, c, s, m, st, s, m1);
        let t2 = expr_runs(x, j, l, st, s, m1, rhs);
        join(j, m, m1, t2);
        twice(c, st, m, m1, t2);
        let b = (meant(x, j, s, rhs)->0).0->Bool_0;
        let t = logic_ends(j, c2, r->0, Reg(c.next), f, e, span, t2, b);
        join(j, m, t2, t);
        assert forall|q: Reg| q.0 < c.next implies #[trigger] t.regs[q] == m.regs[q] by {
            assert(t2.regs[q] == m.regs[q]);
        }
        t
    } else {
        assert(st.bindings.dom() == s.env.dom());
        code_has_value(x, st, rhs);
        let t = logic_ends(j, c2, r->0, Reg(c.next), f, e, span, m1, false);
        join(j, m, m1, t);
        t
    }
}

spec fn and_code(x: Context, c: Code, lr: Reg, rhs: HirExprView, span: Span) -> (Option<Reg>, Code) {
    let (r, c2) = lowered(x, lir_lowering::and_start(c, lr, span), rhs);
    lir_lowering::logic_end(
        c2,
        r,
        Reg(c.next),
        lir_lowering::label_after(lir_lowering::after_reg(c), 0),
        lir_lowering::label_after(lir_lowering::after_reg(c), 1),
        span,
    )
}

spec fn or_code(x: Context, c: Code, lr: Reg, rhs: HirExprView, span: Span) -> (Option<Reg>, Code) {
    let (r, c2) = lowered(x, lir_lowering::or_start(c, lr, span), rhs);
    lir_lowering::logic_end(
        c2,
        r,
        Reg(c.next),
        lir_lowering::label_after(lir_lowering::after_reg(c), 1),
        lir_lowering::label_after(lir_lowering::after_reg(c), 2),
        span,
    )
}

#[verifier::rlimit(60)]
#[verifier::spinoff_prover]
proof fn or_runs(
    x: Context,
    j: Job,
    l: Map<Reg, nat>,
    c: Code,
    s: Store,
    m: Run,
    lr: Reg,
    a: bool,
    rhs: HirExprView,
    span: Span,
) -> (t: Run)
    requires
        stands(l, c, s, m),
        m.regs[lr] == Value::Bool(a),
        ready(j, or_code(x, c, lr, rhs, span).1),
        !a ==> meaning::as_truth(meant(x, j, s, rhs)) is Some,
        a ==> has_value(x, s.env.dom(), rhs),
    ensures
        or_code(x, c, lr, rhs, span).0 == Some(Reg(c.next)),
        ran(
            j,
            c,
            or_code(x, c, lr, rhs, span).1,
            if a {
                s
            } else {
                (meant(x, j, s, rhs)->0).1
            },
            m,
            t,
        ),
        t.regs[Reg(c.next)] == if a {
            Value::Bool(true)
        } else {
            (meant(x, j, s, rhs)->0).0
        },
    decreases rhs, 1nat,
{
    reveal_with_fuel(lir_lowering::label_after, 4);
    let st = lir_lowering::or_start(c, lr, span);
    let (r, c2) = lowered(x, st, rhs);
    let d = or_code(x, c, lr, rhs, span).1;
    let g = lir_lowering::label_after(lir_lowering::after_reg(c), 0);
    let f = lir_lowering::label_after(lir_lowering::after_reg(c), 1);
    let e = lir_lowering::label_after(lir_lowering::after_reg(c), 2);
    let n = c.instrs.len() as int;
    expr_grows(x, st, rhs);
    assert(begins(c2.instrs, d.instrs) && !c2.full);
    starts_with(c2.instrs, d.instrs, j.p);
    starts_with(st.instrs, c2.instrs, j.p);
    assert(st.instrs.len() == n + 5);
    let tmp = Reg(lir_lowering::after_reg(c).next);
    assert(j.p[n] == InstrView::BranchIfFalse { cond: lr, target: g, span });
    assert(j.p[n + 1] == InstrView::Const { dst: tmp, value: Scalar::Bool(true), span });
    assert(j.p[n + 2] == InstrView::Copy { dst: Reg(c.next), src: tmp, span });
    assert(j.p[n + 3] == InstrView::Jump { target: e, span });
    assert(j.p[n + 4] == InstrView::Label { id: g, span });
    label_is_at(j.p, g, n + 4);
    stay(j, m);
    more(j, m, m);
    let m1 = one(j, m);
    if a {
        assert(st.bindings.dom() == s.env.dom());
        code_has_value(x, st, rhs);
        let k = c2.instrs.len() as int;
        assert(d.instrs.len() == k + 8);
        assert(j.p[k + 7] == InstrView::Label { id: e, span });
        label_is_at(j.p, e, k + 7);
        let m2 = one(j, m1);
        more(j, m, m1);
        let m3 = one(j, m2);
        more(j, m, m2);
        let m4 = one(j, m3);
        more(j, m, m3);
        more(j, m, m4);
        one(j, m4)
    } else {
        let m2 = one(j, m1);
        more(j, m, m1);
        still_stands(l, c, s, m, st, s, m2);
        let t2 = expr_runs(x, j, l, st, s, m2, rhs);
        join(j, m, m2, t2);
        twice(c, st, m, m2, t2);
        let b = (meant(x, j, s, rhs)->0).0->Bool_0;
        let t = logic_ends(j, c2, r->0, Reg(c.next), f, e, span, t2, b);
        join(j, m, t2, t);
        assert forall|q: Reg| q.0 < c.next implies #[trigger] t.regs[q] == m.regs[q] by {
            assert(t2.regs[q] == m.regs[q]);
        }
        t
    }
}

// ---------------------------------------------------------------------------
// Statements
// ---------------------------------------------------------------------------

proof fn result_is_new(x: Context, c: Code, e: HirExprView)
    requires
        lowered(x, c, e).0 is Some,
        !lowered(x, c, e).1.full,
        e matches HirExprView::Var { def: Some(d), .. } ==> !c.bindings.dom().contains(d.0),
    ensures
        (lowered(x, c, e).0->0).0 >= c.next,
{
    expr_grows(x, c, e);
    match e {
        HirExprView::ArrayLiteral { elems, .. } => exprs_grow(x, c, elems),
        HirExprView::ObjectLiteral { fields, .. } => named_grow(x, c, fields),
        HirExprView::Index { base, index, .. } => {
            expr_grows(x, c, *base);
            expr_grows(x, lowered(x, c, *base).1, *index);
        },
        HirExprView::Field { base, .. } => expr_grows(x, c, *base),
        HirExprView::Call { args, .. } => exprs_grow(x, c, args),
        HirExprView::Binary { op, lhs, rhs, span, .. } => {
            expr_grows(x, c, *lhs);
            let c1 = lowered(x, c, *lhs).1;
            if let Some(l) = lowered(x, c, *lhs).0 {
                expr_grows(x, c1, *rhs);
                expr_grows(x, lir_lowering::and_start(c1, l, span), *rhs);
                expr_grows(x, lir_lowering::or_start(c1, l, span), *rhs);
            }
        },
        HirExprView::Unary { inner, .. } => expr_grows(x, c, *inner),
        HirExprView::Cast { inner, .. } => expr_grows(x, c, *inner),
        _ => {},
    }
}

proof fn stmt_keeps_home(x: Context, c: Code, s: HirStmtView, d: u32)
    requires
        c.bindings.dom().contains(d),
        !meaning::stmt_binds(s, d),
    ensures
        lir_lowering::lowered_stmt(x, c, s).bindings.dom().contains(d),
        lir_lowering::lowered_stmt(x, c, s).bindings[d] == c.bindings[d],
    decreases s,
{
    match s {
        HirStmtView::Let { value, .. } => expr_grows(x, c, value),
        HirStmtView::Expr(value) => expr_grows(x, c, value),
        HirStmtView::Return { value, .. } => {
            match value {
                Some(e) => expr_grows(x, c, e),
                None => {},
            }
        },
        HirStmtView::If { condition, .. } => expr_grows(x, c, condition),
        HirStmtView::Assign { value, .. } => expr_grows(x, c, value),
        HirStmtView::IndexAssign { array, index, value, .. } => {
            expr_grows(x, c, *array);
            let c1 = lowered(x, c, *array).1;
            expr_grows(x, c1, *index);
            expr_grows(x, lowered(x, c1, *index).1, *value);
        },
        HirStmtView::FieldAssign { base, value, .. } => {
            expr_grows(x, c, *base);
            expr_grows(x, lowered(x, c, *base).1, *value);
        },
        HirStmtView::While { condition, body, span } => {
            let a = loop_start(c, span);
            expr_grows(x, a, condition);
            match lowered(x, a, condition) {
                (Some(cond), c3) => {
                    stmts_keep_home(x, loop_body(c, c3, cond, span), body, d);
                },
                _ => {},
            }
        },
        _ => {},
    }
}

proof fn stmts_keep_home(x: Context, c: Code, ss: Seq<HirStmtView>, d: u32)
    requires
        c.bindings.dom().contains(d),
        !meaning::stmts_bind(ss, d),
    ensures
        lir_lowering::lowered_stmts(x, c, ss).bindings.dom().contains(d),
        lir_lowering::lowered_stmts(x, c, ss).bindings[d] == c.bindings[d],
    decreases ss,
{
    if ss.len() > 0 {
        stmts_keep_home(x, c, ss.drop_last(), d);
        stmt_keeps_home(x, lir_lowering::lowered_stmts(x, c, ss.drop_last()), ss.last(), d);
    }
}

proof fn relinked(l: Map<Reg, nat>, l2: Map<Reg, nat>, cells: Seq<Value>, regs: Map<Reg, Value>, n: u32, n2: u32)
    requires
        linked(l2, cells, regs, n2),
        within(l, l2),
        forall|r: Reg| #[trigger] l.dom().contains(r) ==> r.0 < n,
    ensures
        linked(l, cells, regs, n),
{
    assert forall|r: Reg| #[trigger] l.dom().contains(r) implies l[r] < cells.len() && regs[r]
        == cells[l[r] as int] && r.0 < n by {
        assert(l2.dom().contains(r) && l2[r] == l[r]);
    }
    assert forall|r: Reg, q: Reg|
        #![trigger l.dom().contains(r), l.dom().contains(q)]
        l.dom().contains(r) && l.dom().contains(q) && l[r] == l[q] implies r == q by {
        assert(l2.dom().contains(r) && l2[r] == l[r]);
        assert(l2.dom().contains(q) && l2[q] == l[q]);
    }
}

/// Whether a run ended as a statement ends.
spec fn ended(
    j: Job,
    l: Map<Reg, nat>,
    c: Code,
    d: Code,
    f: Flow,
    s1: Store,
    m: Run,
    l2: Map<Reg, nat>,
    t: Run,
) -> bool {
    &&& go(j, m, t)
    &&& t.trace == s1.trace
    &&& match f {
        Flow::Next => within(l, l2) && stands(l2, d, s1, t),
        Flow::Break => c.loops.len() > 0 ==> {
            &&& t.pc == meaning::label_position(j.p, c.loops.last().0)
            &&& t.result is None
            &&& linked(l, s1.cells, t.regs, c.next)
        },
        Flow::Continue => c.loops.len() > 0 ==> {
            &&& t.pc == meaning::label_position(j.p, c.loops.last().1)
            &&& t.result is None
            &&& linked(l, s1.cells, t.regs, c.next)
        },
        Flow::Return(v) => t.result == Some(v),
    }
}

spec fn course(x: Context, j: Job, n: nat, s: Store, a: HirStmtView) -> Option<(Flow, Store)> {
    meaning::run_stmt(j.w, types_in(x), n, s, a)
}

spec fn courses(x: Context, j: Job, n: nat, s: Store, a: Seq<HirStmtView>) -> Option<(Flow, Store)> {
    meaning::run_stmts(j.w, types_in(x), n, s, a)
}

#[verifier::rlimit(60)]
#[verifier::spinoff_prover]
proof fn let_runs(
    x: Context,
    j: Job,
    l: Map<Reg, nat>,
    c: Code,
    s: Store,
    m: Run,
    n: nat,
    a: HirStmtView,
) -> (r: (Map<Reg, nat>, Run))
    requires
        stands(l, c, s, m),
        ready(j, lir_lowering::lowered_stmt(x, c, a)),
        course(x, j, n, s, a) is Some,
        a is Let,
    ensures
        ended(
            j,
            l,
            c,
            lir_lowering::lowered_stmt(x, c, a),
            (course(x, j, n, s, a)->0).0,
            (course(x, j, n, s, a)->0).1,
            m,
            r.0,
            r.1,
        ),
{
    let def = a->Let_def;
    let value = a->Let_value;
    let d = lir_lowering::lowered_stmt(x, c, a);
    let (v, s1) = meant(x, j, s, value)->0;
    let s2 = (course(x, j, n, s, a)->0).1;
    expr_grows(x, c, value);
    let c1 = lowered(x, c, value).1;
    if lowered(x, c, value).0 is Some {
        assert(begins(c1.instrs, d.instrs));
    }
    starts_with(c1.instrs, d.instrs, j.p);
    let t = expr_runs(x, j, l, c, s, m, value);
    types_agree(x, value.id());
    value_keeps(j.w, types_in(x), s, value);
    let reg = lowered(x, c, value).0->0;
    let refers = lir_lowering::runtime_ty(x, value.id()) matches Some(t) && (t is Object || t
        is Array);
    match def {
        None => (l, t),
        Some(k) => {
            let local = value matches HirExprView::Var { def: Some(o), .. } && s.env.dom().contains(
                o.0,
            );
            if refers {
                let home = Reg(c1.next);
                let i = InstrView::Copy { dst: home, src: reg, span: value.span() };
                assert(j.p[t.pc] == i);
                more(j, m, t);
                let u = one(j, t);
                let l2 = l.insert(home, s1.cells.len());
                assert(!l.dom().contains(home));
                assert(s2 == meaning::bind(s1, def, v));
                links_one_more(l, c1, s1, t, home, v, u.regs, d.next);
                homes_one_more(l, c.bindings, s.env, k.0, home, s1.cells.len());
                (l2, u)
            } else if local {
                let o = value->Var_def->0;
                assert((types_in(x).shares)(value.id()));
                assert(s2.env == s.env.insert(k.0, s.env[o.0]));
                assert(reg == c.bindings[o.0]);
                assert(d.bindings.dom() =~= s2.env.dom());
                (l, t)
            } else {
                result_is_new(x, c, value);
                assert(!l.dom().contains(reg));
                let l2 = l.insert(reg, s1.cells.len());
                assert(s2 == meaning::bind(s1, def, v));
                links_one_more(l, c1, s1, t, reg, v, t.regs, d.next);
                homes_one_more(l, c.bindings, s.env, k.0, reg, s1.cells.len());
                (l2, t)
            }
        },
    }
}

proof fn links_one_more(
    l: Map<Reg, nat>,
    c: Code,
    s: Store,
    m: Run,
    r: Reg,
    v: Value,
    regs: Map<Reg, Value>,
    next: u32,
)
    requires
        linked(l, s.cells, m.regs, c.next),
        !l.dom().contains(r),
        regs[r] == v,
        forall|q: Reg| #[trigger] l.dom().contains(q) ==> regs[q] == m.regs[q],
        c.next <= next,
        r.0 < next,
    ensures
        linked(l.insert(r, s.cells.len()), s.cells.push(v), regs, next),
{
    let l2 = l.insert(r, s.cells.len());
    assert forall|q: Reg| #[trigger] l2.dom().contains(q) implies l2[q] < s.cells.push(v).len()
        && regs[q] == s.cells.push(v)[l2[q] as int] && q.0 < next by {
        if q != r {
            assert(l.dom().contains(q));
        }
    }
    assert forall|p: Reg, q: Reg|
        #![trigger l2.dom().contains(p), l2.dom().contains(q)]
        l2.dom().contains(p) && l2.dom().contains(q) && l2[p] == l2[q] implies p == q by {
        if p != r {
            assert(l.dom().contains(p));
        }
        if q != r {
            assert(l.dom().contains(q));
        }
    }
}

proof fn homes_one_more(
    l: Map<Reg, nat>,
    bindings: Map<u32, Reg>,
    env: Map<u32, nat>,
    k: u32,
    r: Reg,
    cell: nat,
)
    requires
        homes_linked(l, bindings, env),
        !l.dom().contains(r),
    ensures
        homes_linked(l.insert(r, cell), bindings.insert(k, r), env.insert(k, cell)),
{
    assert(bindings.insert(k, r).dom() =~= env.insert(k, cell).dom());
    assert forall|d: u32| #[trigger] env.insert(k, cell).dom().contains(d) implies l.insert(
        r,
        cell,
    ).dom().contains(bindings.insert(k, r)[d]) && l.insert(r, cell)[bindings.insert(k, r)[d]]
        == env.insert(k, cell)[d] by {
        if d != k {
            assert(env.dom().contains(d));
            assert(l.dom().contains(bindings[d]));
        }
    }
}

#[verifier::rlimit(60)]
#[verifier::spinoff_prover]
proof fn plain_stmt_runs(
    x: Context,
    j: Job,
    l: Map<Reg, nat>,
    c: Code,
    s: Store,
    m: Run,
    n: nat,
    a: HirStmtView,
) -> (r: (Map<Reg, nat>, Run))
    requires
        stands(l, c, s, m),
        ready(j, lir_lowering::lowered_stmt(x, c, a)),
        course(x, j, n, s, a) is Some,
        !(a is Let) && !(a is If) && !(a is While),
    ensures
        ended(
            j,
            l,
            c,
            lir_lowering::lowered_stmt(x, c, a),
            (course(x, j, n, s, a)->0).0,
            (course(x, j, n, s, a)->0).1,
            m,
            r.0,
            r.1,
        ),
{
    let d = lir_lowering::lowered_stmt(x, c, a);
    let s2 = (course(x, j, n, s, a)->0).1;
    stay(j, m);
    match a {
        HirStmtView::Expr(value) => {
            let t = expr_runs(x, j, l, c, s, m, value);
            (l, t)
        },
        HirStmtView::Return { value, span } => {
            match value {
                Some(e) => {
                    let c1 = lowered(x, c, e).1;
                    expr_grows(x, c, e);
                    starts_with(c1.instrs, d.instrs, j.p);
                    let t = expr_runs(x, j, l, c, s, m, e);
                    assert(j.p[t.pc] == InstrView::Ret { src: lowered(x, c, e).0->0, span });
                    more(j, m, t);
                    (l, one(j, t))
                },
                None => {
                    let k = c.instrs.len() as int;
                    assert(j.p[k] == InstrView::Const {
                        dst: Reg(c.next),
                        value: Scalar::I64(0),
                        span,
                    });
                    assert(j.p[k + 1] == InstrView::Ret { src: Reg(c.next), span });
                    more(j, m, m);
                    let t = one(j, m);
                    more(j, m, t);
                    (l, one(j, t))
                },
            }
        },
        HirStmtView::Assign { def, value, span, .. } => {
            let c1 = lowered(x, c, value).1;
            let (v, s1) = meant(x, j, s, value)->0;
            expr_grows(x, c, value);
            value_keeps(j.w, types_in(x), s, value);
            starts_with(c1.instrs, d.instrs, j.p);
            let t = expr_runs(x, j, l, c, s, m, value);
            let src = lowered(x, c, value).0->0;
            match def {
                Some(k) => {
                    if s.env.dom().contains(k.0) {
                        assert(c.bindings.dom().contains(k.0));
                        let home = c.bindings[k.0];
                        assert(j.p[t.pc] == InstrView::Copy { dst: home, src, span });
                        more(j, m, t);
                        let u = one(j, t);
                        assert(l.dom().contains(home) && l[home] == s.env[k.0]);
                        assert forall|r: Reg| #[trigger] l.dom().contains(r) implies l[r]
                            < s2.cells.len() && u.regs[r] == s2.cells[l[r] as int] && r.0 < d.next by {
                            if r != home {
                                assert(l[r] != l[home]);
                            }
                        }
                        assert(linked(l, s2.cells, u.regs, d.next));
                        (l, u)
                    } else {
                        assert(!c.bindings.dom().contains(k.0));
                        if x.globals.dom().contains(k.0) {
                            assert(j.p[t.pc] == InstrView::GlobalStore {
                                global: x.globals[k.0],
                                src,
                                span,
                            });
                            more(j, m, t);
                            (l, one(j, t))
                        } else {
                            (l, t)
                        }
                    }
                },
                None => (l, t),
            }
        },
        HirStmtView::IndexAssign { array, index, value, span, .. } => {
            let c1 = lowered(x, c, *array).1;
            let c2 = lowered(x, c1, *index).1;
            let c3 = lowered(x, c2, *value).1;
            let s3 = (meant(x, j, s, *array)->0).1;
            let s4 = (meant(x, j, s3, *index)->0).1;
            expr_grows(x, c, *array);
            expr_grows(x, c1, *index);
            expr_grows(x, c2, *value);
            stands_lives(l, c, s, m);
            types_agree(x, array.id());
            starts_with(c3.instrs, d.instrs, j.p);
            starts_with(c2.instrs, c3.instrs, j.p);
            starts_with(c1.instrs, c2.instrs, j.p);
            let t1 = expr_runs(x, j, l, c, s, m, *array);
            let t2 = expr_runs(x, j, l, c1, s3, t1, *index);
            let t3 = expr_runs(x, j, l, c2, s4, t2, *value);
            join(j, m, t1, t2);
            join(j, m, t2, t3);
            let (ra, ri, rv) = (
                lowered(x, c, *array).0->0,
                lowered(x, c1, *index).0->0,
                lowered(x, c2, *value).0->0,
            );
            assert(t2.regs[ra] == t1.regs[ra]);
            assert(t3.regs[ra] == t2.regs[ra]);
            assert(t3.regs[ri] == t2.regs[ri]);
            assert(j.p[t3.pc] == InstrView::ArraySet {
                array: ra,
                index: ri,
                value: rv,
                elem: lir_lowering::elem_ty(x, array.id())->0,
                span,
            });
            more(j, m, t3);
            (l, one(j, t3))
        },
        HirStmtView::FieldAssign { base, field, value, span, .. } => {
            let c1 = lowered(x, c, *base).1;
            let c2 = lowered(x, c1, *value).1;
            let s3 = (meant(x, j, s, *base)->0).1;
            expr_grows(x, c, *base);
            expr_grows(x, c1, *value);
            stands_lives(l, c, s, m);
            types_agree(x, value.id());
            starts_with(c2.instrs, d.instrs, j.p);
            starts_with(c1.instrs, c2.instrs, j.p);
            let t1 = expr_runs(x, j, l, c, s, m, *base);
            let t2 = expr_runs(x, j, l, c1, s3, t1, *value);
            join(j, m, t1, t2);
            let (rb, rv) = (lowered(x, c, *base).0->0, lowered(x, c1, *value).0->0);
            assert(t2.regs[rb] == t1.regs[rb]);
            assert(j.p[t2.pc] == InstrView::ObjectSet {
                object: rb,
                name: field,
                value: rv,
                ty: lir_lowering::runtime_ty(x, value.id())->0,
                span,
            });
            more(j, m, t2);
            (l, one(j, t2))
        },
        HirStmtView::Break { span } | HirStmtView::Continue { span } => {
            if c.loops.len() > 0 {
                assert(j.p[m.pc] is Jump);
                more(j, m, m);
                (l, one(j, m))
            } else {
                (l, m)
            }
        },
        _ => (l, m),
    }
}

#[verifier::rlimit(60)]
#[verifier::spinoff_prover]
proof fn stmt_runs(
    x: Context,
    j: Job,
    l: Map<Reg, nat>,
    c: Code,
    s: Store,
    m: Run,
    n: nat,
    a: HirStmtView,
) -> (r: (Map<Reg, nat>, Run))
    requires
        stands(l, c, s, m),
        ready(j, lir_lowering::lowered_stmt(x, c, a)),
        course(x, j, n, s, a) is Some,
    ensures
        ended(
            j,
            l,
            c,
            lir_lowering::lowered_stmt(x, c, a),
            (course(x, j, n, s, a)->0).0,
            (course(x, j, n, s, a)->0).1,
            m,
            r.0,
            r.1,
        ),
    decreases n, a,
{
    reveal_with_fuel(lir_lowering::label_after, 3);
    let d = lir_lowering::lowered_stmt(x, c, a);
    let (f, s9) = course(x, j, n, s, a)->0;
    match a {
        HirStmtView::Let { .. } => let_runs(x, j, l, c, s, m, n, a),
        HirStmtView::If { condition, then_body, else_body, span } => {
            let c0 = lowered(x, c, condition).1;
            let s1 = (meant(x, j, s, condition)->0).1;
            let cond = lowered(x, c, condition).0->0;
            let c1 = if_start(c0, cond, span);
            let c2 = lir_lowering::lowered_stmts(x, c1, then_body);
            let c4 = if_middle(c0, c2, span);
            let c5 = match else_body {
                Some(b) => lir_lowering::lowered_stmts(x, c4, b),
                None => c4,
            };
            expr_grows(x, c, condition);
            value_keeps(j.w, types_in(x), s, condition);
            stmts_grow(x, c1, then_body);
            if let Some(b) = else_body {
                stmts_grow(x, c4, b);
            }
            if lowered(x, c, condition).0 is Some {
                assert(begins(c0.instrs, c1.instrs));
                starts_with(c0.instrs, c1.instrs, c2.instrs);
                assert(begins(c2.instrs, c4.instrs));
                starts_with(c0.instrs, c2.instrs, c4.instrs);
                starts_with(c0.instrs, c4.instrs, c5.instrs);
                assert(begins(c5.instrs, d.instrs));
                starts_with(c0.instrs, c5.instrs, d.instrs);
            }
            starts_with(c0.instrs, d.instrs, j.p);
            let t = expr_runs(x, j, l, c, s, m, condition);
            starts_with(c5.instrs, d.instrs, j.p);
            starts_with(c4.instrs, c5.instrs, j.p);
            starts_with(c2.instrs, c4.instrs, j.p);
            starts_with(c1.instrs, c2.instrs, j.p);
            let e1 = lir_lowering::label_after(c0, 0);
            let e2 = lir_lowering::label_after(c0, 1);
            let k2 = c2.instrs.len() as int;
            let k5 = c5.instrs.len() as int;
            assert(j.p[t.pc] == InstrView::BranchIfFalse { cond, target: e1, span });
            assert(j.p[k2] == InstrView::Jump { target: e2, span });
            assert(j.p[k2 + 1] == InstrView::Label { id: e1, span });
            assert(j.p[k5] == InstrView::Label { id: e2, span });
            label_is_at(j.p, e1, k2 + 1);
            label_is_at(j.p, e2, k5);
            more(j, m, t);
            let t1 = one(j, t);
            if t.regs[cond] == Value::Bool(true) {
                still_stands(l, c, s, m, c1, s1, t1);
                let (l2, t2) = stmts_run(x, j, l, c1, s1, t1, n, then_body);
                join(j, m, t1, t2);
                let (_, s2) = courses(x, j, n, s1, then_body)->0;
                if f is Next {
                    more(j, m, t2);
                    let t3 = one(j, t2);
                    more(j, m, t3);
                    let t4 = one(j, t3);
                    block_left(l, l2, c, c2, s, s2, t2, d, t4);
                    (l2, t4)
                } else {
                    if c.loops.len() > 0 && !(f is Return) {
                        assert(linked(l, s2.cells, t2.regs, c1.next));
                        relinked(l, l, s2.cells, t2.regs, c.next, c1.next);
                    }
                    (l2, t2)
                }
            } else {
                more(j, m, t1);
                let t2 = one(j, t1);
                still_stands(l, c, s, m, c4, s1, t2);
                match else_body {
                    Some(b) => {
                        let (l2, t3) = stmts_run(x, j, l, c4, s1, t2, n, b);
                        join(j, m, t2, t3);
                        let (_, s2) = courses(x, j, n, s1, b)->0;
                        if f is Next {
                            more(j, m, t3);
                            let t4 = one(j, t3);
                            block_left(l, l2, c, c5, s, s2, t3, d, t4);
                            (l2, t4)
                        } else {
                            if c.loops.len() > 0 && !(f is Return) {
                                assert(linked(l, s2.cells, t3.regs, c4.next));
                                relinked(l, l, s2.cells, t3.regs, c.next, c4.next);
                            }
                            (l2, t3)
                        }
                    },
                    None => {
                        more(j, m, t2);
                        let t3 = one(j, t2);
                        still_stands(l, c, s, m, d, s1, t3);
                        (l, t3)
                    },
                }
            }
        },
        HirStmtView::While { condition, body, span } => {
            let c1 = loop_start(c, span);
            let c3 = lowered(x, c1, condition).1;
            let cond = lowered(x, c1, condition).0->0;
            let c4 = loop_body(c, c3, cond, span);
            let c5 = lir_lowering::lowered_stmts(x, c4, body);
            let start = lir_lowering::label_after(c, 0);
            let end = lir_lowering::label_after(c, 1);
            let s1 = (meant(x, j, s, condition)->0).1;
            expr_grows(x, c1, condition);
            value_keeps(j.w, types_in(x), s, condition);
            stmts_grow(x, c4, body);
            if lowered(x, c1, condition).0 is Some {
                starts_with(c3.instrs, c4.instrs, c5.instrs);
                assert(begins(c5.instrs, d.instrs));
                starts_with(c3.instrs, c5.instrs, d.instrs);
            }
            starts_with(c3.instrs, d.instrs, j.p);
            starts_with(c1.instrs, c3.instrs, j.p);
            assert(j.p[m.pc] == InstrView::Label { id: start, span });
            label_is_at(j.p, start, m.pc);
            stay(j, m);
            more(j, m, m);
            let m1 = one(j, m);
            still_stands(l, c, s, m, c1, s, m1);
            let t = expr_runs(x, j, l, c1, s, m1, condition);
            join(j, m, m1, t);
            twice(c, c1, m, m1, t);
            starts_with(c5.instrs, d.instrs, j.p);
            starts_with(c4.instrs, c5.instrs, j.p);
            let k = c5.instrs.len() as int;
            assert(j.p[t.pc] == InstrView::BranchIfFalse { cond, target: end, span });
            assert(j.p[k] == InstrView::Jump { target: start, span });
            assert(j.p[k + 1] == InstrView::Label { id: end, span });
            label_is_at(j.p, end, k + 1);
            more(j, m, t);
            let t1 = one(j, t);
            assert(d.bindings =~= c.bindings) by {
                assert forall|i: u32| #[trigger] c.bindings.dom().contains(i) implies
                    c5.bindings.dom().contains(i) && c5.bindings[i] == c.bindings[i] by {
                    assert(s.env.dom().contains(i));
                    assert(!meaning::stmts_bind(body, i));
                    stmts_keep_home(x, c4, body, i);
                }
            }
            if t.regs[cond] == Value::Bool(true) {
                still_stands(l, c, s, m, c4, s1, t1);
                let (l2, t2) = stmts_run(x, j, l, c4, s1, t1, n, body);
                join(j, m, t1, t2);
                let (g, s2) = courses(x, j, n, s1, body)->0;
                let s3 = Store { env: s.env, ..s2 };
                assert(c4.loops.last() == (end, start));
                match g {
                    Flow::Next => {
                        more(j, m, t2);
                        let t3 = one(j, t2);
                        relinked(l, l2, s2.cells, t3.regs, c.next, c5.next);
                        assert(stands(l, c, s3, t3));
                        let (l4, t4) = stmt_runs(x, j, l, c, s3, t3, (n - 1) as nat, a);
                        join(j, m, t3, t4);
                        (l4, t4)
                    },
                    Flow::Continue => {
                        relinked(l, l, s2.cells, t2.regs, c.next, c4.next);
                        assert(stands(l, c, s3, t2));
                        let (l4, t4) = stmt_runs(x, j, l, c, s3, t2, (n - 1) as nat, a);
                        join(j, m, t2, t4);
                        (l4, t4)
                    },
                    Flow::Break => {
                        more(j, m, t2);
                        let t3 = one(j, t2);
                        relinked(l, l, s2.cells, t3.regs, c.next, c4.next);
                        assert(linked(l, s3.cells, t3.regs, d.next));
                        (l, t3)
                    },
                    Flow::Return(_) => (l2, t2),
                }
            } else {
                more(j, m, t1);
                let t2 = one(j, t1);
                still_stands(l, c, s, m, d, s1, t2);
                (l, t2)
            }
        },
        _ => plain_stmt_runs(x, j, l, c, s, m, n, a),
    }
}

/// Behind a block the variables of the block are gone.
proof fn block_left(
    l: Map<Reg, nat>,
    l2: Map<Reg, nat>,
    c: Code,
    b: Code,
    s: Store,
    s2: Store,
    t2: Run,
    d: Code,
    t: Run,
)
    requires
        homes_linked(l, c.bindings, s.env),
        within(l, l2),
        stands(l2, b, s2, t2),
        b.next <= d.next,
        d.bindings == c.bindings,
        t == (Run { pc: d.instrs.len() as int, ..t2 }),
    ensures
        stands(l2, d, Store { env: s.env, ..s2 }, t),
{
    assert forall|k: u32| #[trigger] s.env.dom().contains(k) implies l2.dom().contains(
        c.bindings[k],
    ) && l2[c.bindings[k]] == s.env[k] by {
        assert(l.dom().contains(c.bindings[k]));
    }
}

#[verifier::rlimit(40)]
#[verifier::spinoff_prover]
proof fn stmts_run(
    x: Context,
    j: Job,
    l: Map<Reg, nat>,
    c: Code,
    s: Store,
    m: Run,
    n: nat,
    xs: Seq<HirStmtView>,
) -> (r: (Map<Reg, nat>, Run))
    requires
        stands(l, c, s, m),
        ready(j, lir_lowering::lowered_stmts(x, c, xs)),
        courses(x, j, n, s, xs) is Some,
    ensures
        ended(
            j,
            l,
            c,
            lir_lowering::lowered_stmts(x, c, xs),
            (courses(x, j, n, s, xs)->0).0,
            (courses(x, j, n, s, xs)->0).1,
            m,
            r.0,
            r.1,
        ),
    decreases n, xs,
{
    stay(j, m);
    if xs.len() == 0 {
        (l, m)
    } else {
        let front = xs.drop_last();
        let c1 = lir_lowering::lowered_stmts(x, c, front);
        let d = lir_lowering::lowered_stmts(x, c, xs);
        stmts_grow(x, c, front);
        stmt_grows(x, c1, xs.last());
        starts_with(c1.instrs, d.instrs, j.p);
        let (l1, t1) = stmts_run(x, j, l, c, s, m, n, front);
        let (f, s1) = courses(x, j, n, s, front)->0;
        if f is Next {
            let (l2, t2) = stmt_runs(x, j, l1, c1, s1, t1, n, xs.last());
            join(j, m, t1, t2);
            let (g, s2) = course(x, j, n, s1, xs.last())->0;
            if (g is Break || g is Continue) && c.loops.len() > 0 {
                relinked(l, l1, s2.cells, t2.regs, c.next, c1.next);
            }
            (l2, t2)
        } else {
            (l1, t1)
        }
    }
}

// ---------------------------------------------------------------------------
// Functions
// ---------------------------------------------------------------------------

/// A run at its start.
pub open spec fn started(trace: Seq<Event>) -> Run {
    Run { pc: 0, regs: Map::empty(), trace, result: None }
}

/// Whether a run of code, from its start, returns a value and asks what is given.
pub open spec fn run_gives(
    w: World,
    p: Seq<InstrView>,
    args: Seq<Value>,
    trace: Seq<Event>,
    out: (Value, Seq<Event>),
) -> bool {
    exists|t: Run| #[trigger]
        meaning::reaches(w, p, args, started(trace), t) && t.result == Some(out.0) && t.trace
            == out.1
}

proof fn params_grow(c: Code, ps: Params)
    ensures
        grows(c, lir_lowering::lowered_params(c, ps)),
    decreases ps.len(),
{
    if ps.len() > 0 {
        params_grow(c, ps.drop_last());
    }
}

#[verifier::rlimit(30)]
proof fn params_run(j: Job, ps: Params, trace: Seq<Event>) -> (r: (Map<Reg, nat>, Run))
    requires
        ready(j, lir_lowering::lowered_params(lir_lowering::no_code(), ps)),
        ps.len() <= usize::MAX,
    ensures
        go(j, started(trace), r.1),
        stands(
            r.0,
            lir_lowering::lowered_params(lir_lowering::no_code(), ps),
            meaning::bind_params(
                ps,
                j.args,
                Store { env: Map::empty(), cells: Seq::empty(), trace },
            ),
            r.1,
        ),
    decreases ps.len(),
{
    let c0 = lir_lowering::no_code();
    let s0 = Store { env: Map::empty(), cells: Seq::empty(), trace };
    let m0 = started(trace);
    if ps.len() == 0 {
        stay(j, m0);
        assert(c0.bindings.dom() =~= s0.env.dom());
        assert(stands(Map::empty(), c0, s0, m0));
        (Map::empty(), m0)
    } else {
        let front = ps.drop_last();
        let c = lir_lowering::lowered_params(c0, front);
        let d = lir_lowering::lowered_params(c0, ps);
        params_grow(c0, front);
        assert(begins(c.instrs, d.instrs));
        starts_with(c.instrs, d.instrs, j.p);
        let (l, m) = params_run(j, front, trace);
        let s = meaning::bind_params(front, j.args, s0);
        let r = Reg(c.next);
        let v = j.args[ps.len() - 1];
        assert(j.p[m.pc] == InstrView::Param {
            dst: r,
            index: (ps.len() - 1) as usize,
            span: ps.last().3,
        });
        more(j, m0, m);
        let t = one(j, m);
        match ps.last().1 {
            Some(k) => {
                assert(!l.dom().contains(r));
                links_one_more(l, c, s, m, r, v, t.regs, d.next);
                homes_one_more(l, c.bindings, s.env, k.0, r, s.cells.len());
                (l.insert(r, s.cells.len()), t)
            },
            None => {
                assert(linked(l, s.cells, t.regs, d.next));
                (l, t)
            },
        }
    }
}

/// Running the code of a function returns what the function returns, and asks of
/// the world what the function asks, in the same order.
pub proof fn code_does_what_it_means(
    x: Context,
    ps: Params,
    body: Seq<HirStmtView>,
    w: World,
    n: nat,
    args: Seq<Value>,
    trace: Seq<Event>,
)
    requires
        !lir_lowering::lowered_body(x, ps, body).full,
        ps.len() <= usize::MAX,
        meaning::call_of(w, types_in(x), n, ps, body, args, trace) is Some,
    ensures
        run_gives(
            w,
            lir_lowering::lowered_body(x, ps, body).instrs,
            args,
            trace,
            meaning::call_of(w, types_in(x), n, ps, body, args, trace)->0,
        ),
{
    let d = lir_lowering::lowered_body(x, ps, body);
    let j = Job { w, p: d.instrs, args };
    let c = lir_lowering::lowered_params(lir_lowering::no_code(), ps);
    let b = lir_lowering::lowered_stmts(x, c, body);
    let s = meaning::bind_params(
        ps,
        args,
        Store { env: Map::empty(), cells: Seq::empty(), trace },
    );
    lir_lowering::jumps_land(x, ps, body);
    stmts_grow(x, c, body);
    assert(begins(b.instrs, d.instrs) && !b.full);
    starts_with(c.instrs, b.instrs, d.instrs);
    let (l, m) = params_run(j, ps, trace);
    let (l2, t) = stmts_run(x, j, l, c, s, m, n, body);
    join(j, started(trace), m, t);
    let (f, s1) = courses(x, j, n, s, body)->0;
    if f is Next {
        if body.len() > 0 && body.last() is Return {
            match courses(x, j, n, s, body.drop_last()) {
                Some((Flow::Next, q)) => {
                    assert(course(x, j, n, q, body.last()) matches Some(r) ==> !(r.0 is Next));
                },
                _ => {},
            }
        }
        let k = b.instrs.len() as int;
        let at = Span { start: 0, end: 0 };
        assert(j.p[k] == InstrView::Const { dst: Reg(b.next), value: Scalar::U64(0), span: at });
        assert(j.p[k + 1] == InstrView::Ret { src: Reg(b.next), span: at });
        more(j, started(trace), t);
        let t1 = one(j, t);
        more(j, started(trace), t1);
        let t2 = one(j, t1);
        assert(meaning::reaches(w, d.instrs, args, started(trace), t2));
    } else {
        assert(meaning::reaches(w, d.instrs, args, started(trace), t));
    }
}

/// Running the code of an expression, such as that of a global, leaves its value
/// in the register of the result, and asks of the world what the expression asks.
pub proof fn code_computes_value(x: Context, e: HirExprView, w: World, trace: Seq<Event>)
    requires
        !lir_lowering::lowered_expr(x, lir_lowering::no_code(), e).1.full,
        meaning::value_of(
            w,
            types_in(x),
            Store { env: Map::empty(), cells: Seq::empty(), trace },
            e,
        ) is Some,
    ensures
        ({
            let (r, c) = lir_lowering::lowered_expr(x, lir_lowering::no_code(), e);
            let s = Store { env: Map::empty(), cells: Seq::empty(), trace };
            let (v, s1) = meaning::value_of(w, types_in(x), s, e)->0;
            &&& r is Some
            &&& exists|t: Run| #[trigger]
                meaning::reaches(w, c.instrs, Seq::empty(), started(trace), t) && t.pc
                    == c.instrs.len() && t.regs[r->0] == v && t.trace == s1.trace
        }),
{
    let c0 = lir_lowering::no_code();
    let c = lir_lowering::lowered_expr(x, c0, e).1;
    let s = Store { env: Map::empty(), cells: Seq::empty(), trace };
    let j = Job { w, p: c.instrs, args: Seq::empty() };
    assert forall|id: u32| #[trigger] lir_lowering::count_labels(c.instrs, id) <= 1 by {
        lir_lowering::expr_places_labels(x, c0, e, id);
        assert(lir_lowering::count_labels(c0.instrs, id) == 0);
    }
    assert(c0.bindings.dom() =~= s.env.dom());
    assert(stands(Map::empty(), c0, s, started(trace)));
    let t = expr_runs(x, j, Map::empty(), c0, s, started(trace), e);
    assert(meaning::reaches(w, c.instrs, Seq::empty(), started(trace), t));
}

proof fn function_is_lowered(x: Context, items: Seq<HirItemView>, k: int) -> (i: int)
    requires
        0 <= k < items.len(),
        items[k] is Fn,
        items[k]->Fn_type_params.len() == 0,
    ensures
        ({
            let (fs, full) = lir_lowering::lowered_functions(x, items);
            let b = lir_lowering::lowered_body(x, items[k]->params, items[k]->Fn_body);
            &&& 0 <= i < fs.len()
            &&& fs[i].name == items[k]->Fn_name
            &&& fs[i].instrs == b.instrs
            &&& !full ==> !b.full
        }),
    decreases items.len(),
{
    if k == items.len() - 1 {
        lir_lowering::lowered_functions(x, items).0.len() - 1
    } else {
        function_is_lowered(x, items.drop_last(), k)
    }
}

/// Each function of a module that is not generic stands in the lowered module
/// under its name, and running its code does what the function does.
pub proof fn lowered_functions_do_what_they_mean(
    p: HirProgramView,
    t: TypedView,
    k: int,
    w: World,
    n: nat,
    args: Seq<Value>,
    trace: Seq<Event>,
)
    requires
        lir_lowering::lowerable(p, t),
        0 <= k < p.items.len(),
        p.items[k] is Fn,
        p.items[k]->Fn_type_params.len() == 0,
        p.items[k]->params.len() <= usize::MAX,
        meaning::call_of(
            w,
            types_in(module_context(p, t)),
            n,
            p.items[k]->params,
            p.items[k]->Fn_body,
            args,
            trace,
        ) is Some,
    ensures
        exists|i: int|
            0 <= i < lir_lowering::lowered(p, t).functions.len() && (
            #[trigger] lir_lowering::lowered(p, t).functions[i]).name == p.items[k]->Fn_name
                && run_gives(
                w,
                lir_lowering::lowered(p, t).functions[i].instrs,
                args,
                trace,
                meaning::call_of(
                    w,
                    types_in(module_context(p, t)),
                    n,
                    p.items[k]->params,
                    p.items[k]->Fn_body,
                    args,
                    trace,
                )->0,
            ),
{
    let x = module_context(p, t);
    let i = function_is_lowered(x, p.items, k);
    assert(lir_lowering::lowered(p, t).functions[i] == lir_lowering::lowered_functions(
        x,
        p.items,
    ).0[i]);
    code_does_what_it_means(
        x,
        p.items[k]->params,
        p.items[k]->Fn_body,
        w,
        n,
        args,
        trace,
    );
}

/// What is known in the code of a module outside of instances.
pub open spec fn module_context(p: HirProgramView, t: TypedView) -> Context {
    Context {
        module: p.module,
        globals: lir_lowering::global_map(lir_lowering::global_lets(p.items)),
        env: Map::empty(),
        outer: None,
        typed: t,
    }
}

proof fn positions_are_kept(gs: Seq<GlobalLet>, k: int)
    requires
        0 <= k < gs.len() <= 0x1_0000_0000,
        forall|a: int, b: int|
            0 <= a < b < gs.len() ==> (#[trigger] gs[a]).def != (#[trigger] gs[b]).def,
    ensures
        lir_lowering::global_map(gs).dom().contains(gs[k].def),
        lir_lowering::global_map(gs)[gs[k].def] == k,
    decreases gs.len(),
{
    if k < gs.len() - 1 {
        let front = gs.drop_last();
        assert forall|a: int, b: int| 0 <= a < b < front.len() implies (#[trigger] front[a]).def
            != (#[trigger] front[b]).def by {
            assert(gs[a].def != gs[b].def);
        }
        positions_are_kept(front, k);
        assert(gs[k].def != gs[gs.len() - 1].def);
    }
}

proof fn global_is_lowered(x: Context, gs: Seq<GlobalLet>, k: int)
    requires
        0 <= k < gs.len() <= 0x1_0000_0000,
    ensures
        lir_lowering::lowered_globals(x, gs).0.len() == gs.len(),
        lir_lowering::lowered_globals(x, gs).0[k].id == k,
        lir_lowering::lowered_globals(x, gs).0[k].span == gs[k].span,
        node_type_of(x.typed, gs[k]) matches Some(ty) ==> {
            let g = lir_lowering::lowered_globals(x, gs).0[k];
            let (r, c) = lir_lowering::lowered_expr(x, lir_lowering::no_code(), gs[k].value);
            &&& g.ty == typed::erased(ty)
            &&& g.init == c.instrs
            &&& r is Some ==> g.result == r->0
        },
    decreases gs.len(),
{
    if gs.len() > 1 && k < gs.len() - 1 {
        global_is_lowered(x, gs.drop_last(), k);
    } else if gs.len() > 1 {
        global_is_lowered(x, gs.drop_last(), 0);
    } else {
        reveal_with_fuel(lir_lowering::lowered_globals, 2);
    }
}

/// The type of a global: of its binding, or else of its value.
pub open spec fn node_type_of(t: TypedView, g: GlobalLet) -> Option<TyView> {
    let ty = if t.types.dom().contains(g.id.0) {
        Some(t.types[g.id.0])
    } else if t.types.dom().contains(g.value.id().0) {
        Some(t.types[g.value.id().0])
    } else {
        None
    };
    match ty {
        Some(ty) => if !(ty is Error) && typed::concrete(ty) {
            Some(ty)
        } else {
            None
        },
        None => None,
    }
}

/// A global stands at the position that loads and stores of its definition name,
/// and the code there computes its value.
pub proof fn globals_stand_at_their_positions(p: HirProgramView, t: TypedView, k: int)
    requires
        0 <= k < lir_lowering::global_lets(p.items).len() <= 0x1_0000_0000,
        forall|a: int, b: int|
            0 <= a < b < lir_lowering::global_lets(p.items).len() ==> (
            #[trigger] lir_lowering::global_lets(p.items)[a]).def != (
            #[trigger] lir_lowering::global_lets(p.items)[b]).def,
    ensures
        ({
            let g = lir_lowering::global_lets(p.items)[k];
            let out = lir_lowering::lowered(p, t).globals[k];
            let (r, c) = lir_lowering::lowered_expr(
                module_context(p, t),
                lir_lowering::no_code(),
                g.value,
            );
            &&& types_in(module_context(p, t)).globals.dom().contains(g.def)
            &&& types_in(module_context(p, t)).globals[g.def] == k
            &&& out.id == k
            &&& node_type_of(t, g) is Some && r is Some ==> out.init == c.instrs && out.result
                == r->0
        }),
{
    positions_are_kept(lir_lowering::global_lets(p.items), k);
    global_is_lowered(module_context(p, t), lir_lowering::global_lets(p.items), k);
}

} // verus!
