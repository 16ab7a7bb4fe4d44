//! Lowering to the high-level representation keeps what a program means: the value
//! of a tree is that of what it is lowered to, and so is the course of a statement.

use vstd::prelude::*;

use crate::ast::{
    BinOp, DestructureBindingView, ExprView, FunctionDeclView, ItemView, MatchArmView, ParamView,
    ProgramView, Scalar, StmtView, UnOp,
};
use crate::hir::{HirDestructureBindingView, HirExprView, HirId, HirItemView, HirStmtView};
use crate::hir_lowering::Ids;
use crate::lir::FuncSymbolView;
use crate::meaning::{Event, Flow, Store, Types, Value, World};
use crate::module::SymbolView;
use crate::resolution::{DefId, ResolutionView};
use crate::span::Span;
use crate::ty::TypeView;
use crate::typed::TyView;
use crate::{hir_lowering, meaning, resolution, scope, table, typed};

verus! {

// ---------------------------------------------------------------------------
// Trees
// ---------------------------------------------------------------------------

/// What trees leave open: the functions that names stand for, and the globals.
pub struct Sense {
    pub called: spec_fn(Seq<char>, Option<SymbolView>, Seq<TypeView>) -> FuncSymbolView,
    pub globals: Map<u32, u32>,
}

/// Types that say nothing about nodes.
pub open spec fn untyped(z: Sense) -> Types {
    Types {
        known: |id: HirId| true,
        literal: |id: HirId, v: Scalar| meaning::plain(v),
        shares: |id: HirId| false,
        called: |id: HirId, name: Seq<char>, symbol: Option<SymbolView>, given: Seq<TypeView>|
            (z.called)(name, symbol, given),
        elem: |id: HirId| Some(TyView::Error),
        ty: |id: HirId| TyView::Error,
        target: |id: HirId, target: TypeView| typed::known(target),
        ready: |vars: Set<u32>, e: HirExprView| true,
        loops: |vars: Set<u32>, body: Seq<HirStmtView>| true,
        globals: z.globals,
    }
}

/// The definition that a name at a place refers to.
pub open spec fn referred(r: ResolutionView, span: Span) -> Option<DefId> {
    match resolution::used_def(r, span) {
        Some(d) => Some(d.id),
        None => None,
    }
}

/// The definition that stands at a place.
pub open spec fn introduced(r: ResolutionView, span: Span) -> Option<DefId> {
    match resolution::def_with_span(r.defs, span) {
        Some(d) => Some(d.id),
        None => None,
    }
}

/// What a variable holds.
pub open spec fn variable(w: World, z: Sense, s: Store, def: Option<DefId>) -> Option<(Value, Store)> {
    match def {
        Some(d) => if s.env.dom().contains(d.0) {
            Some((s.cells[s.env[d.0] as int], s))
        } else if z.globals.dom().contains(d.0) {
            Some(meaning::ask(w, s, Event::Load { global: z.globals[d.0] }))
        } else {
            None
        },
        None => None,
    }
}

/// What the fields of a variable hold, one inside the other.
pub open spec fn field_chain(
    w: World,
    z: Sense,
    s: Store,
    head: DefId,
    names: Seq<Seq<char>>,
) -> Option<(Value, Store)>
    decreases names.len(),
{
    if names.len() == 0 {
        variable(w, z, s, Some(head))
    } else {
        match field_chain(w, z, s, head, names.drop_last()) {
            Some((o, s)) => Some(
                meaning::ask(w, s, Event::Read { object: o, name: names.last(), ty: TyView::Error }),
            ),
            None => None,
        }
    }
}

/// `-v`. The additive inverse of a number; of a double that is written out, zero
/// less the double.
pub open spec fn negative(w: World, operand: ExprView, v: Value) -> Option<Value> {
    match v {
        Value::Num(n) => Some(Value::Num(-n)),
        Value::Float(b) => if operand is Literal {
            Some(Value::Float((w.float_difference)(0, b)))
        } else {
            None
        },
        _ => None,
    }
}

/// What an operator other than `&&` and `||` gives.
pub open spec fn tree_op(w: World, op: BinOp, a: Value, b: Value) -> Option<Value> {
    match op {
        BinOp::Add => meaning::sum(w, a, b),
        BinOp::Sub => meaning::difference(w, a, b),
        BinOp::Mul => meaning::product(w, a, b),
        BinOp::Div => meaning::quotient(w, a, b),
        BinOp::Eq => Some(Value::Bool(meaning::same(w, a, b))),
        BinOp::Ne => Some(Value::Bool(!meaning::same(w, a, b))),
        BinOp::Lt => meaning::truth(meaning::less(w, a, b)),
        BinOp::Ge => meaning::untruth(meaning::less(w, a, b)),
        BinOp::Gt => meaning::truth(meaning::less(w, b, a)),
        BinOp::Le => meaning::untruth(meaning::less(w, b, a)),
        BinOp::And | BinOp::Or => None,
    }
}

/// The value of a tree, and the state behind it.
pub open spec fn tree_value(w: World, r: ResolutionView, z: Sense, s: Store, x: ExprView) -> Option<
    (Value, Store),
>
    decreases x,
{
    match x {
        ExprView::Literal(v, _) => Some((meaning::plain(v), s)),
        ExprView::String(v, _) => Some((Value::Text(v), s)),
        ExprView::Null(_) => Some(meaning::ask(w, s, Event::Null)),
        ExprView::Var { span, .. } => variable(w, z, s, referred(r, span)),
        ExprView::ArrayLiteral { elems, .. } => match tree_values(w, r, z, s, elems) {
            Some((vs, s)) => Some(
                meaning::ask(w, s, Event::Array { elems: vs, elem: TyView::Error }),
            ),
            None => None,
        },
        ExprView::ObjectLiteral { name, fields, .. } => match tree_fields(w, r, z, s, fields) {
            Some((vs, s)) => Some(meaning::ask(w, s, Event::Object { name, fields: vs })),
            None => None,
        },
        ExprView::TupleLiteral { elems, .. } => match tree_elems(w, r, z, s, elems) {
            Some((vs, s)) => Some(meaning::ask(w, s, Event::Tuple { elems: vs })),
            None => None,
        },
        ExprView::Index { base, index, .. } => match tree_value(w, r, z, s, *base) {
            Some((a, s)) => match tree_value(w, r, z, s, *index) {
                Some((i, s)) => Some(
                    meaning::ask(w, s, Event::Fetch { array: a, index: i, elem: TyView::Error }),
                ),
                None => None,
            },
            None => None,
        },
        ExprView::Field { base, name, span } => if r.variants.dom().contains(
            table::place_of(span),
        ) {
            let v = r.variants[table::place_of(span)];
            Some(
                meaning::ask(
                    w,
                    s,
                    Event::Variant {
                        union: v.union,
                        variant: v.variant,
                        type_args: Seq::empty(),
                        args: Seq::empty(),
                    },
                ),
            )
        } else {
            match tree_value(w, r, z, s, *base) {
                Some((o, s)) => Some(
                    meaning::ask(w, s, Event::Read { object: o, name, ty: TyView::Error }),
                ),
                None => None,
            }
        },
        ExprView::TupleIndex { base, index, .. } => match tree_value(w, r, z, s, *base) {
            Some((v, s)) => Some(
                meaning::ask(w, s, Event::Item { tuple: v, index: index as nat }),
            ),
            None => None,
        },
        ExprView::Call { callee, callee_span, type_args, args, .. } => {
            let at = table::place_of(callee_span);
            if r.variants.dom().contains(at) {
                match tree_values(w, r, z, s, args) {
                    Some((vs, s)) => Some(
                        meaning::ask(
                            w,
                            s,
                            Event::Variant {
                                union: r.variants[at].union,
                                variant: r.variants[at].variant,
                                type_args,
                                args: vs,
                            },
                        ),
                    ),
                    None => None,
                }
            } else if r.sugar_receivers.dom().contains(at) && callee.len() >= 2 {
                match field_chain(
                    w,
                    z,
                    s,
                    r.sugar_receivers[at],
                    callee.subrange(1, callee.len() - 1),
                ) {
                    Some((o, s)) => match tree_values(w, r, z, s, args) {
                        Some((vs, s)) => Some(
                            meaning::ask(
                                w,
                                s,
                                Event::Method {
                                    receiver: o,
                                    method: callee.last(),
                                    type_args,
                                    args: vs,
                                },
                            ),
                        ),
                        None => None,
                    },
                    None => None,
                }
            } else {
                match tree_values(w, r, z, s, args) {
                    Some((vs, s)) => if scope::dotted(callee) == "Array.new"@ {
                        if vs.len() == 1 {
                            Some(
                                meaning::ask(
                                    w,
                                    s,
                                    Event::NewArray { len: vs[0], elem: TyView::Error },
                                ),
                            )
                        } else {
                            None
                        }
                    } else {
                        let symbol = match resolution::used_def(r, callee_span) {
                            Some(d) => d.symbol,
                            None => None,
                        };
                        Some(
                            meaning::ask(
                                w,
                                s,
                                Event::Call {
                                    symbol: (z.called)(scope::dotted(callee), symbol, type_args),
                                    args: vs,
                                },
                            ),
                        )
                    },
                    None => None,
                }
            }
        },
        ExprView::Unary { op, rhs, .. } => match tree_value(w, r, z, s, *rhs) {
            Some((v, s)) => match op {
                UnOp::Neg => match negative(w, *rhs, v) {
                    Some(v) => Some((v, s)),
                    None => None,
                },
                UnOp::Not => match v {
                    Value::Bool(b) => Some((Value::Bool(!b), s)),
                    _ => None,
                },
            },
            None => None,
        },
        ExprView::Binary { op, lhs, rhs, .. } => match tree_value(w, r, z, s, *lhs) {
            Some((a, s)) => match (op, a) {
                (BinOp::And, Value::Bool(false)) => Some((Value::Bool(false), s)),
                (BinOp::And, Value::Bool(true)) => meaning::as_truth(
                    tree_value(w, r, z, s, *rhs),
                ),
                (BinOp::Or, Value::Bool(true)) => Some((Value::Bool(true), s)),
                (BinOp::Or, Value::Bool(false)) => meaning::as_truth(
                    tree_value(w, r, z, s, *rhs),
                ),
                _ => match tree_value(w, r, z, s, *rhs) {
                    Some((b, s)) => match tree_op(w, op, a, b) {
                        Some(v) => Some((v, s)),
                        None => None,
                    },
                    None => None,
                },
            },
            None => None,
        },
        ExprView::Cast { inner, target, .. } => match tree_value(w, r, z, s, *inner) {
            Some((v, s)) => Some(
                meaning::ask(w, s, Event::Cast { value: v, target: typed::known(target) }),
            ),
            None => None,
        },
    }
}

/// The values of trees, from the first to the last.
pub open spec fn tree_values(w: World, r: ResolutionView, z: Sense, s: Store, xs: Seq<ExprView>) -> Option<
    (Seq<Value>, Store),
>
    decreases xs,
{
    if xs.len() == 0 {
        Some((Seq::empty(), s))
    } else {
        match tree_values(w, r, z, s, xs.drop_last()) {
            Some((vs, s)) => match tree_value(w, r, z, s, xs.last()) {
                Some((v, s)) => Some((vs.push(v), s)),
                None => None,
            },
            None => None,
        }
    }
}

/// The values of fields, from the first to the last.
pub open spec fn tree_fields(
    w: World,
    r: ResolutionView,
    z: Sense,
    s: Store,
    xs: Seq<(Seq<char>, Span, ExprView)>,
) -> Option<(Seq<(Seq<char>, Value)>, Store)>
    decreases xs,
{
    if xs.len() == 0 {
        Some((Seq::empty(), s))
    } else {
        match tree_fields(w, r, z, s, xs.drop_last()) {
            Some((vs, s)) => match tree_value(w, r, z, s, xs.last().2) {
                Some((v, s)) => Some((vs.push((xs.last().0, v)), s)),
                None => None,
            },
            None => None,
        }
    }
}

/// The values of the elements of a tuple, from the first to the last.
pub open spec fn tree_elems(
    w: World,
    r: ResolutionView,
    z: Sense,
    s: Store,
    xs: Seq<(Option<Seq<char>>, Span, ExprView)>,
) -> Option<(Seq<(Option<Seq<char>>, Value)>, Store)>
    decreases xs,
{
    if xs.len() == 0 {
        Some((Seq::empty(), s))
    } else {
        match tree_elems(w, r, z, s, xs.drop_last()) {
            Some((vs, s)) => match tree_value(w, r, z, s, xs.last().2) {
                Some((v, s)) => Some((vs.push((xs.last().0, v)), s)),
                None => None,
            },
            None => None,
        }
    }
}

/// Binds the names of a pattern to the parts of a value.
pub open spec fn tree_parts(
    w: World,
    r: ResolutionView,
    s: Store,
    v: Value,
    bs: Seq<DestructureBindingView>,
) -> Store
    decreases bs.len(),
{
    if bs.len() == 0 {
        s
    } else {
        let b = bs.last();
        let s = tree_parts(w, r, s, v, bs.drop_last());
        let (part, s) = meaning::ask(
            w,
            s,
            Event::Part { value: v, field: b.field, index: (bs.len() - 1) as usize as nat },
        );
        meaning::bind(s, introduced(r, b.binding_span), part)
    }
}

/// Binds the names of a match arm to what a variant holds.
pub open spec fn tree_payload(w: World, r: ResolutionView, s: Store, v: Value, ns: Seq<(Seq<char>, Span)>) -> Store
    decreases ns.len(),
{
    if ns.len() == 0 {
        s
    } else {
        let s = tree_payload(w, r, s, v, ns.drop_last());
        let (part, s) = meaning::ask(
            w,
            s,
            Event::Payload { value: v, index: (ns.len() - 1) as nat },
        );
        meaning::bind(s, introduced(r, ns.last().1), part)
    }
}

/// The union and the variant that a match arm is for. `null` is `Option.None`.
pub open spec fn arm_variant(r: ResolutionView, a: MatchArmView) -> (Seq<char>, Seq<char>) {
    if a.path == seq!["null"@] {
        ("Option"@, "None"@)
    } else if a.path.len() == 0 {
        (
            if r.match_patterns.dom().contains(table::place_of(a.path_span)) {
                r.match_patterns[table::place_of(a.path_span)]
            } else {
                Seq::empty()
            },
            Seq::empty(),
        )
    } else {
        (
            if r.match_patterns.dom().contains(table::place_of(a.path_span)) {
                r.match_patterns[table::place_of(a.path_span)]
            } else {
                scope::dotted(a.path.drop_last())
            },
            a.path.last(),
        )
    }
}

/// Runs a statement, with loops going round less than a number of times.
pub open spec fn tree_run(w: World, r: ResolutionView, z: Sense, n: nat, s: Store, x: StmtView) -> Option<
    (Flow, Store),
>
    decreases n, x,
{
    match x {
        StmtView::Let { name_span, value, .. } => match tree_value(w, r, z, s, value) {
            Some((v, s)) => Some((Flow::Next, meaning::bind(s, introduced(r, name_span), v))),
            None => None,
        },
        StmtView::Assign { name_span, value, .. } => match tree_value(w, r, z, s, value) {
            Some((v, s)) => Some(
                (Flow::Next, meaning::assign(w, untyped(z), s, referred(r, name_span), v)),
            ),
            None => None,
        },
        StmtView::IndexAssign { array, index, value, .. } => match tree_value(w, r, z, s, *array) {
            Some((a, s)) => match tree_value(w, r, z, s, *index) {
                Some((i, s)) => match tree_value(w, r, z, s, *value) {
                    Some((v, s)) => Some(
                        (
                            Flow::Next,
                            meaning::ask(
                                w,
                                s,
                                Event::Replace {
                                    array: a,
                                    index: i,
                                    value: v,
                                    elem: TyView::Error,
                                },
                            ).1,
                        ),
                    ),
                    None => None,
                },
                None => None,
            },
            None => None,
        },
        StmtView::FieldAssign { base, field, value, .. } => match tree_value(w, r, z, s, *base) {
            Some((o, s)) => match tree_value(w, r, z, s, *value) {
                Some((v, s)) => Some(
                    (
                        Flow::Next,
                        meaning::ask(
                            w,
                            s,
                            Event::Write { object: o, name: field, value: v, ty: TyView::Error },
                        ).1,
                    ),
                ),
                None => None,
            },
            None => None,
        },
        StmtView::TupleAssign { base, index, value, .. } => match tree_value(w, r, z, s, *base) {
            Some((o, s)) => match tree_value(w, r, z, s, *value) {
                Some((v, s)) => Some(
                    (
                        Flow::Next,
                        meaning::ask(
                            w,
                            s,
                            Event::Put { tuple: o, index: index as nat, value: v },
                        ).1,
                    ),
                ),
                None => None,
            },
            None => None,
        },
        StmtView::Destructure { bindings, value, .. } => match tree_value(w, r, z, s, value) {
            Some((v, s)) => Some((Flow::Next, tree_parts(w, r, s, v, bindings))),
            None => None,
        },
        StmtView::If { condition, then_body, else_body, .. } => match tree_value(
            w,
            r,
            z,
            s,
            condition,
        ) {
            Some((Value::Bool(true), s1)) => meaning::outside(
                tree_runs(w, r, z, n, s1, then_body),
                s.env,
            ),
            Some((Value::Bool(false), s1)) => match else_body {
                Some(b) => meaning::outside(tree_runs(w, r, z, n, s1, b), s.env),
                None => Some((Flow::Next, s1)),
            },
            _ => None,
        },
        StmtView::Match { scrutinee, arms, else_body, .. } => match tree_value(
            w,
            r,
            z,
            s,
            scrutinee,
        ) {
            Some((v, s1)) => match tree_arms(w, r, z, n, s1, v, arms) {
                Some((true, f, s2)) => meaning::outside(Some((f, s2)), s.env),
                Some((false, _, s2)) => match else_body {
                    Some(b) => meaning::outside(tree_runs(w, r, z, n, s2, b), s.env),
                    None => Some((Flow::Next, s2)),
                },
                None => None,
            },
            None => None,
        },
        StmtView::While { condition, body, .. } => if n == 0 {
            None
        } else {
            match tree_value(w, r, z, s, condition) {
                Some((Value::Bool(true), s1)) => match meaning::outside(
                    tree_runs(w, r, z, n, s1, body),
                    s.env,
                ) {
                    Some((Flow::Next, s2)) => tree_run(w, r, z, (n - 1) as nat, s2, x),
                    Some((Flow::Continue, s2)) => tree_run(w, r, z, (n - 1) as nat, s2, x),
                    Some((Flow::Break, s2)) => Some((Flow::Next, s2)),
                    out => out,
                },
                Some((Value::Bool(false), s1)) => Some((Flow::Next, s1)),
                _ => None,
            }
        },
        StmtView::Break { .. } => Some((Flow::Break, s)),
        StmtView::Continue { .. } => Some((Flow::Continue, s)),
        StmtView::Return { value, .. } => match value {
            Some(e) => match tree_value(w, r, z, s, e) {
                Some((v, s)) => Some((Flow::Return(v), s)),
                None => None,
            },
            None => Some((Flow::Return(Value::Num(0)), s)),
        },
        StmtView::Expr(e) => match tree_value(w, r, z, s, e) {
            Some((_, s)) => Some((Flow::Next, s)),
            None => None,
        },
    }
}

/// Runs statements, from the first on, as long as each goes on to the next.
pub open spec fn tree_runs(w: World, r: ResolutionView, z: Sense, n: nat, s: Store, xs: Seq<StmtView>) -> Option<
    (Flow, Store),
>
    decreases n, xs,
{
    if xs.len() == 0 {
        Some((Flow::Next, s))
    } else {
        match tree_runs(w, r, z, n, s, xs.drop_last()) {
            Some((Flow::Next, s)) => tree_run(w, r, z, n, s, xs.last()),
            out => out,
        }
    }
}

/// Runs the first match arm that a value fits, and whether there is one.
pub open spec fn tree_arms(
    w: World,
    r: ResolutionView,
    z: Sense,
    n: nat,
    s: Store,
    v: Value,
    arms: Seq<MatchArmView>,
) -> Option<(bool, Flow, Store)>
    decreases n, arms,
{
    if arms.len() == 0 {
        Some((false, Flow::Next, s))
    } else {
        match tree_arms(w, r, z, n, s, v, arms.drop_last()) {
            Some((false, _, s)) => {
                let a = arms.last();
                let (union, variant) = arm_variant(r, a);
                match meaning::ask(w, s, Event::Is { value: v, union, variant }) {
                    (Value::Bool(true), s) => match tree_runs(
                        w,
                        r,
                        z,
                        n,
                        if a.path == seq!["null"@] {
                            s
                        } else {
                            tree_payload(w, r, s, v, a.bindings)
                        },
                        a.body,
                    ) {
                        Some((f, s)) => Some((true, f, s)),
                        None => None,
                    },
                    (Value::Bool(false), s) => Some((false, Flow::Next, s)),
                    _ => None,
                }
            },
            out => out,
        }
    }
}

/// Binds parameters to arguments.
pub open spec fn tree_params(r: ResolutionView, ps: Seq<ParamView>, args: Seq<Value>, s: Store) -> Store
    decreases ps.len(),
{
    if ps.len() == 0 {
        s
    } else {
        meaning::bind(
            tree_params(r, ps.drop_last(), args, s),
            introduced(r, ps.last().name_span),
            args[ps.len() - 1],
        )
    }
}

/// Calls a function with arguments: what it returns, and what it asks of the
/// world. One that does not return a value gives zero.
pub open spec fn tree_call(
    w: World,
    r: ResolutionView,
    z: Sense,
    n: nat,
    ps: Seq<ParamView>,
    body: Seq<StmtView>,
    args: Seq<Value>,
    trace: Seq<Event>,
) -> Option<(Value, Seq<Event>)> {
    let s = tree_params(r, ps, args, Store { env: Map::empty(), cells: Seq::empty(), trace });
    match tree_runs(w, r, z, n, s, body) {
        Some((Flow::Next, s)) => Some((Value::Num(0), s.trace)),
        Some((Flow::Return(v), s)) => Some((v, s.trace)),
        _ => None,
    }
}

// ---------------------------------------------------------------------------
// What lowering keeps
// ---------------------------------------------------------------------------

proof fn receiver_keeps_value(
    w: World,
    z: Sense,
    s: Store,
    ids: Ids,
    head: DefId,
    callee: Seq<Seq<char>>,
    span: Span,
    k: nat,
)
    requires
        1 <= k <= callee.len(),
    ensures
        meaning::value_of(w, untyped(z), s, hir_lowering::receiver(ids, head, callee, span, k))
            == field_chain(w, z, s, head, callee.subrange(1, k as int)),
    decreases k,
{
    if k > 1 {
        receiver_keeps_value(w, z, s, ids, head, callee, span, (k - 1) as nat);
        let names = callee.subrange(1, k as int);
        assert(names.drop_last() =~= callee.subrange(1, k - 1));
        assert(names.last() == callee[k - 1]);
    }
}

/// The value of a tree is that of the expression that it is lowered to.
#[verifier::rlimit(60)]
pub proof fn lowering_keeps_values(
    w: World,
    r: ResolutionView,
    z: Sense,
    s: Store,
    ids: Ids,
    x: ExprView,
)
    ensures
        meaning::value_of(w, untyped(z), s, hir_lowering::lowered_expr(r, ids, x).0) == tree_value(
            w,
            r,
            z,
            s,
            x,
        ),
        hir_lowering::lowered_expr(r, ids, x).0 is Literal <==> x is Literal,
    decreases x,
{
    let t = hir_lowering::after_id(ids);
    match x {
        ExprView::ArrayLiteral { elems, .. } => lowering_keeps_all(w, r, z, s, t, elems),
        ExprView::ObjectLiteral { fields, .. } => lowering_keeps_fields(w, r, z, s, t, fields),
        ExprView::TupleLiteral { elems, .. } => lowering_keeps_elems(w, r, z, s, t, elems),
        ExprView::Index { base, index, .. } => {
            lowering_keeps_values(w, r, z, s, t, *base);
            let t1 = hir_lowering::lowered_expr(r, t, *base).1;
            if let Some((_, s1)) = tree_value(w, r, z, s, *base) {
                lowering_keeps_values(w, r, z, s1, t1, *index);
            }
        },
        ExprView::Field { base, .. } => {
            lowering_keeps_values(w, r, z, s, t, *base);
            assert(meaning::values_of(w, untyped(z), s, Seq::empty()) == Some(
                (Seq::<Value>::empty(), s),
            ));
        },
        ExprView::TupleIndex { base, .. } => lowering_keeps_values(w, r, z, s, t, *base),
        ExprView::Call { callee, callee_span, args, .. } => {
            let at = table::place_of(callee_span);
            if !r.variants.dom().contains(at) && r.sugar_receivers.dom().contains(at)
                && callee.len() >= 2 {
                let k = (callee.len() - 1) as nat;
                let head = r.sugar_receivers[at];
                receiver_keeps_value(w, z, s, ids, head, callee, callee_span, k);
                let own = hir_lowering::after_id(hir_lowering::after_ids(ids, k));
                if let Some((_, s1)) = field_chain(
                    w,
                    z,
                    s,
                    head,
                    callee.subrange(1, callee.len() - 1),
                ) {
                    lowering_keeps_all(w, r, z, s1, own, args);
                }
            } else {
                lowering_keeps_all(w, r, z, s, t, args);
            }
        },
        ExprView::Unary { op, rhs, .. } => {
            lowering_keeps_values(w, r, z, s, t, *rhs);
            lowering_keeps_values(w, r, z, s, ids, *rhs);
            reveal_with_fuel(meaning::value_of, 2);
        },
        ExprView::Binary { lhs, rhs, .. } => {
            lowering_keeps_values(w, r, z, s, t, *lhs);
            let t1 = hir_lowering::lowered_expr(r, t, *lhs).1;
            if let Some((_, s1)) = tree_value(w, r, z, s, *lhs) {
                lowering_keeps_values(w, r, z, s1, t1, *rhs);
            }
        },
        ExprView::Cast { inner, .. } => lowering_keeps_values(w, r, z, s, t, *inner),
        _ => {},
    }
}

proof fn lowering_keeps_all(w: World, r: ResolutionView, z: Sense, s: Store, ids: Ids, xs: Seq<ExprView>)
    ensures
        meaning::values_of(w, untyped(z), s, hir_lowering::lowered_exprs(r, ids, xs).0)
            == tree_values(w, r, z, s, xs),
    decreases xs,
{
    if xs.len() > 0 {
        let front = xs.drop_last();
        lowering_keeps_all(w, r, z, s, ids, front);
        let (es, t) = hir_lowering::lowered_exprs(r, ids, front);
        let all = hir_lowering::lowered_exprs(r, ids, xs).0;
        assert(all.drop_last() =~= es);
        if let Some((_, s1)) = tree_values(w, r, z, s, front) {
            lowering_keeps_values(w, r, z, s1, t, xs.last());
        }
    }
}

proof fn lowering_keeps_fields(
    w: World,
    r: ResolutionView,
    z: Sense,
    s: Store,
    ids: Ids,
    xs: Seq<(Seq<char>, Span, ExprView)>,
)
    ensures
        meaning::fields_of(w, untyped(z), s, hir_lowering::lowered_named(r, ids, xs).0)
            == tree_fields(w, r, z, s, xs),
    decreases xs,
{
    if xs.len() > 0 {
        let front = xs.drop_last();
        lowering_keeps_fields(w, r, z, s, ids, front);
        let (es, t) = hir_lowering::lowered_named(r, ids, front);
        let all = hir_lowering::lowered_named(r, ids, xs).0;
        assert(all.drop_last() =~= es);
        if let Some((_, s1)) = tree_fields(w, r, z, s, front) {
            lowering_keeps_values(w, r, z, s1, t, xs.last().2);
        }
    }
}

proof fn lowering_keeps_elems(
    w: World,
    r: ResolutionView,
    z: Sense,
    s: Store,
    ids: Ids,
    xs: Seq<(Option<Seq<char>>, Span, ExprView)>,
)
    ensures
        meaning::elems_of(w, untyped(z), s, hir_lowering::lowered_elems(r, ids, xs).0)
            == tree_elems(w, r, z, s, xs),
    decreases xs,
{
    if xs.len() > 0 {
        let front = xs.drop_last();
        lowering_keeps_elems(w, r, z, s, ids, front);
        let (es, t) = hir_lowering::lowered_elems(r, ids, front);
        let all = hir_lowering::lowered_elems(r, ids, xs).0;
        assert(all.drop_last() =~= es);
        if let Some((_, s1)) = tree_elems(w, r, z, s, front) {
            lowering_keeps_values(w, r, z, s1, t, xs.last().2);
        }
    }
}

proof fn parts_agree(w: World, r: ResolutionView, s: Store, v: Value, bs: Seq<DestructureBindingView>)
    ensures
        meaning::bind_parts(w, s, v, hir_lowering::lowered_bindings(r, bs)) == tree_parts(
            w,
            r,
            s,
            v,
            bs,
        ),
    decreases bs.len(),
{
    if bs.len() > 0 {
        parts_agree(w, r, s, v, bs.drop_last());
        assert(hir_lowering::lowered_bindings(r, bs).drop_last()
            =~= hir_lowering::lowered_bindings(r, bs.drop_last()));
    }
}

proof fn payloads_agree(w: World, r: ResolutionView, s: Store, v: Value, ns: Seq<(Seq<char>, Span)>)
    ensures
        meaning::bind_payload(w, s, v, hir_lowering::lowered_names(r, ns)) == tree_payload(
            w,
            r,
            s,
            v,
            ns,
        ),
    decreases ns.len(),
{
    if ns.len() > 0 {
        payloads_agree(w, r, s, v, ns.drop_last());
        assert(hir_lowering::lowered_names(r, ns).drop_last() =~= hir_lowering::lowered_names(
            r,
            ns.drop_last(),
        ));
    }
}

/// A statement goes the way of the statement that it is lowered to.
#[verifier::rlimit(80)]
#[verifier::spinoff_prover]
pub proof fn lowering_keeps_courses(
    w: World,
    r: ResolutionView,
    z: Sense,
    n: nat,
    s: Store,
    ids: Ids,
    x: StmtView,
)
    ensures
        meaning::run_stmt(w, untyped(z), n, s, hir_lowering::lowered_stmt(r, ids, x).0) == tree_run(
            w,
            r,
            z,
            n,
            s,
            x,
        ),
    decreases n, x,
{
    let t = hir_lowering::after_id(ids);
    match x {
        StmtView::Let { value, .. } => lowering_keeps_values(w, r, z, s, t, value),
        StmtView::Assign { value, .. } => lowering_keeps_values(w, r, z, s, t, value),
        StmtView::IndexAssign { array, index, value, .. } => {
            lowering_keeps_values(w, r, z, s, t, *array);
            let t1 = hir_lowering::lowered_expr(r, t, *array).1;
            let t2 = hir_lowering::lowered_expr(r, t1, *index).1;
            if let Some((_, s1)) = tree_value(w, r, z, s, *array) {
                lowering_keeps_values(w, r, z, s1, t1, *index);
                if let Some((_, s2)) = tree_value(w, r, z, s1, *index) {
                    lowering_keeps_values(w, r, z, s2, t2, *value);
                }
            }
        },
        StmtView::FieldAssign { base, value, .. } => {
            lowering_keeps_values(w, r, z, s, t, *base);
            let t1 = hir_lowering::lowered_expr(r, t, *base).1;
            if let Some((_, s1)) = tree_value(w, r, z, s, *base) {
                lowering_keeps_values(w, r, z, s1, t1, *value);
            }
        },
        StmtView::TupleAssign { base, value, .. } => {
            lowering_keeps_values(w, r, z, s, t, *base);
            let t1 = hir_lowering::lowered_expr(r, t, *base).1;
            if let Some((_, s1)) = tree_value(w, r, z, s, *base) {
                lowering_keeps_values(w, r, z, s1, t1, *value);
            }
        },
        StmtView::Destructure { bindings, value, .. } => {
            lowering_keeps_values(w, r, z, s, t, value);
            if let Some((v, s1)) = tree_value(w, r, z, s, value) {
                parts_agree(w, r, s1, v, bindings);
            }
        },
        StmtView::If { condition, then_body, else_body, .. } => {
            lowering_keeps_values(w, r, z, s, ids, condition);
            let t1 = hir_lowering::lowered_expr(r, ids, condition).1;
            let t2 = hir_lowering::lowered_stmts(r, t1, then_body).1;
            if let Some((_, s1)) = tree_value(w, r, z, s, condition) {
                lowering_keeps_blocks(w, r, z, n, s1, t1, then_body);
                if let Some(b) = else_body {
                    lowering_keeps_blocks(w, r, z, n, s1, t2, b);
                }
            }
        },
        StmtView::Match { scrutinee, arms, else_body, .. } => {
            lowering_keeps_values(w, r, z, s, ids, scrutinee);
            let t1 = hir_lowering::lowered_expr(r, ids, scrutinee).1;
            let t2 = hir_lowering::lowered_arms(r, t1, arms).1;
            if let Some((v, s1)) = tree_value(w, r, z, s, scrutinee) {
                lowering_keeps_arms(w, r, z, n, s1, v, t1, arms);
                if let Some((_, _, s2)) = tree_arms(w, r, z, n, s1, v, arms) {
                    if let Some(b) = else_body {
                        lowering_keeps_blocks(w, r, z, n, s2, t2, b);
                    }
                }
            }
        },
        StmtView::While { condition, body, .. } => {
            lowering_keeps_values(w, r, z, s, ids, condition);
            let t1 = hir_lowering::lowered_expr(r, ids, condition).1;
            if n > 0 {
                if let Some((_, s1)) = tree_value(w, r, z, s, condition) {
                    lowering_keeps_blocks(w, r, z, n, s1, t1, body);
                    if let Some((_, s2)) = meaning::outside(
                        tree_runs(w, r, z, n, s1, body),
                        s.env,
                    ) {
                        lowering_keeps_courses(w, r, z, (n - 1) as nat, s2, ids, x);
                    }
                }
            }
        },
        StmtView::Return { value, .. } => {
            if let Some(e) = value {
                lowering_keeps_values(w, r, z, s, ids, e);
            }
        },
        StmtView::Expr(e) => lowering_keeps_values(w, r, z, s, ids, e),
        _ => {},
    }
}

proof fn lowering_keeps_blocks(
    w: World,
    r: ResolutionView,
    z: Sense,
    n: nat,
    s: Store,
    ids: Ids,
    xs: Seq<StmtView>,
)
    ensures
        meaning::run_stmts(w, untyped(z), n, s, hir_lowering::lowered_stmts(r, ids, xs).0)
            == tree_runs(w, r, z, n, s, xs),
    decreases n, xs,
{
    if xs.len() > 0 {
        let front = xs.drop_last();
        lowering_keeps_blocks(w, r, z, n, s, ids, front);
        let (es, t) = hir_lowering::lowered_stmts(r, ids, front);
        let all = hir_lowering::lowered_stmts(r, ids, xs).0;
        assert(all.drop_last() =~= es);
        if let Some((_, s1)) = tree_runs(w, r, z, n, s, front) {
            lowering_keeps_courses(w, r, z, n, s1, t, xs.last());
        }
    }
}

#[verifier::rlimit(40)]
proof fn lowering_keeps_arms(
    w: World,
    r: ResolutionView,
    z: Sense,
    n: nat,
    s: Store,
    v: Value,
    ids: Ids,
    arms: Seq<MatchArmView>,
)
    ensures
        meaning::run_arms(w, untyped(z), n, s, v, hir_lowering::lowered_arms(r, ids, arms).0)
            == tree_arms(w, r, z, n, s, v, arms),
    decreases n, arms,
{
    if arms.len() > 0 {
        let front = arms.drop_last();
        lowering_keeps_arms(w, r, z, n, s, v, ids, front);
        let (es, t) = hir_lowering::lowered_arms(r, ids, front);
        let all = hir_lowering::lowered_arms(r, ids, arms).0;
        assert(all.drop_last() =~= es);
        let a = arms.last();
        if a.path.len() == 1 && a.path[0] == "null"@ {
            assert(a.path =~= seq!["null"@]);
        }
        if let Some((_, _, s1)) = tree_arms(w, r, z, n, s, v, front) {
            let (union, variant) = arm_variant(r, a);
            let s2 = meaning::ask(w, s1, Event::Is { value: v, union, variant }).1;
            payloads_agree(w, r, s2, v, a.bindings);
            lowering_keeps_blocks(w, r, z, n, s2, t, a.body);
            lowering_keeps_blocks(w, r, z, n, tree_payload(w, r, s2, v, a.bindings), t, a.body);
        }
    }
}

proof fn params_agree(r: ResolutionView, ps: Seq<ParamView>, args: Seq<Value>, s: Store)
    ensures
        meaning::bind_params(hir_lowering::lowered_params(r, ps), args, s) == tree_params(
            r,
            ps,
            args,
            s,
        ),
    decreases ps.len(),
{
    if ps.len() > 0 {
        params_agree(r, ps.drop_last(), args, s);
        assert(hir_lowering::lowered_params(r, ps).drop_last() =~= hir_lowering::lowered_params(
            r,
            ps.drop_last(),
        ));
    }
}

proof fn item_is_lowered(r: ResolutionView, ids: Ids, items: Seq<ItemView>, k: int) -> (o: (int, Ids))
    requires
        0 <= k < items.len(),
    ensures
        ({
            let all = hir_lowering::lowered_items(r, ids, items).0;
            let own = hir_lowering::lowered_item(r, o.1, items[k]).0;
            &&& 0 <= o.0 <= o.0 + own.len() <= all.len()
            &&& own == all.subrange(o.0, o.0 + own.len())
        }),
    decreases items.len(),
{
    let (front, t) = hir_lowering::lowered_items(r, ids, items.drop_last());
    let all = hir_lowering::lowered_items(r, ids, items).0;
    let own = hir_lowering::lowered_item(r, t, items.last()).0;
    if k == items.len() - 1 {
        assert(own =~= all.subrange(front.len() as int, (front.len() + own.len()) as int));
        (front.len() as int, t)
    } else {
        let o = item_is_lowered(r, ids, items.drop_last(), k);
        let mine = hir_lowering::lowered_item(r, o.1, items[k]).0;
        assert(all.subrange(o.0, o.0 + mine.len()) =~= front.subrange(o.0, o.0 + mine.len()));
        o
    }
}

/// Each function of a module stands in the lowered module under its name and with
/// its definition, and a call of it there does what a call of it does.
pub proof fn lowered_functions_do_what_they_mean(
    p: ProgramView,
    r: ResolutionView,
    k: int,
    w: World,
    z: Sense,
    n: nat,
    args: Seq<Value>,
    trace: Seq<Event>,
)
    requires
        0 <= k < p.items.len(),
        p.items[k] is Function,
    ensures
        exists|i: int|
            0 <= i < hir_lowering::lowered(p, r).items.len() && (match (
            #[trigger] hir_lowering::lowered(p, r).items[i]) {
                HirItemView::Fn { name, def, params, ret, body, .. } => {
                    &&& name == p.items[k]->Function_name
                    &&& def == introduced(r, p.items[k]->Function_name_span)
                    &&& ret == p.items[k]->ret
                    &&& params.len() == p.items[k]->params.len()
                    &&& meaning::call_of(w, untyped(z), n, params, body, args, trace) == tree_call(
                        w,
                        r,
                        z,
                        n,
                        p.items[k]->params,
                        p.items[k]->body,
                        args,
                        trace,
                    )
                },
                _ => false,
            }),
{
    let (at, ids) = item_is_lowered(r, hir_lowering::first_id(), p.items, k);
    let own = hir_lowering::lowered_item(r, ids, p.items[k]).0;
    let all = hir_lowering::lowered(p, r).items;
    assert(own.len() == 1);
    assert(all[at] == own[0]);
    let s = Store { env: Map::empty(), cells: Seq::empty(), trace };
    params_agree(r, p.items[k]->params, args, s);
    lowering_keeps_blocks(
        w,
        r,
        z,
        n,
        tree_params(r, p.items[k]->params, args, s),
        hir_lowering::after_id(ids),
        p.items[k]->body,
    );
}

/// A global of a module stands in the lowered module with its definition, and its
/// value there is its value.
pub proof fn lowered_globals_have_their_values(
    p: ProgramView,
    r: ResolutionView,
    k: int,
    w: World,
    z: Sense,
    s: Store,
)
    requires
        0 <= k < p.items.len(),
        p.items[k] is Let,
    ensures
        exists|i: int|
            0 <= i < hir_lowering::lowered(p, r).items.len() && (match (
            #[trigger] hir_lowering::lowered(p, r).items[i]) {
                HirItemView::Let { def, kind, ty, value, .. } => {
                    &&& def == introduced(r, p.items[k]->Let_name_span)
                    &&& kind == p.items[k]->Let_kind
                    &&& ty == p.items[k]->Let_ty
                    &&& meaning::value_of(w, untyped(z), s, value) == tree_value(
                        w,
                        r,
                        z,
                        s,
                        p.items[k]->Let_value,
                    )
                },
                _ => false,
            }),
{
    let (at, ids) = item_is_lowered(r, hir_lowering::first_id(), p.items, k);
    let own = hir_lowering::lowered_item(r, ids, p.items[k]).0;
    let all = hir_lowering::lowered(p, r).items;
    assert(own.len() == 1);
    assert(all[at] == own[0]);
    lowering_keeps_values(w, r, z, s, hir_lowering::after_id(ids), p.items[k]->Let_value);
}

proof fn method_is_lowered(
    r: ResolutionView,
    ids: Ids,
    owner: Seq<char>,
    ms: Seq<FunctionDeclView>,
    k: int,
) -> (t: Ids)
    requires
        0 <= k < ms.len(),
    ensures
        hir_lowering::lowered_methods(r, ids, owner, ms).0.len() == ms.len(),
        hir_lowering::lowered_methods(r, ids, owner, ms).0[k] == hir_lowering::lowered_function(
            r,
            t,
            scope::member(owner, ms[k].name),
            ms[k],
        ).0,
    decreases ms.len(),
{
    let front = ms.drop_last();
    methods_are_as_many(r, ids, owner, front);
    if k == ms.len() - 1 {
        hir_lowering::lowered_methods(r, ids, owner, front).1
    } else {
        method_is_lowered(r, ids, owner, front, k)
    }
}

proof fn methods_are_as_many(r: ResolutionView, ids: Ids, owner: Seq<char>, ms: Seq<FunctionDeclView>)
    ensures
        hir_lowering::lowered_methods(r, ids, owner, ms).0.len() == ms.len(),
    decreases ms.len(),
{
    if ms.len() > 0 {
        methods_are_as_many(r, ids, owner, ms.drop_last());
    }
}

/// Each associated function of an object type stands in the lowered module under
/// its name behind that of the type, and a call of it there does what a call of it
/// does.
pub proof fn lowered_methods_do_what_they_mean(
    p: ProgramView,
    r: ResolutionView,
    k: int,
    j: int,
    w: World,
    z: Sense,
    n: nat,
    args: Seq<Value>,
    trace: Seq<Event>,
)
    requires
        0 <= k < p.items.len(),
        p.items[k] is Object,
        0 <= j < p.items[k]->methods.len(),
    ensures
        exists|i: int|
            0 <= i < hir_lowering::lowered(p, r).items.len() && (match (
            #[trigger] hir_lowering::lowered(p, r).items[i]) {
                HirItemView::Fn { name, def, params, ret, body, .. } => {
                    let f = p.items[k]->methods[j];
                    &&& name == scope::member(p.items[k]->Object_name, f.name)
                    &&& def == introduced(r, f.name_span)
                    &&& ret == f.ret
                    &&& params.len() == f.params.len()
                    &&& meaning::call_of(w, untyped(z), n, params, body, args, trace) == tree_call(
                        w,
                        r,
                        z,
                        n,
                        f.params,
                        f.body,
                        args,
                        trace,
                    )
                },
                _ => false,
            }),
{
    let (at, ids) = item_is_lowered(r, hir_lowering::first_id(), p.items, k);
    let own = hir_lowering::lowered_item(r, ids, p.items[k]).0;
    let all = hir_lowering::lowered(p, r).items;
    let (owner, ms) = (p.items[k]->Object_name, p.items[k]->methods);
    let t = method_is_lowered(r, ids, owner, ms, j);
    let f = ms[j];
    assert(own[j + 1] == hir_lowering::lowered_methods(r, ids, owner, ms).0[j]);
    assert(all[at + j + 1] == own[j + 1]);
    let s = Store { env: Map::empty(), cells: Seq::empty(), trace };
    params_agree(r, f.params, args, s);
    lowering_keeps_blocks(
        w,
        r,
        z,
        n,
        tree_params(r, f.params, args, s),
        hir_lowering::after_id(t),
        f.body,
    );
}

} // verus!
