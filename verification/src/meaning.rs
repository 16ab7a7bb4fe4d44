//! What programs mean: the values of expressions, the course of statements, and
//! the run of instructions. Numbers have no bounds here, and what a program does to
//! the world around it, and the world's answers, are a list of events.

use vstd::prelude::*;

use crate::ast::Scalar;
use crate::hir::{
    HirBinOp, HirDestructureBindingView, HirExprView, HirId, HirMatchArmView, HirMatchBindingView,
    HirStmtView,
};
use crate::lir::{FuncSymbolView, InstrView, LirOp, Reg};
use crate::module::SymbolView;
use crate::resolution::DefId;
use crate::ty::TypeView;
use crate::typed::TyView;

verus! {

// ---------------------------------------------------------------------------
// Values
// ---------------------------------------------------------------------------

/// A value at run time.
pub enum Value {
    Num(int),
    Bool(bool),
    /// A double, by its bits.
    Float(u64),
    Text(Seq<u8>),
    /// Anything that only the world knows: arrays, objects, files.
    Handle(int),
}

/// Something that a program asks of the world.
pub enum Event {
    Call { symbol: FuncSymbolView, args: Seq<Value> },
    Method { receiver: Value, method: Seq<char>, type_args: Seq<TypeView>, args: Seq<Value> },
    NewArray { len: Value, elem: TyView },
    Array { elems: Seq<Value>, elem: TyView },
    Fetch { array: Value, index: Value, elem: TyView },
    Replace { array: Value, index: Value, value: Value, elem: TyView },
    Object { name: Seq<char>, fields: Seq<(Seq<char>, Value)> },
    Read { object: Value, name: Seq<char>, ty: TyView },
    Write { object: Value, name: Seq<char>, value: Value, ty: TyView },
    Variant {
        union: Seq<char>,
        variant: Seq<char>,
        type_args: Seq<TypeView>,
        args: Seq<Value>,
    },
    Tuple { elems: Seq<(Option<Seq<char>>, Value)> },
    Item { tuple: Value, index: nat },
    Put { tuple: Value, index: nat, value: Value },
    Null,
    Cast { value: Value, target: TyView },
    Load { global: u32 },
    Store { global: u32, value: Value },
    Part { value: Value, field: Option<Seq<char>>, index: nat },
    Is { value: Value, union: Seq<char>, variant: Seq<char> },
    Payload { value: Value, index: nat },
}

/// The world: its answer to the last of a list of events, and its doubles.
pub struct World {
    pub reply: spec_fn(Seq<Event>) -> Value,
    pub float_sum: spec_fn(u64, u64) -> u64,
    pub float_difference: spec_fn(u64, u64) -> u64,
    pub float_product: spec_fn(u64, u64) -> u64,
    pub float_quotient: spec_fn(u64, u64) -> u64,
    pub float_same: spec_fn(u64, u64) -> bool,
    pub float_less: spec_fn(u64, u64) -> bool,
}

/// The value that a scalar is.
pub open spec fn plain(v: Scalar) -> Value {
    match v {
        Scalar::Int(n) => Value::Num(n as int),
        Scalar::U64(n) => Value::Num(n as int),
        Scalar::I64(n) => Value::Num(n as int),
        Scalar::U8(n) => Value::Num(n as int),
        Scalar::Bool(b) => Value::Bool(b),
        Scalar::F64(bits) => Value::Float(bits),
    }
}

/// `a + b`.
pub open spec fn sum(w: World, a: Value, b: Value) -> Option<Value> {
    match (a, b) {
        (Value::Num(m), Value::Num(n)) => Some(Value::Num(m + n)),
        (Value::Float(x), Value::Float(y)) => Some(Value::Float((w.float_sum)(x, y))),
        _ => None,
    }
}

/// `a - b`.
pub open spec fn difference(w: World, a: Value, b: Value) -> Option<Value> {
    match (a, b) {
        (Value::Num(m), Value::Num(n)) => Some(Value::Num(m - n)),
        (Value::Float(x), Value::Float(y)) => Some(Value::Float((w.float_difference)(x, y))),
        _ => None,
    }
}

/// `a * b`.
pub open spec fn product(w: World, a: Value, b: Value) -> Option<Value> {
    match (a, b) {
        (Value::Num(m), Value::Num(n)) => Some(Value::Num(m * n)),
        (Value::Float(x), Value::Float(y)) => Some(Value::Float((w.float_product)(x, y))),
        _ => None,
    }
}

/// `a / b`, towards zero.
pub open spec fn quotient(w: World, a: Value, b: Value) -> Option<Value> {
    match (a, b) {
        (Value::Num(m), Value::Num(n)) => if n == 0 {
            None
        } else if m >= 0 {
            Some(Value::Num(m / n))
        } else {
            Some(Value::Num(-((-m) / n)))
        },
        (Value::Float(x), Value::Float(y)) => Some(Value::Float((w.float_quotient)(x, y))),
        _ => None,
    }
}

/// Whether `a == b`.
pub open spec fn same(w: World, a: Value, b: Value) -> bool {
    match (a, b) {
        (Value::Float(x), Value::Float(y)) => (w.float_same)(x, y),
        _ => a == b,
    }
}

/// Whether `a < b`.
pub open spec fn less(w: World, a: Value, b: Value) -> Option<bool> {
    match (a, b) {
        (Value::Num(m), Value::Num(n)) => Some(m < n),
        (Value::Float(x), Value::Float(y)) => Some((w.float_less)(x, y)),
        _ => None,
    }
}

/// A truth value, if there is one.
pub open spec fn truth(b: Option<bool>) -> Option<Value> {
    match b {
        Some(b) => Some(Value::Bool(b)),
        None => None,
    }
}

/// The opposite of a truth value, if there is one.
pub open spec fn untruth(b: Option<bool>) -> Option<Value> {
    match b {
        Some(b) => Some(Value::Bool(!b)),
        None => None,
    }
}

// ---------------------------------------------------------------------------
// The high-level representation
// ---------------------------------------------------------------------------

/// What the types of a program say about its nodes.
pub struct Types {
    /// Whether the type of a node is known.
    pub known: spec_fn(HirId) -> bool,
    /// The value of a literal at a node.
    pub literal: spec_fn(HirId, Scalar) -> Value,
    /// Whether a variable that is bound to another one, at a node, shares its cell.
    pub shares: spec_fn(HirId) -> bool,
    /// The function that a call at a node goes to.
    pub called: spec_fn(HirId, Seq<char>, Option<SymbolView>, Seq<TypeView>) -> FuncSymbolView,
    /// The type of the elements of a node that is an array.
    pub elem: spec_fn(HirId) -> Option<TyView>,
    /// The type of a node.
    pub ty: spec_fn(HirId) -> TyView,
    /// The type that a node is converted to.
    pub target: spec_fn(HirId, TypeView) -> TyView,
    /// Whether an operand that is passed over has a value, given the variables.
    pub ready: spec_fn(Set<u32>, HirExprView) -> bool,
    /// Whether a loop with a body has a meaning, given the variables.
    pub loops: spec_fn(Set<u32>, Seq<HirStmtView>) -> bool,
    /// The positions of globals.
    pub globals: Map<u32, u32>,
}

/// A state of a run: the cells of variables, what cells hold, and what was asked.
pub struct Store {
    pub env: Map<u32, nat>,
    pub cells: Seq<Value>,
    pub trace: Seq<Event>,
}

/// How a statement ends.
pub enum Flow {
    Next,
    Break,
    Continue,
    Return(Value),
}

/// Asks the world.
pub open spec fn ask(w: World, s: Store, e: Event) -> (Value, Store) {
    let trace = s.trace.push(e);
    ((w.reply)(trace), Store { trace, ..s })
}

/// Binds a variable to a new cell.
pub open spec fn bind(s: Store, def: Option<DefId>, v: Value) -> Store {
    match def {
        Some(d) => Store {
            env: s.env.insert(d.0, s.cells.len()),
            cells: s.cells.push(v),
            ..s
        },
        None => s,
    }
}

/// What a binary operator other than `&&` and `||` gives.
pub open spec fn hir_op(w: World, op: HirBinOp, a: Value, b: Value) -> Option<Value> {
    match op {
        HirBinOp::Add => sum(w, a, b),
        HirBinOp::Sub => difference(w, a, b),
        HirBinOp::Mul => product(w, a, b),
        HirBinOp::Div => quotient(w, a, b),
        HirBinOp::Eq => Some(Value::Bool(same(w, a, b))),
        HirBinOp::Ne => Some(Value::Bool(!same(w, a, b))),
        HirBinOp::Lt => truth(less(w, a, b)),
        HirBinOp::Ge => untruth(less(w, a, b)),
        HirBinOp::Gt => truth(less(w, b, a)),
        HirBinOp::Le => untruth(less(w, b, a)),
        HirBinOp::And | HirBinOp::Or => None,
    }
}

/// A value that is a truth value.
pub open spec fn as_truth(r: Option<(Value, Store)>) -> Option<(Value, Store)> {
    match r {
        Some((Value::Bool(b), s)) => Some((Value::Bool(b), s)),
        _ => None,
    }
}

/// The value of an expression, and the state behind it.
pub open spec fn value_of(w: World, t: Types, s: Store, e: HirExprView) -> Option<(Value, Store)>
    decreases e,
{
    if !(t.known)(e.id()) {
        None
    } else {
        match e {
            HirExprView::Literal { id, value, .. } => Some(((t.literal)(id, value), s)),
            HirExprView::String { value, .. } => Some((Value::Text(value), s)),
            HirExprView::Var { def, .. } => match def {
                Some(d) => if s.env.dom().contains(d.0) {
                    Some((s.cells[s.env[d.0] as int], s))
                } else if t.globals.dom().contains(d.0) {
                    Some(ask(w, s, Event::Load { global: t.globals[d.0] }))
                } else {
                    None
                },
                None => None,
            },
            HirExprView::ArrayLiteral { id, elems, .. } => match (
                values_of(w, t, s, elems),
                (t.elem)(id),
            ) {
                (Some((vs, s)), Some(elem)) => Some(ask(w, s, Event::Array { elems: vs, elem })),
                _ => None,
            },
            HirExprView::ObjectLiteral { name, fields, .. } => match fields_of(w, t, s, fields) {
                Some((vs, s)) => Some(ask(w, s, Event::Object { name, fields: vs })),
                None => None,
            },
            HirExprView::Variant { union, variant, type_args, args, .. } => match values_of(
                w,
                t,
                s,
                args,
            ) {
                Some((vs, s)) => Some(
                    ask(w, s, Event::Variant { union, variant, type_args, args: vs }),
                ),
                None => None,
            },
            HirExprView::Index { base, index, .. } => match value_of(w, t, s, *base) {
                Some((a, s)) => match (value_of(w, t, s, *index), (t.elem)(base.id())) {
                    (Some((i, s)), Some(elem)) => Some(
                        ask(w, s, Event::Fetch { array: a, index: i, elem }),
                    ),
                    _ => None,
                },
                None => None,
            },
            HirExprView::Field { id, base, name, .. } => match value_of(w, t, s, *base) {
                Some((o, s)) => Some(ask(w, s, Event::Read { object: o, name, ty: (t.ty)(id) })),
                None => None,
            },
            HirExprView::TupleLiteral { elems, .. } => match elems_of(w, t, s, elems) {
                Some((vs, s)) => Some(ask(w, s, Event::Tuple { elems: vs })),
                None => None,
            },
            HirExprView::TupleIndex { base, index, .. } => match value_of(w, t, s, *base) {
                Some((v, s)) => Some(ask(w, s, Event::Item { tuple: v, index: index as nat })),
                None => None,
            },
            HirExprView::Null { .. } => Some(ask(w, s, Event::Null)),
            HirExprView::Call { id, name, symbol, type_args, args, .. } => match values_of(w, t, s, args) {
                Some((vs, s)) => if name == "Array.new"@ {
                    match (t.elem)(id) {
                        Some(elem) => if vs.len() == 1 {
                            Some(ask(w, s, Event::NewArray { len: vs[0], elem }))
                        } else {
                            None
                        },
                        None => None,
                    }
                } else {
                    Some(
                        ask(
                            w,
                            s,
                            Event::Call { symbol: (t.called)(id, name, symbol, type_args), args: vs },
                        ),
                    )
                },
                None => None,
            },
            HirExprView::MethodCall { receiver, method, type_args, args, .. } => match value_of(
                w,
                t,
                s,
                *receiver,
            ) {
                Some((o, s)) => match values_of(w, t, s, args) {
                    Some((vs, s)) => Some(
                        ask(w, s, Event::Method { receiver: o, method, type_args, args: vs }),
                    ),
                    None => None,
                },
                None => None,
            },
            HirExprView::Binary { op, lhs, rhs, .. } => match value_of(w, t, s, *lhs) {
                Some((a, s)) => match op {
                    HirBinOp::And => match a {
                        Value::Bool(true) => as_truth(value_of(w, t, s, *rhs)),
                        Value::Bool(false) => if (t.ready)(s.env.dom(), *rhs) {
                            Some((Value::Bool(false), s))
                        } else {
                            None
                        },
                        _ => None,
                    },
                    HirBinOp::Or => match a {
                        Value::Bool(true) => if (t.ready)(s.env.dom(), *rhs) {
                            Some((Value::Bool(true), s))
                        } else {
                            None
                        },
                        Value::Bool(false) => as_truth(value_of(w, t, s, *rhs)),
                        _ => None,
                    },
                    _ => match value_of(w, t, s, *rhs) {
                        Some((b, s)) => match hir_op(w, op, a, b) {
                            Some(v) => Some((v, s)),
                            None => None,
                        },
                        None => None,
                    },
                },
                None => None,
            },
            HirExprView::Unary { inner, .. } => match value_of(w, t, s, *inner) {
                Some((Value::Bool(b), s)) => Some((Value::Bool(!b), s)),
                _ => None,
            },
            HirExprView::Cast { id, inner, target, .. } => match value_of(w, t, s, *inner) {
                Some((v, s)) => Some(
                    ask(w, s, Event::Cast { value: v, target: (t.target)(id, target) }),
                ),
                None => None,
            },
        }
    }
}

/// The values of expressions, from the first to the last.
pub open spec fn values_of(w: World, t: Types, s: Store, es: Seq<HirExprView>) -> Option<
    (Seq<Value>, Store),
>
    decreases es,
{
    if es.len() == 0 {
        Some((Seq::empty(), s))
    } else {
        match values_of(w, t, s, es.drop_last()) {
            Some((vs, s)) => match value_of(w, t, s, es.last()) {
                Some((v, s)) => Some((vs.push(v), s)),
                None => None,
            },
            None => None,
        }
    }
}

/// The values of named expressions, from the first to the last.
pub open spec fn fields_of(w: World, t: Types, s: Store, es: Seq<(Seq<char>, HirExprView)>) -> Option<
    (Seq<(Seq<char>, Value)>, Store),
>
    decreases es,
{
    if es.len() == 0 {
        Some((Seq::empty(), s))
    } else {
        match fields_of(w, t, s, es.drop_last()) {
            Some((vs, s)) => match value_of(w, t, s, es.last().1) {
                Some((v, s)) => Some((vs.push((es.last().0, v)), s)),
                None => None,
            },
            None => None,
        }
    }
}

/// The values of the elements of a tuple, from the first to the last.
pub open spec fn elems_of(
    w: World,
    t: Types,
    s: Store,
    es: Seq<(Option<Seq<char>>, HirExprView)>,
) -> Option<(Seq<(Option<Seq<char>>, Value)>, Store)>
    decreases es,
{
    if es.len() == 0 {
        Some((Seq::empty(), s))
    } else {
        match elems_of(w, t, s, es.drop_last()) {
            Some((vs, s)) => match value_of(w, t, s, es.last().1) {
                Some((v, s)) => Some((vs.push((es.last().0, v)), s)),
                None => None,
            },
            None => None,
        }
    }
}

/// Whether a statement binds a variable, in itself or in its bodies.
pub open spec fn stmt_binds(x: HirStmtView, d: u32) -> bool
    decreases x,
{
    match x {
        HirStmtView::Let { def, .. } => def == Some(DefId(d)),
        HirStmtView::If { then_body, else_body, .. } => stmts_bind(then_body, d) || (
        match else_body {
            Some(b) => stmts_bind(b, d),
            None => false,
        }),
        HirStmtView::While { body, .. } => stmts_bind(body, d),
        _ => false,
    }
}

/// Whether statements bind a variable, in themselves or in their bodies.
pub open spec fn stmts_bind(xs: Seq<HirStmtView>, d: u32) -> bool
    decreases xs,
{
    xs.len() > 0 && (stmts_bind(xs.drop_last(), d) || stmt_binds(xs.last(), d))
}

/// Assigns to a variable.
pub open spec fn assign(w: World, t: Types, s: Store, def: Option<DefId>, v: Value) -> Store {
    match def {
        Some(d) => if s.env.dom().contains(d.0) {
            Store { cells: s.cells.update(s.env[d.0] as int, v), ..s }
        } else if t.globals.dom().contains(d.0) {
            ask(w, s, Event::Store { global: t.globals[d.0], value: v }).1
        } else {
            s
        },
        None => s,
    }
}

/// Binds the names of a pattern to the parts of a value.
pub open spec fn bind_parts(w: World, s: Store, v: Value, bs: Seq<HirDestructureBindingView>) -> Store
    decreases bs.len(),
{
    if bs.len() == 0 {
        s
    } else {
        let b = bs.last();
        let s = bind_parts(w, s, v, bs.drop_last());
        let (part, s) = ask(w, s, Event::Part { value: v, field: b.field, index: b.index as nat });
        bind(s, b.def, part)
    }
}

/// Binds the names of a match arm to what a variant holds.
pub open spec fn bind_payload(w: World, s: Store, v: Value, bs: Seq<HirMatchBindingView>) -> Store
    decreases bs.len(),
{
    if bs.len() == 0 {
        s
    } else {
        let s = bind_payload(w, s, v, bs.drop_last());
        let (part, s) = ask(w, s, Event::Payload { value: v, index: (bs.len() - 1) as nat });
        bind(s, bs.last().def, part)
    }
}

/// The state behind a block: its variables are gone.
pub open spec fn outside(r: Option<(Flow, Store)>, env: Map<u32, nat>) -> Option<(Flow, Store)> {
    match r {
        Some((f, s)) => Some((f, Store { env, ..s })),
        None => None,
    }
}

/// Runs a statement, with loops going round less than a number of times.
pub open spec fn run_stmt(w: World, t: Types, n: nat, s: Store, x: HirStmtView) -> Option<
    (Flow, Store),
>
    decreases n, x,
{
    match x {
        HirStmtView::Let { def, value, .. } => match value_of(w, t, s, value) {
            Some((v, s1)) => match (def, value) {
                (Some(d), HirExprView::Var { id, def: Some(other), .. }) => if s.env.dom().contains(
                    other.0,
                ) && (t.shares)(id) {
                    Some((Flow::Next, Store { env: s1.env.insert(d.0, s1.env[other.0]), ..s1 }))
                } else {
                    Some((Flow::Next, bind(s1, def, v)))
                },
                _ => Some((Flow::Next, bind(s1, def, v))),
            },
            None => None,
        },
        HirStmtView::Assign { def, value, .. } => match value_of(w, t, s, value) {
            Some((v, s)) => Some((Flow::Next, assign(w, t, s, def, v))),
            None => None,
        },
        HirStmtView::IndexAssign { array, index, value, .. } => match value_of(w, t, s, *array) {
            Some((a, s)) => match value_of(w, t, s, *index) {
                Some((i, s)) => match (value_of(w, t, s, *value), (t.elem)(array.id())) {
                    (Some((v, s)), Some(elem)) => Some(
                        (
                            Flow::Next,
                            ask(w, s, Event::Replace { array: a, index: i, value: v, elem }).1,
                        ),
                    ),
                    _ => None,
                },
                None => None,
            },
            None => None,
        },
        HirStmtView::FieldAssign { base, field, value, .. } => match value_of(w, t, s, *base) {
            Some((o, s)) => match value_of(w, t, s, *value) {
                Some((v, s)) => Some(
                    (
                        Flow::Next,
                        ask(
                            w,
                            s,
                            Event::Write {
                                object: o,
                                name: field,
                                value: v,
                                ty: (t.ty)(value.id()),
                            },
                        ).1,
                    ),
                ),
                None => None,
            },
            None => None,
        },
        HirStmtView::TupleAssign { base, index, value, .. } => match value_of(w, t, s, *base) {
            Some((o, s)) => match value_of(w, t, s, *value) {
                Some((v, s)) => Some(
                    (Flow::Next, ask(w, s, Event::Put { tuple: o, index: index as nat, value: v }).1),
                ),
                None => None,
            },
            None => None,
        },
        HirStmtView::Destructure { bindings, value, .. } => match value_of(w, t, s, value) {
            Some((v, s)) => Some((Flow::Next, bind_parts(w, s, v, bindings))),
            None => None,
        },
        HirStmtView::If { condition, then_body, else_body, .. } => match value_of(
            w,
            t,
            s,
            condition,
        ) {
            Some((Value::Bool(true), s1)) => outside(run_stmts(w, t, n, s1, then_body), s.env),
            Some((Value::Bool(false), s1)) => match else_body {
                Some(b) => outside(run_stmts(w, t, n, s1, b), s.env),
                None => Some((Flow::Next, s1)),
            },
            _ => None,
        },
        HirStmtView::Match { scrutinee, arms, else_body, .. } => match value_of(
            w,
            t,
            s,
            scrutinee,
        ) {
            Some((v, s1)) => match run_arms(w, t, n, s1, v, arms) {
                Some((true, f, s2)) => outside(Some((f, s2)), s.env),
                Some((false, _, s2)) => match else_body {
                    Some(b) => outside(run_stmts(w, t, n, s2, b), s.env),
                    None => Some((Flow::Next, s2)),
                },
                None => None,
            },
            None => None,
        },
        HirStmtView::While { condition, body, .. } => if n == 0 || !(t.loops)(s.env.dom(), body) {
            None
        } else {
            match value_of(w, t, s, condition) {
                Some((Value::Bool(true), s1)) => match outside(
                    run_stmts(w, t, n, s1, body),
                    s.env,
                ) {
                    Some((Flow::Next, s2)) => run_stmt(w, t, (n - 1) as nat, s2, x),
                    Some((Flow::Continue, s2)) => run_stmt(w, t, (n - 1) as nat, s2, x),
                    Some((Flow::Break, s2)) => Some((Flow::Next, s2)),
                    r => r,
                },
                Some((Value::Bool(false), s1)) => Some((Flow::Next, s1)),
                _ => None,
            }
        },
        HirStmtView::Break { .. } => Some((Flow::Break, s)),
        HirStmtView::Continue { .. } => Some((Flow::Continue, s)),
        HirStmtView::Return { value, .. } => match value {
            Some(e) => match value_of(w, t, s, e) {
                Some((v, s)) => Some((Flow::Return(v), s)),
                None => None,
            },
            None => Some((Flow::Return(Value::Num(0)), s)),
        },
        HirStmtView::Expr(e) => match value_of(w, t, s, e) {
            Some((_, s)) => Some((Flow::Next, s)),
            None => None,
        },
    }
}

/// Runs statements, from the first on, as long as each goes on to the next.
pub open spec fn run_stmts(w: World, t: Types, n: nat, s: Store, xs: Seq<HirStmtView>) -> Option<
    (Flow, Store),
>
    decreases n, xs,
{
    if xs.len() == 0 {
        Some((Flow::Next, s))
    } else {
        match run_stmts(w, t, n, s, xs.drop_last()) {
            Some((Flow::Next, s)) => run_stmt(w, t, n, s, xs.last()),
            r => r,
        }
    }
}

/// Runs the first match arm that a value fits, and whether there is one.
pub open spec fn run_arms(
    w: World,
    t: Types,
    n: nat,
    s: Store,
    v: Value,
    arms: Seq<HirMatchArmView>,
) -> Option<(bool, Flow, Store)>
    decreases n, arms,
{
    if arms.len() == 0 {
        Some((false, Flow::Next, s))
    } else {
        match run_arms(w, t, n, s, v, arms.drop_last()) {
            Some((false, _, s)) => {
                let a = arms.last();
                match ask(w, s, Event::Is { value: v, union: a.union, variant: a.variant }) {
                    (Value::Bool(true), s) => match run_stmts(
                        w,
                        t,
                        n,
                        bind_payload(w, s, v, a.bindings),
                        a.body,
                    ) {
                        Some((f, s)) => Some((true, f, s)),
                        None => None,
                    },
                    (Value::Bool(false), s) => Some((false, Flow::Next, s)),
                    _ => None,
                }
            },
            r => r,
        }
    }
}

/// Parameters as they stand in a function: the name, the definition, the type and
/// the place.
pub type Params = Seq<(Seq<char>, Option<DefId>, Option<TypeView>, crate::span::Span)>;

/// Binds parameters to arguments.
pub open spec fn bind_params(ps: Params, args: Seq<Value>, s: Store) -> Store
    decreases ps.len(),
{
    if ps.len() == 0 {
        s
    } else {
        bind(bind_params(ps.drop_last(), args, s), ps.last().1, args[ps.len() - 1])
    }
}

/// Calls a function with arguments: what it returns, and what it asks of the
/// world. One that does not return a value gives zero.
pub open spec fn call_of(
    w: World,
    t: Types,
    n: nat,
    ps: Params,
    body: Seq<HirStmtView>,
    args: Seq<Value>,
    trace: Seq<Event>,
) -> Option<(Value, Seq<Event>)> {
    let s = bind_params(ps, args, Store { env: Map::empty(), cells: Seq::empty(), trace });
    match run_stmts(w, t, n, s, body) {
        Some((Flow::Next, s)) => Some((Value::Num(0), s.trace)),
        Some((Flow::Return(v), s)) => Some((v, s.trace)),
        _ => None,
    }
}

// ---------------------------------------------------------------------------
// Instructions
// ---------------------------------------------------------------------------

/// A run of instructions: the next one, the registers, what was asked, and what
/// was returned.
pub struct Run {
    pub pc: int,
    pub regs: Map<Reg, Value>,
    pub trace: Seq<Event>,
    pub result: Option<Value>,
}

/// What the operator of an instruction gives.
pub open spec fn lir_op(w: World, op: LirOp, a: Value, b: Value) -> Option<Value> {
    match op {
        LirOp::Add => sum(w, a, b),
        LirOp::Sub => difference(w, a, b),
        LirOp::Mul => product(w, a, b),
        LirOp::Div => quotient(w, a, b),
        LirOp::Eq => Some(Value::Bool(same(w, a, b))),
        LirOp::Ne => Some(Value::Bool(!same(w, a, b))),
        LirOp::Lt => truth(less(w, a, b)),
        LirOp::Ge => untruth(less(w, a, b)),
        LirOp::Gt => truth(less(w, b, a)),
        LirOp::Le => untruth(less(w, b, a)),
    }
}

/// Where a label stands.
pub open spec fn label_position(p: Seq<InstrView>, id: u32) -> int
    decreases p.len(),
{
    if p.len() == 0 {
        -1
    } else if p.last() matches InstrView::Label { id: own, .. } && own == id {
        p.len() - 1
    } else {
        label_position(p.drop_last(), id)
    }
}

/// The run with a value in a register, at the next instruction.
pub open spec fn put(m: Run, dst: Reg, v: Value) -> Run {
    Run { pc: m.pc + 1, regs: m.regs.insert(dst, v), ..m }
}

/// The run behind something that is asked of the world.
pub open spec fn asked(w: World, m: Run, dst: Option<Reg>, e: Event) -> Run {
    let trace = m.trace.push(e);
    let m = Run { trace, ..m };
    match dst {
        Some(r) => put(m, r, (w.reply)(trace)),
        None => Run { pc: m.pc + 1, ..m },
    }
}

/// What registers hold.
pub open spec fn held(m: Run, rs: Seq<Reg>) -> Seq<Value> {
    Seq::new(rs.len(), |i: int| m.regs[rs[i]])
}

/// What named registers hold.
pub open spec fn held_fields(m: Run, fs: Seq<(Seq<char>, Reg)>) -> Seq<(Seq<char>, Value)> {
    Seq::new(fs.len(), |i: int| (fs[i].0, m.regs[fs[i].1]))
}

/// One step of a run.
pub open spec fn step(w: World, p: Seq<InstrView>, args: Seq<Value>, m: Run) -> Run {
    if m.result is Some || m.pc < 0 || m.pc >= p.len() {
        m
    } else {
        match p[m.pc] {
            InstrView::Const { dst, value, .. } => put(m, dst, plain(value)),
            InstrView::StringConst { dst, value, .. } => put(m, dst, Value::Text(value)),
            InstrView::Param { dst, index, .. } => put(m, dst, args[index as int]),
            InstrView::Copy { dst, src, .. } => put(m, dst, m.regs[src]),
            InstrView::Not { dst, src, .. } => match m.regs[src] {
                Value::Bool(b) => put(m, dst, Value::Bool(!b)),
                _ => m,
            },
            InstrView::BinOp { dst, op, lhs, rhs, .. } => match lir_op(
                w,
                op,
                m.regs[lhs],
                m.regs[rhs],
            ) {
                Some(v) => put(m, dst, v),
                None => m,
            },
            InstrView::Call { dst, symbol, args, .. } => asked(
                w,
                m,
                Some(dst),
                Event::Call { symbol, args: held(m, args) },
            ),
            InstrView::NewArray { dst, len, elem, .. } => asked(
                w,
                m,
                Some(dst),
                Event::NewArray { len: m.regs[len], elem },
            ),
            InstrView::ArrayLit { dst, elems, elem, .. } => asked(
                w,
                m,
                Some(dst),
                Event::Array { elems: held(m, elems), elem },
            ),
            InstrView::ArrayGet { dst, array, index, elem, .. } => asked(
                w,
                m,
                Some(dst),
                Event::Fetch { array: m.regs[array], index: m.regs[index], elem },
            ),
            InstrView::ArraySet { array, index, value, elem, .. } => asked(
                w,
                m,
                None,
                Event::Replace {
                    array: m.regs[array],
                    index: m.regs[index],
                    value: m.regs[value],
                    elem,
                },
            ),
            InstrView::NewObject { dst, name, fields, .. } => asked(
                w,
                m,
                Some(dst),
                Event::Object { name, fields: held_fields(m, fields) },
            ),
            InstrView::ObjectGet { dst, object, name, ty, .. } => asked(
                w,
                m,
                Some(dst),
                Event::Read { object: m.regs[object], name, ty },
            ),
            InstrView::ObjectSet { object, name, value, ty, .. } => asked(
                w,
                m,
                None,
                Event::Write { object: m.regs[object], name, value: m.regs[value], ty },
            ),
            InstrView::Cast { dst, src, target, .. } => asked(
                w,
                m,
                Some(dst),
                Event::Cast { value: m.regs[src], target },
            ),
            InstrView::Ret { src, .. } => Run { result: Some(m.regs[src]), ..m },
            InstrView::GlobalLoad { dst, global, .. } => asked(
                w,
                m,
                Some(dst),
                Event::Load { global },
            ),
            InstrView::GlobalStore { global, src, .. } => asked(
                w,
                m,
                None,
                Event::Store { global, value: m.regs[src] },
            ),
            InstrView::BranchIfFalse { cond, target, .. } => match m.regs[cond] {
                Value::Bool(true) => Run { pc: m.pc + 1, ..m },
                Value::Bool(false) => Run { pc: label_position(p, target), ..m },
                _ => m,
            },
            InstrView::Jump { target, .. } => Run { pc: label_position(p, target), ..m },
            InstrView::Label { .. } => Run { pc: m.pc + 1, ..m },
        }
    }
}

/// A number of steps of a run.
pub open spec fn steps(w: World, p: Seq<InstrView>, args: Seq<Value>, m: Run, k: nat) -> Run
    decreases k,
{
    if k == 0 {
        m
    } else {
        step(w, p, args, steps(w, p, args, m, (k - 1) as nat))
    }
}

/// Whether a run comes to a state.
pub open spec fn reaches(w: World, p: Seq<InstrView>, args: Seq<Value>, m: Run, t: Run) -> bool {
    exists|k: nat| #[trigger] steps(w, p, args, m, k) == t
}

} // verus!
