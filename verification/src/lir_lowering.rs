//! Lowering of the high-level representation to instructions.

use vstd::prelude::*;

use crate::ast::Scalar;
use crate::hir::{
    HirBinOp, HirExpr, HirExprView, HirId, HirItem, HirItemView, HirProgram, HirProgramView,
    HirStmt, HirStmtView, HirTypeParam, HirTypeParamView, HirUnOp,
};
use crate::lir::{
    FuncSymbol, FuncSymbolView, Function, FunctionView, Global, GlobalView, Instr, InstrView,
    LirOp, LirProgram, LirProgramView, ObjectDef, ObjectDefView, Reg,
};
use crate::module::{SymbolRef, SymbolView};
use crate::order::order_of;
use crate::resolution::DefId;
use crate::resolver::dotted;
use crate::span::Span;
use crate::table::Table;
use crate::text::{cat, clone_bytes, dec_u64, owned, str_eq};
use crate::ty::{TypeView, VlType};
use crate::typed::{Instance, InstanceCall, InstanceView, ObjectSig, Ty, TyView, TypedProgram, TypedView};
use crate::{hir, lir, model, module, order, scope, text, typed};

verus! {

broadcast use {crate::model::group_model, crate::hir::group_hir};

// ---------------------------------------------------------------------------
// The state of lowering
// ---------------------------------------------------------------------------

/// What the lowering of a body knows.
pub struct Context {
    pub module: Seq<char>,
    /// The globals, by their definitions.
    pub globals: Map<u32, u32>,
    /// The types that type parameters stand for.
    pub env: Map<Seq<char>, TyView>,
    /// The instance of a generic function that is lowered.
    pub outer: Option<Seq<char>>,
    pub typed: TypedView,
}

/// The code of a body as far as it is lowered.
pub struct Code {
    /// The next register.
    pub next: u32,
    /// The next label.
    pub next_label: u32,
    /// Whether registers or labels ran out, or something has no code.
    pub full: bool,
    pub instrs: Seq<InstrView>,
    /// The registers of local variables, by their definitions.
    pub bindings: Map<u32, Reg>,
    /// The loops around: where `break` and where `continue` go.
    pub loops: Seq<(u32, u32)>,
}

/// No code.
pub open spec fn no_code() -> Code {
    Code {
        next: 0,
        next_label: 0,
        full: false,
        instrs: Seq::empty(),
        bindings: Map::empty(),
        loops: Seq::empty(),
    }
}

/// The code behind the use of one more register.
pub open spec fn after_reg(c: Code) -> Code {
    if c.next == u32::MAX {
        Code { full: true, ..c }
    } else {
        Code { next: (c.next + 1) as u32, ..c }
    }
}

/// The code behind the use of one more label.
pub open spec fn after_label(c: Code) -> Code {
    if c.next_label == u32::MAX {
        Code { full: true, ..c }
    } else {
        Code { next_label: (c.next_label + 1) as u32, ..c }
    }
}

/// The code where something has no code: tuples, variants, `null`, method calls,
/// patterns and `match` have none yet.
pub open spec fn without_code(c: Code) -> Code {
    Code { full: true, ..c }
}

/// The code with an instruction behind it.
pub open spec fn emit(c: Code, x: InstrView) -> Code {
    Code { instrs: c.instrs.push(x), ..c }
}

/// The type of a node, where it is known and concrete.
pub open spec fn resolved(x: Context, id: HirId) -> Option<TyView> {
    if x.typed.types.dom().contains(id.0) {
        let t = typed::substituted(x.typed.types[id.0], x.env);
        if t is Error || !typed::concrete(t) {
            None
        } else {
            Some(t)
        }
    } else {
        None
    }
}

/// The type of a node at run time.
pub open spec fn runtime_ty(x: Context, id: HirId) -> Option<TyView> {
    match resolved(x, id) {
        Some(t) => Some(typed::erased(t)),
        None => None,
    }
}

/// The element type of a node that is an array.
pub open spec fn elem_ty(x: Context, id: HirId) -> Option<TyView> {
    match resolved(x, id) {
        Some(t) => match typed::element_of(t) {
            Some(e) => Some(typed::erased(e)),
            None => None,
        },
        None => None,
    }
}

/// A signed number as a word.
pub open spec fn word(v: i64) -> u64 {
    if v >= 0 {
        v as u64
    } else {
        (v + 0x1_0000_0000_0000_0000) as u64
    }
}

/// A literal as its type wants it.
pub open spec fn typed_literal(v: Scalar, t: TyView) -> Scalar {
    match (v, t) {
        (Scalar::Int(n), TyView::U64) => Scalar::U64(word(n)),
        (Scalar::Int(n), TyView::I64) => Scalar::I64(n),
        (Scalar::Int(n), TyView::U8) => Scalar::U8((word(n) % 256) as u8),
        _ => v,
    }
}

/// The operator that a binary operator is lowered to. The logical operators are
/// lowered to jumps.
pub open spec fn lowered_op(op: HirBinOp) -> LirOp {
    match op {
        HirBinOp::Add => LirOp::Add,
        HirBinOp::Sub => LirOp::Sub,
        HirBinOp::Mul => LirOp::Mul,
        HirBinOp::Div => LirOp::Div,
        HirBinOp::Eq => LirOp::Eq,
        HirBinOp::Ne => LirOp::Ne,
        HirBinOp::Lt => LirOp::Lt,
        HirBinOp::Le => LirOp::Le,
        HirBinOp::Gt => LirOp::Gt,
        HirBinOp::Ge => LirOp::Ge,
        HirBinOp::And | HirBinOp::Or => LirOp::Eq,
    }
}

/// The name that a call is lowered to.
pub open spec fn callee_name(x: Context, id: HirId, name: Seq<char>) -> Seq<char> {
    match x.outer {
        Some(outer) => if x.typed.inst_calls.dom().contains((outer, id.0)) {
            x.typed.inst_calls[(outer, id.0)]
        } else {
            name
        },
        None => if x.typed.root_calls.dom().contains(id.0) {
            x.typed.root_calls[id.0]
        } else {
            name
        },
    }
}

/// Whether a call is lowered to a call of an instance.
pub open spec fn is_instance_call(x: Context, id: HirId) -> bool {
    match x.outer {
        Some(outer) => x.typed.inst_calls.dom().contains((outer, id.0)),
        None => x.typed.root_calls.dom().contains(id.0),
    }
}

/// The function that a call refers to: that of another module by its symbol, or
/// one of this module by its name.
pub open spec fn callee_symbol(x: Context, id: HirId, name: Seq<char>, symbol: Option<SymbolView>) -> FuncSymbolView {
    match symbol {
        Some(s) => FuncSymbolView {
            module: scope::dotted(s.module),
            function: if is_instance_call(x, id) {
                callee_name(x, id, name)
            } else {
                s.name
            },
        },
        None => FuncSymbolView { module: x.module, function: callee_name(x, id, name) },
    }
}

// ---------------------------------------------------------------------------
// Expressions
// ---------------------------------------------------------------------------

/// The code of `lhs && rhs` behind the left operand.
pub open spec fn and_start(c: Code, l: Reg, span: Span) -> Code {
    let target = after_reg(c).next_label;
    emit(
        after_label(after_label(after_reg(c))),
        InstrView::BranchIfFalse { cond: l, target, span },
    )
}

/// The code that sets a register to a truth value.
pub open spec fn set_bool(c: Code, dst: Reg, value: bool, span: Span) -> Code {
    let tmp = Reg(c.next);
    emit(
        emit(after_reg(c), InstrView::Const { dst: tmp, value: Scalar::Bool(value), span }),
        InstrView::Copy { dst, src: tmp, span },
    )
}

/// The code of a logical operation behind the right operand: the result is true
/// unless the operand is false, or the code jumped to the label of falsehood.
pub open spec fn logic_end(
    c: Code,
    r: Option<Reg>,
    dst: Reg,
    false_label: u32,
    end_label: u32,
    span: Span,
) -> (Option<Reg>, Code) {
    match r {
        None => (
            None,
            emit(
                emit(c, InstrView::Label { id: false_label, span }),
                InstrView::Label { id: end_label, span },
            ),
        ),
        Some(r) => {
            let c = emit(c, InstrView::BranchIfFalse { cond: r, target: false_label, span });
            let c = set_bool(c, dst, true, span);
            let c = emit(c, InstrView::Jump { target: end_label, span });
            let c = emit(c, InstrView::Label { id: false_label, span });
            let c = set_bool(c, dst, false, span);
            (Some(dst), emit(c, InstrView::Label { id: end_label, span }))
        },
    }
}

/// The labels of a logical operation: `skip` where the left operand is false.
pub open spec fn label_after(c: Code, n: nat) -> u32
    decreases n,
{
    if n == 0 {
        c.next_label
    } else {
        label_after(after_label(c), (n - 1) as nat)
    }
}

/// The code of `lhs || rhs` behind the left operand.
pub open spec fn or_start(c: Code, l: Reg, span: Span) -> Code {
    let dst = Reg(c.next);
    let c = after_reg(c);
    let rhs_label = label_after(c, 0);
    let end_label = label_after(c, 2);
    let c = after_label(after_label(after_label(c)));
    let c = emit(c, InstrView::BranchIfFalse { cond: l, target: rhs_label, span });
    let c = set_bool(c, dst, true, span);
    let c = emit(c, InstrView::Jump { target: end_label, span });
    emit(c, InstrView::Label { id: rhs_label, span })
}

/// A new register with the value of an instruction.
pub open spec fn into_reg(c: Code, x: InstrView) -> (Option<Reg>, Code) {
    (Some(Reg(c.next)), emit(after_reg(c), x))
}

/// The fields of a new object.
pub open spec fn object_fields(fs: Seq<(Seq<char>, HirExprView)>, rs: Seq<Reg>) -> Seq<
    (Seq<char>, Reg),
> {
    Seq::new(fs.len(), |i: int| (fs[i].0, rs[i]))
}

/// Lowers an expression to the register that holds its value. An expression
/// whose type is not known has no value, and neither has one that needs a value
/// which is not there.
pub open spec fn lowered_expr(x: Context, c: Code, e: HirExprView) -> (Option<Reg>, Code)
    decreases e,
{
    if resolved(x, e.id()) is None {
        (None, c)
    } else {
        let dst = Reg(c.next);
        match e {
            HirExprView::Literal { id, value, span } => into_reg(
                c,
                InstrView::Const { dst, value: typed_literal(value, resolved(x, id)->0), span },
            ),
            HirExprView::String { value, span, .. } => into_reg(
                c,
                InstrView::StringConst { dst, value, span },
            ),
            HirExprView::Var { def: Some(d), span, .. } => if c.bindings.dom().contains(d.0) {
                (Some(c.bindings[d.0]), c)
            } else if x.globals.dom().contains(d.0) {
                into_reg(c, InstrView::GlobalLoad { dst, global: x.globals[d.0], span })
            } else {
                (None, c)
            },
            HirExprView::ArrayLiteral { id, elems, span } => match lowered_exprs(x, c, elems) {
                (Some(regs), c) => match elem_ty(x, id) {
                    Some(elem) => into_reg(
                        c,
                        InstrView::ArrayLit { dst: Reg(c.next), elems: regs, elem, span },
                    ),
                    None => (None, c),
                },
                (None, c) => (None, c),
            },
            HirExprView::ObjectLiteral { name, fields, span, .. } => match lowered_named(
                x,
                c,
                fields,
            ) {
                (Some(regs), c) => into_reg(
                    c,
                    InstrView::NewObject {
                        dst: Reg(c.next),
                        name,
                        fields: object_fields(fields, regs),
                        span,
                    },
                ),
                (None, c) => (None, c),
            },
            HirExprView::Index { base, index, span, .. } => match lowered_expr(x, c, *base) {
                (Some(array), c) => match lowered_expr(x, c, *index) {
                    (Some(i), c) => match elem_ty(x, base.id()) {
                        Some(elem) => into_reg(
                            c,
                            InstrView::ArrayGet { dst: Reg(c.next), array, index: i, elem, span },
                        ),
                        None => (None, c),
                    },
                    (None, c) => (None, c),
                },
                (None, c) => (None, c),
            },
            HirExprView::Field { id, base, name, span } => match lowered_expr(x, c, *base) {
                (Some(object), c) => into_reg(
                    c,
                    InstrView::ObjectGet {
                        dst: Reg(c.next),
                        object,
                        name,
                        ty: runtime_ty(x, id)->0,
                        span,
                    },
                ),
                (None, c) => (None, c),
            },
            HirExprView::Call { id, name, symbol, args, span, .. } => if name == "Array.new"@ {
                if args.len() != 1 {
                    (None, c)
                } else {
                    match lowered_exprs(x, c, args) {
                        (Some(regs), c) => match elem_ty(x, id) {
                            Some(elem) => into_reg(
                                c,
                                InstrView::NewArray { dst: Reg(c.next), len: regs[0], elem, span },
                            ),
                            None => (None, c),
                        },
                        (None, c) => (None, c),
                    }
                }
            } else {
                match lowered_exprs(x, c, args) {
                    (Some(regs), c) => into_reg(
                        c,
                        InstrView::Call {
                            dst: Reg(c.next),
                            callee: callee_name(x, id, name),
                            symbol: callee_symbol(x, id, name, symbol),
                            args: regs,
                            span,
                        },
                    ),
                    (None, c) => (None, c),
                }
            },
            HirExprView::Binary { op: HirBinOp::And, lhs, rhs, span, .. } => match lowered_expr(
                x,
                c,
                *lhs,
            ) {
                (Some(l), c) => {
                    let dst = Reg(c.next);
                    let false_label = label_after(after_reg(c), 0);
                    let end_label = label_after(after_reg(c), 1);
                    let (r, c) = lowered_expr(x, and_start(c, l, span), *rhs);
                    logic_end(c, r, dst, false_label, end_label, span)
                },
                (None, c) => (None, c),
            },
            HirExprView::Binary { op: HirBinOp::Or, lhs, rhs, span, .. } => match lowered_expr(
                x,
                c,
                *lhs,
            ) {
                (Some(l), c) => {
                    let dst = Reg(c.next);
                    let false_label = label_after(after_reg(c), 1);
                    let end_label = label_after(after_reg(c), 2);
                    let (r, c) = lowered_expr(x, or_start(c, l, span), *rhs);
                    logic_end(c, r, dst, false_label, end_label, span)
                },
                (None, c) => (None, c),
            },
            HirExprView::Binary { op, lhs, rhs, span, .. } => match lowered_expr(x, c, *lhs) {
                (Some(l), c) => match lowered_expr(x, c, *rhs) {
                    (Some(r), c) => into_reg(
                        c,
                        InstrView::BinOp {
                            dst: Reg(c.next),
                            op: lowered_op(op),
                            lhs: l,
                            rhs: r,
                            span,
                        },
                    ),
                    (None, c) => (None, c),
                },
                (None, c) => (None, c),
            },
            HirExprView::Unary { op: HirUnOp::Not, inner, span, .. } => match lowered_expr(
                x,
                c,
                *inner,
            ) {
                (Some(src), c) => into_reg(c, InstrView::Not { dst: Reg(c.next), src, span }),
                (None, c) => (None, c),
            },
            HirExprView::Cast { id, inner, span, .. } => match lowered_expr(x, c, *inner) {
                (Some(src), c) => into_reg(
                    c,
                    InstrView::Cast { dst: Reg(c.next), src, target: runtime_ty(x, id)->0, span },
                ),
                (None, c) => (None, c),
            },
            HirExprView::Variant { .. }
            | HirExprView::TupleLiteral { .. }
            | HirExprView::TupleIndex { .. }
            | HirExprView::Null { .. }
            | HirExprView::MethodCall { .. } => (None, without_code(c)),
            _ => (None, c),
        }
    }
}

/// Lowers expressions in order, up to the first that has no value.
pub open spec fn lowered_exprs(x: Context, c: Code, es: Seq<HirExprView>) -> (Option<Seq<Reg>>, Code)
    decreases es,
{
    if es.len() == 0 {
        (Some(Seq::empty()), c)
    } else {
        match lowered_exprs(x, c, es.drop_last()) {
            (Some(front), c) => match lowered_expr(x, c, es.last()) {
                (Some(r), c) => (Some(front.push(r)), c),
                (None, c) => (None, c),
            },
            (None, c) => (None, c),
        }
    }
}

/// Lowers the values of fields in order, up to the first that has none.
pub open spec fn lowered_named(x: Context, c: Code, es: Seq<(Seq<char>, HirExprView)>) -> (Option<Seq<Reg>>, Code)
    decreases es,
{
    if es.len() == 0 {
        (Some(Seq::empty()), c)
    } else {
        match lowered_named(x, c, es.drop_last()) {
            (Some(front), c) => match lowered_expr(x, c, es.last().1) {
                (Some(r), c) => (Some(front.push(r)), c),
                (None, c) => (None, c),
            },
            (None, c) => (None, c),
        }
    }
}

// ---------------------------------------------------------------------------
// Statements
// ---------------------------------------------------------------------------

/// Binds a variable to the register of its value. A reference gets a register of
/// its own.
pub open spec fn bound(x: Context, c: Code, def: Option<DefId>, value: HirExprView, reg: Reg) -> Code {
    match def {
        None => c,
        Some(d) => if runtime_ty(x, value.id()) matches Some(t) && (t is Object || t is Array) {
            let home = Reg(c.next);
            let c = emit(
                after_reg(c),
                InstrView::Copy { dst: home, src: reg, span: value.span() },
            );
            Code { bindings: c.bindings.insert(d.0, home), ..c }
        } else {
            Code { bindings: c.bindings.insert(d.0, reg), ..c }
        },
    }
}

/// Assigns a register to a variable.
pub open spec fn assigned(x: Context, c: Code, def: Option<DefId>, src: Reg, span: Span) -> Code {
    match def {
        None => c,
        Some(d) => if c.bindings.dom().contains(d.0) {
            emit(c, InstrView::Copy { dst: c.bindings[d.0], src, span })
        } else if x.globals.dom().contains(d.0) {
            emit(c, InstrView::GlobalStore { global: x.globals[d.0], src, span })
        } else {
            c
        },
    }
}

/// The code of a return without a value.
pub open spec fn bare_return(c: Code, value: Scalar, span: Span) -> Code {
    let r = Reg(c.next);
    emit(
        emit(after_reg(c), InstrView::Const { dst: r, value, span }),
        InstrView::Ret { src: r, span },
    )
}

/// Lowers a statement.
pub open spec fn lowered_stmt(x: Context, c: Code, s: HirStmtView) -> Code
    decreases s,
{
    match s {
        HirStmtView::Let { def, value, .. } => match lowered_expr(x, c, value) {
            (Some(reg), c) => bound(x, c, def, value, reg),
            (None, c) => c,
        },
        HirStmtView::Expr(value) => lowered_expr(x, c, value).1,
        HirStmtView::Return { value, span } => match value {
            Some(e) => match lowered_expr(x, c, e) {
                (Some(r), c) => emit(c, InstrView::Ret { src: r, span }),
                (None, c) => c,
            },
            None => bare_return(c, Scalar::I64(0), span),
        },
        HirStmtView::If { condition, then_body, else_body, span } => match lowered_expr(
            x,
            c,
            condition,
        ) {
            (Some(cond), c) => {
                let incoming = c.bindings;
                let else_label = label_after(c, 0);
                let end_label = label_after(c, 1);
                let c = emit(
                    after_label(after_label(c)),
                    InstrView::BranchIfFalse { cond, target: else_label, span },
                );
                let c = lowered_stmts(x, c, then_body);
                let c = emit(
                    emit(c, InstrView::Jump { target: end_label, span }),
                    InstrView::Label { id: else_label, span },
                );
                let c = Code { bindings: incoming, ..c };
                let c = match else_body {
                    Some(b) => lowered_stmts(x, c, b),
                    None => c,
                };
                emit(
                    Code { bindings: incoming, ..c },
                    InstrView::Label { id: end_label, span },
                )
            },
            (None, c) => c,
        },
        HirStmtView::Assign { def, value, span, .. } => match lowered_expr(x, c, value) {
            (Some(src), c) => assigned(x, c, def, src, span),
            (None, c) => c,
        },
        HirStmtView::IndexAssign { array, index, value, span, .. } => {
            let (a, c) = lowered_expr(x, c, *array);
            let (i, c) = lowered_expr(x, c, *index);
            let (v, c) = lowered_expr(x, c, *value);
            match (a, i, v, elem_ty(x, array.id())) {
                (Some(array), Some(index), Some(value), Some(elem)) => emit(
                    c,
                    InstrView::ArraySet { array, index, value, elem, span },
                ),
                _ => c,
            }
        },
        HirStmtView::FieldAssign { base, field, value, span, .. } => {
            let (o, c) = lowered_expr(x, c, *base);
            let (v, c) = lowered_expr(x, c, *value);
            match (o, v, runtime_ty(x, value.id())) {
                (Some(object), Some(value), Some(ty)) => emit(
                    c,
                    InstrView::ObjectSet { object, name: field, value, ty, span },
                ),
                _ => c,
            }
        },
        HirStmtView::While { condition, body, span } => {
            let start_label = label_after(c, 0);
            let end_label = label_after(c, 1);
            let outer = c.loops;
            let incoming = c.bindings;
            let c = after_label(after_label(c));
            let c = emit(
                Code { loops: outer.push((end_label, start_label)), ..c },
                InstrView::Label { id: start_label, span },
            );
            match lowered_expr(x, c, condition) {
                (Some(cond), c) => {
                    let c = emit(c, InstrView::BranchIfFalse { cond, target: end_label, span });
                    let c = lowered_stmts(x, c, body);
                    let c = emit(c, InstrView::Jump { target: start_label, span });
                    let c = emit(c, InstrView::Label { id: end_label, span });
                    Code {
                        bindings: c.bindings.restrict(incoming.dom()),
                        loops: outer,
                        ..c
                    }
                },
                (None, c) => Code {
                    loops: outer,
                    ..emit(c, InstrView::Label { id: end_label, span })
                },
            }
        },
        HirStmtView::Break { span } => if c.loops.len() > 0 {
            emit(c, InstrView::Jump { target: c.loops.last().0, span })
        } else {
            c
        },
        HirStmtView::Continue { span } => if c.loops.len() > 0 {
            emit(c, InstrView::Jump { target: c.loops.last().1, span })
        } else {
            c
        },
        HirStmtView::TupleAssign { .. } => without_code(c),
        HirStmtView::Destructure { .. } => without_code(c),
        HirStmtView::Match { .. } => without_code(c),
    }
}

/// Lowers statements in order.
pub open spec fn lowered_stmts(x: Context, c: Code, ss: Seq<HirStmtView>) -> Code
    decreases ss,
{
    if ss.len() == 0 {
        c
    } else {
        lowered_stmt(x, lowered_stmts(x, c, ss.drop_last()), ss.last())
    }
}

// ---------------------------------------------------------------------------
// Functions
// ---------------------------------------------------------------------------

/// Parameters as they stand in a function.
pub type Params = Seq<(Seq<char>, Option<DefId>, Option<TypeView>, Span)>;

/// The code that takes parameters into registers.
pub open spec fn lowered_params(c: Code, ps: Params) -> Code
    decreases ps.len(),
{
    if ps.len() == 0 {
        c
    } else {
        let c = lowered_params(c, ps.drop_last());
        let dst = Reg(c.next);
        let c = emit(
            after_reg(c),
            InstrView::Param { dst, index: (ps.len() - 1) as usize, span: ps.last().3 },
        );
        match ps.last().1 {
            Some(d) => Code { bindings: c.bindings.insert(d.0, dst), ..c },
            None => c,
        }
    }
}

/// The code with a return at its end: one that gives zero, unless the last
/// statement is a return that was lowered.
pub open spec fn closed_body(c: Code, body: Seq<HirStmtView>) -> Code {
    if body.len() > 0 && body.last() is Return && c.instrs.len() > 0 && c.instrs.last() is Ret {
        c
    } else {
        bare_return(c, Scalar::U64(0), Span { start: 0, end: 0 })
    }
}

/// The code of a function.
pub open spec fn lowered_body(x: Context, ps: Params, body: Seq<HirStmtView>) -> Code {
    closed_body(lowered_stmts(x, lowered_params(no_code(), ps), body), body)
}

/// The runtime type that an annotation stands for.
pub open spec fn annotated(t: Option<TypeView>) -> TyView {
    match t {
        Some(t) => typed::erased(typed::known(t)),
        None => TyView::Error,
    }
}

/// The runtime types of parameters.
pub open spec fn param_types(ps: Params) -> Seq<TyView> {
    Seq::new(ps.len(), |i: int| annotated(ps[i].2))
}

/// Types without capabilities.
pub open spec fn all_erased(ts: Seq<TyView>) -> Seq<TyView> {
    Seq::new(ts.len(), |i: int| typed::erased(ts[i]))
}

/// The types that type parameters stand for in an instance.
pub open spec fn instance_env(ps: Seq<HirTypeParamView>, args: Seq<TyView>) -> Map<Seq<char>, TyView>
    decreases ps.len(),
{
    if ps.len() == 0 {
        Map::empty()
    } else if ps.len() <= args.len() {
        instance_env(ps.drop_last(), args).insert(ps.last().name, args[ps.len() - 1])
    } else {
        instance_env(ps.drop_last(), args)
    }
}

/// The first function of the items with a definition.
pub open spec fn function_with_def(items: Seq<HirItemView>, def: u32) -> Option<HirItemView>
    decreases items.len(),
{
    if items.len() == 0 {
        None
    } else {
        match function_with_def(items.drop_last(), def) {
            Some(f) => Some(f),
            None => match items.last() {
                HirItemView::Fn { def: Some(d), .. } => if d.0 == def {
                    Some(items.last())
                } else {
                    None
                },
                _ => None,
            },
        }
    }
}

// ---------------------------------------------------------------------------
// Modules
// ---------------------------------------------------------------------------

/// A global binding.
pub struct GlobalLet {
    pub def: u32,
    pub id: HirId,
    pub value: HirExprView,
    pub span: Span,
}

/// The global bindings of the items.
pub open spec fn global_lets(items: Seq<HirItemView>) -> Seq<GlobalLet>
    decreases items.len(),
{
    if items.len() == 0 {
        Seq::empty()
    } else {
        let front = global_lets(items.drop_last());
        match items.last() {
            HirItemView::Let { id, def: Some(d), value, span, .. } => front.push(
                GlobalLet { def: d.0, id, value, span },
            ),
            _ => front,
        }
    }
}

/// The positions of global bindings, by their definitions.
pub open spec fn global_map(gs: Seq<GlobalLet>) -> Map<u32, u32>
    decreases gs.len(),
{
    if gs.len() == 0 {
        Map::empty()
    } else {
        global_map(gs.drop_last()).insert(gs.last().def, ((gs.len() - 1) % 0x1_0000_0000) as u32)
    }
}

/// The context of code outside of instances.
pub open spec fn root_context(module: Seq<char>, globals: Map<u32, u32>, t: TypedView) -> Context {
    Context { module, globals, env: Map::empty(), outer: None, typed: t }
}

/// The type of a global.
pub open spec fn global_ty(t: TypedView, g: GlobalLet) -> TyView {
    if t.types.dom().contains(g.id.0) {
        t.types[g.id.0]
    } else if t.types.dom().contains(g.value.id().0) {
        t.types[g.value.id().0]
    } else {
        TyView::Error
    }
}

/// Lowers a global. Where its type is not known it has no code.
pub open spec fn lowered_global(x: Context, i: nat, g: GlobalLet) -> (GlobalView, bool) {
    let ty = global_ty(x.typed, g);
    let id = (i % 0x1_0000_0000) as u32;
    let name = "g"@ + text::dec(g.def as nat);
    if ty is Error || !typed::concrete(ty) {
        (
            GlobalView {
                id,
                name,
                ty: TyView::Error,
                init: Seq::empty(),
                result: Reg(u32::MAX),
                span: g.span,
            },
            false,
        )
    } else {
        let (r, c) = lowered_expr(x, no_code(), g.value);
        (
            GlobalView {
                id,
                name,
                ty: typed::erased(ty),
                init: c.instrs,
                result: match r {
                    Some(r) => r,
                    None => Reg(u32::MAX),
                },
                span: g.span,
            },
            c.full,
        )
    }
}

/// Lowers globals in order, and whether one of them cannot be lowered.
pub open spec fn lowered_globals(x: Context, gs: Seq<GlobalLet>) -> (Seq<GlobalView>, bool)
    decreases gs.len(),
{
    if gs.len() == 0 {
        (Seq::empty(), false)
    } else {
        let (front, full) = lowered_globals(x, gs.drop_last());
        let (g, more) = lowered_global(x, (gs.len() - 1) as nat, gs.last());
        (front.push(g), full || more)
    }
}

/// Lowers the functions of the items that are not generic, and whether something
/// in the items cannot be lowered.
pub open spec fn lowered_functions(x: Context, items: Seq<HirItemView>) -> (Seq<FunctionView>, bool)
    decreases items.len(),
{
    if items.len() == 0 {
        (Seq::empty(), false)
    } else {
        let (front, full) = lowered_functions(x, items.drop_last());
        match items.last() {
            HirItemView::Fn { name, type_params, params, ret, body, .. } => if type_params.len()
                == 0 {
                let c = lowered_body(x, params, body);
                (
                    front.push(
                        FunctionView {
                            name,
                            param_tys: param_types(params),
                            ret: annotated(ret),
                            instrs: c.instrs,
                        },
                    ),
                    full || c.full,
                )
            } else {
                (front, full)
            },
            HirItemView::Destructure { .. } => (front, true),
            _ => (front, full),
        }
    }
}

/// The context of the code of an instance.
pub open spec fn instance_context(x: Context, ps: Seq<HirTypeParamView>, n: InstanceView) -> Context {
    Context { env: instance_env(ps, n.args), outer: Some(n.name), ..x }
}

/// Lowers an instance of a generic function.
pub open spec fn lowered_instance(x: Context, items: Seq<HirItemView>, n: InstanceView) -> Option<
    (FunctionView, bool),
> {
    match function_with_def(items, n.orig) {
        Some(HirItemView::Fn { type_params, params, body, .. }) => {
            let c = lowered_body(instance_context(x, type_params, n), params, body);
            Some(
                (
                    FunctionView {
                        name: n.name,
                        param_tys: all_erased(n.sig.param_tys),
                        ret: typed::erased(n.sig.ret),
                        instrs: c.instrs,
                    },
                    c.full,
                ),
            )
        },
        _ => None,
    }
}

/// Lowers instances in order.
pub open spec fn lowered_instances(x: Context, items: Seq<HirItemView>, ns: Seq<InstanceView>) -> (
    Seq<FunctionView>,
    bool,
)
    decreases ns.len(),
{
    if ns.len() == 0 {
        (Seq::empty(), false)
    } else {
        let (front, full) = lowered_instances(x, items, ns.drop_last());
        match lowered_instance(x, items, ns.last()) {
            Some((f, more)) => (front.push(f), full || more),
            None => (front, full),
        }
    }
}

/// The names of object types as sorting keys.
pub open spec fn object_keys(os: Seq<typed::ObjectSigView>) -> Seq<Seq<Seq<char>>> {
    Seq::new(os.len(), |i: int| seq![os[i].name])
}

/// The names of instances as sorting keys.
pub open spec fn instance_keys(ns: Seq<InstanceView>) -> Seq<Seq<Seq<char>>> {
    Seq::new(ns.len(), |i: int| seq![ns[i].name])
}

/// Fields with their runtime types.
pub open spec fn runtime_fields(fs: Seq<(Seq<char>, TyView)>) -> Seq<(Seq<char>, TyView)> {
    Seq::new(fs.len(), |i: int| (fs[i].0, typed::erased(fs[i].1)))
}

/// The object types in the order of their names.
pub open spec fn lowered_objects(os: Seq<typed::ObjectSigView>) -> Seq<ObjectDefView> {
    let order = order::sorted_order(object_keys(os), os.len());
    Seq::new(
        order.len(),
        |i: int|
            ObjectDefView { name: os[order[i]].name, fields: runtime_fields(os[order[i]].fields) },
    )
}

/// The instances in the order of their names.
pub open spec fn sorted_instances(ns: Seq<InstanceView>) -> Seq<InstanceView> {
    let order = order::sorted_order(instance_keys(ns), ns.len());
    Seq::new(order.len(), |i: int| ns[order[i]])
}

/// Lowers a module, and whether registers or labels ran out.
pub open spec fn lowered_module(p: HirProgramView, t: TypedView) -> (LirProgramView, bool) {
    let lets = global_lets(p.items);
    let x = root_context(p.module, global_map(lets), t);
    let (globals, a) = lowered_globals(x, lets);
    let (functions, b) = lowered_functions(x, p.items);
    let (instances, c) = lowered_instances(x, p.items, sorted_instances(t.instances));
    (
        LirProgramView {
            module: p.module,
            imports: lir::imports_of(p.module, functions + instances, globals),
            objects: lowered_objects(t.objects),
            globals,
            functions: functions + instances,
        },
        a || b || c,
    )
}

/// Lowers a module.
pub open spec fn lowered(p: HirProgramView, t: TypedView) -> LirProgramView {
    lowered_module(p, t).0
}

/// Whether a module can be lowered: everything in it that is typed has code, and
/// there are registers and labels enough for each of its functions.
pub open spec fn lowerable(p: HirProgramView, t: TypedView) -> bool {
    !lowered_module(p, t).1
}

// ---------------------------------------------------------------------------
// Jumps land, and capabilities are gone
// ---------------------------------------------------------------------------

/// How many labels with an identifier stand in instructions.
pub open spec fn count_labels(xs: Seq<InstrView>, id: u32) -> nat
    decreases xs.len(),
{
    if xs.len() == 0 {
        0
    } else {
        count_labels(xs.drop_last(), id) + (if xs.last() matches InstrView::Label { id: own, .. }
            && own == id {
            1nat
        } else {
            0nat
        })
    }
}

broadcast proof fn labels_of_push(xs: Seq<InstrView>, x: InstrView, id: u32)
    ensures
        #[trigger] count_labels(xs.push(x), id) == count_labels(xs, id) + (if x matches InstrView::Label {
            id: own,
            ..
        } && own == id {
            1nat
        } else {
            0nat
        }),
{
    assert(xs.push(x).drop_last() =~= xs);
}

/// Where an instruction may jump to.
pub open spec fn jump_target(x: InstrView) -> Option<u32> {
    match x {
        InstrView::BranchIfFalse { target, .. } => Some(target),
        InstrView::Jump { target, .. } => Some(target),
        _ => None,
    }
}

/// Whether every jump of a body, and every loop around it, has a label that was
/// taken before.
pub open spec fn targets_known(c: Code) -> bool {
    &&& forall|i: int|
        0 <= i < c.instrs.len() ==> (jump_target(#[trigger] c.instrs[i]) matches Some(t)
            ==> t < c.next_label)
    &&& forall|i: int|
        0 <= i < c.loops.len() ==> (#[trigger] c.loops[i]).0 < c.next_label && c.loops[i].1
            < c.next_label
}

/// Whether no instruction carries a type with a capability.
pub open spec fn capabilities_gone(xs: Seq<InstrView>) -> bool {
    forall|i: int|
        0 <= i < xs.len() ==> (lir::instr_ty(#[trigger] xs[i]) matches Some(t)
            ==> typed::capability_free(t))
}

/// What lowering does to labels: each label that it takes stands in the code
/// exactly once, and its jumps go to labels that were taken.
pub open spec fn places_labels(c: Code, d: Code, id: u32) -> bool {
    !d.full ==> {
        &&& !c.full
        &&& c.next_label <= d.next_label
        &&& count_labels(d.instrs, id) == count_labels(c.instrs, id) + (if c.next_label <= id
            < d.next_label {
            1nat
        } else {
            0nat
        })
        &&& targets_known(c) ==> targets_known(d)
    }
}

proof fn types_are_free(x: Context, id: HirId)
    ensures
        runtime_ty(x, id) matches Some(t) ==> typed::capability_free(t),
        elem_ty(x, id) matches Some(t) ==> typed::capability_free(t),
{
    match resolved(x, id) {
        Some(t) => {
            typed::erasure_frees(t);
            match typed::element_of(t) {
                Some(e) => typed::erasure_frees(e),
                None => {},
            }
        },
        None => {},
    }
}

/// Lowering an expression places each label that it takes once.
#[verifier::rlimit(40)]
pub proof fn expr_places_labels(x: Context, c: Code, e: HirExprView, id: u32)
    ensures
        places_labels(c, lowered_expr(x, c, e).1, id),
        capabilities_gone(c.instrs) ==> capabilities_gone(lowered_expr(x, c, e).1.instrs),
    decreases e,
{
    broadcast use labels_of_push;

    expr_keeps_loops(x, c, e);
    if resolved(x, e.id()) is Some {
        types_are_free(x, e.id());
        match e {
            HirExprView::ArrayLiteral { elems, .. } => exprs_place_labels(x, c, elems, id),
            HirExprView::ObjectLiteral { fields, .. } => named_place_labels(x, c, fields, id),
            HirExprView::Index { base, index, .. } => {
                types_are_free(x, base.id());
                expr_places_labels(x, c, *base, id);
                expr_places_labels(x, lowered_expr(x, c, *base).1, *index, id);
            },
            HirExprView::Field { base, .. } => expr_places_labels(x, c, *base, id),
            HirExprView::Call { args, .. } => exprs_place_labels(x, c, args, id),
            HirExprView::Binary { op, lhs, rhs, span, .. } => {
                expr_places_labels(x, c, *lhs, id);
                match lowered_expr(x, c, *lhs) {
                    (Some(l), c1) => {
                        if op is And {
                            expr_places_labels(x, and_start(c1, l, span), *rhs, id);
                            expr_keeps_loops(x, and_start(c1, l, span), *rhs);
                            and_places_labels(x, c1, l, *rhs, span, id);
                        } else if op is Or {
                            expr_places_labels(x, or_start(c1, l, span), *rhs, id);
                            expr_keeps_loops(x, or_start(c1, l, span), *rhs);
                            or_places_labels(x, c1, l, *rhs, span, id);
                        } else {
                            expr_places_labels(x, c1, *rhs, id);
                        }
                    },
                    _ => {},
                }
            },
            HirExprView::Unary { inner, .. } => expr_places_labels(x, c, *inner, id),
            HirExprView::Cast { inner, .. } => expr_places_labels(x, c, *inner, id),
            _ => {},
        }
    }
}

proof fn and_places_labels(x: Context, c: Code, l: Reg, rhs: HirExprView, span: Span, id: u32)
    requires
        places_labels(
            and_start(c, l, span),
            lowered_expr(x, and_start(c, l, span), rhs).1,
            id,
        ),
        capabilities_gone(and_start(c, l, span).instrs) ==> capabilities_gone(
            lowered_expr(x, and_start(c, l, span), rhs).1.instrs,
        ),
        lowered_expr(x, and_start(c, l, span), rhs).1.loops == c.loops,
    ensures
        ({
            let (r, d) = lowered_expr(x, and_start(c, l, span), rhs);
            let out = logic_end(
                d,
                r,
                Reg(c.next),
                label_after(after_reg(c), 0),
                label_after(after_reg(c), 1),
                span,
            ).1;
            &&& places_labels(c, out, id)
            &&& capabilities_gone(c.instrs) ==> capabilities_gone(out.instrs)
        }),
{
    broadcast use labels_of_push;

    reveal_with_fuel(label_after, 4);
}

proof fn or_places_labels(x: Context, c: Code, l: Reg, rhs: HirExprView, span: Span, id: u32)
    requires
        places_labels(or_start(c, l, span), lowered_expr(x, or_start(c, l, span), rhs).1, id),
        capabilities_gone(or_start(c, l, span).instrs) ==> capabilities_gone(
            lowered_expr(x, or_start(c, l, span), rhs).1.instrs,
        ),
        lowered_expr(x, or_start(c, l, span), rhs).1.loops == c.loops,
    ensures
        ({
            let (r, d) = lowered_expr(x, or_start(c, l, span), rhs);
            let out = logic_end(
                d,
                r,
                Reg(c.next),
                label_after(after_reg(c), 1),
                label_after(after_reg(c), 2),
                span,
            ).1;
            &&& places_labels(c, out, id)
            &&& capabilities_gone(c.instrs) ==> capabilities_gone(out.instrs)
        }),
{
    broadcast use labels_of_push;

    reveal_with_fuel(label_after, 4);
}

proof fn exprs_place_labels(x: Context, c: Code, es: Seq<HirExprView>, id: u32)
    ensures
        places_labels(c, lowered_exprs(x, c, es).1, id),
        capabilities_gone(c.instrs) ==> capabilities_gone(lowered_exprs(x, c, es).1.instrs),
    decreases es,
{
    if es.len() > 0 {
        exprs_place_labels(x, c, es.drop_last(), id);
        expr_places_labels(x, lowered_exprs(x, c, es.drop_last()).1, es.last(), id);
    }
}

proof fn named_place_labels(x: Context, c: Code, es: Seq<(Seq<char>, HirExprView)>, id: u32)
    ensures
        places_labels(c, lowered_named(x, c, es).1, id),
        capabilities_gone(c.instrs) ==> capabilities_gone(lowered_named(x, c, es).1.instrs),
    decreases es,
{
    if es.len() > 0 {
        named_place_labels(x, c, es.drop_last(), id);
        expr_places_labels(x, lowered_named(x, c, es.drop_last()).1, es.last().1, id);
    }
}

#[verifier::rlimit(40)]
proof fn stmt_places_labels(x: Context, c: Code, s: HirStmtView, id: u32)
    ensures
        places_labels(c, lowered_stmt(x, c, s), id),
        capabilities_gone(c.instrs) ==> capabilities_gone(lowered_stmt(x, c, s).instrs),
    decreases s,
{
    broadcast use labels_of_push;

    reveal_with_fuel(label_after, 4);
    match s {
        HirStmtView::Let { value, .. } => expr_places_labels(x, c, value, id),
        HirStmtView::Expr(value) => expr_places_labels(x, c, value, id),
        HirStmtView::Return { value, .. } => {
            match value {
                Some(e) => expr_places_labels(x, c, e, id),
                None => {},
            }
        },
        HirStmtView::If { condition, then_body, else_body, span } => {
            expr_places_labels(x, c, condition, id);
            match lowered_expr(x, c, condition) {
                (Some(cond), c0) => {
                    let else_label = label_after(c0, 0);
                    let end_label = label_after(c0, 1);
                    let c1 = emit(
                        after_label(after_label(c0)),
                        InstrView::BranchIfFalse { cond, target: else_label, span },
                    );
                    stmts_place_labels(x, c1, then_body, id);
                    stmts_keep_loops(x, c1, then_body);
                    let c2 = lowered_stmts(x, c1, then_body);
                    let c3 = emit(
                        emit(c2, InstrView::Jump { target: end_label, span }),
                        InstrView::Label { id: else_label, span },
                    );
                    let c4 = Code { bindings: c0.bindings, ..c3 };
                    let c5 = match else_body {
                        Some(b) => {
                            stmts_place_labels(x, c4, b, id);
                            lowered_stmts(x, c4, b)
                        },
                        None => c4,
                    };
                    let c6 = emit(
                        Code { bindings: c0.bindings, ..c5 },
                        InstrView::Label { id: end_label, span },
                    );
                    assert(lowered_stmt(x, c, s) == c6);
                    if !c6.full {
                        if targets_known(c0) {
                            assert(targets_known(c1));
                            assert(targets_known(c2));
                            assert(targets_known(c4));
                        }
                    }
                },
                (None, _) => {},
            }
        },
        HirStmtView::Assign { value, .. } => expr_places_labels(x, c, value, id),
        HirStmtView::IndexAssign { array, index, value, .. } => {
            types_are_free(x, array.id());
            expr_places_labels(x, c, *array, id);
            let c1 = lowered_expr(x, c, *array).1;
            expr_places_labels(x, c1, *index, id);
            expr_places_labels(x, lowered_expr(x, c1, *index).1, *value, id);
        },
        HirStmtView::FieldAssign { base, value, .. } => {
            types_are_free(x, value.id());
            expr_places_labels(x, c, *base, id);
            expr_places_labels(x, lowered_expr(x, c, *base).1, *value, id);
        },
        HirStmtView::While { condition, body, span } => {
            let start_label = label_after(c, 0);
            let end_label = label_after(c, 1);
            let c1 = after_label(after_label(c));
            let c2 = emit(
                Code { loops: c.loops.push((end_label, start_label)), ..c1 },
                InstrView::Label { id: start_label, span },
            );
            expr_places_labels(x, c2, condition, id);
            expr_keeps_loops(x, c2, condition);
            match lowered_expr(x, c2, condition) {
                (Some(cond), c3) => {
                    let c4 = emit(c3, InstrView::BranchIfFalse { cond, target: end_label, span });
                    stmts_place_labels(x, c4, body, id);
                    stmts_keep_loops(x, c4, body);
                    let c5 = lowered_stmts(x, c4, body);
                    if !c5.full && targets_known(c) {
                        assert(targets_known(c2));
                        assert(targets_known(c3));
                        assert(targets_known(c4));
                        assert(targets_known(c5));
                    }
                },
                (None, c3) => {
                    if !c3.full && targets_known(c) {
                        assert(targets_known(c2));
                        assert(targets_known(c3));
                    }
                },
            }
        },
        HirStmtView::Break { .. } | HirStmtView::Continue { .. } => {
            if c.loops.len() > 0 {
                let last = c.loops[c.loops.len() - 1];
                assert(last == c.loops.last());
            }
        },
        _ => {},
    }
}

proof fn stmts_place_labels(x: Context, c: Code, ss: Seq<HirStmtView>, id: u32)
    ensures
        places_labels(c, lowered_stmts(x, c, ss), id),
        capabilities_gone(c.instrs) ==> capabilities_gone(lowered_stmts(x, c, ss).instrs),
    decreases ss,
{
    if ss.len() > 0 {
        stmts_place_labels(x, c, ss.drop_last(), id);
        stmt_places_labels(x, lowered_stmts(x, c, ss.drop_last()), ss.last(), id);
    }
}

proof fn params_place_labels(c: Code, ps: Params, id: u32)
    ensures
        places_labels(c, lowered_params(c, ps), id),
        lowered_params(c, ps).loops == c.loops,
        capabilities_gone(c.instrs) ==> capabilities_gone(lowered_params(c, ps).instrs),
    decreases ps.len(),
{
    broadcast use labels_of_push;

    if ps.len() > 0 {
        params_place_labels(c, ps.drop_last(), id);
    }
}

/// In the code of a function every label stands at most once, and every jump
/// goes to a label that stands there.
pub proof fn jumps_land(x: Context, ps: Params, body: Seq<HirStmtView>)
    requires
        !lowered_body(x, ps, body).full,
    ensures
        forall|id: u32| #[trigger] count_labels(lowered_body(x, ps, body).instrs, id) <= 1,
        forall|i: int|
            0 <= i < lowered_body(x, ps, body).instrs.len() ==> (jump_target(
                #[trigger] lowered_body(x, ps, body).instrs[i],
            ) matches Some(t) ==> count_labels(lowered_body(x, ps, body).instrs, t) == 1),
{
    let d = lowered_body(x, ps, body);
    assert forall|id: u32| count_labels(d.instrs, id) == (if id < d.next_label {
        1nat
    } else {
        0nat
    }) by {
        body_places_labels(x, ps, body, id);
        assert(count_labels(no_code().instrs, id) == 0);
    }
    body_places_labels(x, ps, body, 0);
}

proof fn body_places_labels(x: Context, ps: Params, body: Seq<HirStmtView>, id: u32)
    ensures
        places_labels(no_code(), lowered_body(x, ps, body), id),
        capabilities_gone(lowered_body(x, ps, body).instrs),
{
    broadcast use labels_of_push;

    params_place_labels(no_code(), ps, id);
    stmts_place_labels(x, lowered_params(no_code(), ps), body, id);
}

/// Whether no type of a module has a capability.
pub open spec fn module_capability_free(p: LirProgramView) -> bool {
    &&& forall|i: int, j: int|
        0 <= i < p.objects.len() && 0 <= j < p.objects[i].fields.len() ==> typed::capability_free(
            (#[trigger] p.objects[i].fields[j]).1,
        )
    &&& forall|i: int|
        0 <= i < p.globals.len() ==> typed::capability_free((#[trigger] p.globals[i]).ty)
            && capabilities_gone(p.globals[i].init)
    &&& forall|i: int|
        0 <= i < p.functions.len() ==> function_capability_free(#[trigger] p.functions[i])
}

/// Whether no type of a function has a capability.
pub open spec fn function_capability_free(f: FunctionView) -> bool {
    &&& forall|j: int| 0 <= j < f.param_tys.len() ==> typed::capability_free(#[trigger] f.param_tys[j])
    &&& typed::capability_free(f.ret)
    &&& capabilities_gone(f.instrs)
}

proof fn annotations_are_free(ps: Params, ret: Option<TypeView>)
    ensures
        typed::capability_free(annotated(ret)),
        forall|j: int| 0 <= j < ps.len() ==> typed::capability_free(#[trigger] param_types(ps)[j]),
{
    match ret {
        Some(t) => typed::erasure_frees(typed::known(t)),
        None => {},
    }
    assert forall|j: int| 0 <= j < ps.len() implies typed::capability_free(
        #[trigger] param_types(ps)[j],
    ) by {
        match ps[j].2 {
            Some(t) => typed::erasure_frees(typed::known(t)),
            None => {},
        }
    }
}

proof fn functions_are_free(x: Context, items: Seq<HirItemView>)
    ensures
        forall|i: int|
            0 <= i < lowered_functions(x, items).0.len() ==> function_capability_free(
                #[trigger] lowered_functions(x, items).0[i],
            ),
    decreases items.len(),
{
    if items.len() > 0 {
        functions_are_free(x, items.drop_last());
        match items.last() {
            HirItemView::Fn { params, ret, body, .. } => {
                annotations_are_free(params, ret);
                body_places_labels(x, params, body, 0);
            },
            _ => {},
        }
        let front = lowered_functions(x, items.drop_last()).0;
        let all = lowered_functions(x, items).0;
        assert forall|i: int| 0 <= i < all.len() implies function_capability_free(
            #[trigger] all[i],
        ) by {
            if i < front.len() {
                assert(all[i] == front[i]);
            }
        }
    }
}

proof fn instances_are_free(x: Context, items: Seq<HirItemView>, ns: Seq<InstanceView>)
    ensures
        forall|i: int|
            0 <= i < lowered_instances(x, items, ns).0.len() ==> function_capability_free(
                #[trigger] lowered_instances(x, items, ns).0[i],
            ),
    decreases ns.len(),
{
    if ns.len() > 0 {
        instances_are_free(x, items, ns.drop_last());
        let n = ns.last();
        match function_with_def(items, n.orig) {
            Some(HirItemView::Fn { type_params, params, body, .. }) => {
                body_places_labels(instance_context(x, type_params, n), params, body, 0);
                typed::erasure_frees(n.sig.ret);
                assert forall|j: int| 0 <= j < n.sig.param_tys.len() implies typed::capability_free(
                    #[trigger] all_erased(n.sig.param_tys)[j],
                ) by {
                    typed::erasure_frees(n.sig.param_tys[j]);
                }
            },
            _ => {},
        }
        let front = lowered_instances(x, items, ns.drop_last()).0;
        let all = lowered_instances(x, items, ns).0;
        assert forall|i: int| 0 <= i < all.len() implies function_capability_free(
            #[trigger] all[i],
        ) by {
            if i < front.len() {
                assert(all[i] == front[i]);
            }
        }
    }
}

proof fn globals_are_free(x: Context, gs: Seq<GlobalLet>)
    ensures
        forall|i: int|
            0 <= i < lowered_globals(x, gs).0.len() ==> typed::capability_free(
                (#[trigger] lowered_globals(x, gs).0[i]).ty,
            ) && capabilities_gone(lowered_globals(x, gs).0[i].init),
    decreases gs.len(),
{
    if gs.len() > 0 {
        globals_are_free(x, gs.drop_last());
        typed::erasure_frees(global_ty(x.typed, gs.last()));
        expr_places_labels(x, no_code(), gs.last().value, 0);
    }
}

/// No capability survives lowering: none of the types of a lowered module has
/// one.
pub proof fn no_capability_survives(p: HirProgramView, t: TypedView)
    ensures
        module_capability_free(lowered(p, t)),
{
    let lets = global_lets(p.items);
    let x = root_context(p.module, global_map(lets), t);
    globals_are_free(x, lets);
    functions_are_free(x, p.items);
    instances_are_free(x, p.items, sorted_instances(t.instances));
    let m = lowered(p, t);
    assert forall|i: int, j: int|
        0 <= i < m.objects.len() && 0 <= j < m.objects[i].fields.len() implies typed::capability_free(
        (#[trigger] m.objects[i].fields[j]).1,
    ) by {
        let order = order::sorted_order(object_keys(t.objects), t.objects.len());
        typed::erasure_frees(t.objects[order[i]].fields[j].1);
    }
    assert forall|i: int| 0 <= i < m.functions.len() implies function_capability_free(
        #[trigger] m.functions[i],
    ) by {
        let a = lowered_functions(x, p.items).0;
        let b = lowered_instances(x, p.items, sorted_instances(t.instances)).0;
        if i < a.len() {
            assert(m.functions[i] == a[i]);
        } else {
            assert(m.functions[i] == b[i - a.len()]);
        }
    }
}

// ---------------------------------------------------------------------------
// The lowering
// ---------------------------------------------------------------------------

proof fn lower_exprs_stops(x: Context, c: Code, es: Seq<HirExprView>, n: int)
    requires
        0 <= n <= es.len(),
        lowered_exprs(x, c, es.take(n)).0 is None,
    ensures
        lowered_exprs(x, c, es) == lowered_exprs(x, c, es.take(n)),
    decreases es.len() - n,
{
    if n == es.len() {
        assert(es.take(n) =~= es);
    } else {
        assert(es.take(n + 1).drop_last() =~= es.take(n));
        lower_exprs_stops(x, c, es, n + 1);
    }
}

proof fn lower_named_stops(x: Context, c: Code, es: Seq<(Seq<char>, HirExprView)>, n: int)
    requires
        0 <= n <= es.len(),
        lowered_named(x, c, es.take(n)).0 is None,
    ensures
        lowered_named(x, c, es) == lowered_named(x, c, es.take(n)),
    decreases es.len() - n,
{
    if n == es.len() {
        assert(es.take(n) =~= es);
    } else {
        assert(es.take(n + 1).drop_last() =~= es.take(n));
        lower_named_stops(x, c, es, n + 1);
    }
}

/// Lowering an expression leaves the loops around and the local variables as
/// they are.
pub proof fn expr_keeps_loops(x: Context, c: Code, e: HirExprView)
    ensures
        lowered_expr(x, c, e).1.loops == c.loops,
        lowered_expr(x, c, e).1.bindings == c.bindings,
    decreases e,
{
    if resolved(x, e.id()) is Some {
        match e {
            HirExprView::ArrayLiteral { elems, .. } => exprs_keep_loops(x, c, elems),
            HirExprView::ObjectLiteral { fields, .. } => named_keep_loops(x, c, fields),
            HirExprView::Index { base, index, .. } => {
                expr_keeps_loops(x, c, *base);
                expr_keeps_loops(x, lowered_expr(x, c, *base).1, *index);
            },
            HirExprView::Field { base, .. } => expr_keeps_loops(x, c, *base),
            HirExprView::Call { args, .. } => exprs_keep_loops(x, c, args),
            HirExprView::Binary { op, lhs, rhs, span, .. } => {
                expr_keeps_loops(x, c, *lhs);
                match lowered_expr(x, c, *lhs) {
                    (Some(l), c1) => {
                        expr_keeps_loops(x, and_start(c1, l, span), *rhs);
                        expr_keeps_loops(x, or_start(c1, l, span), *rhs);
                        expr_keeps_loops(x, c1, *rhs);
                    },
                    _ => {},
                }
            },
            HirExprView::Unary { inner, .. } => expr_keeps_loops(x, c, *inner),
            HirExprView::Cast { inner, .. } => expr_keeps_loops(x, c, *inner),
            _ => {},
        }
    }
}

proof fn exprs_keep_loops(x: Context, c: Code, es: Seq<HirExprView>)
    ensures
        lowered_exprs(x, c, es).1.loops == c.loops,
        lowered_exprs(x, c, es).1.bindings == c.bindings,
    decreases es,
{
    if es.len() > 0 {
        exprs_keep_loops(x, c, es.drop_last());
        expr_keeps_loops(x, lowered_exprs(x, c, es.drop_last()).1, es.last());
    }
}

proof fn named_keep_loops(x: Context, c: Code, es: Seq<(Seq<char>, HirExprView)>)
    ensures
        lowered_named(x, c, es).1.loops == c.loops,
        lowered_named(x, c, es).1.bindings == c.bindings,
    decreases es,
{
    if es.len() > 0 {
        named_keep_loops(x, c, es.drop_last());
        expr_keeps_loops(x, lowered_named(x, c, es.drop_last()).1, es.last().1);
    }
}

/// Lowering a statement leaves the loops around as they are.
pub proof fn stmt_keeps_loops(x: Context, c: Code, s: HirStmtView)
    ensures
        lowered_stmt(x, c, s).loops == c.loops,
    decreases s,
{
    match s {
        HirStmtView::Let { value, .. } => expr_keeps_loops(x, c, value),
        HirStmtView::Expr(value) => expr_keeps_loops(x, c, value),
        HirStmtView::Return { value, .. } => {
            match value {
                Some(e) => expr_keeps_loops(x, c, e),
                None => {},
            }
        },
        HirStmtView::If { condition, then_body, else_body, span } => {
            expr_keeps_loops(x, c, condition);
            match lowered_expr(x, c, condition) {
                (Some(cond), c) => {
                    let incoming = c.bindings;
                    let else_label = label_after(c, 0);
                    let end_label = label_after(c, 1);
                    let c = emit(
                        after_label(after_label(c)),
                        InstrView::BranchIfFalse { cond, target: else_label, span },
                    );
                    stmts_keep_loops(x, c, then_body);
                    let c = lowered_stmts(x, c, then_body);
                    let c = emit(
                        emit(c, InstrView::Jump { target: end_label, span }),
                        InstrView::Label { id: else_label, span },
                    );
                    let c = Code { bindings: incoming, ..c };
                    match else_body {
                        Some(b) => stmts_keep_loops(x, c, b),
                        None => {},
                    }
                },
                (None, _) => {},
            }
        },
        HirStmtView::Assign { value, .. } => expr_keeps_loops(x, c, value),
        HirStmtView::IndexAssign { array, index, value, .. } => {
            expr_keeps_loops(x, c, *array);
            let c = lowered_expr(x, c, *array).1;
            expr_keeps_loops(x, c, *index);
            expr_keeps_loops(x, lowered_expr(x, c, *index).1, *value);
        },
        HirStmtView::FieldAssign { base, value, .. } => {
            expr_keeps_loops(x, c, *base);
            expr_keeps_loops(x, lowered_expr(x, c, *base).1, *value);
        },
        _ => {},
    }
}

proof fn stmts_keep_loops(x: Context, c: Code, ss: Seq<HirStmtView>)
    ensures
        lowered_stmts(x, c, ss).loops == c.loops,
    decreases ss,
{
    if ss.len() > 0 {
        stmts_keep_loops(x, c, ss.drop_last());
        stmt_keeps_loops(x, lowered_stmts(x, c, ss.drop_last()), ss.last());
    }
}

/// A signed number as a word.
pub(crate) fn as_word(v: i64) -> (r: u64)
    ensures
        r == word(v),
{
    if v >= 0 {
        v as u64
    } else {
        let below: i64 = -(v + 1);
        u64::MAX - (below as u64)
    }
}

fn type_literal(v: Scalar, t: &Ty) -> (r: Scalar)
    ensures
        r == typed_literal(v, t@),
{
    match v {
        Scalar::Int(n) => match t {
            Ty::U64 => Scalar::U64(as_word(n)),
            Ty::I64 => Scalar::I64(n),
            Ty::U8 => {
                let low: u64 = as_word(n) % 256;
                Scalar::U8(low as u8)
            },
            _ => v,
        },
        _ => v,
    }
}

fn lower_op(op: HirBinOp) -> (r: LirOp)
    ensures
        r == lowered_op(op),
{
    match op {
        HirBinOp::Add => LirOp::Add,
        HirBinOp::Sub => LirOp::Sub,
        HirBinOp::Mul => LirOp::Mul,
        HirBinOp::Div => LirOp::Div,
        HirBinOp::Eq => LirOp::Eq,
        HirBinOp::Ne => LirOp::Ne,
        HirBinOp::Lt => LirOp::Lt,
        HirBinOp::Le => LirOp::Le,
        HirBinOp::Gt => LirOp::Gt,
        HirBinOp::Ge => LirOp::Ge,
        HirBinOp::And => LirOp::Eq,
        HirBinOp::Or => LirOp::Eq,
    }
}

/// The lowering of a body at work.
struct Lowerer<'a> {
    module: &'a str,
    globals: &'a Table<u32, u32>,
    env: &'a Table<String, Ty>,
    outer: Option<&'a str>,
    typed: &'a TypedProgram,
    root_calls: &'a Table<u32, String>,
    inst_calls: &'a Table<InstanceCall, String>,
    next: u32,
    next_label: u32,
    full: bool,
    instrs: Vec<Instr>,
    bindings: Table<u32, Reg>,
    loops: Vec<(u32, u32)>,
}

impl<'a> Lowerer<'a> {
    spec fn ctx(&self) -> Context {
        Context {
            module: self.module@,
            globals: self.globals@,
            env: self.env@,
            outer: match self.outer {
                Some(s) => Some(s@),
                None => None,
            },
            typed: TypedView {
                root_calls: self.root_calls@,
                inst_calls: self.inst_calls@,
                ..self.typed@
            },
        }
    }

    spec fn code(&self) -> Code {
        Code {
            next: self.next,
            next_label: self.next_label,
            full: self.full,
            instrs: model::all(self.instrs@),
            bindings: self.bindings@,
            loops: self.loops@,
        }
    }

    fn new(
        module: &'a str,
        globals: &'a Table<u32, u32>,
        env: &'a Table<String, Ty>,
        outer: Option<&'a str>,
        typed: &'a TypedProgram,
        root_calls: &'a Table<u32, String>,
        inst_calls: &'a Table<InstanceCall, String>,
    ) -> (r: Self)
        ensures
            r.code() == no_code(),
            r.ctx() == (Context {
                module: module@,
                globals: globals@,
                env: env@,
                outer: match outer {
                    Some(s) => Some(s@),
                    None => None,
                },
                typed: TypedView {
                    root_calls: root_calls@,
                    inst_calls: inst_calls@,
                    ..typed@
                },
            }),
    {
        let r = Lowerer {
            module,
            globals,
            env,
            outer,
            typed,
            root_calls,
            inst_calls,
            next: 0,
            next_label: 0,
            full: false,
            instrs: Vec::new(),
            bindings: Table::new(),
            loops: Vec::new(),
        };
        assert(r.code().loops =~= no_code().loops);
        r
    }

    fn reg(&mut self) -> (r: Reg)
        ensures
            r == Reg(old(self).code().next),
            final(self).code() == after_reg(old(self).code()),
            final(self).ctx() == old(self).ctx(),
    {
        let r = Reg(self.next);
        if self.next == u32::MAX {
            self.full = true;
        } else {
            self.next = self.next + 1;
        }
        r
    }

    fn label(&mut self) -> (r: u32)
        ensures
            r == old(self).code().next_label,
            final(self).code() == after_label(old(self).code()),
            final(self).ctx() == old(self).ctx(),
    {
        let r = self.next_label;
        if self.next_label == u32::MAX {
            self.full = true;
        } else {
            self.next_label = self.next_label + 1;
        }
        r
    }

    fn emit(&mut self, x: Instr)
        ensures
            final(self).code() == emit(old(self).code(), x@),
            final(self).ctx() == old(self).ctx(),
    {
        self.instrs.push(x);
    }

    fn resolved_ty(&self, id: HirId) -> (r: Option<Ty>)
        ensures
            model::opt(r) == resolved(self.ctx(), id),
    {
        match self.typed.types.get(&id.0) {
            Some(t) => {
                let t = t.substitute(self.env);
                let wrong = match &t {
                    Ty::Error => true,
                    _ => !t.is_concrete(),
                };
                if wrong {
                    None
                } else {
                    Some(t)
                }
            },
            None => None,
        }
    }

    fn runtime_ty(&self, id: HirId) -> (r: Option<Ty>)
        ensures
            model::opt(r) == runtime_ty(self.ctx(), id),
    {
        match self.resolved_ty(id) {
            Some(t) => Some(t.erase_capability()),
            None => None,
        }
    }

    fn array_elem_of(&self, id: HirId) -> (r: Option<Ty>)
        ensures
            model::opt(r) == elem_ty(self.ctx(), id),
    {
        match self.resolved_ty(id) {
            Some(t) => match t.array_elem() {
                Some(e) => Some(e.erase_capability()),
                None => None,
            },
            None => None,
        }
    }

    fn instance_name(&self, id: HirId) -> (r: Option<String>)
        ensures
            r is Some == is_instance_call(self.ctx(), id),
            r is Some ==> forall|name: Seq<char>| #[trigger]
                callee_name(self.ctx(), id, name) == r->0@,
            r is None ==> forall|name: Seq<char>| #[trigger]
                callee_name(self.ctx(), id, name) == name,
    {
        match self.outer {
            Some(outer) => match self.inst_calls.get(&InstanceCall(owned(outer), id.0)) {
                Some(s) => Some(s.clone()),
                None => None,
            },
            None => match self.root_calls.get(&id.0) {
                Some(s) => Some(s.clone()),
                None => None,
            },
        }
    }

    fn callee(&self, id: HirId, name: &String, symbol: &Option<SymbolRef>) -> (r: (String, FuncSymbol))
        ensures
            r.0@ == callee_name(self.ctx(), id, name@),
            r.1@ == callee_symbol(self.ctx(), id, name@, model::opt(*symbol)),
    {
        let instance = self.instance_name(id);
        let callee = match &instance {
            Some(s) => s.clone(),
            None => name.clone(),
        };
        let symbol = match symbol {
            Some(s) => FuncSymbol {
                module: s.module.as_string(),
                function: match &instance {
                    Some(n) => n.clone(),
                    None => s.name.clone(),
                },
            },
            None => FuncSymbol { module: owned(self.module), function: callee.clone() },
        };
        (callee, symbol)
    }

    fn set_bool(&mut self, dst: Reg, value: bool, span: Span)
        ensures
            final(self).code() == set_bool(old(self).code(), dst, value, span),
            final(self).ctx() == old(self).ctx(),
    {
        let tmp = self.reg();
        self.emit(Instr::Const { dst: tmp, value: Scalar::Bool(value), span });
        self.emit(Instr::Copy { dst, src: tmp, span });
    }

    fn logic_end(
        &mut self,
        r: Option<Reg>,
        dst: Reg,
        false_label: u32,
        end_label: u32,
        span: Span,
    ) -> (out: Option<Reg>)
        ensures
            final(self).ctx() == old(self).ctx(),
            (out, final(self).code()) == logic_end(
                old(self).code(),
                r,
                dst,
                false_label,
                end_label,
                span,
            ),
    {
        match r {
            None => {
                self.emit(Instr::Label { id: false_label, span });
                self.emit(Instr::Label { id: end_label, span });
                None
            },
            Some(r) => {
                self.emit(Instr::BranchIfFalse { cond: r, target: false_label, span });
                self.set_bool(dst, true, span);
                self.emit(Instr::Jump { target: end_label, span });
                self.emit(Instr::Label { id: false_label, span });
                self.set_bool(dst, false, span);
                self.emit(Instr::Label { id: end_label, span });
                Some(dst)
            },
        }
    }

    /// The code of `&&` behind the left operand: the result's register and the
    /// labels of falsehood and of the end.
    fn and_start(&mut self, l: Reg, span: Span) -> (r: (Reg, u32, u32))
        ensures
            final(self).ctx() == old(self).ctx(),
            final(self).code() == and_start(old(self).code(), l, span),
            r.0 == Reg(old(self).code().next),
            r.1 == label_after(after_reg(old(self).code()), 0),
            r.2 == label_after(after_reg(old(self).code()), 1),
    {
        proof {
            reveal_with_fuel(label_after, 4);
        }
        let dst = self.reg();
        let false_label: u32 = self.label();
        let end_label: u32 = self.label();
        self.emit(Instr::BranchIfFalse { cond: l, target: false_label, span });
        (dst, false_label, end_label)
    }

    /// The code of `||` behind the left operand.
    fn or_start(&mut self, l: Reg, span: Span) -> (r: (Reg, u32, u32))
        ensures
            final(self).ctx() == old(self).ctx(),
            final(self).code() == or_start(old(self).code(), l, span),
            r.0 == Reg(old(self).code().next),
            r.1 == label_after(after_reg(old(self).code()), 1),
            r.2 == label_after(after_reg(old(self).code()), 2),
    {
        proof {
            reveal_with_fuel(label_after, 4);
        }
        let dst = self.reg();
        let rhs_label: u32 = self.label();
        let false_label: u32 = self.label();
        let end_label: u32 = self.label();
        self.emit(Instr::BranchIfFalse { cond: l, target: rhs_label, span });
        self.set_bool(dst, true, span);
        self.emit(Instr::Jump { target: end_label, span });
        self.emit(Instr::Label { id: rhs_label, span });
        (dst, false_label, end_label)
    }

    fn lower_expr(&mut self, e: &HirExpr) -> (r: Option<Reg>)
        ensures
            final(self).ctx() == old(self).ctx(),
            (r, final(self).code()) == lowered_expr(old(self).ctx(), old(self).code(), e@),
        decreases e,
    {
        let ty = match self.resolved_ty(e.id()) {
            Some(t) => t,
            None => {
                return None;
            },
        };
        match e {
            HirExpr::Literal { value, span, .. } => {
                let dst = self.reg();
                self.emit(
                    Instr::Const { dst, value: type_literal(*value, &ty), span: *span },
                );
                Some(dst)
            },
            HirExpr::String { value, span, .. } => {
                let dst = self.reg();
                self.emit(Instr::StringConst { dst, value: clone_bytes(value), span: *span });
                Some(dst)
            },
            HirExpr::Var { def, span, .. } => match def {
                Some(d) => {
                    match self.bindings.get(&d.0) {
                        Some(reg) => {
                            return Some(*reg);
                        },
                        None => {},
                    }
                    match self.globals.get(&d.0) {
                        Some(g) => {
                            let global: u32 = *g;
                            let dst = self.reg();
                            self.emit(Instr::GlobalLoad { dst, global, span: *span });
                            Some(dst)
                        },
                        None => None,
                    }
                },
                None => None,
            },
            HirExpr::ArrayLiteral { id, elems, span } => {
                let regs = self.lower_exprs(elems)?;
                let elem = self.array_elem_of(*id)?;
                let dst = self.reg();
                self.emit(Instr::ArrayLit { dst, elems: regs, elem, span: *span });
                Some(dst)
            },
            HirExpr::ObjectLiteral { name, fields, span, .. } => {
                let regs = self.lower_named(fields)?;
                let dst = self.reg();
                let fields = zip_fields(fields, &regs);
                self.emit(Instr::NewObject { dst, name: name.clone(), fields, span: *span });
                Some(dst)
            },
            HirExpr::Index { base, index, span, .. } => {
                let elem = self.array_elem_of(base.id());
                let array = self.lower_expr(base)?;
                let index = self.lower_expr(index)?;
                let elem = elem?;
                let dst = self.reg();
                self.emit(Instr::ArrayGet { dst, array, index, elem, span: *span });
                Some(dst)
            },
            HirExpr::Field { base, name, span, .. } => {
                let object = self.lower_expr(base)?;
                let dst = self.reg();
                self.emit(
                    Instr::ObjectGet {
                        dst,
                        object,
                        name: name.clone(),
                        ty: ty.erase_capability(),
                        span: *span,
                    },
                );
                Some(dst)
            },
            HirExpr::Call { id, name, symbol, args, span, .. } => {
                assert(hir::exprs_view(args@).len() == args@.len());
                if str_eq(name.as_str(), "Array.new") {
                    if args.len() != 1 {
                        return None;
                    }
                    let regs = self.lower_exprs(args)?;
                    let elem = self.array_elem_of(*id)?;
                    let dst = self.reg();
                    self.emit(Instr::NewArray { dst, len: regs[0], elem, span: *span });
                    return Some(dst);
                }
                let (callee, symbol) = self.callee(*id, name, symbol);
                let regs = self.lower_exprs(args)?;
                let dst = self.reg();
                self.emit(Instr::Call { dst, callee, symbol, args: regs, span: *span });
                Some(dst)
            },
            HirExpr::Binary { op, lhs, rhs, span, .. } => {
                let l = self.lower_expr(lhs)?;
                match op {
                    HirBinOp::And => {
                        let (dst, false_label, end_label) = self.and_start(l, *span);
                        let r = self.lower_expr(rhs);
                        self.logic_end(r, dst, false_label, end_label, *span)
                    },
                    HirBinOp::Or => {
                        let (dst, false_label, end_label) = self.or_start(l, *span);
                        let r = self.lower_expr(rhs);
                        self.logic_end(r, dst, false_label, end_label, *span)
                    },
                    _ => {
                        let r = self.lower_expr(rhs)?;
                        let dst = self.reg();
                        self.emit(
                            Instr::BinOp { dst, op: lower_op(*op), lhs: l, rhs: r, span: *span },
                        );
                        Some(dst)
                    },
                }
            },
            HirExpr::Unary { inner, span, .. } => {
                let src = self.lower_expr(inner)?;
                let dst = self.reg();
                self.emit(Instr::Not { dst, src, span: *span });
                Some(dst)
            },
            HirExpr::Cast { inner, span, .. } => {
                let src = self.lower_expr(inner)?;
                let dst = self.reg();
                self.emit(Instr::Cast { dst, src, target: ty.erase_capability(), span: *span });
                Some(dst)
            },
            HirExpr::Variant { .. }
            | HirExpr::TupleLiteral { .. }
            | HirExpr::TupleIndex { .. }
            | HirExpr::Null { .. }
            | HirExpr::MethodCall { .. } => {
                self.full = true;
                None
            },
            _ => None,
        }
    }

    fn lower_exprs(&mut self, es: &Vec<HirExpr>) -> (r: Option<Vec<Reg>>)
        ensures
            final(self).ctx() == old(self).ctx(),
            match r {
                Some(regs) => regs@.len() == es@.len() && (Some(regs@), final(self).code())
                    == lowered_exprs(old(self).ctx(), old(self).code(), hir::exprs_view(es@)),
                None => (None::<Seq<Reg>>, final(self).code()) == lowered_exprs(
                    old(self).ctx(),
                    old(self).code(),
                    hir::exprs_view(es@),
                ),
            },
        decreases es,
    {
        let ghost all = hir::exprs_view(es@);
        let mut out: Vec<Reg> = Vec::new();
        let mut i: usize = 0;
        assert(all.take(0).len() == 0);
        assert(out@ =~= Seq::empty());
        while i < es.len()
            invariant
                i <= es@.len(),
                out@.len() == i,
                all == hir::exprs_view(es@),
                self.ctx() == old(self).ctx(),
                (Some(out@), self.code()) == lowered_exprs(
                    old(self).ctx(),
                    old(self).code(),
                    all.take(i as int),
                ),
            decreases es@.len() - i,
        {
            assert(all.take(i + 1).drop_last() =~= all.take(i as int));
            assert(all.take(i + 1).last() == all[i as int]);
            match self.lower_expr(&es[i]) {
                Some(r) => out.push(r),
                None => {
                    proof {
                        lower_exprs_stops(old(self).ctx(), old(self).code(), all, i + 1);
                    }
                    return None;
                },
            }
            i += 1;
        }
        assert(all.take(all.len() as int) =~= all);
        Some(out)
    }

    fn lower_named(&mut self, es: &Vec<(String, HirExpr)>) -> (r: Option<Vec<Reg>>)
        ensures
            final(self).ctx() == old(self).ctx(),
            match r {
                Some(regs) => regs@.len() == es@.len() && (Some(regs@), final(self).code())
                    == lowered_named(old(self).ctx(), old(self).code(), hir::named_view(es@)),
                None => (None::<Seq<Reg>>, final(self).code()) == lowered_named(
                    old(self).ctx(),
                    old(self).code(),
                    hir::named_view(es@),
                ),
            },
        decreases es,
    {
        let ghost all = hir::named_view(es@);
        let mut out: Vec<Reg> = Vec::new();
        let mut i: usize = 0;
        assert(all.take(0).len() == 0);
        assert(out@ =~= Seq::empty());
        while i < es.len()
            invariant
                i <= es@.len(),
                out@.len() == i,
                all == hir::named_view(es@),
                self.ctx() == old(self).ctx(),
                (Some(out@), self.code()) == lowered_named(
                    old(self).ctx(),
                    old(self).code(),
                    all.take(i as int),
                ),
            decreases es@.len() - i,
        {
            assert(all.take(i + 1).drop_last() =~= all.take(i as int));
            assert(all.take(i + 1).last() == all[i as int]);
            match self.lower_expr(&es[i].1) {
                Some(r) => out.push(r),
                None => {
                    proof {
                        lower_named_stops(old(self).ctx(), old(self).code(), all, i + 1);
                    }
                    return None;
                },
            }
            i += 1;
        }
        assert(all.take(all.len() as int) =~= all);
        Some(out)
    }

    fn bind_local(&mut self, def: Option<DefId>, value: &HirExpr, reg: Reg)
        ensures
            final(self).ctx() == old(self).ctx(),
            final(self).code() == bound(old(self).ctx(), old(self).code(), def, value@, reg),
    {
        let d = match def {
            Some(d) => d,
            None => {
                return ;
            },
        };
        let is_ref = match self.runtime_ty(value.id()) {
            Some(t) => match t {
                Ty::Object(_) => true,
                Ty::Array(_) => true,
                _ => false,
            },
            None => false,
        };
        let home = if is_ref {
            let dst = self.reg();
            self.emit(Instr::Copy { dst, src: reg, span: value.span() });
            dst
        } else {
            reg
        };
        self.bindings.insert(d.0, home);
    }

    fn lower_assign(&mut self, def: Option<DefId>, src: Reg, span: Span)
        ensures
            final(self).ctx() == old(self).ctx(),
            final(self).code() == assigned(old(self).ctx(), old(self).code(), def, src, span),
    {
        let d = match def {
            Some(d) => d,
            None => {
                return ;
            },
        };
        match self.bindings.get(&d.0) {
            Some(reg) => {
                let dst = *reg;
                self.emit(Instr::Copy { dst, src, span });
                return ;
            },
            None => {},
        }
        match self.globals.get(&d.0) {
            Some(g) => {
                let global: u32 = *g;
                self.emit(Instr::GlobalStore { global, src, span });
            },
            None => {},
        }
    }

    fn bare_return(&mut self, value: Scalar, span: Span)
        ensures
            final(self).ctx() == old(self).ctx(),
            final(self).code() == bare_return(old(self).code(), value, span),
    {
        let r = self.reg();
        self.emit(Instr::Const { dst: r, value, span });
        self.emit(Instr::Ret { src: r, span });
    }

    fn lower_stmt(&mut self, s: &HirStmt)
        ensures
            final(self).ctx() == old(self).ctx(),
            final(self).code() == lowered_stmt(old(self).ctx(), old(self).code(), s@),
        decreases s,
    {
        proof {
            reveal_with_fuel(label_after, 4);
        }
        match s {
            HirStmt::Let { def, value, .. } => {
                match self.lower_expr(value) {
                    Some(reg) => self.bind_local(*def, value, reg),
                    None => {},
                }
            },
            HirStmt::Expr(value) => {
                let _ = self.lower_expr(value);
            },
            HirStmt::Return { value, span } => match value {
                Some(e) => match self.lower_expr(e) {
                    Some(r) => self.emit(Instr::Ret { src: r, span: *span }),
                    None => {},
                },
                None => self.bare_return(Scalar::I64(0), *span),
            },
            HirStmt::If { condition, then_body, else_body, span } => {
                let cond = match self.lower_expr(condition) {
                    Some(r) => r,
                    None => {
                        return ;
                    },
                };
                let incoming = self.bindings.duplicate();
                let else_label: u32 = self.label();
                let end_label: u32 = self.label();
                self.emit(Instr::BranchIfFalse { cond, target: else_label, span: *span });
                self.lower_stmts(then_body);
                self.emit(Instr::Jump { target: end_label, span: *span });
                self.emit(Instr::Label { id: else_label, span: *span });
                self.bindings = incoming.duplicate();
                match else_body {
                    Some(body) => self.lower_stmts(body),
                    None => {},
                }
                self.bindings = incoming;
                self.emit(Instr::Label { id: end_label, span: *span });
            },
            HirStmt::Assign { def, value, span, .. } => {
                match self.lower_expr(value) {
                    Some(src) => self.lower_assign(*def, src, *span),
                    None => {},
                }
            },
            HirStmt::IndexAssign { array, index, value, span, .. } => {
                let elem = self.array_elem_of(array.id());
                let array = self.lower_expr(array);
                let index = self.lower_expr(index);
                let value = self.lower_expr(value);
                match (array, index, value, elem) {
                    (Some(array), Some(index), Some(value), Some(elem)) => {
                        self.emit(Instr::ArraySet { array, index, value, elem, span: *span });
                    },
                    _ => {},
                }
            },
            HirStmt::FieldAssign { base, field, value, span, .. } => {
                let ty = self.runtime_ty(value.id());
                let object = self.lower_expr(base);
                let value = self.lower_expr(value);
                match (object, value, ty) {
                    (Some(object), Some(value), Some(ty)) => {
                        self.emit(
                            Instr::ObjectSet {
                                object,
                                name: field.clone(),
                                value,
                                ty,
                                span: *span,
                            },
                        );
                    },
                    _ => {},
                }
            },
            HirStmt::While { condition, body, span } => {
                let ghost outer = self.loops@;
                let start_label: u32 = self.label();
                let end_label: u32 = self.label();
                self.loops.push((end_label, start_label));
                let incoming = self.bindings.duplicate();
                self.emit(Instr::Label { id: start_label, span: *span });
                proof {
                    expr_keeps_loops(self.ctx(), self.code(), condition@);
                }
                match self.lower_expr(condition) {
                    Some(cond) => {
                        self.emit(Instr::BranchIfFalse { cond, target: end_label, span: *span });
                        proof {
                            stmts_keep_loops(self.ctx(), self.code(), hir::stmts_view(body@));
                        }
                        self.lower_stmts(body);
                        self.emit(Instr::Jump { target: start_label, span: *span });
                        self.emit(Instr::Label { id: end_label, span: *span });
                        self.bindings.keep(&incoming);
                    },
                    None => {
                        self.emit(Instr::Label { id: end_label, span: *span });
                    },
                }
                self.loops.pop();
                assert(self.loops@ =~= outer);
            },
            HirStmt::Break { span } => {
                let n: usize = self.loops.len();
                if n > 0 {
                    let target: u32 = self.loops[n - 1].0;
                    self.emit(Instr::Jump { target, span: *span });
                }
            },
            HirStmt::Continue { span } => {
                let n: usize = self.loops.len();
                if n > 0 {
                    let target: u32 = self.loops[n - 1].1;
                    self.emit(Instr::Jump { target, span: *span });
                }
            },
            HirStmt::TupleAssign { .. } | HirStmt::Destructure { .. } | HirStmt::Match { .. } => {
                self.full = true;
            },
        }
    }

    fn lower_stmts(&mut self, ss: &Vec<HirStmt>)
        ensures
            final(self).ctx() == old(self).ctx(),
            final(self).code() == lowered_stmts(
                old(self).ctx(),
                old(self).code(),
                hir::stmts_view(ss@),
            ),
        decreases ss,
    {
        let ghost all = hir::stmts_view(ss@);
        let mut i: usize = 0;
        assert(all.take(0).len() == 0);
        while i < ss.len()
            invariant
                i <= ss@.len(),
                all == hir::stmts_view(ss@),
                self.ctx() == old(self).ctx(),
                self.code() == lowered_stmts(old(self).ctx(), old(self).code(), all.take(i as int)),
            decreases ss@.len() - i,
        {
            assert(all.take(i + 1).drop_last() =~= all.take(i as int));
            assert(all.take(i + 1).last() == all[i as int]);
            self.lower_stmt(&ss[i]);
            i += 1;
        }
        assert(all.take(all.len() as int) =~= all);
    }

    fn lower_params(&mut self, ps: &Vec<(String, Option<DefId>, Option<VlType>, Span)>)
        ensures
            final(self).ctx() == old(self).ctx(),
            final(self).code() == lowered_params(old(self).code(), hir::params_view(ps@)),
    {
        let ghost all = hir::params_view(ps@);
        let mut i: usize = 0;
        assert(all.take(0).len() == 0);
        while i < ps.len()
            invariant
                i <= ps@.len(),
                all == hir::params_view(ps@),
                self.ctx() == old(self).ctx(),
                self.code() == lowered_params(old(self).code(), all.take(i as int)),
            decreases ps@.len() - i,
        {
            assert(all.take(i + 1).drop_last() =~= all.take(i as int));
            assert(all.take(i + 1).last() == all[i as int]);
            let dst = self.reg();
            self.emit(Instr::Param { dst, index: i, span: ps[i].3 });
            match ps[i].1 {
                Some(d) => self.bindings.insert(d.0, dst),
                None => {},
            }
            i += 1;
        }
        assert(all.take(all.len() as int) =~= all);
    }

    fn lower_body(
        &mut self,
        ps: &Vec<(String, Option<DefId>, Option<VlType>, Span)>,
        body: &Vec<HirStmt>,
    )
        requires
            old(self).code() == no_code(),
        ensures
            final(self).ctx() == old(self).ctx(),
            final(self).code() == lowered_body(
                old(self).ctx(),
                hir::params_view(ps@),
                hir::stmts_view(body@),
            ),
    {
        self.lower_params(ps);
        self.lower_stmts(body);
        let b: usize = body.len();
        let n: usize = self.instrs.len();
        let mut done = false;
        if b > 0 && n > 0 {
            assert(hir::stmts_view(body@).last() == body@[b - 1]@);
            assert(self.code().instrs.last() == self.instrs@[n - 1]@);
            let last_is_return = match &body[b - 1] {
                HirStmt::Return { .. } => true,
                _ => false,
            };
            let ret = match &self.instrs[n - 1] {
                Instr::Ret { .. } => true,
                _ => false,
            };
            done = last_is_return && ret;
        }
        if !done {
            self.bare_return(Scalar::U64(0), Span::empty(0));
        }
    }
}

fn zip_fields(fs: &Vec<(String, HirExpr)>, rs: &Vec<Reg>) -> (r: Vec<(String, Reg)>)
    requires
        rs@.len() == fs@.len(),
    ensures
        lir::named_regs(r@) == object_fields(hir::named_view(fs@), rs@),
{
    let mut out: Vec<(String, Reg)> = Vec::new();
    let mut i: usize = 0;
    while i < fs.len()
        invariant
            i <= fs@.len() == rs@.len(),
            out@.len() == i,
            forall|k: int|
                0 <= k < i ==> #[trigger] lir::named_regs(out@)[k] == object_fields(
                    hir::named_view(fs@),
                    rs@,
                )[k],
        decreases fs@.len() - i,
    {
        let ghost before = out@;
        out.push((fs[i].0.clone(), rs[i]));
        assert forall|k: int| 0 <= k < i + 1 implies #[trigger] lir::named_regs(out@)[k]
            == object_fields(hir::named_view(fs@), rs@)[k] by {
            if k < i {
                assert(lir::named_regs(before)[k] == lir::named_regs(out@)[k]);
            }
        }
        i += 1;
    }
    assert(lir::named_regs(out@) =~= object_fields(hir::named_view(fs@), rs@));
    out
}

// ---------------------------------------------------------------------------
// Functions and modules
// ---------------------------------------------------------------------------

fn annotation(t: &Option<VlType>) -> (r: Ty)
    ensures
        r@ == annotated(model::opt(*t)),
{
    match t {
        Some(t) => Ty::from_vl(t).erase_capability(),
        None => Ty::Error,
    }
}

fn annotations(ps: &Vec<(String, Option<DefId>, Option<VlType>, Span)>) -> (r: Vec<Ty>)
    ensures
        model::all(r@) == param_types(hir::params_view(ps@)),
{
    let mut out: Vec<Ty> = Vec::new();
    let mut i: usize = 0;
    while i < ps.len()
        invariant
            i <= ps@.len(),
            out@.len() == i,
            forall|k: int|
                0 <= k < i ==> (#[trigger] out@[k])@ == param_types(hir::params_view(ps@))[k],
        decreases ps@.len() - i,
    {
        out.push(annotation(&ps[i].2));
        i += 1;
    }
    assert(model::all(out@) =~= param_types(hir::params_view(ps@)));
    out
}

/// Types without capabilities.
pub(crate) fn erase_all(ts: &Vec<Ty>) -> (r: Vec<Ty>)
    ensures
        model::all(r@) == all_erased(model::all(ts@)),
{
    let mut out: Vec<Ty> = Vec::new();
    let mut i: usize = 0;
    while i < ts.len()
        invariant
            i <= ts@.len(),
            out@.len() == i,
            forall|k: int| 0 <= k < i ==> (#[trigger] out@[k])@ == all_erased(model::all(ts@))[k],
        decreases ts@.len() - i,
    {
        out.push(ts[i].erase_capability());
        i += 1;
    }
    assert(model::all(out@) =~= all_erased(model::all(ts@)));
    out
}

/// The types that type parameters stand for in an instance.
pub(crate) fn make_env(ps: &Vec<HirTypeParam>, args: &Vec<Ty>) -> (r: Table<String, Ty>)
    ensures
        r@ == instance_env(model::all(ps@), model::all(args@)),
{
    let ghost all = model::all(ps@);
    let ghost given = model::all(args@);
    let mut env: Table<String, Ty> = Table::new();
    let mut i: usize = 0;
    assert(all.take(0).len() == 0);
    while i < ps.len()
        invariant
            i <= ps@.len(),
            all == model::all(ps@),
            given == model::all(args@),
            env@ == instance_env(all.take(i as int), given),
        decreases ps@.len() - i,
    {
        assert(all.take(i + 1).drop_last() =~= all.take(i as int));
        assert(all.take(i + 1).last() == all[i as int]);
        if i < args.len() {
            env.insert(ps[i].name.clone(), args[i].clone());
        }
        i += 1;
    }
    assert(all.take(all.len() as int) =~= all);
    env
}

proof fn def_stays(items: Seq<HirItemView>, n: int, def: u32)
    requires
        0 <= n <= items.len(),
        function_with_def(items.take(n), def) is Some,
    ensures
        function_with_def(items, def) == function_with_def(items.take(n), def),
    decreases items.len() - n,
{
    if n == items.len() {
        assert(items.take(n) =~= items);
    } else {
        assert(items.take(n + 1).drop_last() =~= items.take(n));
        def_stays(items, n + 1, def);
    }
}

/// The first function of the items with a definition.
pub(crate) fn find_function(items: &Vec<HirItem>, def: u32) -> (r: Option<&HirItem>)
    ensures
        match r {
            Some(f) => function_with_def(model::all(items@), def) == Some(f@),
            None => function_with_def(model::all(items@), def) is None,
        },
{
    let ghost all = model::all(items@);
    let mut i: usize = 0;
    assert(all.take(0).len() == 0);
    while i < items.len()
        invariant
            i <= items@.len(),
            all == model::all(items@),
            function_with_def(all.take(i as int), def) is None,
        decreases items@.len() - i,
    {
        assert(all.take(i + 1).drop_last() =~= all.take(i as int));
        assert(all.take(i + 1).last() == all[i as int]);
        let hit = match &items[i] {
            HirItem::Fn { def: Some(d), .. } => d.0 == def,
            _ => false,
        };
        if hit {
            proof {
                def_stays(all, i + 1, def);
            }
            return Some(&items[i]);
        }
        i += 1;
    }
    assert(all.take(all.len() as int) =~= all);
    None
}

/// A global binding, by the item.
struct LetRef<'a> {
    def: u32,
    id: HirId,
    value: &'a HirExpr,
    span: Span,
}

impl<'a> View for LetRef<'a> {
    type V = GlobalLet;

    closed spec fn view(&self) -> GlobalLet {
        GlobalLet { def: self.def, id: self.id, value: self.value@, span: self.span }
    }
}

fn find_lets<'a>(items: &'a Vec<HirItem>) -> (r: Vec<LetRef<'a>>)
    ensures
        model::all(r@) == global_lets(model::all(items@)),
{
    let ghost all = model::all(items@);
    let mut out: Vec<LetRef<'a>> = Vec::new();
    let mut i: usize = 0;
    assert(all.take(0).len() == 0);
    while i < items.len()
        invariant
            i <= items@.len(),
            all == model::all(items@),
            model::all(out@) == global_lets(all.take(i as int)),
        decreases items@.len() - i,
    {
        assert(all.take(i + 1).drop_last() =~= all.take(i as int));
        assert(all.take(i + 1).last() == all[i as int]);
        match &items[i] {
            HirItem::Let { id, def: Some(d), value, span, .. } => {
                out.push(LetRef { def: d.0, id: *id, value, span: *span });
            },
            _ => {},
        }
        i += 1;
    }
    assert(all.take(all.len() as int) =~= all);
    out
}

fn low_word(i: usize) -> (r: u32)
    ensures
        r == (i as nat % 0x1_0000_0000) as u32,
{
    let n: u64 = i as u64;
    (n % 0x1_0000_0000) as u32
}

fn map_globals(gs: &Vec<LetRef<'_>>) -> (r: Table<u32, u32>)
    ensures
        r@ == global_map(model::all(gs@)),
{
    let ghost all = model::all(gs@);
    let mut out: Table<u32, u32> = Table::new();
    let mut i: usize = 0;
    assert(all.take(0).len() == 0);
    while i < gs.len()
        invariant
            i <= gs@.len(),
            all == model::all(gs@),
            out@ == global_map(all.take(i as int)),
        decreases gs@.len() - i,
    {
        assert(all.take(i + 1).drop_last() =~= all.take(i as int));
        assert(all.take(i + 1).last() == all[i as int]);
        out.insert(gs[i].def, low_word(i));
        i += 1;
    }
    assert(all.take(all.len() as int) =~= all);
    out
}

/// The lowering of a module at work.
struct ModuleLowerer<'a> {
    module: &'a str,
    globals: Table<u32, u32>,
    empty: Table<String, Ty>,
    typed: &'a TypedProgram,
    full: bool,
}

impl<'a> ModuleLowerer<'a> {
    spec fn ctx(&self) -> Context {
        root_context(self.module@, self.globals@, self.typed@)
    }

    spec fn ok(&self) -> bool {
        self.empty@ == Map::<Seq<char>, TyView>::empty()
    }

    fn lower_global(&mut self, i: usize, g: &LetRef<'a>) -> (r: Global)
        requires
            old(self).ok(),
        ensures
            final(self).ctx() == old(self).ctx(),
            final(self).ok(),
            r@ == lowered_global(old(self).ctx(), i as nat, g@).0,
            final(self).full == (old(self).full || lowered_global(
                old(self).ctx(),
                i as nat,
                g@,
            ).1),
    {
        let id = low_word(i);
        let name = cat("g", dec_u64(g.def as u64).as_str());
        let ty = match self.typed.types.get(&g.id.0) {
            Some(t) => t.clone(),
            None => match self.typed.types.get(&g.value.id().0) {
                Some(t) => t.clone(),
                None => Ty::Error,
            },
        };
        let wrong = match &ty {
            Ty::Error => true,
            _ => !ty.is_concrete(),
        };
        if wrong {
            let out = Global {
                id,
                name,
                ty: Ty::Error,
                init: Vec::new(),
                result: Reg(u32::MAX),
                span: g.span,
            };
            assert(out@.init =~= Seq::empty());
            return out;
        }
        let mut l = Lowerer::new(
            self.module,
            &self.globals,
            &self.empty,
            None,
            self.typed,
            &self.typed.root_calls,
            &self.typed.inst_calls,
        );
        let r = l.lower_expr(g.value);
        let full = l.full;
        let init = l.instrs;
        if full {
            self.full = true;
        }
        Global {
            id,
            name,
            ty: ty.erase_capability(),
            init,
            result: match r {
                Some(r) => r,
                None => Reg(u32::MAX),
            },
            span: g.span,
        }
    }

    fn lower_globals(&mut self, gs: &Vec<LetRef<'a>>) -> (r: Vec<Global>)
        requires
            old(self).ok(),
        ensures
            final(self).ctx() == old(self).ctx(),
            final(self).ok(),
            model::all(r@) == lowered_globals(old(self).ctx(), model::all(gs@)).0,
            final(self).full == (old(self).full || lowered_globals(
                old(self).ctx(),
                model::all(gs@),
            ).1),
    {
        let ghost all = model::all(gs@);
        let mut out: Vec<Global> = Vec::new();
        let mut i: usize = 0;
        assert(all.take(0).len() == 0);
        while i < gs.len()
            invariant
                i <= gs@.len(),
                all == model::all(gs@),
                self.ctx() == old(self).ctx(),
                self.ok(),
                model::all(out@) == lowered_globals(old(self).ctx(), all.take(i as int)).0,
                self.full == (old(self).full || lowered_globals(
                    old(self).ctx(),
                    all.take(i as int),
                ).1),
            decreases gs@.len() - i,
        {
            assert(all.take(i + 1).drop_last() =~= all.take(i as int));
            assert(all.take(i + 1).last() == all[i as int]);
            let g = self.lower_global(i, &gs[i]);
            out.push(g);
            i += 1;
        }
        assert(all.take(all.len() as int) =~= all);
        out
    }

    fn lower_functions(&mut self, items: &Vec<HirItem>) -> (r: Vec<Function>)
        requires
            old(self).ok(),
        ensures
            final(self).ctx() == old(self).ctx(),
            final(self).ok(),
            model::all(r@) == lowered_functions(old(self).ctx(), model::all(items@)).0,
            final(self).full == (old(self).full || lowered_functions(
                old(self).ctx(),
                model::all(items@),
            ).1),
    {
        let ghost all = model::all(items@);
        let mut out: Vec<Function> = Vec::new();
        let mut i: usize = 0;
        assert(all.take(0).len() == 0);
        while i < items.len()
            invariant
                i <= items@.len(),
                all == model::all(items@),
                self.ctx() == old(self).ctx(),
                self.ok(),
                model::all(out@) == lowered_functions(old(self).ctx(), all.take(i as int)).0,
                self.full == (old(self).full || lowered_functions(
                    old(self).ctx(),
                    all.take(i as int),
                ).1),
            decreases items@.len() - i,
        {
            assert(all.take(i + 1).drop_last() =~= all.take(i as int));
            assert(all.take(i + 1).last() == all[i as int]);
            match &items[i] {
                HirItem::Fn { name, type_params, params, ret, body, .. } => {
                    if type_params.len() == 0 {
                        let mut l = Lowerer::new(
                            self.module,
                            &self.globals,
                            &self.empty,
                            None,
                            self.typed,
                            &self.typed.root_calls,
                            &self.typed.inst_calls,
                        );
                        l.lower_body(params, body);
                        let full = l.full;
                        let instrs = l.instrs;
                        if full {
                            self.full = true;
                        }
                        out.push(
                            Function {
                                name: name.clone(),
                                param_tys: annotations(params),
                                ret: annotation(ret),
                                instrs,
                            },
                        );
                    }
                },
                HirItem::Destructure { .. } => {
                    self.full = true;
                },
                _ => {},
            }
            i += 1;
        }
        assert(all.take(all.len() as int) =~= all);
        out
    }

    fn lower_instance(&mut self, items: &Vec<HirItem>, n: &Instance) -> (r: Option<Function>)
        requires
            old(self).ok(),
        ensures
            final(self).ctx() == old(self).ctx(),
            final(self).ok(),
            match lowered_instance(old(self).ctx(), model::all(items@), n@) {
                Some((f, more)) => r is Some && r->0@ == f && final(self).full == (old(self).full
                    || more),
                None => r is None && final(self).full == old(self).full,
            },
    {
        match find_function(items, n.orig) {
            Some(HirItem::Fn { type_params, params, body, .. }) => {
                let env = make_env(type_params, &n.args);
                let mut l = Lowerer::new(
                    self.module,
                    &self.globals,
                    &env,
                    Some(n.name.as_str()),
                    self.typed,
                    &self.typed.root_calls,
                    &self.typed.inst_calls,
                );
                l.lower_body(params, body);
                let full = l.full;
                let instrs = l.instrs;
                if full {
                    self.full = true;
                }
                Some(
                    Function {
                        name: n.name.clone(),
                        param_tys: erase_all(&n.sig.param_tys),
                        ret: n.sig.ret.erase_capability(),
                        instrs,
                    },
                )
            },
            _ => None,
        }
    }

    fn lower_instances(&mut self, items: &Vec<HirItem>, out: &mut Vec<Function>)
        requires
            old(self).ok(),
        ensures
            final(self).ctx() == old(self).ctx(),
            final(self).ok(),
            model::all(final(out)@) == model::all(old(out)@) + lowered_instances(
                old(self).ctx(),
                model::all(items@),
                sorted_instances(old(self).typed@.instances),
            ).0,
            final(self).full == (old(self).full || lowered_instances(
                old(self).ctx(),
                model::all(items@),
                sorted_instances(old(self).typed@.instances),
            ).1),
    {
        let ghost x = self.ctx();
        let ghost start = model::all(out@);
        let ghost ns = model::all(self.typed.instances@);
        let ghost its = model::all(items@);
        let typed = self.typed;
        let mut keys: Vec<Vec<String>> = Vec::new();
        let mut j: usize = 0;
        while j < typed.instances.len()
            invariant
                j <= typed.instances@.len(),
                keys@.len() == j,
                forall|k: int|
                    0 <= k < j ==> model::all((#[trigger] keys@[k])@) == seq![
                        typed.instances@[k].name@,
                    ],
            decreases typed.instances@.len() - j,
        {
            let mut key: Vec<String> = Vec::new();
            key.push(typed.instances[j].name.clone());
            assert(model::all(key@) =~= seq![typed.instances@[j as int].name@]);
            keys.push(key);
            j += 1;
        }
        assert(order::lists_view(keys@) =~= instance_keys(ns));
        let order = order_of(&keys);
        let ghost sorted = sorted_instances(ns);
        let mut i: usize = 0;
        assert(sorted.len() == order@.len()) by {
            assert(order::indices(order@).len() == order@.len());
        }
        assert(sorted.take(0).len() == 0);
        assert(start + Seq::<FunctionView>::empty() =~= start);
        while i < order.len()
            invariant
                i <= order@.len(),
                sorted == sorted_instances(ns),
                sorted.len() == order@.len(),
                order::indices(order@) == order::sorted_order(instance_keys(ns), ns.len()),
                forall|k: int| 0 <= k < order@.len() ==> (#[trigger] order@[k]) < ns.len(),
                ns == model::all(typed.instances@),
                its == model::all(items@),
                x == old(self).ctx(),
                self.ctx() == x,
                self.ok(),
                model::all(out@) == start + lowered_instances(x, its, sorted.take(i as int)).0,
                self.full == (old(self).full || lowered_instances(
                    x,
                    its,
                    sorted.take(i as int),
                ).1),
            decreases order@.len() - i,
        {
            assert(sorted.take(i + 1).drop_last() =~= sorted.take(i as int));
            assert(sorted.take(i + 1).last() == sorted[i as int]);
            assert(order::indices(order@)[i as int] == order@[i as int]);
            assert(sorted[i as int] == typed.instances@[order@[i as int] as int]@);
            let ghost before = model::all(out@);
            match self.lower_instance(items, &typed.instances[order[i]]) {
                Some(f) => {
                    out.push(f);
                    assert(model::all(out@) =~= start + lowered_instances(
                        x,
                        its,
                        sorted.take(i + 1),
                    ).0);
                },
                None => {},
            }
            i += 1;
        }
        assert(sorted.take(sorted.len() as int) =~= sorted);
    }
}

fn lower_fields(fs: &Vec<(String, Ty)>) -> (r: Vec<(String, Ty)>)
    ensures
        typed::named_types(r@) == runtime_fields(typed::named_types(fs@)),
{
    let mut out: Vec<(String, Ty)> = Vec::new();
    let mut i: usize = 0;
    while i < fs.len()
        invariant
            i <= fs@.len(),
            typed::named_types(out@) =~= runtime_fields(typed::named_types(fs@)).take(i as int),
        decreases fs@.len() - i,
    {
        let ghost before = out@;
        out.push((fs[i].0.clone(), fs[i].1.erase_capability()));
        assert(typed::named_types(out@) =~= typed::named_types(before).push(
            (fs@[i as int].0@, typed::erased(fs@[i as int].1@)),
        ));
        i += 1;
    }
    assert(typed::named_types(out@) =~= runtime_fields(typed::named_types(fs@)));
    out
}

fn lower_objects(os: &Vec<ObjectSig>) -> (r: Vec<ObjectDef>)
    ensures
        model::all(r@) == lowered_objects(model::all(os@)),
{
    let ghost all = model::all(os@);
    let mut keys: Vec<Vec<String>> = Vec::new();
    let mut j: usize = 0;
    while j < os.len()
        invariant
            j <= os@.len(),
            keys@.len() == j,
            forall|k: int| 0 <= k < j ==> model::all((#[trigger] keys@[k])@) == seq![os@[k].name@],
        decreases os@.len() - j,
    {
        let mut key: Vec<String> = Vec::new();
        key.push(os[j].name.clone());
        assert(model::all(key@) =~= seq![os@[j as int].name@]);
        keys.push(key);
        j += 1;
    }
    assert(order::lists_view(keys@) =~= object_keys(all));
    let order = order_of(&keys);
    let mut out: Vec<ObjectDef> = Vec::new();
    let mut i: usize = 0;
    assert(lowered_objects(all).len() == order@.len()) by {
        assert(order::indices(order@).len() == order@.len());
    }
    while i < order.len()
        invariant
            i <= order@.len(),
            all == model::all(os@),
            order::indices(order@) == order::sorted_order(object_keys(all), all.len()),
            forall|k: int| 0 <= k < order@.len() ==> (#[trigger] order@[k]) < all.len(),
            out@.len() == i,
            lowered_objects(all).len() == order@.len(),
            forall|k: int| 0 <= k < i ==> (#[trigger] out@[k])@ == lowered_objects(all)[k],
        decreases order@.len() - i,
    {
        assert(order::indices(order@)[i as int] == order@[i as int]);
        let o = &os[order[i]];
        out.push(ObjectDef { name: o.name.clone(), fields: lower_fields(&o.fields) });
        i += 1;
    }
    assert(model::all(out@) =~= lowered_objects(all));
    out
}

/// The context of a body of a library module that is lowered by itself.
pub open spec fn library_context(
    p: HirProgramView,
    t: TypedView,
    env: Map<Seq<char>, TyView>,
    outer: Option<Seq<char>>,
) -> Context {
    Context { env, outer, ..root_context(p.module, global_map(global_lets(p.items)), t) }
}

/// Lowers a body of a library module by itself, with the instances that its calls
/// refer to, or returns `None` where it cannot be lowered.
pub(crate) fn lower_library_body(
    prog: &HirProgram,
    typed: &TypedProgram,
    root_calls: &Table<u32, String>,
    inst_calls: &Table<InstanceCall, String>,
    env: &Table<String, Ty>,
    outer: Option<&str>,
    params: &Vec<(String, Option<DefId>, Option<VlType>, Span)>,
    body: &Vec<HirStmt>,
) -> (r: Option<Vec<Instr>>)
    ensures
        ({
            let c = lowered_body(
                library_context(
                    prog@,
                    TypedView {
                        root_calls: root_calls@,
                        inst_calls: inst_calls@,
                        ..typed@
                    },
                    env@,
                    match outer {
                        Some(s) => Some(s@),
                        None => None,
                    },
                ),
                hir::params_view(params@),
                hir::stmts_view(body@),
            );
            match r {
                Some(xs) => !c.full && model::all(xs@) == c.instrs,
                None => c.full,
            }
        }),
{
    let lets = find_lets(&prog.items);
    let globals = map_globals(&lets);
    let mut l = Lowerer::new(
        prog.module.as_str(),
        &globals,
        env,
        outer,
        typed,
        root_calls,
        inst_calls,
    );
    l.lower_body(params, body);
    if l.full {
        None
    } else {
        Some(l.instrs)
    }
}

/// The runtime types of parameters.
pub(crate) fn annotated_types(
    ps: &Vec<(String, Option<DefId>, Option<VlType>, Span)>,
) -> (r: Vec<Ty>)
    ensures
        model::all(r@) == param_types(hir::params_view(ps@)),
{
    annotations(ps)
}

/// Lowers a module, or returns `None` where it holds something that has no code
/// (tuples, variants, `null`, method calls, patterns and `match`), or where there
/// are not registers or labels enough for one of its functions.
pub fn try_lower(prog: &HirProgram, typed: &TypedProgram) -> (r: Option<LirProgram>)
    ensures
        match r {
            Some(p) => lowerable(prog@, typed@) && p@ == lowered(prog@, typed@),
            None => !lowerable(prog@, typed@),
        },
{
    let lets = find_lets(&prog.items);
    let mut m = ModuleLowerer {
        module: prog.module.as_str(),
        globals: map_globals(&lets),
        empty: Table::new(),
        typed,
        full: false,
    };
    let globals = m.lower_globals(&lets);
    let mut functions = m.lower_functions(&prog.items);
    m.lower_instances(&prog.items, &mut functions);
    if m.full {
        None
    } else {
        let imports = lir::find_imports(prog.module.as_str(), &functions, &globals);
        Some(
            LirProgram {
                module: prog.module.clone(),
                imports,
                objects: lower_objects(&typed.objects),
                globals,
                functions,
            },
        )
    }
}

/// Lowers a module that can be lowered.
pub fn lower(prog: &HirProgram, typed: &TypedProgram) -> (r: LirProgram)
    requires
        lowerable(prog@, typed@),
    ensures
        r@ == lowered(prog@, typed@),
{
    match try_lower(prog, typed) {
        Some(p) => p,
        None => LirProgram::new(prog.module.as_str()),
    }
}

} // verus!
