//! Lowering of the syntax tree to the high-level representation.

use vstd::prelude::*;

use crate::ast::{
    BinOp, DestructureBinding, DestructureBindingView, Expr, ExprView, FunctionDeclView,
    FunctionDecl, Item, ItemView, MatchArm, MatchArmView, ObjectField, Param, ParamView, Program,
    ProgramView, Scalar, Stmt, StmtView, TypeParam, TypeParamView, UnOp, UnionVariant,
    UnionVariantView,
};
use crate::diagnostic::clone_opt;
use crate::hir::{
    HirBinOp, HirDestructureBinding, HirDestructureBindingView, HirExpr, HirExprView, HirId,
    HirItem, HirItemView, HirMatchArm, HirMatchArmView, HirMatchBinding, HirMatchBindingView,
    HirProgram, HirProgramView, HirStmt, HirStmtView, HirTypeParam, HirTypeParamView, HirUnOp,
    HirUnionVariant, HirUnionVariantView,
};
use crate::module::{ExportKind, FuncSig, SymbolRef};
use crate::resolution::{DefId, DefKind, DefView, Resolution, ResolutionView};
use crate::resolver::{dotted, member};
use crate::span::Span;
use crate::table::Place;
use crate::text::{clone_bytes, clone_vec, owned, str_eq};
use crate::ty::{TypeView, VlType};
use crate::{ast, hir, model, resolution, scope, table};

verus! {

broadcast use {crate::model::group_model, crate::ast::group_ast, crate::hir::group_hir};

// ---------------------------------------------------------------------------
// Identifiers and definitions
// ---------------------------------------------------------------------------

/// The state of numbering: the next identifier, and whether the identifiers ran
/// out.
pub struct Ids {
    pub next: u32,
    pub full: bool,
}

/// The state behind one more identifier.
pub open spec fn after_id(s: Ids) -> Ids {
    if s.next == u32::MAX {
        Ids { next: s.next, full: true }
    } else {
        Ids { next: (s.next + 1) as u32, full: s.full }
    }
}

/// The state behind a number of identifiers.
pub open spec fn after_ids(s: Ids, k: nat) -> Ids
    decreases k,
{
    if k == 0 {
        s
    } else {
        after_id(after_ids(s, (k - 1) as nat))
    }
}

/// The identifier of an optional definition.
pub open spec fn id_of(d: Option<DefView>) -> Option<DefId> {
    match d {
        Some(d) => Some(d.id),
        None => None,
    }
}

/// The definition that a use at a place refers to.
pub open spec fn use_at(r: ResolutionView, span: Span) -> Option<DefId> {
    id_of(resolution::used_def(r, span))
}

/// The definition at a place.
pub open spec fn site_at(r: ResolutionView, span: Span) -> Option<DefId> {
    id_of(resolution::def_with_span(r.defs, span))
}

/// The zero of the type of a scalar.
pub open spec fn zero_like(v: Scalar) -> Scalar {
    match v {
        Scalar::Int(_) => Scalar::Int(0),
        Scalar::U64(_) => Scalar::U64(0),
        Scalar::I64(_) => Scalar::I64(0),
        Scalar::F64(_) => Scalar::F64(0),
        Scalar::Bool(_) => Scalar::Bool(false),
        Scalar::U8(_) => Scalar::U8(0),
    }
}

fn scalar_zero(value: Scalar) -> (r: Scalar)
    ensures
        r == zero_like(value),
{
    match value {
        Scalar::Int(_) => Scalar::Int(0),
        Scalar::U64(_) => Scalar::U64(0),
        Scalar::I64(_) => Scalar::I64(0),
        Scalar::F64(_) => Scalar::F64(0),
        Scalar::Bool(_) => Scalar::Bool(false),
        Scalar::U8(_) => Scalar::U8(0),
    }
}

/// The operator that a binary operator is lowered to.
pub open spec fn lowered_op(op: BinOp) -> HirBinOp {
    match op {
        BinOp::Add => HirBinOp::Add,
        BinOp::Sub => HirBinOp::Sub,
        BinOp::Mul => HirBinOp::Mul,
        BinOp::Div => HirBinOp::Div,
        BinOp::Eq => HirBinOp::Eq,
        BinOp::Ne => HirBinOp::Ne,
        BinOp::Lt => HirBinOp::Lt,
        BinOp::Le => HirBinOp::Le,
        BinOp::Gt => HirBinOp::Gt,
        BinOp::Ge => HirBinOp::Ge,
        BinOp::And => HirBinOp::And,
        BinOp::Or => HirBinOp::Or,
    }
}

fn lower_op(op: BinOp) -> (r: HirBinOp)
    ensures
        r == lowered_op(op),
{
    match op {
        BinOp::Add => HirBinOp::Add,
        BinOp::Sub => HirBinOp::Sub,
        BinOp::Mul => HirBinOp::Mul,
        BinOp::Div => HirBinOp::Div,
        BinOp::Eq => HirBinOp::Eq,
        BinOp::Ne => HirBinOp::Ne,
        BinOp::Lt => HirBinOp::Lt,
        BinOp::Le => HirBinOp::Le,
        BinOp::Gt => HirBinOp::Gt,
        BinOp::Ge => HirBinOp::Ge,
        BinOp::And => HirBinOp::And,
        BinOp::Or => HirBinOp::Or,
    }
}

// ---------------------------------------------------------------------------
// Expressions
// ---------------------------------------------------------------------------

/// The receiver that the first `k` segments of a callee name: a variable, and
/// fields of it.
pub open spec fn receiver(s: Ids, head: DefId, callee: Seq<Seq<char>>, span: Span, k: nat) -> HirExprView
    decreases k,
{
    if k <= 1 {
        HirExprView::Var { id: HirId(s.next), def: Some(head), name: callee[0], span }
    } else {
        HirExprView::Field {
            id: HirId(after_ids(s, (k - 1) as nat).next),
            base: Box::new(receiver(s, head, callee, span, (k - 1) as nat)),
            name: callee[k - 1],
            span,
        }
    }
}

/// Whether a definition comes from another module or from the target.
pub open spec fn is_external(d: Option<DefView>) -> bool {
    d is Some && (d->0.kind is External || d->0.kind is ImportedFunction)
}

/// The call of a function by name, given the lowered arguments.
pub open spec fn plain_call(
    r: ResolutionView,
    id: HirId,
    callee: Seq<Seq<char>>,
    callee_span: Span,
    type_args: Seq<TypeView>,
    args: Seq<HirExprView>,
    span: Span,
) -> HirExprView {
    let d = resolution::used_def(r, callee_span);
    HirExprView::Call {
        id,
        def: id_of(d),
        external: is_external(d),
        extern_sig: if is_external(d) {
            d->0.sig
        } else {
            None
        },
        extern_kind: if is_external(d) {
            d->0.export_kind
        } else {
            None
        },
        symbol: match d {
            Some(d) => d.symbol,
            None => None,
        },
        name: scope::dotted(callee),
        type_args,
        args,
        span,
    }
}

/// Minus as a subtraction from zero, given the lowered operand.
pub open spec fn negation(rhs: HirExprView, s: Ids, span: Span) -> HirExprView {
    HirExprView::Binary {
        id: HirId(s.next),
        op: HirBinOp::Sub,
        lhs: Box::new(
            HirExprView::Literal {
                id: HirId(after_id(s).next),
                value: match rhs {
                    HirExprView::Literal { value, .. } => zero_like(value),
                    _ => Scalar::Int(0),
                },
                span: Span { start: span.start, end: span.start },
            },
        ),
        rhs: Box::new(rhs),
        span,
    }
}

/// Lowers an expression.
pub open spec fn lowered_expr(r: ResolutionView, s: Ids, x: ExprView) -> (HirExprView, Ids)
    decreases x,
{
    let id = HirId(s.next);
    let t = after_id(s);
    match x {
        ExprView::Literal(value, span) => (HirExprView::Literal { id, value, span }, t),
        ExprView::String(value, span) => (HirExprView::String { id, value, span }, t),
        ExprView::Null(span) => (HirExprView::Null { id, span }, t),
        ExprView::ArrayLiteral { elems, span } => {
            let (elems, t) = lowered_exprs(r, t, elems);
            (HirExprView::ArrayLiteral { id, elems, span }, t)
        },
        ExprView::ObjectLiteral { name, fields, span, .. } => {
            let (fields, t) = lowered_named(r, t, fields);
            (HirExprView::ObjectLiteral { id, name, fields, span }, t)
        },
        ExprView::TupleLiteral { elems, span } => {
            let (elems, t) = lowered_elems(r, t, elems);
            (HirExprView::TupleLiteral { id, elems, span }, t)
        },
        ExprView::Index { base, index, span } => {
            let (b, t) = lowered_expr(r, t, *base);
            let (i, t) = lowered_expr(r, t, *index);
            (HirExprView::Index { id, base: Box::new(b), index: Box::new(i), span }, t)
        },
        ExprView::Field { base, name, span } => if r.variants.dom().contains(
            table::place_of(span),
        ) {
            let v = r.variants[table::place_of(span)];
            (
                HirExprView::Variant {
                    id,
                    union: v.union,
                    variant: v.variant,
                    type_args: Seq::empty(),
                    args: Seq::empty(),
                    span,
                },
                t,
            )
        } else {
            let (b, t) = lowered_expr(r, t, *base);
            (HirExprView::Field { id, base: Box::new(b), name, span }, t)
        },
        ExprView::TupleIndex { base, index, span, .. } => {
            let (b, t) = lowered_expr(r, t, *base);
            (HirExprView::TupleIndex { id, base: Box::new(b), index, span }, t)
        },
        ExprView::Var { path, span } => (
            HirExprView::Var { id, def: use_at(r, span), name: scope::dotted(path), span },
            t,
        ),
        ExprView::Call { callee, callee_span, type_args, args, span, .. } => {
            let at = table::place_of(callee_span);
            if r.variants.dom().contains(at) {
                let (args, t) = lowered_exprs(r, t, args);
                (
                    HirExprView::Variant {
                        id,
                        union: r.variants[at].union,
                        variant: r.variants[at].variant,
                        type_args,
                        args,
                        span,
                    },
                    t,
                )
            } else if r.sugar_receivers.dom().contains(at) && callee.len() >= 2 {
                let k = (callee.len() - 1) as nat;
                let own = after_ids(s, k);
                let (args, t) = lowered_exprs(r, after_id(own), args);
                (
                    HirExprView::MethodCall {
                        id: HirId(own.next),
                        receiver: Box::new(
                            receiver(s, r.sugar_receivers[at], callee, callee_span, k),
                        ),
                        method: callee.last(),
                        method_span: callee_span,
                        type_args,
                        args,
                        span,
                    },
                    t,
                )
            } else {
                let (args, t) = lowered_exprs(r, t, args);
                (plain_call(r, id, callee, callee_span, type_args, args, span), t)
            }
        },
        ExprView::Unary { op: UnOp::Neg, rhs, span } => {
            let (b, t) = lowered_expr(r, s, *rhs);
            (negation(b, t, span), after_id(after_id(t)))
        },
        ExprView::Unary { op: UnOp::Not, rhs, span } => {
            let (b, t) = lowered_expr(r, t, *rhs);
            (HirExprView::Unary { id, op: HirUnOp::Not, inner: Box::new(b), span }, t)
        },
        ExprView::Binary { op, lhs, rhs, span } => {
            let (a, t) = lowered_expr(r, t, *lhs);
            let (b, t) = lowered_expr(r, t, *rhs);
            (
                HirExprView::Binary {
                    id,
                    op: lowered_op(op),
                    lhs: Box::new(a),
                    rhs: Box::new(b),
                    span,
                },
                t,
            )
        },
        ExprView::Cast { inner, target, target_span, span } => {
            let (b, t) = lowered_expr(r, t, *inner);
            (HirExprView::Cast { id, inner: Box::new(b), target, target_span, span }, t)
        },
    }
}

/// Lowers expressions in order.
pub open spec fn lowered_exprs(r: ResolutionView, s: Ids, xs: Seq<ExprView>) -> (Seq<HirExprView>, Ids)
    decreases xs,
{
    if xs.len() == 0 {
        (Seq::empty(), s)
    } else {
        let (front, t) = lowered_exprs(r, s, xs.drop_last());
        let (e, t) = lowered_expr(r, t, xs.last());
        (front.push(e), t)
    }
}

/// Lowers the values of fields in order.
pub open spec fn lowered_named(r: ResolutionView, s: Ids, xs: Seq<(Seq<char>, Span, ExprView)>) -> (Seq<(Seq<char>, HirExprView)>, Ids)
    decreases xs,
{
    if xs.len() == 0 {
        (Seq::empty(), s)
    } else {
        let (front, t) = lowered_named(r, s, xs.drop_last());
        let (e, t) = lowered_expr(r, t, xs.last().2);
        (front.push((xs.last().0, e)), t)
    }
}

/// Lowers the elements of a tuple in order.
pub open spec fn lowered_elems(r: ResolutionView, s: Ids, xs: Seq<(Option<Seq<char>>, Span, ExprView)>) -> (Seq<(Option<Seq<char>>, HirExprView)>, Ids)
    decreases xs,
{
    if xs.len() == 0 {
        (Seq::empty(), s)
    } else {
        let (front, t) = lowered_elems(r, s, xs.drop_last());
        let (e, t) = lowered_expr(r, t, xs.last().2);
        (front.push((xs.last().0, e)), t)
    }
}

// ---------------------------------------------------------------------------
// Statements
// ---------------------------------------------------------------------------

/// Lowers the names of a destructuring binding.
pub open spec fn lowered_bindings(r: ResolutionView, bs: Seq<DestructureBindingView>) -> Seq<
    HirDestructureBindingView,
> {
    Seq::new(
        bs.len(),
        |i: int|
            HirDestructureBindingView {
                field: bs[i].field,
                binding: bs[i].binding,
                index: i as usize,
                def: site_at(r, bs[i].binding_span),
                binding_span: bs[i].binding_span,
            },
    )
}

/// Lowers the names that a match arm binds.
pub open spec fn lowered_names(r: ResolutionView, ns: Seq<(Seq<char>, Span)>) -> Seq<
    HirMatchBindingView,
> {
    Seq::new(
        ns.len(),
        |i: int|
            HirMatchBindingView {
                binding: ns[i].0,
                def: site_at(r, ns[i].1),
                binding_span: ns[i].1,
            },
    )
}

/// Whether the pattern of an arm is `null`.
pub open spec fn is_null_arm(path: Seq<Seq<char>>) -> bool {
    path.len() == 1 && path[0] == "null"@
}

/// The union, the variant and the names of a match arm. `null` stands for the
/// variant `None` of `Option`.
pub open spec fn arm_head(r: ResolutionView, a: MatchArmView) -> (
    Seq<char>,
    Seq<char>,
    Seq<HirMatchBindingView>,
) {
    if is_null_arm(a.path) {
        ("Option"@, "None"@, Seq::empty())
    } else {
        (
            if r.match_patterns.dom().contains(table::place_of(a.path_span)) {
                r.match_patterns[table::place_of(a.path_span)]
            } else if a.path.len() == 0 {
                Seq::empty()
            } else {
                scope::dotted(a.path.drop_last())
            },
            if a.path.len() == 0 {
                Seq::empty()
            } else {
                a.path.last()
            },
            lowered_names(r, a.bindings),
        )
    }
}

/// Lowers a statement.
pub open spec fn lowered_stmt(r: ResolutionView, s: Ids, x: StmtView) -> (HirStmtView, Ids)
    decreases x,
{
    let id = HirId(s.next);
    let t = after_id(s);
    match x {
        StmtView::Let { name_span, kind, ty, ty_span, value, span, .. } => {
            let (value, t) = lowered_expr(r, t, value);
            (
                HirStmtView::Let {
                    id,
                    def: site_at(r, name_span),
                    kind,
                    ty,
                    ty_span,
                    value,
                    span,
                },
                t,
            )
        },
        StmtView::Assign { name_span, value, span, .. } => {
            let (value, t) = lowered_expr(r, t, value);
            (HirStmtView::Assign { id, def: use_at(r, name_span), value, span }, t)
        },
        StmtView::IndexAssign { array, index, value, span } => {
            let (a, t) = lowered_expr(r, t, *array);
            let (i, t) = lowered_expr(r, t, *index);
            let (v, t) = lowered_expr(r, t, *value);
            (
                HirStmtView::IndexAssign {
                    id,
                    array: Box::new(a),
                    index: Box::new(i),
                    value: Box::new(v),
                    span,
                },
                t,
            )
        },
        StmtView::FieldAssign { base, field, value, span, .. } => {
            let (b, t) = lowered_expr(r, t, *base);
            let (v, t) = lowered_expr(r, t, *value);
            (
                HirStmtView::FieldAssign {
                    id,
                    base: Box::new(b),
                    field,
                    value: Box::new(v),
                    span,
                },
                t,
            )
        },
        StmtView::TupleAssign { base, index, value, span, .. } => {
            let (b, t) = lowered_expr(r, t, *base);
            let (v, t) = lowered_expr(r, t, *value);
            (
                HirStmtView::TupleAssign {
                    id,
                    base: Box::new(b),
                    index,
                    value: Box::new(v),
                    span,
                },
                t,
            )
        },
        StmtView::Destructure { bindings, kind, ty, ty_span, value, span } => {
            let (value, t) = lowered_expr(r, t, value);
            (
                HirStmtView::Destructure {
                    id,
                    kind,
                    bindings: lowered_bindings(r, bindings),
                    ty,
                    ty_span,
                    value,
                    span,
                },
                t,
            )
        },
        StmtView::If { condition, then_body, else_body, span } => {
            let (condition, t) = lowered_expr(r, s, condition);
            let (then_body, t) = lowered_stmts(r, t, then_body);
            match else_body {
                Some(b) => {
                    let (b, t) = lowered_stmts(r, t, b);
                    (HirStmtView::If { condition, then_body, else_body: Some(b), span }, t)
                },
                None => (HirStmtView::If { condition, then_body, else_body: None, span }, t),
            }
        },
        StmtView::Match { scrutinee, arms, else_body, span } => {
            let (scrutinee, t) = lowered_expr(r, s, scrutinee);
            let (arms, t) = lowered_arms(r, t, arms);
            match else_body {
                Some(b) => {
                    let (b, t) = lowered_stmts(r, t, b);
                    (HirStmtView::Match { scrutinee, arms, else_body: Some(b), span }, t)
                },
                None => (HirStmtView::Match { scrutinee, arms, else_body: None, span }, t),
            }
        },
        StmtView::While { condition, body, span } => {
            let (condition, t) = lowered_expr(r, s, condition);
            let (body, t) = lowered_stmts(r, t, body);
            (HirStmtView::While { condition, body, span }, t)
        },
        StmtView::Break { span } => (HirStmtView::Break { span }, s),
        StmtView::Continue { span } => (HirStmtView::Continue { span }, s),
        StmtView::Return { value, span } => match value {
            Some(v) => {
                let (v, t) = lowered_expr(r, s, v);
                (HirStmtView::Return { value: Some(v), span }, t)
            },
            None => (HirStmtView::Return { value: None, span }, s),
        },
        StmtView::Expr(e) => {
            let (e, t) = lowered_expr(r, s, e);
            (HirStmtView::Expr(e), t)
        },
    }
}

/// Lowers statements in order.
pub open spec fn lowered_stmts(r: ResolutionView, s: Ids, xs: Seq<StmtView>) -> (Seq<HirStmtView>, Ids)
    decreases xs,
{
    if xs.len() == 0 {
        (Seq::empty(), s)
    } else {
        let (front, t) = lowered_stmts(r, s, xs.drop_last());
        let (e, t) = lowered_stmt(r, t, xs.last());
        (front.push(e), t)
    }
}

/// Lowers match arms in order.
pub open spec fn lowered_arms(r: ResolutionView, s: Ids, xs: Seq<MatchArmView>) -> (Seq<HirMatchArmView>, Ids)
    decreases xs,
{
    if xs.len() == 0 {
        (Seq::empty(), s)
    } else {
        let (front, t) = lowered_arms(r, s, xs.drop_last());
        let (e, t) = lowered_stmts(r, t, xs.last().body);
        (front.push(HirMatchArmView {
                union: arm_head(r, xs.last()).0,
                variant: arm_head(r, xs.last()).1,
                bindings: arm_head(r, xs.last()).2,
                body: e,
                span: xs.last().span,
            }), t)
    }
}

// ---------------------------------------------------------------------------
// Items
// ---------------------------------------------------------------------------

/// Lowers type parameters.
pub open spec fn lowered_type_params(ps: Seq<TypeParamView>) -> Seq<HirTypeParamView> {
    Seq::new(ps.len(), |i: int| HirTypeParamView { name: ps[i].name, bound: ps[i].bound })
}

/// Lowers parameters.
pub open spec fn lowered_params(r: ResolutionView, ps: Seq<ParamView>) -> Seq<
    (Seq<char>, Option<DefId>, Option<TypeView>, Span),
> {
    Seq::new(
        ps.len(),
        |i: int| (ps[i].name, site_at(r, ps[i].name_span), ps[i].ty, ps[i].name_span),
    )
}

/// Lowers the fields of an object type.
pub open spec fn lowered_fields(fs: Seq<ParamView>) -> Seq<(Seq<char>, Option<TypeView>, Span)> {
    Seq::new(fs.len(), |i: int| (fs[i].name, fs[i].ty, fs[i].name_span))
}

/// Lowers the variants of a union type.
pub open spec fn lowered_variants(vs: Seq<UnionVariantView>) -> Seq<HirUnionVariantView> {
    Seq::new(
        vs.len(),
        |i: int|
            HirUnionVariantView {
                name: vs[i].name,
                name_span: vs[i].name_span,
                payload: vs[i].payload,
            },
    )
}

/// Lowers a function under a name.
pub open spec fn lowered_function(r: ResolutionView, s: Ids, name: Seq<char>, f: FunctionDeclView) -> (
    HirItemView,
    Ids,
) {
    let (body, t) = lowered_stmts(r, after_id(s), f.body);
    (
        HirItemView::Fn {
            id: HirId(s.next),
            def: site_at(r, f.name_span),
            name,
            type_params: lowered_type_params(f.type_params),
            params: lowered_params(r, f.params),
            ret: f.ret,
            ret_span: f.ret_span,
            body,
            span: f.span,
        },
        t,
    )
}

/// Lowers the associated functions of an object type, each to a function under
/// the name `Owner.name`.
pub open spec fn lowered_methods(
    r: ResolutionView,
    s: Ids,
    owner: Seq<char>,
    ms: Seq<FunctionDeclView>,
) -> (Seq<HirItemView>, Ids)
    decreases ms.len(),
{
    if ms.len() == 0 {
        (Seq::empty(), s)
    } else {
        let (front, t) = lowered_methods(r, s, owner, ms.drop_last());
        let (f, t) = lowered_function(r, t, scope::member(owner, ms.last().name), ms.last());
        (front.push(f), t)
    }
}

/// Lowers an item. An object type gives the type and its associated functions,
/// and an import gives nothing.
pub open spec fn lowered_item(r: ResolutionView, s: Ids, x: ItemView) -> (Seq<HirItemView>, Ids) {
    let id = HirId(s.next);
    match x {
        ItemView::Use { .. } => (Seq::empty(), s),
        ItemView::Object { name, fields, methods, span, .. } => {
            let (ms, t) = lowered_methods(r, s, name, methods);
            (
                seq![HirItemView::Object { name, fields: lowered_fields(fields), span }] + ms,
                t,
            )
        },
        ItemView::Union { name, type_params, variants, span, .. } => (
            seq![
                HirItemView::Union {
                    name,
                    type_params: lowered_type_params(type_params),
                    variants: lowered_variants(variants),
                    span,
                },
            ],
            s,
        ),
        ItemView::Let { name_span, kind, ty, ty_span, value, span, .. } => {
            let (value, t) = lowered_expr(r, after_id(s), value);
            (
                seq![
                    HirItemView::Let {
                        id,
                        def: site_at(r, name_span),
                        kind,
                        ty,
                        ty_span,
                        value,
                        span,
                    },
                ],
                t,
            )
        },
        ItemView::Destructure { bindings, kind, ty, ty_span, value, span } => {
            let (value, t) = lowered_expr(r, after_id(s), value);
            (
                seq![
                    HirItemView::Destructure {
                        id,
                        kind,
                        bindings: lowered_bindings(r, bindings),
                        ty,
                        ty_span,
                        value,
                        span,
                    },
                ],
                t,
            )
        },
        ItemView::Function {
            name,
            name_span,
            type_params,
            params,
            ret,
            ret_span,
            body,
            signature_poisoned,
            span,
        } => {
            let (f, t) = lowered_function(
                r,
                s,
                name,
                FunctionDeclView {
                    name,
                    name_span,
                    type_params,
                    params,
                    ret,
                    ret_span,
                    body,
                    signature_poisoned,
                    span,
                },
            );
            (seq![f], t)
        },
    }
}

/// Lowers items in order.
pub open spec fn lowered_items(r: ResolutionView, s: Ids, xs: Seq<ItemView>) -> (
    Seq<HirItemView>,
    Ids,
)
    decreases xs.len(),
{
    if xs.len() == 0 {
        (Seq::empty(), s)
    } else {
        let (front, t) = lowered_items(r, s, xs.drop_last());
        let (more, t) = lowered_item(r, t, xs.last());
        (front + more, t)
    }
}

/// The numbering before the first node.
pub open spec fn first_id() -> Ids {
    Ids { next: 0, full: false }
}

/// Lowers a module.
pub open spec fn lowered(p: ProgramView, r: ResolutionView) -> HirProgramView {
    HirProgramView { module: p.module, items: lowered_items(r, first_id(), p.items).0 }
}

/// The numbering behind the last node of a module.
pub open spec fn numbering(p: ProgramView, r: ResolutionView) -> Ids {
    lowered_items(r, first_id(), p.items).1
}

/// Whether there are identifiers enough for the nodes of a module.
pub open spec fn ids_suffice(p: ProgramView, r: ResolutionView) -> bool {
    !numbering(p, r).full
}

// ---------------------------------------------------------------------------
// Identifiers are unique
// ---------------------------------------------------------------------------

/// One where the identifier of a node is the given one.
pub open spec fn own_id(own: HirId, id: HirId) -> nat {
    if own == id {
        1
    } else {
        0
    }
}

/// How many nodes of an expression have an identifier.
pub open spec fn count_expr(x: HirExprView, id: HirId) -> nat
    decreases x,
{
    match x {
        HirExprView::Literal { id: own, .. } => own_id(own, id),
        HirExprView::String { id: own, .. } => own_id(own, id),
        HirExprView::ArrayLiteral { id: own, elems, .. } => own_id(own, id)
            + count_exprs(elems, id),
        HirExprView::ObjectLiteral { id: own, fields, .. } => own_id(own, id)
            + count_named(fields, id),
        HirExprView::Variant { id: own, args, .. } => own_id(own, id)
            + count_exprs(args, id),
        HirExprView::Index { id: own, base, index, .. } => own_id(own, id)
            + count_expr(*base, id)
            + count_expr(*index, id),
        HirExprView::Field { id: own, base, .. } => own_id(own, id)
            + count_expr(*base, id),
        HirExprView::TupleLiteral { id: own, elems, .. } => own_id(own, id)
            + count_elems(elems, id),
        HirExprView::TupleIndex { id: own, base, .. } => own_id(own, id)
            + count_expr(*base, id),
        HirExprView::Var { id: own, .. } => own_id(own, id),
        HirExprView::Null { id: own, .. } => own_id(own, id),
        HirExprView::Call { id: own, args, .. } => own_id(own, id)
            + count_exprs(args, id),
        HirExprView::MethodCall { id: own, receiver, args, .. } => own_id(own, id)
            + count_expr(*receiver, id)
            + count_exprs(args, id),
        HirExprView::Binary { id: own, lhs, rhs, .. } => own_id(own, id)
            + count_expr(*lhs, id)
            + count_expr(*rhs, id),
        HirExprView::Unary { id: own, inner, .. } => own_id(own, id)
            + count_expr(*inner, id),
        HirExprView::Cast { id: own, inner, .. } => own_id(own, id)
            + count_expr(*inner, id),
    }
}

/// How many nodes of expressions have an identifier.
pub open spec fn count_exprs(xs: Seq<HirExprView>, id: HirId) -> nat
    decreases xs,
{
    if xs.len() == 0 {
        0
    } else {
        count_exprs(xs.drop_last(), id) + count_expr(xs.last(), id)
    }
}

/// How many nodes of the values of fields have an identifier.
pub open spec fn count_named(xs: Seq<(Seq<char>, HirExprView)>, id: HirId) -> nat
    decreases xs,
{
    if xs.len() == 0 {
        0
    } else {
        count_named(xs.drop_last(), id) + count_expr(xs.last().1, id)
    }
}

/// How many nodes of the elements of a tuple have an identifier.
pub open spec fn count_elems(xs: Seq<(Option<Seq<char>>, HirExprView)>, id: HirId) -> nat
    decreases xs,
{
    if xs.len() == 0 {
        0
    } else {
        count_elems(xs.drop_last(), id) + count_expr(xs.last().1, id)
    }
}

/// How many nodes of a statement have an identifier.
pub open spec fn count_stmt(x: HirStmtView, id: HirId) -> nat
    decreases x,
{
    match x {
        HirStmtView::Let { id: own, value, .. } => own_id(own, id)
            + count_expr(value, id),
        HirStmtView::Assign { id: own, value, .. } => own_id(own, id)
            + count_expr(value, id),
        HirStmtView::IndexAssign { id: own, array, index, value, .. } => own_id(own, id)
            + count_expr(*array, id)
            + count_expr(*index, id)
            + count_expr(*value, id),
        HirStmtView::FieldAssign { id: own, base, value, .. } => own_id(own, id)
            + count_expr(*base, id)
            + count_expr(*value, id),
        HirStmtView::TupleAssign { id: own, base, value, .. } => own_id(own, id)
            + count_expr(*base, id)
            + count_expr(*value, id),
        HirStmtView::Destructure { id: own, value, .. } => own_id(own, id)
            + count_expr(value, id),
        HirStmtView::If { condition, then_body, else_body, .. } => count_expr(condition, id)
            + count_stmts(then_body, id)
            + (match else_body { Some(v) => count_stmts(v, id), None => 0 }),
        HirStmtView::Match { scrutinee, arms, else_body, .. } => count_expr(scrutinee, id)
            + count_arms(arms, id)
            + (match else_body { Some(v) => count_stmts(v, id), None => 0 }),
        HirStmtView::While { condition, body, .. } => count_expr(condition, id)
            + count_stmts(body, id),
        HirStmtView::Break { .. } => 0,
        HirStmtView::Continue { .. } => 0,
        HirStmtView::Return { value, .. } => (match value { Some(v) => count_expr(v, id), None => 0 }),
        HirStmtView::Expr(e) => count_expr(e, id),
    }
}

/// How many nodes of statements have an identifier.
pub open spec fn count_stmts(xs: Seq<HirStmtView>, id: HirId) -> nat
    decreases xs,
{
    if xs.len() == 0 {
        0
    } else {
        count_stmts(xs.drop_last(), id) + count_stmt(xs.last(), id)
    }
}

/// How many nodes of match arms have an identifier.
pub open spec fn count_arms(xs: Seq<HirMatchArmView>, id: HirId) -> nat
    decreases xs,
{
    if xs.len() == 0 {
        0
    } else {
        count_arms(xs.drop_last(), id) + count_stmts(xs.last().body, id)
    }
}

/// How many nodes of an item have an identifier.
pub open spec fn count_item(x: HirItemView, id: HirId) -> nat {
    match x {
        HirItemView::Object { .. } => 0,
        HirItemView::Union { .. } => 0,
        HirItemView::Let { id: own, value, .. } => own_id(own, id)
            + count_expr(value, id),
        HirItemView::Destructure { id: own, value, .. } => own_id(own, id)
            + count_expr(value, id),
        HirItemView::Fn { id: own, body, .. } => own_id(own, id)
            + count_stmts(body, id),
    }
}

/// How many nodes of items have an identifier.
pub open spec fn count_items(xs: Seq<HirItemView>, id: HirId) -> nat
    decreases xs.len(),
{
    if xs.len() == 0 {
        0
    } else {
        count_items(xs.drop_last(), id) + count_item(xs.last(), id)
    }
}

/// Whether a count is that of the identifiers from one state of numbering to
/// another, each counted once.
pub open spec fn counts(s: Ids, t: Ids, count: nat, id: HirId) -> bool {
    !t.full ==> !s.full && s.next <= t.next && count == (if s.next <= id.0 < t.next {
        1nat
    } else {
        0nat
    })
}

proof fn receiver_counts(s: Ids, head: DefId, callee: Seq<Seq<char>>, span: Span, k: nat, id: HirId)
    requires
        k >= 1,
    ensures
        counts(s, after_ids(s, k), count_expr(receiver(s, head, callee, span, k), id), id),
    decreases k,
{
    if k > 1 {
        receiver_counts(s, head, callee, span, (k - 1) as nat, id);
    } else {
        assert(after_ids(s, 0) == s);
        assert(after_ids(s, 1) == after_id(after_ids(s, 0)));
    }
}

proof fn expr_counts(r: ResolutionView, s: Ids, x: ExprView, id: HirId)
    ensures
        counts(s, lowered_expr(r, s, x).1, count_expr(lowered_expr(r, s, x).0, id), id),
    decreases x,
{
    let t = after_id(s);
    match x {
        ExprView::ArrayLiteral { elems, .. } => exprs_count(r, t, elems, id),
        ExprView::ObjectLiteral { fields, .. } => named_count(r, t, fields, id),
        ExprView::TupleLiteral { elems, .. } => elems_count(r, t, elems, id),
        ExprView::Index { base, index, .. } => {
            expr_counts(r, t, *base, id);
            expr_counts(r, lowered_expr(r, t, *base).1, *index, id);
        },
        ExprView::Field { base, .. } => {
            expr_counts(r, t, *base, id);
            assert(count_exprs(Seq::<HirExprView>::empty(), id) == 0);
        },
        ExprView::TupleIndex { base, .. } => expr_counts(r, t, *base, id),
        ExprView::Call { callee, callee_span, args, .. } => {
            let at = table::place_of(callee_span);
            exprs_count(r, t, args, id);
            if !r.variants.dom().contains(at) && r.sugar_receivers.dom().contains(at)
                && callee.len() >= 2 {
                let k = (callee.len() - 1) as nat;
                receiver_counts(s, r.sugar_receivers[at], callee, callee_span, k, id);
                exprs_count(r, after_id(after_ids(s, k)), args, id);
            }
        },
        ExprView::Unary { op, rhs, span } => {
            if op == UnOp::Neg {
                expr_counts(r, s, *rhs, id);
                let (b, u) = lowered_expr(r, s, *rhs);
                let literal = HirExprView::Literal {
                    id: HirId(after_id(u).next),
                    value: match b {
                        HirExprView::Literal { value, .. } => zero_like(value),
                        _ => Scalar::Int(0),
                    },
                    span: Span { start: span.start, end: span.start },
                };
                assert(count_expr(literal, id) == own_id(HirId(after_id(u).next), id));
            } else {
                expr_counts(r, t, *rhs, id);
            }
        },
        ExprView::Binary { lhs, rhs, .. } => {
            expr_counts(r, t, *lhs, id);
            expr_counts(r, lowered_expr(r, t, *lhs).1, *rhs, id);
        },
        ExprView::Cast { inner, .. } => expr_counts(r, t, *inner, id),
        _ => {},
    }
}

proof fn exprs_count(r: ResolutionView, s: Ids, xs: Seq<ExprView>, id: HirId)
    ensures
        counts(s, lowered_exprs(r, s, xs).1, count_exprs(lowered_exprs(r, s, xs).0, id), id),
    decreases xs,
{
    if xs.len() == 0 {
        assert(count_exprs(lowered_exprs(r, s, xs).0, id) == 0);
    } else {
        exprs_count(r, s, xs.drop_last(), id);
        let (front, t) = lowered_exprs(r, s, xs.drop_last());
        expr_counts(r, t, xs.last(), id);
        assert(lowered_exprs(r, s, xs).0.drop_last() =~= front);
    }
}

proof fn named_count(r: ResolutionView, s: Ids, xs: Seq<(Seq<char>, Span, ExprView)>, id: HirId)
    ensures
        counts(s, lowered_named(r, s, xs).1, count_named(lowered_named(r, s, xs).0, id), id),
    decreases xs,
{
    if xs.len() == 0 {
        assert(count_named(lowered_named(r, s, xs).0, id) == 0);
    } else {
        named_count(r, s, xs.drop_last(), id);
        let (front, t) = lowered_named(r, s, xs.drop_last());
        expr_counts(r, t, xs.last().2, id);
        assert(lowered_named(r, s, xs).0.drop_last() =~= front);
    }
}

proof fn elems_count(r: ResolutionView, s: Ids, xs: Seq<(Option<Seq<char>>, Span, ExprView)>, id: HirId)
    ensures
        counts(s, lowered_elems(r, s, xs).1, count_elems(lowered_elems(r, s, xs).0, id), id),
    decreases xs,
{
    if xs.len() == 0 {
        assert(count_elems(lowered_elems(r, s, xs).0, id) == 0);
    } else {
        elems_count(r, s, xs.drop_last(), id);
        let (front, t) = lowered_elems(r, s, xs.drop_last());
        expr_counts(r, t, xs.last().2, id);
        assert(lowered_elems(r, s, xs).0.drop_last() =~= front);
    }
}

proof fn stmt_counts(r: ResolutionView, s: Ids, x: StmtView, id: HirId)
    ensures
        counts(s, lowered_stmt(r, s, x).1, count_stmt(lowered_stmt(r, s, x).0, id), id),
    decreases x,
{
    let t = after_id(s);
    match x {
        StmtView::Let { value, .. } => expr_counts(r, t, value, id),
        StmtView::Assign { value, .. } => expr_counts(r, t, value, id),
        StmtView::IndexAssign { array, index, value, .. } => {
            expr_counts(r, t, *array, id);
            let t = lowered_expr(r, t, *array).1;
            expr_counts(r, t, *index, id);
            expr_counts(r, lowered_expr(r, t, *index).1, *value, id);
        },
        StmtView::FieldAssign { base, value, .. } => {
            expr_counts(r, t, *base, id);
            expr_counts(r, lowered_expr(r, t, *base).1, *value, id);
        },
        StmtView::TupleAssign { base, value, .. } => {
            expr_counts(r, t, *base, id);
            expr_counts(r, lowered_expr(r, t, *base).1, *value, id);
        },
        StmtView::Destructure { value, .. } => expr_counts(r, t, value, id),
        StmtView::If { condition, then_body, else_body, .. } => {
            expr_counts(r, s, condition, id);
            let t = lowered_expr(r, s, condition).1;
            stmts_count(r, t, then_body, id);
            let t = lowered_stmts(r, t, then_body).1;
            match else_body {
                Some(b) => stmts_count(r, t, b, id),
                None => {},
            }
        },
        StmtView::Match { scrutinee, arms, else_body, .. } => {
            expr_counts(r, s, scrutinee, id);
            let t = lowered_expr(r, s, scrutinee).1;
            arms_count(r, t, arms, id);
            let t = lowered_arms(r, t, arms).1;
            match else_body {
                Some(b) => stmts_count(r, t, b, id),
                None => {},
            }
        },
        StmtView::While { condition, body, .. } => {
            expr_counts(r, s, condition, id);
            stmts_count(r, lowered_expr(r, s, condition).1, body, id);
        },
        StmtView::Return { value, .. } => {
            match value {
                Some(v) => expr_counts(r, s, v, id),
                None => {},
            }
        },
        StmtView::Expr(e) => expr_counts(r, s, e, id),
        _ => {},
    }
}

proof fn stmts_count(r: ResolutionView, s: Ids, xs: Seq<StmtView>, id: HirId)
    ensures
        counts(s, lowered_stmts(r, s, xs).1, count_stmts(lowered_stmts(r, s, xs).0, id), id),
    decreases xs,
{
    if xs.len() == 0 {
        assert(count_stmts(lowered_stmts(r, s, xs).0, id) == 0);
    } else {
        stmts_count(r, s, xs.drop_last(), id);
        let (front, t) = lowered_stmts(r, s, xs.drop_last());
        stmt_counts(r, t, xs.last(), id);
        assert(lowered_stmts(r, s, xs).0.drop_last() =~= front);
    }
}

proof fn arms_count(r: ResolutionView, s: Ids, xs: Seq<MatchArmView>, id: HirId)
    ensures
        counts(s, lowered_arms(r, s, xs).1, count_arms(lowered_arms(r, s, xs).0, id), id),
    decreases xs,
{
    if xs.len() == 0 {
        assert(count_arms(lowered_arms(r, s, xs).0, id) == 0);
    } else {
        arms_count(r, s, xs.drop_last(), id);
        let (front, t) = lowered_arms(r, s, xs.drop_last());
        stmts_count(r, t, xs.last().body, id);
        assert(lowered_arms(r, s, xs).0.drop_last() =~= front);
    }
}

proof fn methods_count(
    r: ResolutionView,
    s: Ids,
    owner: Seq<char>,
    ms: Seq<FunctionDeclView>,
    id: HirId,
)
    ensures
        counts(
            s,
            lowered_methods(r, s, owner, ms).1,
            count_items(lowered_methods(r, s, owner, ms).0, id),
            id,
        ),
    decreases ms.len(),
{
    if ms.len() == 0 {
        assert(count_items(lowered_methods(r, s, owner, ms).0, id) == 0);
    } else {
        methods_count(r, s, owner, ms.drop_last(), id);
        let (front, t) = lowered_methods(r, s, owner, ms.drop_last());
        stmts_count(r, after_id(t), ms.last().body, id);
        assert(lowered_methods(r, s, owner, ms).0.drop_last() =~= front);
    }
}

proof fn count_of_parts(a: Seq<HirItemView>, b: Seq<HirItemView>, id: HirId)
    ensures
        count_items(a + b, id) == count_items(a, id) + count_items(b, id),
    decreases b.len(),
{
    if b.len() == 0 {
        assert(a + b =~= a);
    } else {
        assert((a + b).drop_last() =~= a + b.drop_last());
        count_of_parts(a, b.drop_last(), id);
    }
}

proof fn count_of_one(x: HirItemView, id: HirId)
    ensures
        count_items(seq![x], id) == count_item(x, id),
{
    assert(seq![x].drop_last() =~= Seq::empty());
    assert(count_items(Seq::<HirItemView>::empty(), id) == 0);
    assert(seq![x].last() == x);
}

proof fn item_counts(r: ResolutionView, s: Ids, x: ItemView, id: HirId)
    ensures
        counts(s, lowered_item(r, s, x).1, count_items(lowered_item(r, s, x).0, id), id),
{
    let t = after_id(s);
    let out = lowered_item(r, s, x).0;
    if out.len() == 1 {
        count_of_one(out[0], id);
        assert(out =~= seq![out[0]]);
    }
    match x {
        ItemView::Use { .. } => {
            assert(count_items(Seq::<HirItemView>::empty(), id) == 0);
        },
        ItemView::Object { name, fields, methods, span, .. } => {
            methods_count(r, s, name, methods, id);
            let object = HirItemView::Object { name, fields: lowered_fields(fields), span };
            count_of_one(object, id);
            count_of_parts(seq![object], lowered_methods(r, s, name, methods).0, id);
        },
        ItemView::Union { .. } => {},
        ItemView::Let { value, .. } => expr_counts(r, t, value, id),
        ItemView::Destructure { value, .. } => expr_counts(r, t, value, id),
        ItemView::Function { body, .. } => stmts_count(r, t, body, id),
    }
}

proof fn items_count(r: ResolutionView, s: Ids, xs: Seq<ItemView>, id: HirId)
    ensures
        counts(s, lowered_items(r, s, xs).1, count_items(lowered_items(r, s, xs).0, id), id),
    decreases xs.len(),
{
    if xs.len() == 0 {
        assert(count_items(lowered_items(r, s, xs).0, id) == 0);
    } else {
        items_count(r, s, xs.drop_last(), id);
        let (front, t) = lowered_items(r, s, xs.drop_last());
        item_counts(r, t, xs.last(), id);
        count_of_parts(front, lowered_item(r, t, xs.last()).0, id);
    }
}

/// The nodes of a lowered module carry the identifiers from zero up to the
/// number of nodes, each exactly once.
pub proof fn ids_are_unique(p: ProgramView, r: ResolutionView, id: HirId)
    requires
        ids_suffice(p, r),
    ensures
        count_items(lowered(p, r).items, id) == (if id.0 < numbering(p, r).next {
            1nat
        } else {
            0nat
        }),
{
    items_count(r, first_id(), p.items, id);
}

// ---------------------------------------------------------------------------
// The lowering
// ---------------------------------------------------------------------------

/// The lowering at work.
struct Lowerer<'a> {
    next: u32,
    full: bool,
    res: &'a Resolution,
}

impl<'a> Lowerer<'a> {
    spec fn ids(&self) -> Ids {
        Ids { next: self.next, full: self.full }
    }

    fn id(&mut self) -> (r: HirId)
        ensures
            r == HirId(old(self).ids().next),
            final(self).ids() == after_id(old(self).ids()),
            final(self).res == old(self).res,
    {
        let id = HirId(self.next);
        if self.next == u32::MAX {
            self.full = true;
        } else {
            self.next = self.next + 1;
        }
        id
    }

    fn def_at(&self, span: Span) -> (r: Option<DefId>)
        ensures
            r == use_at(self.res@, span),
    {
        match self.res.def_of(span) {
            Some(d) => Some(d.id),
            None => None,
        }
    }

    fn def_at_site(&self, span: Span) -> (r: Option<DefId>)
        ensures
            r == site_at(self.res@, span),
    {
        match self.res.def_at(span) {
            Some(d) => Some(d.id),
            None => None,
        }
    }

    fn receiver(&mut self, head: DefId, callee: &Vec<String>, span: Span) -> (r: HirExpr)
        requires
            callee@.len() >= 2,
        ensures
            r@ == receiver(
                old(self).ids(),
                head,
                model::all(callee@),
                span,
                (callee@.len() - 1) as nat,
            ),
            final(self).ids() == after_ids(old(self).ids(), (callee@.len() - 1) as nat),
            final(self).res == old(self).res,
    {
        let ghost start = self.ids();
        proof {
            assert(after_ids(start, 0) == start);
            assert(after_ids(start, 1) == after_id(after_ids(start, 0)));
        }
        let mut r = HirExpr::Var {
            id: self.id(),
            def: Some(head),
            name: callee[0].clone(),
            span,
        };
        let mut k: usize = 1;
        while k < callee.len() - 1
            invariant
                1 <= k <= callee@.len() - 1,
                r@ == receiver(start, head, model::all(callee@), span, k as nat),
                self.ids() == after_ids(start, k as nat),
                self.res == old(self).res,
            decreases callee@.len() - k,
        {
            let id = self.id();
            let name = callee[k].clone();
            r = HirExpr::Field { id, base: Box::new(r), name, span };
            k += 1;
        }
        r
    }

    fn call(
        &mut self,
        callee: &Vec<String>,
        callee_span: Span,
        type_args: &Vec<VlType>,
        args: &Vec<Expr>,
        span: Span,
    ) -> (r: HirExpr)
        ensures
            final(self).res == old(self).res,
            ({
                let (low, t) = lowered_exprs(
                    old(self).res@,
                    after_id(old(self).ids()),
                    ast::exprs_view(args@),
                );
                &&& final(self).ids() == t
                &&& r@ == plain_call(
                    old(self).res@,
                    HirId(old(self).ids().next),
                    model::all(callee@),
                    callee_span,
                    model::all(type_args@),
                    low,
                    span,
                )
            }),
        decreases args, 1int,
    {
        let res = self.res;
        let id = self.id();
        let mut def: Option<DefId> = None;
        let mut external = false;
        let mut extern_sig: Option<FuncSig> = None;
        let mut extern_kind: Option<ExportKind> = None;
        let mut symbol: Option<SymbolRef> = None;
        match res.def_of(callee_span) {
            Some(d) => {
                def = Some(d.id);
                external = match d.kind {
                    DefKind::External => true,
                    DefKind::ImportedFunction => true,
                    _ => false,
                };
                if external {
                    extern_sig = match &d.sig {
                        Some(s) => Some(s.clone()),
                        None => None,
                    };
                    extern_kind = d.export_kind;
                }
                symbol = match &d.symbol {
                    Some(s) => Some(s.clone()),
                    None => None,
                };
            },
            None => {},
        }
        let low = self.lower_exprs(args);
        HirExpr::Call {
            id,
            def,
            external,
            extern_sig,
            extern_kind,
            symbol,
            name: dotted(callee),
            type_args: clone_vec(type_args),
            args: low,
            span,
        }
    }

    fn lower_expr(&mut self, x: &Expr) -> (r: HirExpr)
        ensures
            final(self).res == old(self).res,
            (r@, final(self).ids()) == lowered_expr(old(self).res@, old(self).ids(), x@),
        decreases x, 0int,
    {
        match x {
            Expr::Literal(value, span) => HirExpr::Literal {
                id: self.id(),
                value: *value,
                span: *span,
            },
            Expr::String(value, span) => HirExpr::String {
                id: self.id(),
                value: clone_bytes(value),
                span: *span,
            },
            Expr::Null(span) => HirExpr::Null { id: self.id(), span: *span },
            Expr::ArrayLiteral { elems, span } => HirExpr::ArrayLiteral {
                id: self.id(),
                elems: self.lower_exprs(elems),
                span: *span,
            },
            Expr::ObjectLiteral { name, fields, span, .. } => HirExpr::ObjectLiteral {
                id: self.id(),
                name: name.clone(),
                fields: self.lower_named(fields),
                span: *span,
            },
            Expr::TupleLiteral { elems, span } => HirExpr::TupleLiteral {
                id: self.id(),
                elems: self.lower_elems(elems),
                span: *span,
            },
            Expr::Index { base, index, span } => HirExpr::Index {
                id: self.id(),
                base: Box::new(self.lower_expr(base)),
                index: Box::new(self.lower_expr(index)),
                span: *span,
            },
            Expr::Field { base, name, span } => {
                let res = self.res;
                match res.variants.get(&Place::of(*span)) {
                    Some(v) => HirExpr::Variant {
                        id: self.id(),
                        union: v.union.clone(),
                        variant: v.variant.clone(),
                        type_args: Vec::new(),
                        args: Vec::new(),
                        span: *span,
                    },
                    None => HirExpr::Field {
                        id: self.id(),
                        base: Box::new(self.lower_expr(base)),
                        name: name.clone(),
                        span: *span,
                    },
                }
            },
            Expr::TupleIndex { base, index, span, .. } => HirExpr::TupleIndex {
                id: self.id(),
                base: Box::new(self.lower_expr(base)),
                index: *index,
                span: *span,
            },
            Expr::Var { path, span } => HirExpr::Var {
                id: self.id(),
                def: self.def_at(*span),
                name: dotted(path),
                span: *span,
            },
            Expr::Call { callee, callee_span, type_args, args, span, .. } => {
                let res = self.res;
                match res.variants.get(&Place::of(*callee_span)) {
                    Some(v) => {
                        return HirExpr::Variant {
                            id: self.id(),
                            union: v.union.clone(),
                            variant: v.variant.clone(),
                            type_args: clone_vec(type_args),
                            args: self.lower_exprs(args),
                            span: *span,
                        };
                    },
                    None => {},
                }
                if callee.len() >= 2 {
                    match res.sugar_receivers.get(&Place::of(*callee_span)) {
                        Some(head) => {
                            let receiver = self.receiver(*head, callee, *callee_span);
                            return HirExpr::MethodCall {
                                id: self.id(),
                                receiver: Box::new(receiver),
                                method: callee[callee.len() - 1].clone(),
                                method_span: *callee_span,
                                type_args: clone_vec(type_args),
                                args: self.lower_exprs(args),
                                span: *span,
                            };
                        },
                        None => {},
                    }
                }
                self.call(callee, *callee_span, type_args, args, *span)
            },
            Expr::Unary { op, rhs, span } => match op {
                UnOp::Neg => {
                    let rhs = self.lower_expr(rhs);
                    let zero = match &rhs {
                        HirExpr::Literal { value, .. } => scalar_zero(*value),
                        _ => Scalar::Int(0),
                    };
                    let id = self.id();
                    let literal = HirExpr::Literal {
                        id: self.id(),
                        value: zero,
                        span: Span::empty(span.start),
                    };
                    assert(literal@ is Literal && rhs@ is Literal == rhs is Literal);
                    HirExpr::Binary {
                        id,
                        op: HirBinOp::Sub,
                        lhs: Box::new(literal),
                        rhs: Box::new(rhs),
                        span: *span,
                    }
                },
                UnOp::Not => HirExpr::Unary {
                    id: self.id(),
                    op: HirUnOp::Not,
                    inner: Box::new(self.lower_expr(rhs)),
                    span: *span,
                },
            },
            Expr::Binary { op, lhs, rhs, span } => HirExpr::Binary {
                id: self.id(),
                op: lower_op(*op),
                lhs: Box::new(self.lower_expr(lhs)),
                rhs: Box::new(self.lower_expr(rhs)),
                span: *span,
            },
            Expr::Cast { inner, target, target_span, span } => HirExpr::Cast {
                id: self.id(),
                inner: Box::new(self.lower_expr(inner)),
                target: target.clone(),
                target_span: *target_span,
                span: *span,
            },
        }
    }

    fn lower_exprs(&mut self, xs: &Vec<Expr>) -> (r: Vec<HirExpr>)
        ensures
            final(self).res == old(self).res,
            (hir::exprs_view(r@), final(self).ids()) == lowered_exprs(
                old(self).res@,
                old(self).ids(),
                ast::exprs_view(xs@),
            ),
        decreases xs, 0int,
    {
        let ghost all = ast::exprs_view(xs@);
        let mut out: Vec<HirExpr> = Vec::new();
        let mut i: usize = 0;
        assert(all.take(0).len() == 0);
        while i < xs.len()
            invariant
                i <= xs@.len(),
                all == ast::exprs_view(xs@),
                self.res == old(self).res,
                (hir::exprs_view(out@), self.ids()) == lowered_exprs(
                    old(self).res@,
                    old(self).ids(),
                    all.take(i as int),
                ),
            decreases xs@.len() - i,
        {
            assert(all.take(i + 1).drop_last() =~= all.take(i as int));
            assert(all.take(i + 1).last() == all[i as int]);
            let e = self.lower_expr(&xs[i]);
            out.push(e);
            i += 1;
        }
        assert(all.take(all.len() as int) =~= all);
        out
    }

    fn lower_named(&mut self, xs: &Vec<(String, Span, Expr)>) -> (r: Vec<(String, HirExpr)>)
        ensures
            final(self).res == old(self).res,
            (hir::named_view(r@), final(self).ids()) == lowered_named(
                old(self).res@,
                old(self).ids(),
                ast::named_view(xs@),
            ),
        decreases xs, 0int,
    {
        let ghost all = ast::named_view(xs@);
        let mut out: Vec<(String, HirExpr)> = Vec::new();
        let mut i: usize = 0;
        assert(all.take(0).len() == 0);
        while i < xs.len()
            invariant
                i <= xs@.len(),
                all == ast::named_view(xs@),
                self.res == old(self).res,
                (hir::named_view(out@), self.ids()) == lowered_named(
                    old(self).res@,
                    old(self).ids(),
                    all.take(i as int),
                ),
            decreases xs@.len() - i,
        {
            assert(all.take(i + 1).drop_last() =~= all.take(i as int));
            assert(all.take(i + 1).last() == all[i as int]);
            let e = self.lower_expr(&xs[i].2);
            out.push((xs[i].0.clone(), e));
            i += 1;
        }
        assert(all.take(all.len() as int) =~= all);
        out
    }

    fn lower_elems(&mut self, xs: &Vec<(Option<String>, Span, Expr)>) -> (r: Vec<(Option<String>, HirExpr)>)
        ensures
            final(self).res == old(self).res,
            (hir::elems_view(r@), final(self).ids()) == lowered_elems(
                old(self).res@,
                old(self).ids(),
                ast::elems_view(xs@),
            ),
        decreases xs, 0int,
    {
        let ghost all = ast::elems_view(xs@);
        let mut out: Vec<(Option<String>, HirExpr)> = Vec::new();
        let mut i: usize = 0;
        assert(all.take(0).len() == 0);
        while i < xs.len()
            invariant
                i <= xs@.len(),
                all == ast::elems_view(xs@),
                self.res == old(self).res,
                (hir::elems_view(out@), self.ids()) == lowered_elems(
                    old(self).res@,
                    old(self).ids(),
                    all.take(i as int),
                ),
            decreases xs@.len() - i,
        {
            assert(all.take(i + 1).drop_last() =~= all.take(i as int));
            assert(all.take(i + 1).last() == all[i as int]);
            let e = self.lower_expr(&xs[i].2);
            out.push((clone_opt(&xs[i].0), e));
            i += 1;
        }
        assert(all.take(all.len() as int) =~= all);
        out
    }

    fn lower_bindings(&self, bs: &Vec<DestructureBinding>) -> (r: Vec<HirDestructureBinding>)
        ensures
            model::all(r@) == lowered_bindings(self.res@, model::all(bs@)),
    {
        let mut out: Vec<HirDestructureBinding> = Vec::new();
        let mut i: usize = 0;
        while i < bs.len()
            invariant
                i <= bs@.len(),
                out@.len() == i,
                forall|k: int|
                    0 <= k < i ==> (#[trigger] out@[k])@ == lowered_bindings(
                        self.res@,
                        model::all(bs@),
                    )[k],
            decreases bs@.len() - i,
        {
            out.push(
                HirDestructureBinding {
                    field: clone_opt(&bs[i].field),
                    binding: bs[i].binding.clone(),
                    index: i,
                    def: self.def_at_site(bs[i].binding_span),
                    binding_span: bs[i].binding_span,
                },
            );
            i += 1;
        }
        assert(model::all(out@) =~= lowered_bindings(self.res@, model::all(bs@)));
        out
    }

    fn lower_names(&self, ns: &Vec<(String, Span)>) -> (r: Vec<HirMatchBinding>)
        ensures
            model::all(r@) == lowered_names(self.res@, ast::names_view(ns@)),
    {
        let mut out: Vec<HirMatchBinding> = Vec::new();
        let mut i: usize = 0;
        while i < ns.len()
            invariant
                i <= ns@.len(),
                out@.len() == i,
                forall|k: int|
                    0 <= k < i ==> (#[trigger] out@[k])@ == lowered_names(
                        self.res@,
                        ast::names_view(ns@),
                    )[k],
            decreases ns@.len() - i,
        {
            out.push(
                HirMatchBinding {
                    binding: ns[i].0.clone(),
                    def: self.def_at_site(ns[i].1),
                    binding_span: ns[i].1,
                },
            );
            i += 1;
        }
        assert(model::all(out@) =~= lowered_names(self.res@, ast::names_view(ns@)));
        out
    }

    fn arm_head(&self, a: &MatchArm) -> (r: (String, String, Vec<HirMatchBinding>))
        ensures
            (r.0@, r.1@, model::all(r.2@)) == arm_head(self.res@, a@),
    {
        let n: usize = a.path.len();
        if n == 1 && str_eq(a.path[0].as_str(), "null") {
            return (owned("Option"), owned("None"), Vec::new());
        }
        let union = match self.res.match_patterns.get(&Place::of(a.path_span)) {
            Some(name) => name.clone(),
            None => if n == 0 {
                String::new()
            } else {
                let mut front: Vec<String> = Vec::new();
                let mut i: usize = 0;
                while i < n - 1
                    invariant
                        1 <= n == a.path@.len(),
                        i <= n - 1,
                        model::all(front@) =~= model::all(a.path@).take(i as int),
                    decreases n - i,
                {
                    front.push(a.path[i].clone());
                    i += 1;
                }
                assert(model::all(front@) =~= model::all(a.path@).drop_last());
                dotted(&front)
            },
        };
        let variant = if n == 0 {
            String::new()
        } else {
            a.path[n - 1].clone()
        };
        (union, variant, self.lower_names(&a.bindings))
    }

    fn lower_stmt(&mut self, x: &Stmt) -> (r: HirStmt)
        ensures
            final(self).res == old(self).res,
            (r@, final(self).ids()) == lowered_stmt(old(self).res@, old(self).ids(), x@),
        decreases x,
    {
        match x {
            Stmt::Let { name_span, kind, ty, ty_span, value, span, .. } => {
                let def = self.def_at_site(*name_span);
                HirStmt::Let {
                    id: self.id(),
                    def,
                    kind: *kind,
                    ty: clone_ty(ty),
                    ty_span: *ty_span,
                    value: self.lower_expr(value),
                    span: *span,
                }
            },
            Stmt::Assign { name_span, value, span, .. } => {
                let def = self.def_at(*name_span);
                HirStmt::Assign { id: self.id(), def, value: self.lower_expr(value), span: *span }
            },
            Stmt::IndexAssign { array, index, value, span } => HirStmt::IndexAssign {
                id: self.id(),
                array: Box::new(self.lower_expr(array)),
                index: Box::new(self.lower_expr(index)),
                value: Box::new(self.lower_expr(value)),
                span: *span,
            },
            Stmt::FieldAssign { base, field, value, span, .. } => HirStmt::FieldAssign {
                id: self.id(),
                base: Box::new(self.lower_expr(base)),
                field: field.clone(),
                value: Box::new(self.lower_expr(value)),
                span: *span,
            },
            Stmt::TupleAssign { base, index, value, span, .. } => HirStmt::TupleAssign {
                id: self.id(),
                base: Box::new(self.lower_expr(base)),
                index: *index,
                value: Box::new(self.lower_expr(value)),
                span: *span,
            },
            Stmt::Destructure { bindings, kind, ty, ty_span, value, span } => {
                let lowered = self.lower_bindings(bindings);
                HirStmt::Destructure {
                    id: self.id(),
                    kind: *kind,
                    bindings: lowered,
                    ty: clone_ty(ty),
                    ty_span: *ty_span,
                    value: self.lower_expr(value),
                    span: *span,
                }
            },
            Stmt::If { condition, then_body, else_body, span } => {
                let condition = self.lower_expr(condition);
                let then_body = self.lower_stmts(then_body);
                let else_body = match else_body {
                    Some(body) => Some(self.lower_stmts(body)),
                    None => None,
                };
                HirStmt::If { condition, then_body, else_body, span: *span }
            },
            Stmt::Match { scrutinee, arms, else_body, span } => {
                let scrutinee = self.lower_expr(scrutinee);
                let arms = self.lower_arms(arms);
                let else_body = match else_body {
                    Some(body) => Some(self.lower_stmts(body)),
                    None => None,
                };
                HirStmt::Match { scrutinee, arms, else_body, span: *span }
            },
            Stmt::While { condition, body, span } => {
                let condition = self.lower_expr(condition);
                let body = self.lower_stmts(body);
                HirStmt::While { condition, body, span: *span }
            },
            Stmt::Break { span } => HirStmt::Break { span: *span },
            Stmt::Continue { span } => HirStmt::Continue { span: *span },
            Stmt::Return { value, span } => {
                let value = match value {
                    Some(e) => Some(self.lower_expr(e)),
                    None => None,
                };
                HirStmt::Return { value, span: *span }
            },
            Stmt::Expr(e) => HirStmt::Expr(self.lower_expr(e)),
        }
    }

    fn lower_stmts(&mut self, xs: &Vec<Stmt>) -> (r: Vec<HirStmt>)
        ensures
            final(self).res == old(self).res,
            (hir::stmts_view(r@), final(self).ids()) == lowered_stmts(
                old(self).res@,
                old(self).ids(),
                ast::stmts_view(xs@),
            ),
        decreases xs,
    {
        let ghost all = ast::stmts_view(xs@);
        let mut out: Vec<HirStmt> = Vec::new();
        let mut i: usize = 0;
        assert(all.take(0).len() == 0);
        while i < xs.len()
            invariant
                i <= xs@.len(),
                all == ast::stmts_view(xs@),
                self.res == old(self).res,
                (hir::stmts_view(out@), self.ids()) == lowered_stmts(
                    old(self).res@,
                    old(self).ids(),
                    all.take(i as int),
                ),
            decreases xs@.len() - i,
        {
            assert(all.take(i + 1).drop_last() =~= all.take(i as int));
            assert(all.take(i + 1).last() == all[i as int]);
            let e = self.lower_stmt(&xs[i]);
            out.push(e);
            i += 1;
        }
        assert(all.take(all.len() as int) =~= all);
        out
    }

    fn lower_arms(&mut self, xs: &Vec<MatchArm>) -> (r: Vec<HirMatchArm>)
        ensures
            final(self).res == old(self).res,
            (hir::arms_view(r@), final(self).ids()) == lowered_arms(
                old(self).res@,
                old(self).ids(),
                ast::arms_view(xs@),
            ),
        decreases xs,
    {
        let ghost all = ast::arms_view(xs@);
        let mut out: Vec<HirMatchArm> = Vec::new();
        let mut i: usize = 0;
        assert(all.take(0).len() == 0);
        while i < xs.len()
            invariant
                i <= xs@.len(),
                all == ast::arms_view(xs@),
                self.res == old(self).res,
                (hir::arms_view(out@), self.ids()) == lowered_arms(
                    old(self).res@,
                    old(self).ids(),
                    all.take(i as int),
                ),
            decreases xs@.len() - i,
        {
            assert(all.take(i + 1).drop_last() =~= all.take(i as int));
            assert(all.take(i + 1).last() == all[i as int]);
            let (union, variant, bindings) = self.arm_head(&xs[i]);
            let body = self.lower_stmts(&xs[i].body);
            out.push(HirMatchArm { union, variant, bindings, body, span: xs[i].span });
            i += 1;
        }
        assert(all.take(all.len() as int) =~= all);
        out
    }

    fn lower_params(&self, ps: &Vec<Param>) -> (r: Vec<(String, Option<DefId>, Option<VlType>, Span)>)
        ensures
            hir::params_view(r@) == lowered_params(self.res@, model::all(ps@)),
    {
        let mut out: Vec<(String, Option<DefId>, Option<VlType>, Span)> = Vec::new();
        let mut i: usize = 0;
        assert(model::all(ps@).take(0) =~= Seq::empty());
        while i < ps.len()
            invariant
                i <= ps@.len(),
                hir::params_view(out@) =~= lowered_params(
                    self.res@,
                    model::all(ps@).take(i as int),
                ),
            decreases ps@.len() - i,
        {
            out.push(
                (
                    ps[i].name.clone(),
                    self.def_at_site(ps[i].name_span),
                    clone_ty(&ps[i].ty),
                    ps[i].name_span,
                ),
            );
            i += 1;
        }
        assert(model::all(ps@).take(ps@.len() as int) =~= model::all(ps@));
        out
    }

    fn lower_function(
        &mut self,
        name: String,
        name_span: Span,
        type_params: &Vec<TypeParam>,
        params: &Vec<Param>,
        ret: &Option<VlType>,
        ret_span: Option<Span>,
        body: &Vec<Stmt>,
        span: Span,
    ) -> (r: HirItem)
        ensures
            final(self).res == old(self).res,
            forall|f: FunctionDeclView|
                f.name_span == name_span && f.type_params == model::all(type_params@) && f.params
                    == model::all(params@) && f.ret == model::opt(*ret) && f.ret_span == ret_span
                    && f.body == ast::stmts_view(body@) && f.span == span ==> (
                r@,
                final(self).ids(),
            ) == #[trigger] lowered_function(old(self).res@, old(self).ids(), name@, f),
    {
        HirItem::Fn {
            id: self.id(),
            def: self.def_at_site(name_span),
            name,
            type_params: lower_type_params(type_params),
            params: self.lower_params(params),
            ret: clone_ty(ret),
            ret_span,
            body: self.lower_stmts(body),
            span,
        }
    }

    fn lower_methods(&mut self, owner: &String, ms: &Vec<FunctionDecl>, out: &mut Vec<HirItem>)
        ensures
            final(self).res == old(self).res,
            ({
                let (items, t) = lowered_methods(
                    old(self).res@,
                    old(self).ids(),
                    owner@,
                    model::all(ms@),
                );
                &&& final(self).ids() == t
                &&& model::all(final(out)@) == model::all(old(out)@) + items
            }),
    {
        let ghost all = model::all(ms@);
        let ghost start = model::all(out@);
        let mut i: usize = 0;
        assert(all.take(0).len() == 0);
        assert(start + Seq::empty() =~= start);
        while i < ms.len()
            invariant
                i <= ms@.len(),
                all == model::all(ms@),
                self.res == old(self).res,
                self.ids() == lowered_methods(
                    old(self).res@,
                    old(self).ids(),
                    owner@,
                    all.take(i as int),
                ).1,
                model::all(out@) == start + lowered_methods(
                    old(self).res@,
                    old(self).ids(),
                    owner@,
                    all.take(i as int),
                ).0,
            decreases ms@.len() - i,
        {
            assert(all.take(i + 1).drop_last() =~= all.take(i as int));
            assert(all.take(i + 1).last() == all[i as int]);
            let m = &ms[i];
            let f = self.lower_function(
                member(owner.as_str(), m.name.as_str()),
                m.name_span,
                &m.type_params,
                &m.params,
                &m.ret,
                m.ret_span,
                &m.body,
                m.span,
            );
            out.push(f);
            assert(model::all(out@) =~= start + lowered_methods(
                old(self).res@,
                old(self).ids(),
                owner@,
                all.take(i + 1),
            ).0);
            i += 1;
        }
        assert(all.take(all.len() as int) =~= all);
    }

    fn lower_item(&mut self, item: &Item) -> (r: Vec<HirItem>)
        ensures
            final(self).res == old(self).res,
            (model::all(r@), final(self).ids()) == lowered_item(
                old(self).res@,
                old(self).ids(),
                item@,
            ),
    {
        let ghost want = lowered_item(self.res@, self.ids(), item@).0;
        let mut out: Vec<HirItem> = Vec::new();
        match item {
            Item::Use { .. } => {},
            Item::Object { name, fields, methods, span, .. } => {
                out.push(
                    HirItem::Object {
                        name: name.clone(),
                        fields: lower_fields(fields),
                        span: *span,
                    },
                );
                self.lower_methods(name, methods, &mut out);
            },
            Item::Union { name, type_params, variants, span, .. } => {
                out.push(
                    HirItem::Union {
                        name: name.clone(),
                        type_params: lower_type_params(type_params),
                        variants: lower_variants(variants),
                        span: *span,
                    },
                );
            },
            Item::Let { name_span, kind, ty, ty_span, value, span, .. } => {
                let def = self.def_at_site(*name_span);
                out.push(
                    HirItem::Let {
                        id: self.id(),
                        def,
                        kind: *kind,
                        ty: clone_ty(ty),
                        ty_span: *ty_span,
                        value: self.lower_expr(value),
                        span: *span,
                    },
                );
            },
            Item::Destructure { bindings, kind, ty, ty_span, value, span } => {
                let lowered = self.lower_bindings(bindings);
                out.push(
                    HirItem::Destructure {
                        id: self.id(),
                        kind: *kind,
                        bindings: lowered,
                        ty: clone_ty(ty),
                        ty_span: *ty_span,
                        value: self.lower_expr(value),
                        span: *span,
                    },
                );
            },
            Item::Function {
                name,
                name_span,
                type_params,
                params,
                ret,
                ret_span,
                body,
                span,
                ..
            } => {
                let f = self.lower_function(
                    name.clone(),
                    *name_span,
                    type_params,
                    params,
                    ret,
                    *ret_span,
                    body,
                    *span,
                );
                out.push(f);
            },
        }
        assert(model::all(out@) =~= want);
        out
    }

    fn lower_items(&mut self, xs: &Vec<Item>) -> (r: Vec<HirItem>)
        ensures
            final(self).res == old(self).res,
            (model::all(r@), final(self).ids()) == lowered_items(
                old(self).res@,
                old(self).ids(),
                model::all(xs@),
            ),
    {
        let ghost all = model::all(xs@);
        let mut out: Vec<HirItem> = Vec::new();
        let mut i: usize = 0;
        assert(all.take(0).len() == 0);
        while i < xs.len()
            invariant
                i <= xs@.len(),
                all == model::all(xs@),
                self.res == old(self).res,
                (model::all(out@), self.ids()) == lowered_items(
                    old(self).res@,
                    old(self).ids(),
                    all.take(i as int),
                ),
            decreases xs@.len() - i,
        {
            assert(all.take(i + 1).drop_last() =~= all.take(i as int));
            assert(all.take(i + 1).last() == all[i as int]);
            let ghost before = model::all(out@);
            let ghost t = self.ids();
            let mut more = self.lower_item(&xs[i]);
            let ghost added = more@;
            out.append(&mut more);
            assert(model::all(out@) =~= before + model::all(added));
            i += 1;
        }
        assert(all.take(all.len() as int) =~= all);
        out
    }
}

fn clone_ty(t: &Option<VlType>) -> (r: Option<VlType>)
    ensures
        model::opt(r) == model::opt(*t),
{
    match t {
        Some(t) => Some(t.clone()),
        None => None,
    }
}

fn lower_type_params(ps: &Vec<TypeParam>) -> (r: Vec<HirTypeParam>)
    ensures
        model::all(r@) == lowered_type_params(model::all(ps@)),
{
    let mut out: Vec<HirTypeParam> = Vec::new();
    let mut i: usize = 0;
    while i < ps.len()
        invariant
            i <= ps@.len(),
            out@.len() == i,
            forall|k: int|
                0 <= k < i ==> (#[trigger] out@[k])@ == lowered_type_params(model::all(ps@))[k],
        decreases ps@.len() - i,
    {
        out.push(HirTypeParam { name: ps[i].name.clone(), bound: ps[i].bound });
        i += 1;
    }
    assert(model::all(out@) =~= lowered_type_params(model::all(ps@)));
    out
}

fn lower_fields(fs: &Vec<ObjectField>) -> (r: Vec<(String, Option<VlType>, Span)>)
    ensures
        hir::fields_view(r@) == lowered_fields(model::all(fs@)),
{
    let mut out: Vec<(String, Option<VlType>, Span)> = Vec::new();
    let mut i: usize = 0;
    assert(model::all(fs@).take(0) =~= Seq::empty());
    while i < fs.len()
        invariant
            i <= fs@.len(),
            hir::fields_view(out@) =~= lowered_fields(model::all(fs@).take(i as int)),
        decreases fs@.len() - i,
    {
        out.push((fs[i].name.clone(), clone_ty(&fs[i].ty), fs[i].name_span));
        i += 1;
    }
    assert(model::all(fs@).take(fs@.len() as int) =~= model::all(fs@));
    out
}

fn clone_payload(ps: &Vec<(VlType, Span)>) -> (r: Vec<(VlType, Span)>)
    ensures
        ast::payload_view(r@) == ast::payload_view(ps@),
{
    let mut out: Vec<(VlType, Span)> = Vec::new();
    let mut i: usize = 0;
    while i < ps.len()
        invariant
            i <= ps@.len(),
            ast::payload_view(out@) =~= ast::payload_view(ps@).take(i as int),
        decreases ps@.len() - i,
    {
        out.push((ps[i].0.clone(), ps[i].1));
        i += 1;
    }
    assert(ast::payload_view(ps@).take(ps@.len() as int) =~= ast::payload_view(ps@));
    out
}

fn lower_variants(vs: &Vec<UnionVariant>) -> (r: Vec<HirUnionVariant>)
    ensures
        model::all(r@) == lowered_variants(model::all(vs@)),
{
    let mut out: Vec<HirUnionVariant> = Vec::new();
    let mut i: usize = 0;
    while i < vs.len()
        invariant
            i <= vs@.len(),
            out@.len() == i,
            forall|k: int|
                0 <= k < i ==> (#[trigger] out@[k])@ == lowered_variants(model::all(vs@))[k],
        decreases vs@.len() - i,
    {
        out.push(
            HirUnionVariant {
                name: vs[i].name.clone(),
                name_span: vs[i].name_span,
                payload: clone_payload(&vs[i].payload),
            },
        );
        i += 1;
    }
    assert(model::all(out@) =~= lowered_variants(model::all(vs@)));
    out
}

/// Lowers a module, or returns `None` where there are not identifiers enough.
pub fn try_lower(prog: &Program, res: &Resolution) -> (r: Option<HirProgram>)
    ensures
        match r {
            Some(p) => ids_suffice(prog@, res@) && p@ == lowered(prog@, res@),
            None => !ids_suffice(prog@, res@),
        },
{
    let mut l = Lowerer { next: 0, full: false, res };
    let items = l.lower_items(&prog.items);
    if l.full {
        None
    } else {
        Some(HirProgram { module: prog.module.clone(), items })
    }
}

/// Lowers a module for which there are identifiers enough.
pub fn lower(prog: &Program, res: &Resolution) -> (r: HirProgram)
    requires
        ids_suffice(prog@, res@),
    ensures
        r@ == lowered(prog@, res@),
{
    let mut l = Lowerer { next: 0, full: false, res };
    let items = l.lower_items(&prog.items);
    HirProgram { module: prog.module.clone(), items }
}

} // verus!
