//! The high-level intermediate representation: the syntax tree with names
//! resolved, methods as functions, and an identifier on each node.

use vstd::prelude::*;

use crate::ast::{BindingKind, Scalar};
use crate::module::{ExportKind, FuncSig, FuncSigView, SymbolRef, SymbolView};
use crate::resolution::DefId;
use crate::span::Span;
use crate::ty::{GenericBound, TypeView, VlType};
use crate::{ast, model};

verus! {

/// Identifies a node.
#[derive(Debug, Clone, Copy, PartialEq, Eq, Hash, Structural)]
pub struct HirId(pub u32);

/// A unary operator.
#[derive(Debug, Clone, Copy, PartialEq, Eq, Structural)]
pub enum HirUnOp {
    Not,
}

/// A binary operator.
#[derive(Debug, Clone, Copy, PartialEq, Eq, Structural)]
pub enum HirBinOp {
    Add,
    Sub,
    Mul,
    Div,
    Eq,
    Ne,
    Lt,
    Le,
    Gt,
    Ge,
    And,
    Or,
}

/// A type parameter.
#[derive(Debug)]
pub struct HirTypeParam {
    pub name: String,
    pub bound: Option<GenericBound>,
}

/// The content of a [`HirTypeParam`].
pub struct HirTypeParamView {
    pub name: Seq<char>,
    pub bound: Option<GenericBound>,
}

impl View for HirTypeParam {
    type V = HirTypeParamView;

    open spec fn view(&self) -> HirTypeParamView {
        HirTypeParamView {
            name: self.name@,
            bound: self.bound,
        }
    }
}

/// A name bound to a field of a tuple.
#[derive(Debug)]
pub struct HirDestructureBinding {
    pub field: Option<String>,
    pub binding: String,
    pub index: usize,
    pub def: Option<DefId>,
    pub binding_span: Span,
}

/// The content of a [`HirDestructureBinding`].
pub struct HirDestructureBindingView {
    pub field: Option<Seq<char>>,
    pub binding: Seq<char>,
    pub index: usize,
    pub def: Option<DefId>,
    pub binding_span: Span,
}

impl View for HirDestructureBinding {
    type V = HirDestructureBindingView;

    open spec fn view(&self) -> HirDestructureBindingView {
        HirDestructureBindingView {
            field: model::opt(self.field),
            binding: self.binding@,
            index: self.index,
            def: self.def,
            binding_span: self.binding_span,
        }
    }
}

/// A variant of a union type.
#[derive(Debug)]
pub struct HirUnionVariant {
    pub name: String,
    pub name_span: Span,
    pub payload: Vec<(VlType, Span)>,
}

/// The content of a [`HirUnionVariant`].
pub struct HirUnionVariantView {
    pub name: Seq<char>,
    pub name_span: Span,
    pub payload: Seq<(TypeView, Span)>,
}

impl View for HirUnionVariant {
    type V = HirUnionVariantView;

    open spec fn view(&self) -> HirUnionVariantView {
        HirUnionVariantView {
            name: self.name@,
            name_span: self.name_span,
            payload: ast::payload_view(self.payload@),
        }
    }
}

/// A name bound to a part of the payload of a variant.
#[derive(Debug)]
pub struct HirMatchBinding {
    pub binding: String,
    pub def: Option<DefId>,
    pub binding_span: Span,
}

/// The content of a [`HirMatchBinding`].
pub struct HirMatchBindingView {
    pub binding: Seq<char>,
    pub def: Option<DefId>,
    pub binding_span: Span,
}

impl View for HirMatchBinding {
    type V = HirMatchBindingView;

    open spec fn view(&self) -> HirMatchBindingView {
        HirMatchBindingView {
            binding: self.binding@,
            def: self.def,
            binding_span: self.binding_span,
        }
    }
}

/// An expression.
#[derive(Debug)]
pub enum HirExpr {
    /// A scalar literal.
    Literal {
        id: HirId,
        value: Scalar,
        span: Span,
    },
    /// A string literal, by its bytes.
    String {
        id: HirId,
        value: Vec<u8>,
        span: Span,
    },
    /// An array literal.
    ArrayLiteral {
        id: HirId,
        elems: Vec<HirExpr>,
        span: Span,
    },
    /// An object literal.
    ObjectLiteral {
        id: HirId,
        name: String,
        fields: Vec<(String, HirExpr)>,
        span: Span,
    },
    /// A variant of a union with its payload.
    Variant {
        id: HirId,
        union: String,
        variant: String,
        type_args: Vec<VlType>,
        args: Vec<HirExpr>,
        span: Span,
    },
    /// `base[index]`.
    Index {
        id: HirId,
        base: Box<HirExpr>,
        index: Box<HirExpr>,
        span: Span,
    },
    /// `base.name`.
    Field {
        id: HirId,
        base: Box<HirExpr>,
        name: String,
        span: Span,
    },
    /// A tuple literal.
    TupleLiteral {
        id: HirId,
        elems: Vec<(Option<String>, HirExpr)>,
        span: Span,
    },
    /// A field of a tuple by its position.
    TupleIndex {
        id: HirId,
        base: Box<HirExpr>,
        index: usize,
        span: Span,
    },
    /// A variable, with its definition where it was resolved.
    Var {
        id: HirId,
        def: Option<DefId>,
        name: String,
        span: Span,
    },
    /// `null`.
    Null {
        id: HirId,
        span: Span,
    },
    /// A call of a function by name.
    Call {
        id: HirId,
        def: Option<DefId>,
        external: bool,
        extern_sig: Option<FuncSig>,
        extern_kind: Option<ExportKind>,
        symbol: Option<SymbolRef>,
        name: String,
        type_args: Vec<VlType>,
        args: Vec<HirExpr>,
        span: Span,
    },
    /// A call `receiver.method(args)` on a value.
    MethodCall {
        id: HirId,
        receiver: Box<HirExpr>,
        method: String,
        method_span: Span,
        type_args: Vec<VlType>,
        args: Vec<HirExpr>,
        span: Span,
    },
    /// A binary operation.
    Binary {
        id: HirId,
        op: HirBinOp,
        lhs: Box<HirExpr>,
        rhs: Box<HirExpr>,
        span: Span,
    },
    /// A unary operation.
    Unary {
        id: HirId,
        op: HirUnOp,
        inner: Box<HirExpr>,
        span: Span,
    },
    /// A conversion.
    Cast {
        id: HirId,
        inner: Box<HirExpr>,
        target: VlType,
        target_span: Span,
        span: Span,
    },
}

/// The content of a [`HirExpr`].
pub enum HirExprView {
    Literal {
        id: HirId,
        value: Scalar,
        span: Span,
    },
    String {
        id: HirId,
        value: Seq<u8>,
        span: Span,
    },
    ArrayLiteral {
        id: HirId,
        elems: Seq<HirExprView>,
        span: Span,
    },
    ObjectLiteral {
        id: HirId,
        name: Seq<char>,
        fields: Seq<(Seq<char>, HirExprView)>,
        span: Span,
    },
    Variant {
        id: HirId,
        union: Seq<char>,
        variant: Seq<char>,
        type_args: Seq<TypeView>,
        args: Seq<HirExprView>,
        span: Span,
    },
    Index {
        id: HirId,
        base: Box<HirExprView>,
        index: Box<HirExprView>,
        span: Span,
    },
    Field {
        id: HirId,
        base: Box<HirExprView>,
        name: Seq<char>,
        span: Span,
    },
    TupleLiteral {
        id: HirId,
        elems: Seq<(Option<Seq<char>>, HirExprView)>,
        span: Span,
    },
    TupleIndex {
        id: HirId,
        base: Box<HirExprView>,
        index: usize,
        span: Span,
    },
    Var {
        id: HirId,
        def: Option<DefId>,
        name: Seq<char>,
        span: Span,
    },
    Null {
        id: HirId,
        span: Span,
    },
    Call {
        id: HirId,
        def: Option<DefId>,
        external: bool,
        extern_sig: Option<FuncSigView>,
        extern_kind: Option<ExportKind>,
        symbol: Option<SymbolView>,
        name: Seq<char>,
        type_args: Seq<TypeView>,
        args: Seq<HirExprView>,
        span: Span,
    },
    MethodCall {
        id: HirId,
        receiver: Box<HirExprView>,
        method: Seq<char>,
        method_span: Span,
        type_args: Seq<TypeView>,
        args: Seq<HirExprView>,
        span: Span,
    },
    Binary {
        id: HirId,
        op: HirBinOp,
        lhs: Box<HirExprView>,
        rhs: Box<HirExprView>,
        span: Span,
    },
    Unary {
        id: HirId,
        op: HirUnOp,
        inner: Box<HirExprView>,
        span: Span,
    },
    Cast {
        id: HirId,
        inner: Box<HirExprView>,
        target: TypeView,
        target_span: Span,
        span: Span,
    },
}

/// The content of a value.
pub open spec fn expr_view(x: HirExpr) -> HirExprView
    decreases x,
{
    match x {
        HirExpr::Literal { id, value, span } => HirExprView::Literal {
            id,
            value,
            span,
        },
        HirExpr::String { id, value, span } => HirExprView::String {
            id,
            value: value@,
            span,
        },
        HirExpr::ArrayLiteral { id, elems, span } => HirExprView::ArrayLiteral {
            id,
            elems: exprs_view(elems@),
            span,
        },
        HirExpr::ObjectLiteral { id, name, fields, span } => HirExprView::ObjectLiteral {
            id,
            name: name@,
            fields: named_view(fields@),
            span,
        },
        HirExpr::Variant { id, union, variant, type_args, args, span } => HirExprView::Variant {
            id,
            union: union@,
            variant: variant@,
            type_args: model::all(type_args@),
            args: exprs_view(args@),
            span,
        },
        HirExpr::Index { id, base, index, span } => HirExprView::Index {
            id,
            base: Box::new(expr_view(*base)),
            index: Box::new(expr_view(*index)),
            span,
        },
        HirExpr::Field { id, base, name, span } => HirExprView::Field {
            id,
            base: Box::new(expr_view(*base)),
            name: name@,
            span,
        },
        HirExpr::TupleLiteral { id, elems, span } => HirExprView::TupleLiteral {
            id,
            elems: elems_view(elems@),
            span,
        },
        HirExpr::TupleIndex { id, base, index, span } => HirExprView::TupleIndex {
            id,
            base: Box::new(expr_view(*base)),
            index,
            span,
        },
        HirExpr::Var { id, def, name, span } => HirExprView::Var {
            id,
            def,
            name: name@,
            span,
        },
        HirExpr::Null { id, span } => HirExprView::Null {
            id,
            span,
        },
        HirExpr::Call { id, def, external, extern_sig, extern_kind, symbol, name, type_args, args, span } => HirExprView::Call {
            id,
            def,
            external,
            extern_sig: model::opt(extern_sig),
            extern_kind,
            symbol: model::opt(symbol),
            name: name@,
            type_args: model::all(type_args@),
            args: exprs_view(args@),
            span,
        },
        HirExpr::MethodCall { id, receiver, method, method_span, type_args, args, span } => HirExprView::MethodCall {
            id,
            receiver: Box::new(expr_view(*receiver)),
            method: method@,
            method_span,
            type_args: model::all(type_args@),
            args: exprs_view(args@),
            span,
        },
        HirExpr::Binary { id, op, lhs, rhs, span } => HirExprView::Binary {
            id,
            op,
            lhs: Box::new(expr_view(*lhs)),
            rhs: Box::new(expr_view(*rhs)),
            span,
        },
        HirExpr::Unary { id, op, inner, span } => HirExprView::Unary {
            id,
            op,
            inner: Box::new(expr_view(*inner)),
            span,
        },
        HirExpr::Cast { id, inner, target, target_span, span } => HirExprView::Cast {
            id,
            inner: Box::new(expr_view(*inner)),
            target: target@,
            target_span,
            span,
        },
    }
}

impl View for HirExpr {
    type V = HirExprView;

    open spec fn view(&self) -> HirExprView {
        expr_view(*self)
    }
}

/// An arm of a `match`.
#[derive(Debug)]
pub struct HirMatchArm {
    pub union: String,
    pub variant: String,
    pub bindings: Vec<HirMatchBinding>,
    pub body: Vec<HirStmt>,
    pub span: Span,
}

/// The content of a [`HirMatchArm`].
pub struct HirMatchArmView {
    pub union: Seq<char>,
    pub variant: Seq<char>,
    pub bindings: Seq<HirMatchBindingView>,
    pub body: Seq<HirStmtView>,
    pub span: Span,
}

/// The content of a value.
pub open spec fn arm_view(x: HirMatchArm) -> HirMatchArmView
    decreases x,
{
    HirMatchArmView {
        union: x.union@,
        variant: x.variant@,
        bindings: model::all(x.bindings@),
        body: stmts_view(x.body@),
        span: x.span,
    }
}

impl View for HirMatchArm {
    type V = HirMatchArmView;

    open spec fn view(&self) -> HirMatchArmView {
        arm_view(*self)
    }
}

/// A statement.
#[derive(Debug)]
pub enum HirStmt {
    /// A local binding.
    Let {
        id: HirId,
        def: Option<DefId>,
        kind: BindingKind,
        ty: Option<VlType>,
        ty_span: Option<Span>,
        value: HirExpr,
        span: Span,
    },
    /// An assignment to a variable.
    Assign {
        id: HirId,
        def: Option<DefId>,
        value: HirExpr,
        span: Span,
    },
    /// An assignment to an element of an array.
    IndexAssign {
        id: HirId,
        array: Box<HirExpr>,
        index: Box<HirExpr>,
        value: Box<HirExpr>,
        span: Span,
    },
    /// An assignment to a field of an object.
    FieldAssign {
        id: HirId,
        base: Box<HirExpr>,
        field: String,
        value: Box<HirExpr>,
        span: Span,
    },
    /// An assignment to a field of a tuple.
    TupleAssign {
        id: HirId,
        base: Box<HirExpr>,
        index: usize,
        value: Box<HirExpr>,
        span: Span,
    },
    /// Bindings to the fields of a tuple.
    Destructure {
        id: HirId,
        kind: BindingKind,
        bindings: Vec<HirDestructureBinding>,
        ty: Option<VlType>,
        ty_span: Option<Span>,
        value: HirExpr,
        span: Span,
    },
    /// `if`.
    If {
        condition: HirExpr,
        then_body: Vec<HirStmt>,
        else_body: Option<Vec<HirStmt>>,
        span: Span,
    },
    /// `match`.
    Match {
        scrutinee: HirExpr,
        arms: Vec<HirMatchArm>,
        else_body: Option<Vec<HirStmt>>,
        span: Span,
    },
    /// `while`.
    While {
        condition: HirExpr,
        body: Vec<HirStmt>,
        span: Span,
    },
    /// `break`.
    Break {
        span: Span,
    },
    /// `continue`.
    Continue {
        span: Span,
    },
    /// `return`.
    Return {
        value: Option<HirExpr>,
        span: Span,
    },
    /// An expression statement.
    Expr(HirExpr),
}

/// The content of a [`HirStmt`].
pub enum HirStmtView {
    Let {
        id: HirId,
        def: Option<DefId>,
        kind: BindingKind,
        ty: Option<TypeView>,
        ty_span: Option<Span>,
        value: HirExprView,
        span: Span,
    },
    Assign {
        id: HirId,
        def: Option<DefId>,
        value: HirExprView,
        span: Span,
    },
    IndexAssign {
        id: HirId,
        array: Box<HirExprView>,
        index: Box<HirExprView>,
        value: Box<HirExprView>,
        span: Span,
    },
    FieldAssign {
        id: HirId,
        base: Box<HirExprView>,
        field: Seq<char>,
        value: Box<HirExprView>,
        span: Span,
    },
    TupleAssign {
        id: HirId,
        base: Box<HirExprView>,
        index: usize,
        value: Box<HirExprView>,
        span: Span,
    },
    Destructure {
        id: HirId,
        kind: BindingKind,
        bindings: Seq<HirDestructureBindingView>,
        ty: Option<TypeView>,
        ty_span: Option<Span>,
        value: HirExprView,
        span: Span,
    },
    If {
        condition: HirExprView,
        then_body: Seq<HirStmtView>,
        else_body: Option<Seq<HirStmtView>>,
        span: Span,
    },
    Match {
        scrutinee: HirExprView,
        arms: Seq<HirMatchArmView>,
        else_body: Option<Seq<HirStmtView>>,
        span: Span,
    },
    While {
        condition: HirExprView,
        body: Seq<HirStmtView>,
        span: Span,
    },
    Break {
        span: Span,
    },
    Continue {
        span: Span,
    },
    Return {
        value: Option<HirExprView>,
        span: Span,
    },
    Expr(HirExprView),
}

/// The content of a value.
pub open spec fn stmt_view(x: HirStmt) -> HirStmtView
    decreases x,
{
    match x {
        HirStmt::Let { id, def, kind, ty, ty_span, value, span } => HirStmtView::Let {
            id,
            def,
            kind,
            ty: model::opt(ty),
            ty_span,
            value: expr_view(value),
            span,
        },
        HirStmt::Assign { id, def, value, span } => HirStmtView::Assign {
            id,
            def,
            value: expr_view(value),
            span,
        },
        HirStmt::IndexAssign { id, array, index, value, span } => HirStmtView::IndexAssign {
            id,
            array: Box::new(expr_view(*array)),
            index: Box::new(expr_view(*index)),
            value: Box::new(expr_view(*value)),
            span,
        },
        HirStmt::FieldAssign { id, base, field, value, span } => HirStmtView::FieldAssign {
            id,
            base: Box::new(expr_view(*base)),
            field: field@,
            value: Box::new(expr_view(*value)),
            span,
        },
        HirStmt::TupleAssign { id, base, index, value, span } => HirStmtView::TupleAssign {
            id,
            base: Box::new(expr_view(*base)),
            index,
            value: Box::new(expr_view(*value)),
            span,
        },
        HirStmt::Destructure { id, kind, bindings, ty, ty_span, value, span } => HirStmtView::Destructure {
            id,
            kind,
            bindings: model::all(bindings@),
            ty: model::opt(ty),
            ty_span,
            value: expr_view(value),
            span,
        },
        HirStmt::If { condition, then_body, else_body, span } => HirStmtView::If {
            condition: expr_view(condition),
            then_body: stmts_view(then_body@),
            else_body: match else_body { Some(v) => Some(stmts_view(v@)), None => None },
            span,
        },
        HirStmt::Match { scrutinee, arms, else_body, span } => HirStmtView::Match {
            scrutinee: expr_view(scrutinee),
            arms: arms_view(arms@),
            else_body: match else_body { Some(v) => Some(stmts_view(v@)), None => None },
            span,
        },
        HirStmt::While { condition, body, span } => HirStmtView::While {
            condition: expr_view(condition),
            body: stmts_view(body@),
            span,
        },
        HirStmt::Break { span } => HirStmtView::Break {
            span,
        },
        HirStmt::Continue { span } => HirStmtView::Continue {
            span,
        },
        HirStmt::Return { value, span } => HirStmtView::Return {
            value: match value { Some(v) => Some(expr_view(v)), None => None },
            span,
        },
        HirStmt::Expr(a) => HirStmtView::Expr(expr_view(a)),
    }
}

impl View for HirStmt {
    type V = HirStmtView;

    open spec fn view(&self) -> HirStmtView {
        stmt_view(*self)
    }
}

/// A top-level item.
#[derive(Debug)]
pub enum HirItem {
    /// An object type.
    Object {
        name: String,
        fields: Vec<(String, Option<VlType>, Span)>,
        span: Span,
    },
    /// A union type.
    Union {
        name: String,
        type_params: Vec<HirTypeParam>,
        variants: Vec<HirUnionVariant>,
        span: Span,
    },
    /// A global binding.
    Let {
        id: HirId,
        def: Option<DefId>,
        kind: BindingKind,
        ty: Option<VlType>,
        ty_span: Option<Span>,
        value: HirExpr,
        span: Span,
    },
    /// Global bindings to the fields of a tuple.
    Destructure {
        id: HirId,
        kind: BindingKind,
        bindings: Vec<HirDestructureBinding>,
        ty: Option<VlType>,
        ty_span: Option<Span>,
        value: HirExpr,
        span: Span,
    },
    /// A function, or an associated function under the name `Owner.name`.
    Fn {
        id: HirId,
        def: Option<DefId>,
        name: String,
        type_params: Vec<HirTypeParam>,
        params: Vec<(String, Option<DefId>, Option<VlType>, Span)>,
        ret: Option<VlType>,
        ret_span: Option<Span>,
        body: Vec<HirStmt>,
        span: Span,
    },
}

/// The content of a [`HirItem`].
pub enum HirItemView {
    Object {
        name: Seq<char>,
        fields: Seq<(Seq<char>, Option<TypeView>, Span)>,
        span: Span,
    },
    Union {
        name: Seq<char>,
        type_params: Seq<HirTypeParamView>,
        variants: Seq<HirUnionVariantView>,
        span: Span,
    },
    Let {
        id: HirId,
        def: Option<DefId>,
        kind: BindingKind,
        ty: Option<TypeView>,
        ty_span: Option<Span>,
        value: HirExprView,
        span: Span,
    },
    Destructure {
        id: HirId,
        kind: BindingKind,
        bindings: Seq<HirDestructureBindingView>,
        ty: Option<TypeView>,
        ty_span: Option<Span>,
        value: HirExprView,
        span: Span,
    },
    Fn {
        id: HirId,
        def: Option<DefId>,
        name: Seq<char>,
        type_params: Seq<HirTypeParamView>,
        params: Seq<(Seq<char>, Option<DefId>, Option<TypeView>, Span)>,
        ret: Option<TypeView>,
        ret_span: Option<Span>,
        body: Seq<HirStmtView>,
        span: Span,
    },
}

/// The content of a value.
pub open spec fn item_view(x: HirItem) -> HirItemView
{
    match x {
        HirItem::Object { name, fields, span } => HirItemView::Object {
            name: name@,
            fields: fields_view(fields@),
            span,
        },
        HirItem::Union { name, type_params, variants, span } => HirItemView::Union {
            name: name@,
            type_params: model::all(type_params@),
            variants: model::all(variants@),
            span,
        },
        HirItem::Let { id, def, kind, ty, ty_span, value, span } => HirItemView::Let {
            id,
            def,
            kind,
            ty: model::opt(ty),
            ty_span,
            value: expr_view(value),
            span,
        },
        HirItem::Destructure { id, kind, bindings, ty, ty_span, value, span } => HirItemView::Destructure {
            id,
            kind,
            bindings: model::all(bindings@),
            ty: model::opt(ty),
            ty_span,
            value: expr_view(value),
            span,
        },
        HirItem::Fn { id, def, name, type_params, params, ret, ret_span, body, span } => HirItemView::Fn {
            id,
            def,
            name: name@,
            type_params: model::all(type_params@),
            params: params_view(params@),
            ret: model::opt(ret),
            ret_span,
            body: stmts_view(body@),
            span,
        },
    }
}

impl View for HirItem {
    type V = HirItemView;

    open spec fn view(&self) -> HirItemView {
        item_view(*self)
    }
}

/// A module.
#[derive(Debug)]
pub struct HirProgram {
    pub module: String,
    pub items: Vec<HirItem>,
}

/// The content of a [`HirProgram`].
pub struct HirProgramView {
    pub module: Seq<char>,
    pub items: Seq<HirItemView>,
}

impl View for HirProgram {
    type V = HirProgramView;

    open spec fn view(&self) -> HirProgramView {
        HirProgramView {
            module: self.module@,
            items: model::all(self.items@),
        }
    }
}

/// The contents of a sequence of values.
pub open spec fn exprs_view(s: Seq<HirExpr>) -> Seq<HirExprView>
    decreases s,
{
    Seq::new(
        s.len(),
        |i: int|
            if 0 <= i < s.len() {
                expr_view(s[i])
            } else {
                arbitrary()
            },
    )
}

pub broadcast proof fn exprs_view_push(s: Seq<HirExpr>, x: HirExpr)
    ensures
        #[trigger] exprs_view(s.push(x)) == exprs_view(s).push(expr_view(x)),
{
    assert(exprs_view(s.push(x)) =~= exprs_view(s).push(expr_view(x)));
}

pub broadcast proof fn exprs_view_empty()
    ensures
        #[trigger] exprs_view(Seq::<HirExpr>::empty()) == Seq::<HirExprView>::empty(),
{
    assert(exprs_view(Seq::<HirExpr>::empty()) =~= Seq::<HirExprView>::empty());
}

/// The contents of a sequence of values.
pub open spec fn stmts_view(s: Seq<HirStmt>) -> Seq<HirStmtView>
    decreases s,
{
    Seq::new(
        s.len(),
        |i: int|
            if 0 <= i < s.len() {
                stmt_view(s[i])
            } else {
                arbitrary()
            },
    )
}

pub broadcast proof fn stmts_view_push(s: Seq<HirStmt>, x: HirStmt)
    ensures
        #[trigger] stmts_view(s.push(x)) == stmts_view(s).push(stmt_view(x)),
{
    assert(stmts_view(s.push(x)) =~= stmts_view(s).push(stmt_view(x)));
}

pub broadcast proof fn stmts_view_empty()
    ensures
        #[trigger] stmts_view(Seq::<HirStmt>::empty()) == Seq::<HirStmtView>::empty(),
{
    assert(stmts_view(Seq::<HirStmt>::empty()) =~= Seq::<HirStmtView>::empty());
}

/// The contents of a sequence of values.
pub open spec fn named_view(s: Seq<(String, HirExpr)>) -> Seq<(Seq<char>, HirExprView)>
    decreases s,
{
    Seq::new(
        s.len(),
        |i: int|
            if 0 <= i < s.len() {
                (s[i].0@, expr_view(s[i].1))
            } else {
                arbitrary()
            },
    )
}

pub broadcast proof fn named_view_push(s: Seq<(String, HirExpr)>, x: (String, HirExpr))
    ensures
        #[trigger] named_view(s.push(x)) == named_view(s).push((x.0@, expr_view(x.1))),
{
    assert(named_view(s.push(x)) =~= named_view(s).push((x.0@, expr_view(x.1))));
}

pub broadcast proof fn named_view_empty()
    ensures
        #[trigger] named_view(Seq::<(String, HirExpr)>::empty()) == Seq::<(Seq<char>, HirExprView)>::empty(),
{
    assert(named_view(Seq::<(String, HirExpr)>::empty()) =~= Seq::<(Seq<char>, HirExprView)>::empty());
}

/// The contents of a sequence of values.
pub open spec fn elems_view(s: Seq<(Option<String>, HirExpr)>) -> Seq<(Option<Seq<char>>, HirExprView)>
    decreases s,
{
    Seq::new(
        s.len(),
        |i: int|
            if 0 <= i < s.len() {
                (model::opt(s[i].0), expr_view(s[i].1))
            } else {
                arbitrary()
            },
    )
}

pub broadcast proof fn elems_view_push(s: Seq<(Option<String>, HirExpr)>, x: (Option<String>, HirExpr))
    ensures
        #[trigger] elems_view(s.push(x)) == elems_view(s).push((model::opt(x.0), expr_view(x.1))),
{
    assert(elems_view(s.push(x)) =~= elems_view(s).push((model::opt(x.0), expr_view(x.1))));
}

pub broadcast proof fn elems_view_empty()
    ensures
        #[trigger] elems_view(Seq::<(Option<String>, HirExpr)>::empty()) == Seq::<(Option<Seq<char>>, HirExprView)>::empty(),
{
    assert(elems_view(Seq::<(Option<String>, HirExpr)>::empty()) =~= Seq::<(Option<Seq<char>>, HirExprView)>::empty());
}

/// The contents of a sequence of values.
pub open spec fn arms_view(s: Seq<HirMatchArm>) -> Seq<HirMatchArmView>
    decreases s,
{
    Seq::new(
        s.len(),
        |i: int|
            if 0 <= i < s.len() {
                arm_view(s[i])
            } else {
                arbitrary()
            },
    )
}

pub broadcast proof fn arms_view_push(s: Seq<HirMatchArm>, x: HirMatchArm)
    ensures
        #[trigger] arms_view(s.push(x)) == arms_view(s).push(arm_view(x)),
{
    assert(arms_view(s.push(x)) =~= arms_view(s).push(arm_view(x)));
}

pub broadcast proof fn arms_view_empty()
    ensures
        #[trigger] arms_view(Seq::<HirMatchArm>::empty()) == Seq::<HirMatchArmView>::empty(),
{
    assert(arms_view(Seq::<HirMatchArm>::empty()) =~= Seq::<HirMatchArmView>::empty());
}

/// The contents of a sequence of values.
pub open spec fn params_view(s: Seq<(String, Option<DefId>, Option<VlType>, Span)>) -> Seq<(Seq<char>, Option<DefId>, Option<TypeView>, Span)>
    decreases s,
{
    Seq::new(
        s.len(),
        |i: int|
            if 0 <= i < s.len() {
                (s[i].0@, s[i].1, model::opt(s[i].2), s[i].3)
            } else {
                arbitrary()
            },
    )
}

pub broadcast proof fn params_view_push(s: Seq<(String, Option<DefId>, Option<VlType>, Span)>, x: (String, Option<DefId>, Option<VlType>, Span))
    ensures
        #[trigger] params_view(s.push(x)) == params_view(s).push((x.0@, x.1, model::opt(x.2), x.3)),
{
    assert(params_view(s.push(x)) =~= params_view(s).push((x.0@, x.1, model::opt(x.2), x.3)));
}

pub broadcast proof fn params_view_empty()
    ensures
        #[trigger] params_view(Seq::<(String, Option<DefId>, Option<VlType>, Span)>::empty()) == Seq::<(Seq<char>, Option<DefId>, Option<TypeView>, Span)>::empty(),
{
    assert(params_view(Seq::<(String, Option<DefId>, Option<VlType>, Span)>::empty()) =~= Seq::<(Seq<char>, Option<DefId>, Option<TypeView>, Span)>::empty());
}

/// The contents of a sequence of values.
pub open spec fn fields_view(s: Seq<(String, Option<VlType>, Span)>) -> Seq<(Seq<char>, Option<TypeView>, Span)>
    decreases s,
{
    Seq::new(
        s.len(),
        |i: int|
            if 0 <= i < s.len() {
                (s[i].0@, model::opt(s[i].1), s[i].2)
            } else {
                arbitrary()
            },
    )
}

pub broadcast proof fn fields_view_push(s: Seq<(String, Option<VlType>, Span)>, x: (String, Option<VlType>, Span))
    ensures
        #[trigger] fields_view(s.push(x)) == fields_view(s).push((x.0@, model::opt(x.1), x.2)),
{
    assert(fields_view(s.push(x)) =~= fields_view(s).push((x.0@, model::opt(x.1), x.2)));
}

pub broadcast proof fn fields_view_empty()
    ensures
        #[trigger] fields_view(Seq::<(String, Option<VlType>, Span)>::empty()) == Seq::<(Seq<char>, Option<TypeView>, Span)>::empty(),
{
    assert(fields_view(Seq::<(String, Option<VlType>, Span)>::empty()) =~= Seq::<(Seq<char>, Option<TypeView>, Span)>::empty());
}

pub broadcast group group_hir {
    exprs_view_push,
    exprs_view_empty,
    stmts_view_push,
    stmts_view_empty,
    named_view_push,
    named_view_empty,
    elems_view_push,
    elems_view_empty,
    arms_view_push,
    arms_view_empty,
    params_view_push,
    params_view_empty,
    fields_view_push,
    fields_view_empty,
}

impl HirExprView {
    /// The identifier of the expression.
    pub open spec fn id(self) -> HirId {
        match self {
            HirExprView::Literal { id, .. } => id,
            HirExprView::String { id, .. } => id,
            HirExprView::ArrayLiteral { id, .. } => id,
            HirExprView::ObjectLiteral { id, .. } => id,
            HirExprView::Variant { id, .. } => id,
            HirExprView::Index { id, .. } => id,
            HirExprView::Field { id, .. } => id,
            HirExprView::TupleLiteral { id, .. } => id,
            HirExprView::TupleIndex { id, .. } => id,
            HirExprView::Var { id, .. } => id,
            HirExprView::Null { id, .. } => id,
            HirExprView::Call { id, .. } => id,
            HirExprView::MethodCall { id, .. } => id,
            HirExprView::Binary { id, .. } => id,
            HirExprView::Unary { id, .. } => id,
            HirExprView::Cast { id, .. } => id,
        }
    }

    /// Where the expression stands.
    pub open spec fn span(self) -> Span {
        match self {
            HirExprView::Literal { span, .. } => span,
            HirExprView::String { span, .. } => span,
            HirExprView::ArrayLiteral { span, .. } => span,
            HirExprView::ObjectLiteral { span, .. } => span,
            HirExprView::Variant { span, .. } => span,
            HirExprView::Index { span, .. } => span,
            HirExprView::Field { span, .. } => span,
            HirExprView::TupleLiteral { span, .. } => span,
            HirExprView::TupleIndex { span, .. } => span,
            HirExprView::Var { span, .. } => span,
            HirExprView::Null { span, .. } => span,
            HirExprView::Call { span, .. } => span,
            HirExprView::MethodCall { span, .. } => span,
            HirExprView::Binary { span, .. } => span,
            HirExprView::Unary { span, .. } => span,
            HirExprView::Cast { span, .. } => span,
        }
    }
}

impl HirExpr {
    /// The identifier of the expression.
    pub fn id(&self) -> (r: HirId)
        ensures
            r == self@.id(),
    {
        match self {
            HirExpr::Literal { id, .. } => *id,
            HirExpr::String { id, .. } => *id,
            HirExpr::ArrayLiteral { id, .. } => *id,
            HirExpr::ObjectLiteral { id, .. } => *id,
            HirExpr::Variant { id, .. } => *id,
            HirExpr::Index { id, .. } => *id,
            HirExpr::Field { id, .. } => *id,
            HirExpr::TupleLiteral { id, .. } => *id,
            HirExpr::TupleIndex { id, .. } => *id,
            HirExpr::Var { id, .. } => *id,
            HirExpr::Null { id, .. } => *id,
            HirExpr::Call { id, .. } => *id,
            HirExpr::MethodCall { id, .. } => *id,
            HirExpr::Binary { id, .. } => *id,
            HirExpr::Unary { id, .. } => *id,
            HirExpr::Cast { id, .. } => *id,
        }
    }

    /// Where the expression stands.
    pub fn span(&self) -> (r: Span)
        ensures
            r == self@.span(),
    {
        match self {
            HirExpr::Literal { span, .. } => *span,
            HirExpr::String { span, .. } => *span,
            HirExpr::ArrayLiteral { span, .. } => *span,
            HirExpr::ObjectLiteral { span, .. } => *span,
            HirExpr::Variant { span, .. } => *span,
            HirExpr::Index { span, .. } => *span,
            HirExpr::Field { span, .. } => *span,
            HirExpr::TupleLiteral { span, .. } => *span,
            HirExpr::TupleIndex { span, .. } => *span,
            HirExpr::Var { span, .. } => *span,
            HirExpr::Null { span, .. } => *span,
            HirExpr::Call { span, .. } => *span,
            HirExpr::MethodCall { span, .. } => *span,
            HirExpr::Binary { span, .. } => *span,
            HirExpr::Unary { span, .. } => *span,
            HirExpr::Cast { span, .. } => *span,
        }
    }
}

} // verus!
