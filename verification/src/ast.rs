//! The syntax tree.

use vstd::prelude::*;

use crate::model;
use crate::span::Span;
use crate::ty::{GenericBound, TypeView, VlType};

verus! {

/// A scalar value of a literal.
#[derive(Debug, Clone, Copy, PartialEq, Eq, Structural)]
pub enum Scalar {
    /// An integer whose type the context decides.
    Int(i64),
    U64(u64),
    I64(i64),
    /// A double by its bit pattern.
    F64(u64),
    Bool(bool),
    U8(u8),
}

/// Whether a binding may be assigned again.
#[derive(Debug, Clone, Copy, PartialEq, Eq, Structural)]
pub enum BindingKind {
    /// A fixed binding.
    Val,
    /// A binding that may be assigned again.
    Var,
}

/// A binary operator.
#[derive(Debug, Clone, Copy, PartialEq, Eq, Structural)]
pub enum BinOp {
    Add,
    Sub,
    Mul,
    Div,
    Eq,
    Ne,
    Lt,
    Le,
    Gt,
    Ge,
    And,
    Or,
}

/// A unary operator.
#[derive(Debug, Clone, Copy, PartialEq, Eq, Structural)]
pub enum UnOp {
    Neg,
    Not,
}

/// A parameter of a function. A parameter whose type is missing or wrong has none.
#[derive(Debug)]
pub struct Param {
    pub name: String,
    pub name_span: Span,
    pub ty: Option<VlType>,
    pub ty_span: Option<Span>,
}

/// The content of a [`Param`].
pub struct ParamView {
    pub name: Seq<char>,
    pub name_span: Span,
    pub ty: Option<TypeView>,
    pub ty_span: Option<Span>,
}

impl View for Param {
    type V = ParamView;

    open spec fn view(&self) -> ParamView {
        ParamView {
            name: self.name@,
            name_span: self.name_span,
            ty: model::opt(self.ty),
            ty_span: self.ty_span,
        }
    }
}

/// A type parameter of a function or a union.
#[derive(Debug)]
pub struct TypeParam {
    pub name: String,
    pub span: Span,
    pub bound: Option<GenericBound>,
}

/// The content of a [`TypeParam`].
pub struct TypeParamView {
    pub name: Seq<char>,
    pub span: Span,
    pub bound: Option<GenericBound>,
}

impl View for TypeParam {
    type V = TypeParamView;

    open spec fn view(&self) -> TypeParamView {
        TypeParamView {
            name: self.name@,
            span: self.span,
            bound: self.bound,
        }
    }
}

/// A field of an object type.
#[derive(Debug)]
pub struct ObjectField {
    pub name: String,
    pub name_span: Span,
    pub ty: Option<VlType>,
    pub ty_span: Option<Span>,
}

impl View for ObjectField {
    type V = ParamView;

    open spec fn view(&self) -> ParamView {
        ParamView {
            name: self.name@,
            name_span: self.name_span,
            ty: model::opt(self.ty),
            ty_span: self.ty_span,
        }
    }
}

/// A name bound by a destructuring binding, and the tuple field it names.
#[derive(Debug)]
pub struct DestructureBinding {
    pub field: Option<String>,
    pub binding: String,
    pub binding_span: Span,
}

/// The content of a [`DestructureBinding`].
pub struct DestructureBindingView {
    pub field: Option<Seq<char>>,
    pub binding: Seq<char>,
    pub binding_span: Span,
}

impl View for DestructureBinding {
    type V = DestructureBindingView;

    open spec fn view(&self) -> DestructureBindingView {
        DestructureBindingView {
            field: model::opt(self.field),
            binding: self.binding@,
            binding_span: self.binding_span,
        }
    }
}

/// A variant of a union type.
#[derive(Debug)]
pub struct UnionVariant {
    pub name: String,
    pub name_span: Span,
    pub payload: Vec<(VlType, Span)>,
}

/// The content of a [`UnionVariant`].
pub struct UnionVariantView {
    pub name: Seq<char>,
    pub name_span: Span,
    pub payload: Seq<(TypeView, Span)>,
}

impl View for UnionVariant {
    type V = UnionVariantView;

    open spec fn view(&self) -> UnionVariantView {
        UnionVariantView {
            name: self.name@,
            name_span: self.name_span,
            payload: payload_view(self.payload@),
        }
    }
}

/// An expression.
#[derive(Debug)]
pub enum Expr {
    /// A scalar literal.
    Literal(Scalar, Span),
    /// A string literal, by its bytes.
    String(Vec<u8>, Span),
    /// `null`.
    Null(Span),
    /// `[a, b]`.
    ArrayLiteral {
        elems: Vec<Expr>,
        span: Span,
    },
    /// `Name { field = value }`.
    ObjectLiteral {
        name: String,
        name_span: Span,
        fields: Vec<(String, Span, Expr)>,
        span: Span,
    },
    /// `#(a, name: b)`.
    TupleLiteral {
        elems: Vec<(Option<String>, Span, Expr)>,
        span: Span,
    },
    /// `base[index]`.
    Index {
        base: Box<Expr>,
        index: Box<Expr>,
        span: Span,
    },
    /// `base.name`.
    Field {
        base: Box<Expr>,
        name: String,
        span: Span,
    },
    /// A field of a tuple by its position.
    TupleIndex {
        base: Box<Expr>,
        index: usize,
        index_span: Span,
        span: Span,
    },
    /// A variable.
    Var {
        path: Vec<String>,
        span: Span,
    },
    /// `callee::[T](args)`.
    Call {
        callee: Vec<String>,
        callee_span: Span,
        type_args: Vec<VlType>,
        type_args_span: Option<Span>,
        args: Vec<Expr>,
        span: Span,
    },
    /// A unary operation.
    Unary {
        op: UnOp,
        rhs: Box<Expr>,
        span: Span,
    },
    /// A binary operation.
    Binary {
        op: BinOp,
        lhs: Box<Expr>,
        rhs: Box<Expr>,
        span: Span,
    },
    /// `inner as target`.
    Cast {
        inner: Box<Expr>,
        target: VlType,
        target_span: Span,
        span: Span,
    },
}

/// The content of a [`Expr`].
pub enum ExprView {
    Literal(Scalar, Span),
    String(Seq<u8>, Span),
    Null(Span),
    ArrayLiteral {
        elems: Seq<ExprView>,
        span: Span,
    },
    ObjectLiteral {
        name: Seq<char>,
        name_span: Span,
        fields: Seq<(Seq<char>, Span, ExprView)>,
        span: Span,
    },
    TupleLiteral {
        elems: Seq<(Option<Seq<char>>, Span, ExprView)>,
        span: Span,
    },
    Index {
        base: Box<ExprView>,
        index: Box<ExprView>,
        span: Span,
    },
    Field {
        base: Box<ExprView>,
        name: Seq<char>,
        span: Span,
    },
    TupleIndex {
        base: Box<ExprView>,
        index: usize,
        index_span: Span,
        span: Span,
    },
    Var {
        path: Seq<Seq<char>>,
        span: Span,
    },
    Call {
        callee: Seq<Seq<char>>,
        callee_span: Span,
        type_args: Seq<TypeView>,
        type_args_span: Option<Span>,
        args: Seq<ExprView>,
        span: Span,
    },
    Unary {
        op: UnOp,
        rhs: Box<ExprView>,
        span: Span,
    },
    Binary {
        op: BinOp,
        lhs: Box<ExprView>,
        rhs: Box<ExprView>,
        span: Span,
    },
    Cast {
        inner: Box<ExprView>,
        target: TypeView,
        target_span: Span,
        span: Span,
    },
}

/// The content of a value.
pub open spec fn expr_view(x: Expr) -> ExprView
    decreases x,
{
    match x {
        Expr::Literal(a, b) => ExprView::Literal(a, b),
        Expr::String(a, b) => ExprView::String(a@, b),
        Expr::Null(a) => ExprView::Null(a),
        Expr::ArrayLiteral { elems, span } => ExprView::ArrayLiteral {
            elems: exprs_view(elems@),
            span,
        },
        Expr::ObjectLiteral { name, name_span, fields, span } => ExprView::ObjectLiteral {
            name: name@,
            name_span,
            fields: named_view(fields@),
            span,
        },
        Expr::TupleLiteral { elems, span } => ExprView::TupleLiteral {
            elems: elems_view(elems@),
            span,
        },
        Expr::Index { base, index, span } => ExprView::Index {
            base: Box::new(expr_view(*base)),
            index: Box::new(expr_view(*index)),
            span,
        },
        Expr::Field { base, name, span } => ExprView::Field {
            base: Box::new(expr_view(*base)),
            name: name@,
            span,
        },
        Expr::TupleIndex { base, index, index_span, span } => ExprView::TupleIndex {
            base: Box::new(expr_view(*base)),
            index,
            index_span,
            span,
        },
        Expr::Var { path, span } => ExprView::Var {
            path: model::all(path@),
            span,
        },
        Expr::Call { callee, callee_span, type_args, type_args_span, args, span } => ExprView::Call {
            callee: model::all(callee@),
            callee_span,
            type_args: model::all(type_args@),
            type_args_span,
            args: exprs_view(args@),
            span,
        },
        Expr::Unary { op, rhs, span } => ExprView::Unary {
            op,
            rhs: Box::new(expr_view(*rhs)),
            span,
        },
        Expr::Binary { op, lhs, rhs, span } => ExprView::Binary {
            op,
            lhs: Box::new(expr_view(*lhs)),
            rhs: Box::new(expr_view(*rhs)),
            span,
        },
        Expr::Cast { inner, target, target_span, span } => ExprView::Cast {
            inner: Box::new(expr_view(*inner)),
            target: target@,
            target_span,
            span,
        },
    }
}

impl View for Expr {
    type V = ExprView;

    open spec fn view(&self) -> ExprView {
        expr_view(*self)
    }
}

/// An arm of a `match`: a variant by its path (or `null`), the names its payload is bound to, and a body.
#[derive(Debug)]
pub struct MatchArm {
    pub path: Vec<String>,
    pub path_span: Span,
    pub bindings: Vec<(String, Span)>,
    pub body: Vec<Stmt>,
    pub span: Span,
}

/// The content of a [`MatchArm`].
pub struct MatchArmView {
    pub path: Seq<Seq<char>>,
    pub path_span: Span,
    pub bindings: Seq<(Seq<char>, Span)>,
    pub body: Seq<StmtView>,
    pub span: Span,
}

/// The content of a value.
pub open spec fn arm_view(x: MatchArm) -> MatchArmView
    decreases x,
{
    MatchArmView {
        path: model::all(x.path@),
        path_span: x.path_span,
        bindings: names_view(x.bindings@),
        body: stmts_view(x.body@),
        span: x.span,
    }
}

impl View for MatchArm {
    type V = MatchArmView;

    open spec fn view(&self) -> MatchArmView {
        arm_view(*self)
    }
}

/// A statement.
#[derive(Debug)]
pub enum Stmt {
    /// A local binding.
    Let {
        name: String,
        name_span: Span,
        kind: BindingKind,
        ty: Option<VlType>,
        ty_span: Option<Span>,
        value: Expr,
        span: Span,
    },
    /// `name = value;`.
    Assign {
        name: String,
        name_span: Span,
        value: Expr,
        span: Span,
    },
    /// `array[index] = value;`.
    IndexAssign {
        array: Box<Expr>,
        index: Box<Expr>,
        value: Box<Expr>,
        span: Span,
    },
    /// `base.field = value;`.
    FieldAssign {
        base: Box<Expr>,
        field: String,
        field_span: Span,
        value: Box<Expr>,
        span: Span,
    },
    /// An assignment to a field of a tuple.
    TupleAssign {
        base: Box<Expr>,
        index: usize,
        index_span: Span,
        value: Box<Expr>,
        span: Span,
    },
    /// `val #(a, b) = value;`.
    Destructure {
        bindings: Vec<DestructureBinding>,
        kind: BindingKind,
        ty: Option<VlType>,
        ty_span: Option<Span>,
        value: Expr,
        span: Span,
    },
    /// `if (condition) .. else ..`.
    If {
        condition: Expr,
        then_body: Vec<Stmt>,
        else_body: Option<Vec<Stmt>>,
        span: Span,
    },
    /// `match (scrutinee) { .. }`.
    Match {
        scrutinee: Expr,
        arms: Vec<MatchArm>,
        else_body: Option<Vec<Stmt>>,
        span: Span,
    },
    /// `while (condition) ..`.
    While {
        condition: Expr,
        body: Vec<Stmt>,
        span: Span,
    },
    /// `break;`.
    Break {
        span: Span,
    },
    /// `continue;`.
    Continue {
        span: Span,
    },
    /// `return value;`.
    Return {
        value: Option<Expr>,
        span: Span,
    },
    /// An expression statement.
    Expr(Expr),
}

/// The content of a [`Stmt`].
pub enum StmtView {
    Let {
        name: Seq<char>,
        name_span: Span,
        kind: BindingKind,
        ty: Option<TypeView>,
        ty_span: Option<Span>,
        value: ExprView,
        span: Span,
    },
    Assign {
        name: Seq<char>,
        name_span: Span,
        value: ExprView,
        span: Span,
    },
    IndexAssign {
        array: Box<ExprView>,
        index: Box<ExprView>,
        value: Box<ExprView>,
        span: Span,
    },
    FieldAssign {
        base: Box<ExprView>,
        field: Seq<char>,
        field_span: Span,
        value: Box<ExprView>,
        span: Span,
    },
    TupleAssign {
        base: Box<ExprView>,
        index: usize,
        index_span: Span,
        value: Box<ExprView>,
        span: Span,
    },
    Destructure {
        bindings: Seq<DestructureBindingView>,
        kind: BindingKind,
        ty: Option<TypeView>,
        ty_span: Option<Span>,
        value: ExprView,
        span: Span,
    },
    If {
        condition: ExprView,
        then_body: Seq<StmtView>,
        else_body: Option<Seq<StmtView>>,
        span: Span,
    },
    Match {
        scrutinee: ExprView,
        arms: Seq<MatchArmView>,
        else_body: Option<Seq<StmtView>>,
        span: Span,
    },
    While {
        condition: ExprView,
        body: Seq<StmtView>,
        span: Span,
    },
    Break {
        span: Span,
    },
    Continue {
        span: Span,
    },
    Return {
        value: Option<ExprView>,
        span: Span,
    },
    Expr(ExprView),
}

/// The content of a value.
pub open spec fn stmt_view(x: Stmt) -> StmtView
    decreases x,
{
    match x {
        Stmt::Let { name, name_span, kind, ty, ty_span, value, span } => StmtView::Let {
            name: name@,
            name_span,
            kind,
            ty: model::opt(ty),
            ty_span,
            value: expr_view(value),
            span,
        },
        Stmt::Assign { name, name_span, value, span } => StmtView::Assign {
            name: name@,
            name_span,
            value: expr_view(value),
            span,
        },
        Stmt::IndexAssign { array, index, value, span } => StmtView::IndexAssign {
            array: Box::new(expr_view(*array)),
            index: Box::new(expr_view(*index)),
            value: Box::new(expr_view(*value)),
            span,
        },
        Stmt::FieldAssign { base, field, field_span, value, span } => StmtView::FieldAssign {
            base: Box::new(expr_view(*base)),
            field: field@,
            field_span,
            value: Box::new(expr_view(*value)),
            span,
        },
        Stmt::TupleAssign { base, index, index_span, value, span } => StmtView::TupleAssign {
            base: Box::new(expr_view(*base)),
            index,
            index_span,
            value: Box::new(expr_view(*value)),
            span,
        },
        Stmt::Destructure { bindings, kind, ty, ty_span, value, span } => StmtView::Destructure {
            bindings: model::all(bindings@),
            kind,
            ty: model::opt(ty),
            ty_span,
            value: expr_view(value),
            span,
        },
        Stmt::If { condition, then_body, else_body, span } => StmtView::If {
            condition: expr_view(condition),
            then_body: stmts_view(then_body@),
            else_body: match else_body { Some(v) => Some(stmts_view(v@)), None => None },
            span,
        },
        Stmt::Match { scrutinee, arms, else_body, span } => StmtView::Match {
            scrutinee: expr_view(scrutinee),
            arms: arms_view(arms@),
            else_body: match else_body { Some(v) => Some(stmts_view(v@)), None => None },
            span,
        },
        Stmt::While { condition, body, span } => StmtView::While {
            condition: expr_view(condition),
            body: stmts_view(body@),
            span,
        },
        Stmt::Break { span } => StmtView::Break {
            span,
        },
        Stmt::Continue { span } => StmtView::Continue {
            span,
        },
        Stmt::Return { value, span } => StmtView::Return {
            value: match value { Some(v) => Some(expr_view(v)), None => None },
            span,
        },
        Stmt::Expr(a) => StmtView::Expr(expr_view(a)),
    }
}

impl View for Stmt {
    type V = StmtView;

    open spec fn view(&self) -> StmtView {
        stmt_view(*self)
    }
}

/// A function declaration.
#[derive(Debug)]
pub struct FunctionDecl {
    pub name: String,
    pub name_span: Span,
    pub type_params: Vec<TypeParam>,
    pub params: Vec<Param>,
    pub ret: Option<VlType>,
    pub ret_span: Option<Span>,
    pub body: Vec<Stmt>,
    /// Whether the signature could not be read in full.
    pub signature_poisoned: bool,
    pub span: Span,
}

/// The content of a [`FunctionDecl`].
pub struct FunctionDeclView {
    pub name: Seq<char>,
    pub name_span: Span,
    pub type_params: Seq<TypeParamView>,
    pub params: Seq<ParamView>,
    pub ret: Option<TypeView>,
    pub ret_span: Option<Span>,
    pub body: Seq<StmtView>,
    pub signature_poisoned: bool,
    pub span: Span,
}

impl View for FunctionDecl {
    type V = FunctionDeclView;

    open spec fn view(&self) -> FunctionDeclView {
        FunctionDeclView {
            name: self.name@,
            name_span: self.name_span,
            type_params: model::all(self.type_params@),
            params: model::all(self.params@),
            ret: model::opt(self.ret),
            ret_span: self.ret_span,
            body: stmts_view(self.body@),
            signature_poisoned: self.signature_poisoned,
            span: self.span,
        }
    }
}

/// A top-level item.
#[derive(Debug)]
pub enum Item {
    /// `use path.{names};`.
    Use {
        path: Vec<String>,
        names: Option<Vec<String>>,
        span: Span,
    },
    /// An object type with its fields and associated functions.
    Object {
        name: String,
        name_span: Span,
        fields: Vec<ObjectField>,
        methods: Vec<FunctionDecl>,
        span: Span,
    },
    /// A union type with its variants.
    Union {
        name: String,
        name_span: Span,
        type_params: Vec<TypeParam>,
        variants: Vec<UnionVariant>,
        span: Span,
    },
    /// A global binding.
    Let {
        name: String,
        name_span: Span,
        kind: BindingKind,
        ty: Option<VlType>,
        ty_span: Option<Span>,
        value: Expr,
        span: Span,
    },
    /// Global bindings to the fields of a tuple.
    Destructure {
        bindings: Vec<DestructureBinding>,
        kind: BindingKind,
        ty: Option<VlType>,
        ty_span: Option<Span>,
        value: Expr,
        span: Span,
    },
    /// A function.
    Function {
        name: String,
        name_span: Span,
        type_params: Vec<TypeParam>,
        params: Vec<Param>,
        ret: Option<VlType>,
        ret_span: Option<Span>,
        body: Vec<Stmt>,
        signature_poisoned: bool,
        span: Span,
    },
}

/// The content of a [`Item`].
pub enum ItemView {
    Use {
        path: Seq<Seq<char>>,
        names: Option<Seq<Seq<char>>>,
        span: Span,
    },
    Object {
        name: Seq<char>,
        name_span: Span,
        fields: Seq<ParamView>,
        methods: Seq<FunctionDeclView>,
        span: Span,
    },
    Union {
        name: Seq<char>,
        name_span: Span,
        type_params: Seq<TypeParamView>,
        variants: Seq<UnionVariantView>,
        span: Span,
    },
    Let {
        name: Seq<char>,
        name_span: Span,
        kind: BindingKind,
        ty: Option<TypeView>,
        ty_span: Option<Span>,
        value: ExprView,
        span: Span,
    },
    Destructure {
        bindings: Seq<DestructureBindingView>,
        kind: BindingKind,
        ty: Option<TypeView>,
        ty_span: Option<Span>,
        value: ExprView,
        span: Span,
    },
    Function {
        name: Seq<char>,
        name_span: Span,
        type_params: Seq<TypeParamView>,
        params: Seq<ParamView>,
        ret: Option<TypeView>,
        ret_span: Option<Span>,
        body: Seq<StmtView>,
        signature_poisoned: bool,
        span: Span,
    },
}

/// The content of a value.
pub open spec fn item_view(x: Item) -> ItemView
{
    match x {
        Item::Use { path, names, span } => ItemView::Use {
            path: model::all(path@),
            names: match names { Some(v) => Some(model::all(v@)), None => None },
            span,
        },
        Item::Object { name, name_span, fields, methods, span } => ItemView::Object {
            name: name@,
            name_span,
            fields: model::all(fields@),
            methods: model::all(methods@),
            span,
        },
        Item::Union { name, name_span, type_params, variants, span } => ItemView::Union {
            name: name@,
            name_span,
            type_params: model::all(type_params@),
            variants: model::all(variants@),
            span,
        },
        Item::Let { name, name_span, kind, ty, ty_span, value, span } => ItemView::Let {
            name: name@,
            name_span,
            kind,
            ty: model::opt(ty),
            ty_span,
            value: expr_view(value),
            span,
        },
        Item::Destructure { bindings, kind, ty, ty_span, value, span } => ItemView::Destructure {
            bindings: model::all(bindings@),
            kind,
            ty: model::opt(ty),
            ty_span,
            value: expr_view(value),
            span,
        },
        Item::Function { name, name_span, type_params, params, ret, ret_span, body, signature_poisoned, span } => ItemView::Function {
            name: name@,
            name_span,
            type_params: model::all(type_params@),
            params: model::all(params@),
            ret: model::opt(ret),
            ret_span,
            body: stmts_view(body@),
            signature_poisoned,
            span,
        },
    }
}

impl View for Item {
    type V = ItemView;

    open spec fn view(&self) -> ItemView {
        item_view(*self)
    }
}

/// A parsed module.
#[derive(Debug)]
pub struct Program {
    pub module: String,
    pub items: Vec<Item>,
}

/// The content of a [`Program`].
pub struct ProgramView {
    pub module: Seq<char>,
    pub items: Seq<ItemView>,
}

impl View for Program {
    type V = ProgramView;

    open spec fn view(&self) -> ProgramView {
        ProgramView {
            module: self.module@,
            items: model::all(self.items@),
        }
    }
}

/// The contents of a sequence of values.
pub open spec fn exprs_view(s: Seq<Expr>) -> Seq<ExprView>
    decreases s,
{
    Seq::new(
        s.len(),
        |i: int|
            if 0 <= i < s.len() {
                expr_view(s[i])
            } else {
                arbitrary()
            },
    )
}

pub broadcast proof fn exprs_view_push(s: Seq<Expr>, x: Expr)
    ensures
        #[trigger] exprs_view(s.push(x)) == exprs_view(s).push(expr_view(x)),
{
    assert(exprs_view(s.push(x)) =~= exprs_view(s).push(expr_view(x)));
}

pub broadcast proof fn exprs_view_empty()
    ensures
        #[trigger] exprs_view(Seq::<Expr>::empty()) == Seq::<ExprView>::empty(),
{
    assert(exprs_view(Seq::<Expr>::empty()) =~= Seq::<ExprView>::empty());
}

/// The contents of a sequence of values.
pub open spec fn stmts_view(s: Seq<Stmt>) -> Seq<StmtView>
    decreases s,
{
    Seq::new(
        s.len(),
        |i: int|
            if 0 <= i < s.len() {
                stmt_view(s[i])
            } else {
                arbitrary()
            },
    )
}

pub broadcast proof fn stmts_view_push(s: Seq<Stmt>, x: Stmt)
    ensures
        #[trigger] stmts_view(s.push(x)) == stmts_view(s).push(stmt_view(x)),
{
    assert(stmts_view(s.push(x)) =~= stmts_view(s).push(stmt_view(x)));
}

pub broadcast proof fn stmts_view_empty()
    ensures
        #[trigger] stmts_view(Seq::<Stmt>::empty()) == Seq::<StmtView>::empty(),
{
    assert(stmts_view(Seq::<Stmt>::empty()) =~= Seq::<StmtView>::empty());
}

/// The contents of a sequence of values.
pub open spec fn named_view(s: Seq<(String, Span, Expr)>) -> Seq<(Seq<char>, Span, ExprView)>
    decreases s,
{
    Seq::new(
        s.len(),
        |i: int|
            if 0 <= i < s.len() {
                (s[i].0@, s[i].1, expr_view(s[i].2))
            } else {
                arbitrary()
            },
    )
}

pub broadcast proof fn named_view_push(s: Seq<(String, Span, Expr)>, x: (String, Span, Expr))
    ensures
        #[trigger] named_view(s.push(x)) == named_view(s).push((x.0@, x.1, expr_view(x.2))),
{
    assert(named_view(s.push(x)) =~= named_view(s).push((x.0@, x.1, expr_view(x.2))));
}

pub broadcast proof fn named_view_empty()
    ensures
        #[trigger] named_view(Seq::<(String, Span, Expr)>::empty()) == Seq::<(Seq<char>, Span, ExprView)>::empty(),
{
    assert(named_view(Seq::<(String, Span, Expr)>::empty()) =~= Seq::<(Seq<char>, Span, ExprView)>::empty());
}

/// The contents of a sequence of values.
pub open spec fn elems_view(s: Seq<(Option<String>, Span, Expr)>) -> Seq<(Option<Seq<char>>, Span, ExprView)>
    decreases s,
{
    Seq::new(
        s.len(),
        |i: int|
            if 0 <= i < s.len() {
                (model::opt(s[i].0), s[i].1, expr_view(s[i].2))
            } else {
                arbitrary()
            },
    )
}

pub broadcast proof fn elems_view_push(s: Seq<(Option<String>, Span, Expr)>, x: (Option<String>, Span, Expr))
    ensures
        #[trigger] elems_view(s.push(x)) == elems_view(s).push((model::opt(x.0), x.1, expr_view(x.2))),
{
    assert(elems_view(s.push(x)) =~= elems_view(s).push((model::opt(x.0), x.1, expr_view(x.2))));
}

pub broadcast proof fn elems_view_empty()
    ensures
        #[trigger] elems_view(Seq::<(Option<String>, Span, Expr)>::empty()) == Seq::<(Option<Seq<char>>, Span, ExprView)>::empty(),
{
    assert(elems_view(Seq::<(Option<String>, Span, Expr)>::empty()) =~= Seq::<(Option<Seq<char>>, Span, ExprView)>::empty());
}

/// The contents of a sequence of values.
pub open spec fn arms_view(s: Seq<MatchArm>) -> Seq<MatchArmView>
    decreases s,
{
    Seq::new(
        s.len(),
        |i: int|
            if 0 <= i < s.len() {
                arm_view(s[i])
            } else {
                arbitrary()
            },
    )
}

pub broadcast proof fn arms_view_push(s: Seq<MatchArm>, x: MatchArm)
    ensures
        #[trigger] arms_view(s.push(x)) == arms_view(s).push(arm_view(x)),
{
    assert(arms_view(s.push(x)) =~= arms_view(s).push(arm_view(x)));
}

pub broadcast proof fn arms_view_empty()
    ensures
        #[trigger] arms_view(Seq::<MatchArm>::empty()) == Seq::<MatchArmView>::empty(),
{
    assert(arms_view(Seq::<MatchArm>::empty()) =~= Seq::<MatchArmView>::empty());
}

/// The contents of a sequence of values.
pub open spec fn names_view(s: Seq<(String, Span)>) -> Seq<(Seq<char>, Span)>
    decreases s,
{
    Seq::new(
        s.len(),
        |i: int|
            if 0 <= i < s.len() {
                (s[i].0@, s[i].1)
            } else {
                arbitrary()
            },
    )
}

pub broadcast proof fn names_view_push(s: Seq<(String, Span)>, x: (String, Span))
    ensures
        #[trigger] names_view(s.push(x)) == names_view(s).push((x.0@, x.1)),
{
    assert(names_view(s.push(x)) =~= names_view(s).push((x.0@, x.1)));
}

pub broadcast proof fn names_view_empty()
    ensures
        #[trigger] names_view(Seq::<(String, Span)>::empty()) == Seq::<(Seq<char>, Span)>::empty(),
{
    assert(names_view(Seq::<(String, Span)>::empty()) =~= Seq::<(Seq<char>, Span)>::empty());
}

/// The contents of a sequence of values.
pub open spec fn payload_view(s: Seq<(VlType, Span)>) -> Seq<(TypeView, Span)>
    decreases s,
{
    Seq::new(
        s.len(),
        |i: int|
            if 0 <= i < s.len() {
                (s[i].0@, s[i].1)
            } else {
                arbitrary()
            },
    )
}

pub broadcast proof fn payload_view_push(s: Seq<(VlType, Span)>, x: (VlType, Span))
    ensures
        #[trigger] payload_view(s.push(x)) == payload_view(s).push((x.0@, x.1)),
{
    assert(payload_view(s.push(x)) =~= payload_view(s).push((x.0@, x.1)));
}

pub broadcast proof fn payload_view_empty()
    ensures
        #[trigger] payload_view(Seq::<(VlType, Span)>::empty()) == Seq::<(TypeView, Span)>::empty(),
{
    assert(payload_view(Seq::<(VlType, Span)>::empty()) =~= Seq::<(TypeView, Span)>::empty());
}

pub broadcast group group_ast {
    exprs_view_push,
    exprs_view_empty,
    stmts_view_push,
    stmts_view_empty,
    named_view_push,
    named_view_empty,
    elems_view_push,
    elems_view_empty,
    arms_view_push,
    arms_view_empty,
    names_view_push,
    names_view_empty,
    payload_view_push,
    payload_view_empty,
}

impl ExprView {
    /// Where the expression stands.
    pub open spec fn span(self) -> Span {
        match self {
            ExprView::Literal(_, span) => span,
            ExprView::String(_, span) => span,
            ExprView::Null(span) => span,
            ExprView::ArrayLiteral { span, .. } => span,
            ExprView::ObjectLiteral { span, .. } => span,
            ExprView::TupleLiteral { span, .. } => span,
            ExprView::Index { span, .. } => span,
            ExprView::Field { span, .. } => span,
            ExprView::TupleIndex { span, .. } => span,
            ExprView::Var { span, .. } => span,
            ExprView::Call { span, .. } => span,
            ExprView::Unary { span, .. } => span,
            ExprView::Binary { span, .. } => span,
            ExprView::Cast { span, .. } => span,
        }
    }
}

impl Expr {
    /// Where the expression stands.
    pub fn span(&self) -> (r: Span)
        ensures
            r == self@.span(),
    {
        match self {
            Expr::Literal(_, span) => *span,
            Expr::String(_, span) => *span,
            Expr::Null(span) => *span,
            Expr::ArrayLiteral { span, .. } => *span,
            Expr::ObjectLiteral { span, .. } => *span,
            Expr::TupleLiteral { span, .. } => *span,
            Expr::Index { span, .. } => *span,
            Expr::Field { span, .. } => *span,
            Expr::TupleIndex { span, .. } => *span,
            Expr::Var { span, .. } => *span,
            Expr::Call { span, .. } => *span,
            Expr::Unary { span, .. } => *span,
            Expr::Binary { span, .. } => *span,
            Expr::Cast { span, .. } => *span,
        }
    }
}

} // verus!
