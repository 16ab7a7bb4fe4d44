//! The low-level intermediate representation: functions of three-address
//! instructions over virtual registers.

use vstd::prelude::*;

use crate::ast::Scalar;
use crate::float::show_double;
use crate::module::ModulePath;
use crate::span::Span;
use crate::text::{cat, cat3, clone_bytes, clone_vec, dec_i64, dec_u64, join_strings, owned, str_eq};
use crate::typed::{Ty, TyView};
use crate::{float, model, module, text, typed};

verus! {

broadcast use crate::model::group_model;

/// A virtual register.
#[derive(Debug, Clone, Copy, PartialEq, Eq, Hash, Structural)]
pub struct Reg(pub u32);

impl View for Reg {
    type V = Reg;

    open spec fn view(&self) -> Reg {
        *self
    }
}

/// The operator of a binary operation.
#[derive(Debug, Clone, Copy, PartialEq, Eq, Structural)]
pub enum LirOp {
    Add,
    Sub,
    Mul,
    Div,
    Eq,
    Ne,
    Lt,
    Le,
    Gt,
    Ge,
}

/// The contents of a list of named registers.
pub open spec fn named_regs(s: Seq<(String, Reg)>) -> Seq<(Seq<char>, Reg)> {
    Seq::new(s.len(), |i: int| (s[i].0@, s[i].1))
}

/// A function by its module and its name.
#[derive(Debug)]
pub struct FuncSymbol {
    pub module: String,
    pub function: String,
}

/// The content of a [`FuncSymbol`].
pub struct FuncSymbolView {
    pub module: Seq<char>,
    pub function: Seq<char>,
}

impl View for FuncSymbol {
    type V = FuncSymbolView;

    open spec fn view(&self) -> FuncSymbolView {
        FuncSymbolView {
            module: self.module@,
            function: self.function@,
        }
    }
}

/// An instruction.
#[derive(Debug)]
pub enum Instr {
    /// A scalar constant.
    Const {
        dst: Reg,
        value: Scalar,
        span: Span,
    },
    /// A string constant, by its bytes.
    StringConst {
        dst: Reg,
        value: Vec<u8>,
        span: Span,
    },
    /// A parameter of the function, copied to a register at entry.
    Param {
        dst: Reg,
        index: usize,
        span: Span,
    },
    /// A copy of a register.
    Copy {
        dst: Reg,
        src: Reg,
        span: Span,
    },
    /// Logical negation.
    Not {
        dst: Reg,
        src: Reg,
        span: Span,
    },
    /// A binary operation.
    BinOp {
        dst: Reg,
        op: LirOp,
        lhs: Reg,
        rhs: Reg,
        span: Span,
    },
    /// A call, by the callee's name and symbol.
    Call {
        dst: Reg,
        callee: String,
        symbol: FuncSymbol,
        args: Vec<Reg>,
        span: Span,
    },
    /// A new array of a length.
    NewArray {
        dst: Reg,
        len: Reg,
        elem: Ty,
        span: Span,
    },
    /// A new array of elements.
    ArrayLit {
        dst: Reg,
        elems: Vec<Reg>,
        elem: Ty,
        span: Span,
    },
    /// An element of an array.
    ArrayGet {
        dst: Reg,
        array: Reg,
        index: Reg,
        elem: Ty,
        span: Span,
    },
    /// An assignment to an element of an array.
    ArraySet {
        array: Reg,
        index: Reg,
        value: Reg,
        elem: Ty,
        span: Span,
    },
    /// A new object.
    NewObject {
        dst: Reg,
        name: String,
        fields: Vec<(String, Reg)>,
        span: Span,
    },
    /// A field of an object.
    ObjectGet {
        dst: Reg,
        object: Reg,
        name: String,
        ty: Ty,
        span: Span,
    },
    /// An assignment to a field of an object.
    ObjectSet {
        object: Reg,
        name: String,
        value: Reg,
        ty: Ty,
        span: Span,
    },
    /// A conversion.
    Cast {
        dst: Reg,
        src: Reg,
        target: Ty,
        span: Span,
    },
    /// A return.
    Ret {
        src: Reg,
        span: Span,
    },
    /// The value of a global.
    GlobalLoad {
        dst: Reg,
        global: u32,
        span: Span,
    },
    /// An assignment to a global.
    GlobalStore {
        global: u32,
        src: Reg,
        span: Span,
    },
    /// A jump that is taken when the condition is false.
    BranchIfFalse {
        cond: Reg,
        target: u32,
        span: Span,
    },
    /// A jump.
    Jump {
        target: u32,
        span: Span,
    },
    /// The target of jumps.
    Label {
        id: u32,
        span: Span,
    },
}

/// The content of a [`Instr`].
pub enum InstrView {
    Const {
        dst: Reg,
        value: Scalar,
        span: Span,
    },
    StringConst {
        dst: Reg,
        value: Seq<u8>,
        span: Span,
    },
    Param {
        dst: Reg,
        index: usize,
        span: Span,
    },
    Copy {
        dst: Reg,
        src: Reg,
        span: Span,
    },
    Not {
        dst: Reg,
        src: Reg,
        span: Span,
    },
    BinOp {
        dst: Reg,
        op: LirOp,
        lhs: Reg,
        rhs: Reg,
        span: Span,
    },
    Call {
        dst: Reg,
        callee: Seq<char>,
        symbol: FuncSymbolView,
        args: Seq<Reg>,
        span: Span,
    },
    NewArray {
        dst: Reg,
        len: Reg,
        elem: TyView,
        span: Span,
    },
    ArrayLit {
        dst: Reg,
        elems: Seq<Reg>,
        elem: TyView,
        span: Span,
    },
    ArrayGet {
        dst: Reg,
        array: Reg,
        index: Reg,
        elem: TyView,
        span: Span,
    },
    ArraySet {
        array: Reg,
        index: Reg,
        value: Reg,
        elem: TyView,
        span: Span,
    },
    NewObject {
        dst: Reg,
        name: Seq<char>,
        fields: Seq<(Seq<char>, Reg)>,
        span: Span,
    },
    ObjectGet {
        dst: Reg,
        object: Reg,
        name: Seq<char>,
        ty: TyView,
        span: Span,
    },
    ObjectSet {
        object: Reg,
        name: Seq<char>,
        value: Reg,
        ty: TyView,
        span: Span,
    },
    Cast {
        dst: Reg,
        src: Reg,
        target: TyView,
        span: Span,
    },
    Ret {
        src: Reg,
        span: Span,
    },
    GlobalLoad {
        dst: Reg,
        global: u32,
        span: Span,
    },
    GlobalStore {
        global: u32,
        src: Reg,
        span: Span,
    },
    BranchIfFalse {
        cond: Reg,
        target: u32,
        span: Span,
    },
    Jump {
        target: u32,
        span: Span,
    },
    Label {
        id: u32,
        span: Span,
    },
}

/// The content of a value.
pub open spec fn instr_view(x: Instr) -> InstrView
{
    match x {
        Instr::Const { dst, value, span } => InstrView::Const {
            dst,
            value,
            span,
        },
        Instr::StringConst { dst, value, span } => InstrView::StringConst {
            dst,
            value: value@,
            span,
        },
        Instr::Param { dst, index, span } => InstrView::Param {
            dst,
            index,
            span,
        },
        Instr::Copy { dst, src, span } => InstrView::Copy {
            dst,
            src,
            span,
        },
        Instr::Not { dst, src, span } => InstrView::Not {
            dst,
            src,
            span,
        },
        Instr::BinOp { dst, op, lhs, rhs, span } => InstrView::BinOp {
            dst,
            op,
            lhs,
            rhs,
            span,
        },
        Instr::Call { dst, callee, symbol, args, span } => InstrView::Call {
            dst,
            callee: callee@,
            symbol: symbol@,
            args: args@,
            span,
        },
        Instr::NewArray { dst, len, elem, span } => InstrView::NewArray {
            dst,
            len,
            elem: elem@,
            span,
        },
        Instr::ArrayLit { dst, elems, elem, span } => InstrView::ArrayLit {
            dst,
            elems: elems@,
            elem: elem@,
            span,
        },
        Instr::ArrayGet { dst, array, index, elem, span } => InstrView::ArrayGet {
            dst,
            array,
            index,
            elem: elem@,
            span,
        },
        Instr::ArraySet { array, index, value, elem, span } => InstrView::ArraySet {
            array,
            index,
            value,
            elem: elem@,
            span,
        },
        Instr::NewObject { dst, name, fields, span } => InstrView::NewObject {
            dst,
            name: name@,
            fields: named_regs(fields@),
            span,
        },
        Instr::ObjectGet { dst, object, name, ty, span } => InstrView::ObjectGet {
            dst,
            object,
            name: name@,
            ty: ty@,
            span,
        },
        Instr::ObjectSet { object, name, value, ty, span } => InstrView::ObjectSet {
            object,
            name: name@,
            value,
            ty: ty@,
            span,
        },
        Instr::Cast { dst, src, target, span } => InstrView::Cast {
            dst,
            src,
            target: target@,
            span,
        },
        Instr::Ret { src, span } => InstrView::Ret {
            src,
            span,
        },
        Instr::GlobalLoad { dst, global, span } => InstrView::GlobalLoad {
            dst,
            global,
            span,
        },
        Instr::GlobalStore { global, src, span } => InstrView::GlobalStore {
            global,
            src,
            span,
        },
        Instr::BranchIfFalse { cond, target, span } => InstrView::BranchIfFalse {
            cond,
            target,
            span,
        },
        Instr::Jump { target, span } => InstrView::Jump {
            target,
            span,
        },
        Instr::Label { id, span } => InstrView::Label {
            id,
            span,
        },
    }
}

impl View for Instr {
    type V = InstrView;

    open spec fn view(&self) -> InstrView {
        instr_view(*self)
    }
}

/// A function.
#[derive(Debug)]
pub struct Function {
    pub name: String,
    pub param_tys: Vec<Ty>,
    pub ret: Ty,
    pub instrs: Vec<Instr>,
}

/// The content of a [`Function`].
pub struct FunctionView {
    pub name: Seq<char>,
    pub param_tys: Seq<TyView>,
    pub ret: TyView,
    pub instrs: Seq<InstrView>,
}

impl View for Function {
    type V = FunctionView;

    open spec fn view(&self) -> FunctionView {
        FunctionView {
            name: self.name@,
            param_tys: model::all(self.param_tys@),
            ret: self.ret@,
            instrs: model::all(self.instrs@),
        }
    }
}

/// An object type.
#[derive(Debug)]
pub struct ObjectDef {
    pub name: String,
    pub fields: Vec<(String, Ty)>,
}

/// The content of a [`ObjectDef`].
pub struct ObjectDefView {
    pub name: Seq<char>,
    pub fields: Seq<(Seq<char>, TyView)>,
}

impl View for ObjectDef {
    type V = ObjectDefView;

    open spec fn view(&self) -> ObjectDefView {
        ObjectDefView {
            name: self.name@,
            fields: typed::named_types(self.fields@),
        }
    }
}

/// A global with the code that computes its first value.
#[derive(Debug)]
pub struct Global {
    pub id: u32,
    pub name: String,
    pub ty: Ty,
    pub init: Vec<Instr>,
    pub result: Reg,
    pub span: Span,
}

/// The content of a [`Global`].
pub struct GlobalView {
    pub id: u32,
    pub name: Seq<char>,
    pub ty: TyView,
    pub init: Seq<InstrView>,
    pub result: Reg,
    pub span: Span,
}

impl View for Global {
    type V = GlobalView;

    open spec fn view(&self) -> GlobalView {
        GlobalView {
            id: self.id,
            name: self.name@,
            ty: self.ty@,
            init: model::all(self.init@),
            result: self.result,
            span: self.span,
        }
    }
}

/// A function of another module that is called.
#[derive(Debug)]
pub struct FunctionImport {
    pub symbol: FuncSymbol,
}

impl View for FunctionImport {
    type V = FuncSymbolView;

    open spec fn view(&self) -> FuncSymbolView {
        self.symbol@
    }
}

/// A module.
#[derive(Debug)]
pub struct LirProgram {
    pub module: String,
    pub imports: Vec<FunctionImport>,
    pub objects: Vec<ObjectDef>,
    pub globals: Vec<Global>,
    pub functions: Vec<Function>,
}

/// The content of a [`LirProgram`].
pub struct LirProgramView {
    pub module: Seq<char>,
    pub imports: Seq<FuncSymbolView>,
    pub objects: Seq<ObjectDefView>,
    pub globals: Seq<GlobalView>,
    pub functions: Seq<FunctionView>,
}

impl View for LirProgram {
    type V = LirProgramView;

    open spec fn view(&self) -> LirProgramView {
        LirProgramView {
            module: self.module@,
            imports: model::all(self.imports@),
            objects: model::all(self.objects@),
            globals: model::all(self.globals@),
            functions: model::all(self.functions@),
        }
    }
}

impl Clone for FuncSymbol {
    fn clone(&self) -> (r: Self)
        ensures
            r@ == self@,
    {
        FuncSymbol { module: self.module.clone(), function: self.function.clone() }
    }
}

impl Clone for FunctionImport {
    fn clone(&self) -> (r: Self)
        ensures
            r@ == self@,
    {
        FunctionImport { symbol: self.symbol.clone() }
    }
}

/// Whether two symbols are the same.
pub(crate) fn same_symbol(a: &FuncSymbol, b: &FuncSymbol) -> (r: bool)
    ensures
        r == (a@ == b@),
{
    str_eq(a.module.as_str(), b.module.as_str()) && str_eq(
        a.function.as_str(),
        b.function.as_str(),
    )
}

/// Imports, with the functions of other modules that instructions call.
pub open spec fn with_foreign_calls(
    module: Seq<char>,
    have: Seq<FuncSymbolView>,
    xs: Seq<InstrView>,
) -> Seq<FuncSymbolView>
    decreases xs.len(),
{
    if xs.len() == 0 {
        have
    } else {
        let front = with_foreign_calls(module, have, xs.drop_last());
        match xs.last() {
            InstrView::Call { symbol, .. } => if symbol.module == module || front.contains(symbol) {
                front
            } else {
                front.push(symbol)
            },
            _ => front,
        }
    }
}

/// The functions of other modules that functions call, in the order of the calls.
pub open spec fn function_imports(module: Seq<char>, fs: Seq<FunctionView>) -> Seq<FuncSymbolView>
    decreases fs.len(),
{
    if fs.len() == 0 {
        Seq::empty()
    } else {
        with_foreign_calls(module, function_imports(module, fs.drop_last()), fs.last().instrs)
    }
}

/// Imports, with the functions of other modules that initial values call.
pub open spec fn with_global_imports(
    module: Seq<char>,
    have: Seq<FuncSymbolView>,
    gs: Seq<GlobalView>,
) -> Seq<FuncSymbolView>
    decreases gs.len(),
{
    if gs.len() == 0 {
        have
    } else {
        with_foreign_calls(
            module,
            with_global_imports(module, have, gs.drop_last()),
            gs.last().init,
        )
    }
}

/// The functions of other modules that a module calls.
pub open spec fn imports_of(
    module: Seq<char>,
    fs: Seq<FunctionView>,
    gs: Seq<GlobalView>,
) -> Seq<FuncSymbolView> {
    with_global_imports(module, function_imports(module, fs), gs)
}

fn add_foreign_calls(have: &mut Vec<FunctionImport>, module: &str, xs: &Vec<Instr>)
    ensures
        model::all(final(have)@) == with_foreign_calls(
            module@,
            model::all(old(have)@),
            model::all(xs@),
        ),
{
    let ghost all = model::all(xs@);
    let mut i: usize = 0;
    assert(all.take(0).len() == 0);
    while i < xs.len()
        invariant
            i <= xs@.len(),
            all == model::all(xs@),
            model::all(have@) == with_foreign_calls(
                module@,
                model::all(old(have)@),
                all.take(i as int),
            ),
        decreases xs@.len() - i,
    {
        assert(all.take(i + 1).drop_last() =~= all.take(i as int));
        assert(all.take(i + 1).last() == xs@[i as int]@);
        match &xs[i] {
            Instr::Call { symbol, .. } => {
                let mut known = str_eq(symbol.module.as_str(), module);
                let mut j: usize = 0;
                while j < have.len()
                    invariant
                        j <= have@.len(),
                        known == (symbol@.module == module@ || exists|k: int|
                            0 <= k < j && #[trigger] model::all(have@)[k] == symbol@),
                    decreases have@.len() - j,
                {
                    if same_symbol(&have[j].symbol, symbol) {
                        assert(model::all(have@)[j as int] == symbol@);
                        known = true;
                    }
                    j += 1;
                }
                if !known {
                    have.push(FunctionImport { symbol: symbol.clone() });
                }
            },
            _ => {},
        }
        i += 1;
    }
    assert(all.take(all.len() as int) =~= all);
}

/// The functions of other modules that a module calls.
pub(crate) fn find_imports(module: &str, fs: &Vec<Function>, gs: &Vec<Global>) -> (r: Vec<
    FunctionImport,
>)
    ensures
        model::all(r@) == imports_of(module@, model::all(fs@), model::all(gs@)),
{
    let ghost functions = model::all(fs@);
    let ghost globals = model::all(gs@);
    let mut out: Vec<FunctionImport> = Vec::new();
    let mut i: usize = 0;
    assert(model::all(out@) =~= Seq::empty());
    assert(functions.take(0).len() == 0);
    while i < fs.len()
        invariant
            i <= fs@.len(),
            functions == model::all(fs@),
            model::all(out@) == function_imports(module@, functions.take(i as int)),
        decreases fs@.len() - i,
    {
        assert(functions.take(i + 1).drop_last() =~= functions.take(i as int));
        assert(functions.take(i + 1).last() == fs@[i as int]@);
        add_foreign_calls(&mut out, module, &fs[i].instrs);
        i += 1;
    }
    assert(functions.take(functions.len() as int) =~= functions);
    let ghost have = model::all(out@);
    let mut j: usize = 0;
    assert(globals.take(0).len() == 0);
    while j < gs.len()
        invariant
            j <= gs@.len(),
            globals == model::all(gs@),
            model::all(out@) == with_global_imports(module@, have, globals.take(j as int)),
        decreases gs@.len() - j,
    {
        assert(globals.take(j + 1).drop_last() =~= globals.take(j as int));
        assert(globals.take(j + 1).last() == gs@[j as int]@);
        add_foreign_calls(&mut out, module, &gs[j].init);
        j += 1;
    }
    assert(globals.take(globals.len() as int) =~= globals);
    out
}

/// A copy of a list of registers.
pub(crate) fn clone_regs(rs: &Vec<Reg>) -> (r: Vec<Reg>)
    ensures
        r@ == rs@,
{
    let mut out: Vec<Reg> = Vec::new();
    let mut i: usize = 0;
    while i < rs.len()
        invariant
            i <= rs@.len(),
            out@ =~= rs@.take(i as int),
        decreases rs@.len() - i,
    {
        out.push(rs[i]);
        i += 1;
    }
    out
}

fn clone_fields(fs: &Vec<(String, Reg)>) -> (r: Vec<(String, Reg)>)
    ensures
        named_regs(r@) == named_regs(fs@),
{
    let mut out: Vec<(String, Reg)> = Vec::new();
    let mut i: usize = 0;
    while i < fs.len()
        invariant
            i <= fs@.len(),
            out@.len() == i,
            forall|k: int| 0 <= k < i ==> named_regs(out@)[k] == named_regs(fs@)[k],
        decreases fs@.len() - i,
    {
        out.push((fs[i].0.clone(), fs[i].1));
        i += 1;
    }
    assert(named_regs(out@) =~= named_regs(fs@));
    out
}

impl Clone for Instr {
    fn clone(&self) -> (r: Self)
        ensures
            r@ == self@,
    {
        match self {
            Instr::Const { dst, value, span } => Instr::Const {
                dst: *dst,
                value: *value,
                span: *span,
            },
            Instr::StringConst { dst, value, span } => Instr::StringConst {
                dst: *dst,
                value: clone_bytes(value),
                span: *span,
            },
            Instr::Param { dst, index, span } => Instr::Param {
                dst: *dst,
                index: *index,
                span: *span,
            },
            Instr::Copy { dst, src, span } => Instr::Copy {
                dst: *dst,
                src: *src,
                span: *span,
            },
            Instr::Not { dst, src, span } => Instr::Not {
                dst: *dst,
                src: *src,
                span: *span,
            },
            Instr::BinOp { dst, op, lhs, rhs, span } => Instr::BinOp {
                dst: *dst,
                op: *op,
                lhs: *lhs,
                rhs: *rhs,
                span: *span,
            },
            Instr::Call { dst, callee, symbol, args, span } => Instr::Call {
                dst: *dst,
                callee: callee.clone(),
                symbol: symbol.clone(),
                args: clone_regs(args),
                span: *span,
            },
            Instr::NewArray { dst, len, elem, span } => Instr::NewArray {
                dst: *dst,
                len: *len,
                elem: elem.clone(),
                span: *span,
            },
            Instr::ArrayLit { dst, elems, elem, span } => Instr::ArrayLit {
                dst: *dst,
                elems: clone_regs(elems),
                elem: elem.clone(),
                span: *span,
            },
            Instr::ArrayGet { dst, array, index, elem, span } => Instr::ArrayGet {
                dst: *dst,
                array: *array,
                index: *index,
                elem: elem.clone(),
                span: *span,
            },
            Instr::ArraySet { array, index, value, elem, span } => Instr::ArraySet {
                array: *array,
                index: *index,
                value: *value,
                elem: elem.clone(),
                span: *span,
            },
            Instr::NewObject { dst, name, fields, span } => Instr::NewObject {
                dst: *dst,
                name: name.clone(),
                fields: clone_fields(fields),
                span: *span,
            },
            Instr::ObjectGet { dst, object, name, ty, span } => Instr::ObjectGet {
                dst: *dst,
                object: *object,
                name: name.clone(),
                ty: ty.clone(),
                span: *span,
            },
            Instr::ObjectSet { object, name, value, ty, span } => Instr::ObjectSet {
                object: *object,
                name: name.clone(),
                value: *value,
                ty: ty.clone(),
                span: *span,
            },
            Instr::Cast { dst, src, target, span } => Instr::Cast {
                dst: *dst,
                src: *src,
                target: target.clone(),
                span: *span,
            },
            Instr::Ret { src, span } => Instr::Ret {
                src: *src,
                span: *span,
            },
            Instr::GlobalLoad { dst, global, span } => Instr::GlobalLoad {
                dst: *dst,
                global: *global,
                span: *span,
            },
            Instr::GlobalStore { global, src, span } => Instr::GlobalStore {
                global: *global,
                src: *src,
                span: *span,
            },
            Instr::BranchIfFalse { cond, target, span } => Instr::BranchIfFalse {
                cond: *cond,
                target: *target,
                span: *span,
            },
            Instr::Jump { target, span } => Instr::Jump {
                target: *target,
                span: *span,
            },
            Instr::Label { id, span } => Instr::Label {
                id: *id,
                span: *span,
            },
        }
    }
}

impl Clone for Function {
    fn clone(&self) -> (r: Self)
        ensures
            r@ == self@,
    {
        Function {
            name: self.name.clone(),
            param_tys: clone_vec(&self.param_tys),
            ret: self.ret.clone(),
            instrs: clone_vec(&self.instrs),
        }
    }
}

impl LirProgram {
    /// An empty module.
    pub fn new(module: &str) -> (r: Self)
        ensures
            r@ == (LirProgramView {
                module: module@,
                imports: Seq::empty(),
                objects: Seq::empty(),
                globals: Seq::empty(),
                functions: Seq::empty(),
            }),
    {
        LirProgram {
            module: owned(module),
            imports: Vec::new(),
            objects: Vec::new(),
            globals: Vec::new(),
            functions: Vec::new(),
        }
    }
}

// ---------------------------------------------------------------------------
// The listing
// ---------------------------------------------------------------------------

/// The text of an operator.
pub open spec fn op_text(op: LirOp) -> Seq<char> {
    match op {
        LirOp::Add => "add"@,
        LirOp::Sub => "sub"@,
        LirOp::Mul => "mul"@,
        LirOp::Div => "div"@,
        LirOp::Eq => "eq"@,
        LirOp::Ne => "ne"@,
        LirOp::Lt => "lt"@,
        LirOp::Le => "le"@,
        LirOp::Gt => "gt"@,
        LirOp::Ge => "ge"@,
    }
}

/// The text of a scalar.
pub open spec fn scalar_text(v: Scalar) -> Seq<char> {
    match v {
        Scalar::Int(v) => text::dec_int(v as int) + "int"@,
        Scalar::U64(v) => text::dec(v as nat) + "u64"@,
        Scalar::I64(v) => text::dec_int(v as int) + "i64"@,
        Scalar::F64(v) => float::double_text(v) + "f64"@,
        Scalar::Bool(v) => if v {
            "true"@
        } else {
            "false"@
        },
        Scalar::U8(v) => text::dec(v as nat) + "u8"@,
    }
}

/// The text of a register.
pub open spec fn reg_text(r: Reg) -> Seq<char> {
    "%"@ + text::dec(r.0 as nat)
}

/// The text of registers.
pub open spec fn regs_text(rs: Seq<Reg>) -> Seq<char> {
    text::join(Seq::new(rs.len(), |i: int| reg_text(rs[i])), ", "@)
}

/// The text of the fields of an object.
pub open spec fn fields_text(fs: Seq<(Seq<char>, Reg)>) -> Seq<char> {
    text::join(Seq::new(fs.len(), |i: int| fs[i].0 + ": "@ + reg_text(fs[i].1)), ", "@)
}

/// The text of bytes.
pub open spec fn bytes_text(bs: Seq<u8>) -> Seq<char> {
    "["@ + text::join(Seq::new(bs.len(), |i: int| text::dec(bs[i] as nat)), ", "@) + "]"@
}

/// Whether a call goes through the short name of a module: the last piece of its
/// path.
pub open spec fn short_call(callee: Seq<char>, symbol: FuncSymbolView) -> bool {
    let path = module::dot_pieces(symbol.module);
    path.len() > 1 && callee == path.last() + "."@ + symbol.function
}

/// The text of the function that a call goes to. One that is called through the
/// short name of its module is shown under the full name.
pub open spec fn callee_text(callee: Seq<char>, symbol: FuncSymbolView) -> Seq<char> {
    if short_call(callee, symbol) {
        symbol.module + "::"@ + symbol.function
    } else {
        callee
    }
}

/// The text of an instruction.
pub open spec fn instr_text(x: InstrView) -> Seq<char> {
    match x {
        InstrView::Const { dst, value, .. } => reg_text(dst) + " = const "@ + scalar_text(value),
        InstrView::StringConst { dst, value, .. } => reg_text(dst) + " = string "@ + bytes_text(value),
        InstrView::Param { dst, index, .. } => reg_text(dst) + " = param "@ + text::dec(index as nat),
        InstrView::Copy { dst, src, .. } => reg_text(dst) + " = copy "@ + reg_text(src),
        InstrView::Not { dst, src, .. } => reg_text(dst) + " = not "@ + reg_text(src),
        InstrView::BinOp { dst, op, lhs, rhs, .. } => reg_text(dst) + " = "@ + op_text(op) + " "@ + reg_text(lhs) + " "@ + reg_text(rhs),
        InstrView::Call { dst, callee, symbol, args, .. } => reg_text(dst) + " = call "@ + callee_text(callee, symbol) + "("@ + regs_text(args) + ")"@,
        InstrView::NewArray { dst, len, elem, .. } => reg_text(dst) + " = new_array "@ + reg_text(len) + " : "@ + typed::ty_text(elem),
        InstrView::ArrayLit { dst, elems, elem, .. } => reg_text(dst) + " = array_lit ["@ + regs_text(elems) + "] : "@ + typed::ty_text(elem),
        InstrView::ArrayGet { dst, array, index, elem, .. } => reg_text(dst) + " = array_get "@ + reg_text(array) + "["@ + reg_text(index) + "] : "@ + typed::ty_text(elem),
        InstrView::ArraySet { array, index, value, elem, .. } => "array_set "@ + reg_text(array) + "["@ + reg_text(index) + "], "@ + reg_text(value) + " : "@ + typed::ty_text(elem),
        InstrView::NewObject { dst, name, fields, .. } => reg_text(dst) + " = new_object "@ + name + " {"@ + fields_text(fields) + "}"@,
        InstrView::ObjectGet { dst, object, name, .. } => reg_text(dst) + " = object_get "@ + reg_text(object) + "."@ + name,
        InstrView::ObjectSet { object, name, value, .. } => "object_set "@ + reg_text(object) + "."@ + name + " = "@ + reg_text(value),
        InstrView::Cast { dst, src, target, .. } => reg_text(dst) + " = cast "@ + reg_text(src) + " : "@ + typed::ty_text(target),
        InstrView::Ret { src, .. } => "ret "@ + reg_text(src),
        InstrView::GlobalLoad { dst, global, .. } => reg_text(dst) + " = global_load %"@ + text::dec(global as nat),
        InstrView::GlobalStore { global, src, .. } => "global_store %"@ + text::dec(global as nat) + ", "@ + reg_text(src),
        InstrView::BranchIfFalse { cond, target, .. } => "branch_if_false "@ + reg_text(cond) + " -> L"@ + text::dec(target as nat),
        InstrView::Jump { target, .. } => "jump -> L"@ + text::dec(target as nat),
        InstrView::Label { id, .. } => "L"@ + text::dec(id as nat) + ":"@,
    }
}

/// A number, with blanks before it up to a width of three.
pub open spec fn padded(n: nat) -> Seq<char> {
    (if n < 10 {
        "  "@
    } else if n < 100 {
        " "@
    } else {
        ""@
    }) + text::dec(n)
}

/// The numbered text of instructions.
pub open spec fn listing(xs: Seq<InstrView>) -> Seq<char>
    decreases xs.len(),
{
    if xs.len() == 0 {
        Seq::empty()
    } else {
        listing(xs.drop_last()) + "  "@ + padded((xs.len() - 1) as nat) + ": "@ + instr_text(
            xs.last(),
        ) + "\n"@
    }
}

/// The text of globals.
pub open spec fn globals_text(gs: Seq<GlobalView>) -> Seq<char>
    decreases gs.len(),
{
    if gs.len() == 0 {
        Seq::empty()
    } else {
        let g = gs.last();
        globals_text(gs.drop_last()) + "global %"@ + text::dec(g.id as nat) + " "@ + g.name + " : "@
            + typed::ty_text(g.ty) + " =\n"@ + listing(g.init) + "  init "@ + reg_text(g.result)
            + "\n"@
    }
}

/// The text of functions.
pub open spec fn functions_text(fs: Seq<FunctionView>) -> Seq<char>
    decreases fs.len(),
{
    if fs.len() == 0 {
        Seq::empty()
    } else {
        functions_text(fs.drop_last()) + "fn "@ + fs.last().name + ":\n"@ + listing(
            fs.last().instrs,
        )
    }
}

/// The text of an operator.
pub(crate) fn show_op(op: LirOp) -> (r: &'static str)
    ensures
        r@ == op_text(op),
{
    match op {
        LirOp::Add => "add",
        LirOp::Sub => "sub",
        LirOp::Mul => "mul",
        LirOp::Div => "div",
        LirOp::Eq => "eq",
        LirOp::Ne => "ne",
        LirOp::Lt => "lt",
        LirOp::Le => "le",
        LirOp::Gt => "gt",
        LirOp::Ge => "ge",
    }
}

/// The text of a scalar.
pub(crate) fn show_scalar(v: Scalar) -> (r: String)
    ensures
        r@ == scalar_text(v),
{
    match v {
        Scalar::Int(v) => cat(dec_i64(v).as_str(), "int"),
        Scalar::U64(v) => cat(dec_u64(v).as_str(), "u64"),
        Scalar::I64(v) => cat(dec_i64(v).as_str(), "i64"),
        Scalar::F64(v) => cat(show_double(v).as_str(), "f64"),
        Scalar::Bool(v) => if v {
            owned("true")
        } else {
            owned("false")
        },
        Scalar::U8(v) => cat(dec_u64(v as u64).as_str(), "u8"),
    }
}

/// The text of a register.
pub(crate) fn show_reg(r: Reg) -> (s: String)
    ensures
        s@ == reg_text(r),
{
    cat("%", dec_u64(r.0 as u64).as_str())
}

/// The text of registers.
pub(crate) fn show_regs(rs: &Vec<Reg>) -> (r: String)
    ensures
        r@ == regs_text(rs@),
{
    let ghost want = Seq::new(rs@.len(), |i: int| reg_text(rs@[i]));
    let mut parts: Vec<String> = Vec::new();
    let mut i: usize = 0;
    while i < rs.len()
        invariant
            i <= rs@.len(),
            parts@.len() == i,
            want.len() == rs@.len(),
            forall|k: int| 0 <= k < rs@.len() ==> want[k] == reg_text(#[trigger] rs@[k]),
            forall|k: int| 0 <= k < i ==> (#[trigger] parts@[k])@ == want[k],
        decreases rs@.len() - i,
    {
        parts.push(show_reg(rs[i]));
        i += 1;
    }
    assert(model::all(parts@) =~= want);
    join_strings(parts.as_slice(), ", ")
}

fn show_fields(fs: &Vec<(String, Reg)>) -> (r: String)
    ensures
        r@ == fields_text(named_regs(fs@)),
{
    let ghost all = named_regs(fs@);
    let ghost want = Seq::new(all.len(), |i: int| all[i].0 + ": "@ + reg_text(all[i].1));
    let mut parts: Vec<String> = Vec::new();
    let mut i: usize = 0;
    while i < fs.len()
        invariant
            i <= fs@.len(),
            parts@.len() == i,
            all == named_regs(fs@),
            want == Seq::new(all.len(), |i: int| all[i].0 + ": "@ + reg_text(all[i].1)),
            forall|k: int| 0 <= k < i ==> (#[trigger] parts@[k])@ == want[k],
        decreases fs@.len() - i,
    {
        parts.push(cat3(fs[i].0.as_str(), ": ", show_reg(fs[i].1).as_str()));
        i += 1;
    }
    assert(model::all(parts@) =~= want);
    join_strings(parts.as_slice(), ", ")
}

fn show_bytes(bs: &Vec<u8>) -> (r: String)
    ensures
        r@ == bytes_text(bs@),
{
    let ghost want = Seq::new(bs@.len(), |i: int| text::dec(bs@[i] as nat));
    let mut parts: Vec<String> = Vec::new();
    let mut i: usize = 0;
    while i < bs.len()
        invariant
            i <= bs@.len(),
            parts@.len() == i,
            want == Seq::new(bs@.len(), |i: int| text::dec(bs@[i] as nat)),
            forall|k: int| 0 <= k < i ==> (#[trigger] parts@[k])@ == want[k],
        decreases bs@.len() - i,
    {
        parts.push(dec_u64(bs[i] as u64));
        i += 1;
    }
    assert(model::all(parts@) =~= want);
    cat3("[", join_strings(parts.as_slice(), ", ").as_str(), "]")
}

fn show_callee(callee: &String, symbol: &FuncSymbol) -> (r: String)
    ensures
        r@ == callee_text(callee@, symbol@),
{
    let path = ModulePath::from_dotted(symbol.module.as_str());
    if path.segments().len() > 1 {
        if let Some(leaf) = path.leaf() {
            let short = cat3(leaf, ".", symbol.function.as_str());
            if str_eq(callee.as_str(), short.as_str()) {
                return cat3(symbol.module.as_str(), "::", symbol.function.as_str());
            }
        }
    }
    callee.clone()
}

fn show_instr(x: &Instr) -> (r: String)
    ensures
        r@ == instr_text(x@),
{
    match x {
        Instr::Const { dst, value, .. } => {
            let mut s = owned(show_reg(*dst).as_str());
            s.append(" = const ");
            s.append(show_scalar(*value).as_str());
            s
        },
        Instr::StringConst { dst, value, .. } => {
            let mut s = owned(show_reg(*dst).as_str());
            s.append(" = string ");
            s.append(show_bytes(value).as_str());
            s
        },
        Instr::Param { dst, index, .. } => {
            let mut s = owned(show_reg(*dst).as_str());
            s.append(" = param ");
            s.append(dec_u64(*index as u64).as_str());
            s
        },
        Instr::Copy { dst, src, .. } => {
            let mut s = owned(show_reg(*dst).as_str());
            s.append(" = copy ");
            s.append(show_reg(*src).as_str());
            s
        },
        Instr::Not { dst, src, .. } => {
            let mut s = owned(show_reg(*dst).as_str());
            s.append(" = not ");
            s.append(show_reg(*src).as_str());
            s
        },
        Instr::BinOp { dst, op, lhs, rhs, .. } => {
            let mut s = owned(show_reg(*dst).as_str());
            s.append(" = ");
            s.append(show_op(*op));
            s.append(" ");
            s.append(show_reg(*lhs).as_str());
            s.append(" ");
            s.append(show_reg(*rhs).as_str());
            s
        },
        Instr::Call { dst, callee, symbol, args, .. } => {
            let mut s = owned(show_reg(*dst).as_str());
            s.append(" = call ");
            s.append(show_callee(callee, symbol).as_str());
            s.append("(");
            s.append(show_regs(args).as_str());
            s.append(")");
            s
        },
        Instr::NewArray { dst, len, elem, .. } => {
            let mut s = owned(show_reg(*dst).as_str());
            s.append(" = new_array ");
            s.append(show_reg(*len).as_str());
            s.append(" : ");
            s.append(elem.to_string().as_str());
            s
        },
        Instr::ArrayLit { dst, elems, elem, .. } => {
            let mut s = owned(show_reg(*dst).as_str());
            s.append(" = array_lit [");
            s.append(show_regs(elems).as_str());
            s.append("] : ");
            s.append(elem.to_string().as_str());
            s
        },
        Instr::ArrayGet { dst, array, index, elem, .. } => {
            let mut s = owned(show_reg(*dst).as_str());
            s.append(" = array_get ");
            s.append(show_reg(*array).as_str());
            s.append("[");
            s.append(show_reg(*index).as_str());
            s.append("] : ");
            s.append(elem.to_string().as_str());
            s
        },
        Instr::ArraySet { array, index, value, elem, .. } => {
            let mut s = owned("array_set ");
            s.append(show_reg(*array).as_str());
            s.append("[");
            s.append(show_reg(*index).as_str());
            s.append("], ");
            s.append(show_reg(*value).as_str());
            s.append(" : ");
            s.append(elem.to_string().as_str());
            s
        },
        Instr::NewObject { dst, name, fields, .. } => {
            let mut s = owned(show_reg(*dst).as_str());
            s.append(" = new_object ");
            s.append(name.as_str());
            s.append(" {");
            s.append(show_fields(fields).as_str());
            s.append("}");
            s
        },
        Instr::ObjectGet { dst, object, name, .. } => {
            let mut s = owned(show_reg(*dst).as_str());
            s.append(" = object_get ");
            s.append(show_reg(*object).as_str());
            s.append(".");
            s.append(name.as_str());
            s
        },
        Instr::ObjectSet { object, name, value, .. } => {
            let mut s = owned("object_set ");
            s.append(show_reg(*object).as_str());
            s.append(".");
            s.append(name.as_str());
            s.append(" = ");
            s.append(show_reg(*value).as_str());
            s
        },
        Instr::Cast { dst, src, target, .. } => {
            let mut s = owned(show_reg(*dst).as_str());
            s.append(" = cast ");
            s.append(show_reg(*src).as_str());
            s.append(" : ");
            s.append(target.to_string().as_str());
            s
        },
        Instr::Ret { src, .. } => {
            let mut s = owned("ret ");
            s.append(show_reg(*src).as_str());
            s
        },
        Instr::GlobalLoad { dst, global, .. } => {
            let mut s = owned(show_reg(*dst).as_str());
            s.append(" = global_load %");
            s.append(dec_u64(*global as u64).as_str());
            s
        },
        Instr::GlobalStore { global, src, .. } => {
            let mut s = owned("global_store %");
            s.append(dec_u64(*global as u64).as_str());
            s.append(", ");
            s.append(show_reg(*src).as_str());
            s
        },
        Instr::BranchIfFalse { cond, target, .. } => {
            let mut s = owned("branch_if_false ");
            s.append(show_reg(*cond).as_str());
            s.append(" -> L");
            s.append(dec_u64(*target as u64).as_str());
            s
        },
        Instr::Jump { target, .. } => {
            let mut s = owned("jump -> L");
            s.append(dec_u64(*target as u64).as_str());
            s
        },
        Instr::Label { id, .. } => {
            let mut s = owned("L");
            s.append(dec_u64(*id as u64).as_str());
            s.append(":");
            s
        },
    }
}

fn show_padded(n: usize) -> (r: String)
    ensures
        r@ == padded(n as nat),
{
    let pad = if n < 10 {
        "  "
    } else if n < 100 {
        " "
    } else {
        ""
    };
    cat(pad, dec_u64(n as u64).as_str())
}

fn list(xs: &Vec<Instr>) -> (r: String)
    ensures
        r@ == listing(model::all(xs@)),
{
    let ghost all = model::all(xs@);
    let mut out = String::new();
    let mut i: usize = 0;
    assert(all.take(0).len() == 0);
    while i < xs.len()
        invariant
            i <= xs@.len(),
            all == model::all(xs@),
            out@ == listing(all.take(i as int)),
        decreases xs@.len() - i,
    {
        assert(all.take(i + 1).drop_last() =~= all.take(i as int));
        assert(all.take(i + 1).last() == all[i as int]);
        out.append("  ");
        out.append(show_padded(i).as_str());
        out.append(": ");
        out.append(show_instr(&xs[i]).as_str());
        out.append("\n");
        i += 1;
    }
    assert(all.take(all.len() as int) =~= all);
    out
}

impl LirProgram {
    /// A listing of the module.
    pub fn dump(&self) -> (r: String)
        ensures
            r@ == globals_text(self@.globals) + functions_text(self@.functions),
    {
        let ghost gs = self@.globals;
        let ghost fs = self@.functions;
        let mut out = String::new();
        let mut i: usize = 0;
        assert(gs.take(0).len() == 0);
        while i < self.globals.len()
            invariant
                i <= self.globals@.len(),
                gs == model::all(self.globals@),
                out@ == globals_text(gs.take(i as int)),
            decreases self.globals@.len() - i,
        {
            assert(gs.take(i + 1).drop_last() =~= gs.take(i as int));
            assert(gs.take(i + 1).last() == gs[i as int]);
            let g = &self.globals[i];
            out.append("global %");
            out.append(dec_u64(g.id as u64).as_str());
            out.append(" ");
            out.append(g.name.as_str());
            out.append(" : ");
            out.append(g.ty.to_string().as_str());
            out.append(" =\n");
            out.append(list(&g.init).as_str());
            out.append("  init ");
            out.append(show_reg(g.result).as_str());
            out.append("\n");
            i += 1;
        }
        assert(gs.take(gs.len() as int) =~= gs);
        let mut tail = String::new();
        let mut j: usize = 0;
        assert(fs.take(0).len() == 0);
        while j < self.functions.len()
            invariant
                j <= self.functions@.len(),
                fs == model::all(self.functions@),
                tail@ == functions_text(fs.take(j as int)),
            decreases self.functions@.len() - j,
        {
            assert(fs.take(j + 1).drop_last() =~= fs.take(j as int));
            assert(fs.take(j + 1).last() == fs[j as int]);
            tail.append("fn ");
            tail.append(self.functions[j].name.as_str());
            tail.append(":\n");
            tail.append(list(&self.functions[j].instrs).as_str());
            j += 1;
        }
        assert(fs.take(fs.len() as int) =~= fs);
        out.append(tail.as_str());
        out
    }
}

// ---------------------------------------------------------------------------
// Runtime types
// ---------------------------------------------------------------------------

/// Whether a type must not occur at run time: a capability, a type parameter, an
/// undecided integer or an error, also as the element of an array.
pub open spec fn compile_time_only(t: TyView) -> bool
    decreases t,
{
    match t {
        TyView::Mutable(_) | TyView::Param(_) | TyView::Int | TyView::Error => true,
        TyView::Array(e) => compile_time_only(*e),
        _ => false,
    }
}

/// The type that an instruction carries.
pub open spec fn instr_ty(x: InstrView) -> Option<TyView> {
    match x {
        InstrView::NewArray { elem, .. } => Some(elem),
        InstrView::ArrayLit { elem, .. } => Some(elem),
        InstrView::ArrayGet { elem, .. } => Some(elem),
        InstrView::ArraySet { elem, .. } => Some(elem),
        InstrView::ObjectGet { ty, .. } => Some(ty),
        InstrView::ObjectSet { ty, .. } => Some(ty),
        InstrView::Cast { target, .. } => Some(target),
        _ => None,
    }
}

/// The report of a type that must not occur at run time.
pub open spec fn type_report(what: Seq<char>, name: Seq<char>, part: Seq<char>, t: TyView) -> Option<
    Seq<char>,
> {
    if compile_time_only(t) {
        Some(what + name + part + " has non-runtime type `"@ + typed::ty_text(t) + "`"@)
    } else {
        None
    }
}

/// The first of two reports.
pub open spec fn first_of(a: Option<Seq<char>>, b: Option<Seq<char>>) -> Option<Seq<char>> {
    if a is Some {
        a
    } else {
        b
    }
}

/// The first report on the fields of an object type.
pub open spec fn fields_report(name: Seq<char>, fs: Seq<(Seq<char>, TyView)>) -> Option<Seq<char>>
    decreases fs.len(),
{
    if fs.len() == 0 {
        None
    } else {
        first_of(
            fields_report(name, fs.drop_last()),
            type_report("object "@, name, " field"@, fs.last().1),
        )
    }
}

/// The first report on object types.
pub open spec fn objects_report(os: Seq<ObjectDefView>) -> Option<Seq<char>>
    decreases os.len(),
{
    if os.len() == 0 {
        None
    } else {
        first_of(
            objects_report(os.drop_last()),
            fields_report(os.last().name, os.last().fields),
        )
    }
}

/// The first report on instructions.
pub open spec fn instrs_report(what: Seq<char>, name: Seq<char>, part: Seq<char>, xs: Seq<InstrView>) -> Option<
    Seq<char>,
>
    decreases xs.len(),
{
    if xs.len() == 0 {
        None
    } else {
        first_of(
            instrs_report(what, name, part, xs.drop_last()),
            match instr_ty(xs.last()) {
                Some(t) => type_report(what, name, part, t),
                None => None,
            },
        )
    }
}

/// The first report on globals.
pub open spec fn globals_report(gs: Seq<GlobalView>) -> Option<Seq<char>>
    decreases gs.len(),
{
    if gs.len() == 0 {
        None
    } else {
        let g = gs.last();
        first_of(
            globals_report(gs.drop_last()),
            first_of(
                type_report("global "@, g.name, ""@, g.ty),
                instrs_report("global "@, g.name, " init"@, g.init),
            ),
        )
    }
}

/// The first report on types in the signature of a function.
pub open spec fn types_report(name: Seq<char>, ts: Seq<TyView>) -> Option<Seq<char>>
    decreases ts.len(),
{
    if ts.len() == 0 {
        None
    } else {
        first_of(
            types_report(name, ts.drop_last()),
            type_report("function "@, name, ""@, ts.last()),
        )
    }
}

/// The first report on functions.
pub open spec fn functions_report(fs: Seq<FunctionView>) -> Option<Seq<char>>
    decreases fs.len(),
{
    if fs.len() == 0 {
        None
    } else {
        let f = fs.last();
        first_of(
            functions_report(fs.drop_last()),
            first_of(
                types_report(f.name, f.param_tys.push(f.ret)),
                instrs_report("function "@, f.name, " instruction"@, f.instrs),
            ),
        )
    }
}

/// The first report on a module.
pub open spec fn runtime_report(p: LirProgramView) -> Option<Seq<char>> {
    first_of(
        objects_report(p.objects),
        first_of(globals_report(p.globals), functions_report(p.functions)),
    )
}

fn is_compile_time_only(t: &Ty) -> (r: bool)
    ensures
        r == compile_time_only(t@),
    decreases t,
{
    match t {
        Ty::Mutable(_) | Ty::Param(_) | Ty::Int | Ty::Error => true,
        Ty::Array(e) => is_compile_time_only(e),
        _ => false,
    }
}

fn report_type(what: &str, name: &str, part: &str, t: &Ty) -> (r: Option<String>)
    ensures
        model::opt(r) == type_report(what@, name@, part@, t@),
{
    if is_compile_time_only(t) {
        let mut s = cat3(what, name, part);
        s.append(" has non-runtime type `");
        s.append(t.to_string().as_str());
        s.append("`");
        Some(s)
    } else {
        None
    }
}

fn type_of_instr(x: &Instr) -> (r: Option<&Ty>)
    ensures
        match r {
            Some(t) => instr_ty(x@) == Some(t@),
            None => instr_ty(x@) is None,
        },
{
    match x {
        Instr::NewArray { elem, .. } => Some(elem),
        Instr::ArrayLit { elem, .. } => Some(elem),
        Instr::ArrayGet { elem, .. } => Some(elem),
        Instr::ArraySet { elem, .. } => Some(elem),
        Instr::ObjectGet { ty, .. } => Some(ty),
        Instr::ObjectSet { ty, .. } => Some(ty),
        Instr::Cast { target, .. } => Some(target),
        _ => None,
    }
}

fn report_instrs(what: &str, name: &str, part: &str, xs: &Vec<Instr>) -> (r: Option<String>)
    ensures
        model::opt(r) == instrs_report(what@, name@, part@, model::all(xs@)),
{
    let ghost all = model::all(xs@);
    let mut found: Option<String> = None;
    let mut i: usize = 0;
    assert(all.take(0).len() == 0);
    while i < xs.len()
        invariant
            i <= xs@.len(),
            all == model::all(xs@),
            model::opt(found) == instrs_report(what@, name@, part@, all.take(i as int)),
        decreases xs@.len() - i,
    {
        assert(all.take(i + 1).drop_last() =~= all.take(i as int));
        assert(all.take(i + 1).last() == all[i as int]);
        if found.is_none() {
            match type_of_instr(&xs[i]) {
                Some(t) => {
                    found = report_type(what, name, part, t);
                },
                None => {},
            }
        }
        i += 1;
    }
    assert(all.take(all.len() as int) =~= all);
    found
}

impl LirProgram {
    fn report_objects(&self) -> (r: Option<String>)
        ensures
            model::opt(r) == objects_report(self@.objects),
    {
        let ghost all = self@.objects;
        let mut found: Option<String> = None;
        let mut i: usize = 0;
        assert(all.take(0).len() == 0);
        while i < self.objects.len()
            invariant
                i <= self.objects@.len(),
                all == model::all(self.objects@),
                model::opt(found) == objects_report(all.take(i as int)),
            decreases self.objects@.len() - i,
        {
            assert(all.take(i + 1).drop_last() =~= all.take(i as int));
            assert(all.take(i + 1).last() == all[i as int]);
            let o = &self.objects[i];
            let ghost fs = typed::named_types(o.fields@);
            let mut inner: Option<String> = None;
            let mut j: usize = 0;
            assert(fs.take(0).len() == 0);
            while j < o.fields.len()
                invariant
                    j <= o.fields@.len(),
                    fs == typed::named_types(o.fields@),
                    model::opt(inner) == fields_report(o.name@, fs.take(j as int)),
                decreases o.fields@.len() - j,
            {
                assert(fs.take(j + 1).drop_last() =~= fs.take(j as int));
                assert(fs.take(j + 1).last() == fs[j as int]);
                if inner.is_none() {
                    inner = report_type("object ", o.name.as_str(), " field", &o.fields[j].1);
                }
                j += 1;
            }
            assert(fs.take(fs.len() as int) =~= fs);
            if found.is_none() {
                found = inner;
            }
            i += 1;
        }
        assert(all.take(all.len() as int) =~= all);
        found
    }

    fn report_globals(&self) -> (r: Option<String>)
        ensures
            model::opt(r) == globals_report(self@.globals),
    {
        let ghost all = self@.globals;
        let mut found: Option<String> = None;
        let mut i: usize = 0;
        assert(all.take(0).len() == 0);
        while i < self.globals.len()
            invariant
                i <= self.globals@.len(),
                all == model::all(self.globals@),
                model::opt(found) == globals_report(all.take(i as int)),
            decreases self.globals@.len() - i,
        {
            assert(all.take(i + 1).drop_last() =~= all.take(i as int));
            assert(all.take(i + 1).last() == all[i as int]);
            if found.is_none() {
                let g = &self.globals[i];
                found = report_type("global ", g.name.as_str(), "", &g.ty);
                if found.is_none() {
                    found = report_instrs("global ", g.name.as_str(), " init", &g.init);
                }
            }
            i += 1;
        }
        assert(all.take(all.len() as int) =~= all);
        found
    }

    fn report_functions(&self) -> (r: Option<String>)
        ensures
            model::opt(r) == functions_report(self@.functions),
    {
        let ghost all = self@.functions;
        let mut found: Option<String> = None;
        let mut i: usize = 0;
        assert(all.take(0).len() == 0);
        while i < self.functions.len()
            invariant
                i <= self.functions@.len(),
                all == model::all(self.functions@),
                model::opt(found) == functions_report(all.take(i as int)),
            decreases self.functions@.len() - i,
        {
            assert(all.take(i + 1).drop_last() =~= all.take(i as int));
            assert(all.take(i + 1).last() == all[i as int]);
            if found.is_none() {
                let f = &self.functions[i];
                let ghost ts = model::all(f.param_tys@);
                let mut j: usize = 0;
                assert(ts.take(0).len() == 0);
                while j < f.param_tys.len()
                    invariant
                        j <= f.param_tys@.len(),
                        ts == model::all(f.param_tys@),
                        model::opt(found) == types_report(f.name@, ts.take(j as int)),
                    decreases f.param_tys@.len() - j,
                {
                    assert(ts.take(j + 1).drop_last() =~= ts.take(j as int));
                    assert(ts.take(j + 1).last() == ts[j as int]);
                    if found.is_none() {
                        found = report_type("function ", f.name.as_str(), "", &f.param_tys[j]);
                    }
                    j += 1;
                }
                assert(ts.take(ts.len() as int) =~= ts);
                assert(ts.push(f.ret@).drop_last() =~= ts);
                if found.is_none() {
                    found = report_type("function ", f.name.as_str(), "", &f.ret);
                }
                if found.is_none() {
                    found = report_instrs("function ", f.name.as_str(), " instruction", &f.instrs);
                }
            }
            i += 1;
        }
        assert(all.take(all.len() as int) =~= all);
        found
    }

    /// The first type of the module that must not occur at run time, in words.
    pub fn validate_runtime(&self) -> (r: Option<String>)
        ensures
            model::opt(r) == runtime_report(self@),
    {
        let found = self.report_objects();
        if found.is_some() {
            return found;
        }
        let found = self.report_globals();
        if found.is_some() {
            return found;
        }
        self.report_functions()
    }
}

} // verus!
