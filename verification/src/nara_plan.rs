//! What the NaraVM target emits, as a model: registers, constants, bytecode and
//! the file around them.

use vstd::prelude::*;

use crate::ast::Scalar;
use crate::codegen;
use crate::diagnostic::{error_view, DiagnosticView};
use crate::lir::{FuncSymbolView, FunctionView, InstrView, LirOp, LirProgramView, Reg};
use crate::module::FuncSigView;
use crate::span::Span;
use crate::typed::TyView;
use crate::{diagnostic, lir, lir_lowering, module, scope, text, typed};

verus! {

// ---------------------------------------------------------------------------
// Values and state
// ---------------------------------------------------------------------------

/// A constant of a file.
#[derive(Debug, Clone, Copy)]
pub enum NaraConstant {
    /// A word, by its position among the words.
    Value { value_idx: usize },
    /// A text, by its place in the text data.
    String { offset: usize, len: usize },
    /// A function, by the constants of its module and its name.
    Function { module: usize, function: usize },
}

/// What a register holds.
#[derive(Debug, Clone, Copy, PartialEq, Eq, Structural)]
pub enum NaraKind {
    U64,
    I64,
    F64,
    Bool,
    U8,
    String,
    File,
}

impl View for NaraKind {
    type V = NaraKind;

    open spec fn view(&self) -> NaraKind {
        *self
    }
}

/// A jump whose offset is filled in when the labels are known.
#[derive(Debug, Clone, Copy)]
pub struct NaraPatch {
    pub pos: usize,
    pub len: usize,
    pub target: u32,
    pub span: Span,
}

/// The kind of the values of a type, where the machine has one.
pub open spec fn kind_of_ty(t: TyView) -> Option<NaraKind> {
    match t {
        TyView::U64 => Some(NaraKind::U64),
        TyView::I64 => Some(NaraKind::I64),
        TyView::F64 => Some(NaraKind::F64),
        TyView::Bool => Some(NaraKind::Bool),
        TyView::U8 => Some(NaraKind::U8),
        TyView::String => Some(NaraKind::String),
        TyView::File => Some(NaraKind::File),
        _ => None,
    }
}

/// Whether values of a kind live in reference registers.
pub open spec fn is_ref(k: NaraKind) -> bool {
    k is String || k is File
}

/// Whether values of a kind are integers.
pub open spec fn is_integer(k: NaraKind) -> bool {
    k is U64 || k is I64 || k is U8
}

/// The kind of a scalar.
pub open spec fn kind_of_scalar(v: Scalar) -> NaraKind {
    match v {
        Scalar::Int(_) => NaraKind::I64,
        Scalar::U64(_) => NaraKind::U64,
        Scalar::I64(_) => NaraKind::I64,
        Scalar::F64(_) => NaraKind::F64,
        Scalar::Bool(_) => NaraKind::Bool,
        Scalar::U8(_) => NaraKind::U8,
    }
}

/// The word of a scalar.
pub open spec fn scalar_bits(v: Scalar) -> u64 {
    match v {
        Scalar::Int(n) => lir_lowering::word(n),
        Scalar::U64(n) => n,
        Scalar::I64(n) => lir_lowering::word(n),
        Scalar::F64(bits) => bits,
        Scalar::Bool(b) => if b {
            1
        } else {
            0
        },
        Scalar::U8(n) => n as u64,
    }
}

/// The spelling of a kind in reports.
pub open spec fn kind_text(k: NaraKind) -> Seq<char> {
    match k {
        NaraKind::U64 => "U64"@,
        NaraKind::I64 => "I64"@,
        NaraKind::F64 => "F64"@,
        NaraKind::Bool => "Bool"@,
        NaraKind::U8 => "U8"@,
        NaraKind::String => "String"@,
        NaraKind::File => "File"@,
    }
}

/// The state of emission.
pub struct Emission {
    /// The text data.
    pub blob: Seq<u8>,
    /// The words.
    pub values: Seq<u64>,
    /// The constants of words.
    pub value_index: Map<u64, usize>,
    pub constants: Seq<NaraConstant>,
    /// The code of the function at hand.
    pub bytecode: Seq<u8>,
    pub diags: Seq<DiagnosticView>,
    /// The value registers of virtual registers.
    pub rv_map: Map<Reg, u8>,
    /// The reference registers of virtual registers.
    pub rf_map: Map<Reg, u8>,
    pub kinds: Map<Reg, NaraKind>,
    /// The virtual registers without a value, because an error was reported.
    pub invalid: Set<Reg>,
    pub next_rv: u8,
    pub next_rf: u8,
    /// Value registers that were given back.
    pub free_rv: Seq<u8>,
    /// Reference registers that were given back.
    pub free_rf: Seq<u8>,
    /// The instruction that uses a virtual register last.
    pub last_use: Map<Reg, usize>,
    pub label_pos: Map<u32, usize>,
    pub patches: Seq<NaraPatch>,
    /// The value register that holds one.
    pub one_rv: Option<u8>,
    /// The value register that holds the sign bit.
    pub bias_rv: Option<u8>,
    /// The number of value parameters that were taken.
    pub param_vi: u8,
    /// The number of reference parameters that were taken.
    pub param_ri: u8,
}

/// The state before anything is emitted.
pub open spec fn nothing_emitted() -> Emission {
    Emission {
        blob: Seq::empty(),
        values: Seq::empty(),
        value_index: Map::empty(),
        constants: Seq::empty(),
        bytecode: Seq::empty(),
        diags: Seq::empty(),
        rv_map: Map::empty(),
        rf_map: Map::empty(),
        kinds: Map::empty(),
        invalid: Set::empty(),
        next_rv: 0,
        next_rf: 0x20,
        free_rv: Seq::empty(),
        free_rf: Seq::empty(),
        last_use: Map::empty(),
        label_pos: Map::empty(),
        patches: Seq::empty(),
        one_rv: None,
        bias_rv: None,
        param_vi: 0,
        param_ri: 0,
    }
}

/// The state at the start of a function: only constants and reports stay.
pub open spec fn for_function(e: Emission, last_use: Map<Reg, usize>) -> Emission {
    Emission {
        blob: e.blob,
        values: e.values,
        value_index: e.value_index,
        constants: e.constants,
        diags: e.diags,
        last_use,
        ..nothing_emitted()
    }
}

/// The state with a report.
pub open spec fn reported(e: Emission, d: DiagnosticView) -> Emission {
    Emission { diags: e.diags.push(d), ..e }
}

/// The report of an error at a place.
pub open spec fn complaint(message: Seq<char>, span: Span, label: Seq<char>, code: Seq<char>) -> DiagnosticView {
    error_view(message).label(span, label).coded(code)
}

/// The state with more code.
pub open spec fn coded(e: Emission, bytes: Seq<u8>) -> Emission {
    Emission { bytecode: e.bytecode + bytes, ..e }
}

/// The state in which a virtual register has no value.
pub open spec fn without_value(e: Emission, r: Reg) -> Emission {
    Emission { invalid: e.invalid.insert(r), ..e }
}

/// The state in which a virtual register has a kind.
pub open spec fn with_kind(e: Emission, r: Reg, k: NaraKind) -> Emission {
    Emission { kinds: e.kinds.insert(r, k), ..e }
}

/// The state in which a virtual register lives in a value register.
pub open spec fn in_rv(e: Emission, r: Reg, rv: u8) -> Emission {
    Emission { rv_map: e.rv_map.insert(r, rv), ..e }
}

/// The state in which a virtual register lives in a reference register.
pub open spec fn in_rf(e: Emission, r: Reg, rf: u8) -> Emission {
    Emission { rf_map: e.rf_map.insert(r, rf), ..e }
}

/// The value of a key, if there is one.
pub open spec fn entry<K, V>(m: Map<K, V>, k: K) -> Option<V> {
    if m.dom().contains(k) {
        Some(m[k])
    } else {
        None
    }
}

// ---------------------------------------------------------------------------
// Registers
// ---------------------------------------------------------------------------

/// The first value register from a number on that is not reserved.
pub open spec fn usable_rv(n: u8) -> u8 {
    if n == 0x10 || n == 0x11 {
        0x12
    } else {
        n
    }
}

/// The first reference register from a number on that is not reserved.
pub open spec fn usable_rf(n: u8) -> u8 {
    if n == 0x31 {
        0x32
    } else {
        n
    }
}

/// Takes a value register: one that was given back, or else the next one.
pub open spec fn fresh_rv(e: Emission, span: Span) -> (Option<u8>, Emission) {
    if e.free_rv.len() > 0 {
        (Some(e.free_rv.last()), Emission { free_rv: e.free_rv.drop_last(), ..e })
    } else {
        let rv = usable_rv(e.next_rv);
        if rv > 0x1f {
            (None, reported(e, codegen::register_report(span, rv as u32)))
        } else {
            (Some(rv), Emission { next_rv: (rv + 1) as u8, ..e })
        }
    }
}

/// Takes a reference register: one that was given back, or else the next one.
pub open spec fn fresh_rf(e: Emission, span: Span) -> (Option<u8>, Emission) {
    if e.free_rf.len() > 0 {
        (Some(e.free_rf.last()), Emission { free_rf: e.free_rf.drop_last(), ..e })
    } else {
        let rf = usable_rf(e.next_rf);
        if rf > 0x3f {
            (None, reported(e, codegen::register_report(span, rf as u32)))
        } else {
            (Some(rf), Emission { next_rf: (rf + 1) as u8, ..e })
        }
    }
}

/// The value register of a virtual register.
pub open spec fn value_reg(e: Emission, r: Reg, span: Span) -> (Option<u8>, Emission) {
    if e.rv_map.dom().contains(r) {
        (Some(e.rv_map[r]), e)
    } else if e.invalid.contains(r) {
        (None, e)
    } else {
        (
            None,
            reported(
                e,
                complaint(
                    "Naravm backend could not resolve a value register"@,
                    span,
                    "used here"@,
                    "E500"@,
                ),
            ),
        )
    }
}

/// The reference register of a virtual register.
pub open spec fn ref_reg(e: Emission, r: Reg, span: Span) -> (Option<u8>, Emission) {
    if e.rf_map.dom().contains(r) {
        (Some(e.rf_map[r]), e)
    } else if e.invalid.contains(r) {
        (None, e)
    } else {
        (
            None,
            reported(
                e,
                complaint(
                    "Naravm backend requires a string argument to std.print"@,
                    span,
                    "unsupported argument"@,
                    "E402"@,
                ),
            ),
        )
    }
}

// ---------------------------------------------------------------------------
// Constants
// ---------------------------------------------------------------------------

/// The report of a constant whose index does not fit in a byte.
pub open spec fn pool_report(span: Span, note: Seq<char>) -> DiagnosticView {
    error_view("Naravm constant pool has more than 256 entries"@).label(
        span,
        "defined here"@,
    ).noted(note).coded("E405"@)
}

/// Adds a text to the constants.
pub open spec fn add_string(e: Emission, value: Seq<u8>, span: Span) -> (Option<usize>, Emission) {
    let idx = e.constants.len() as usize;
    let e1 = Emission {
        blob: e.blob + value,
        constants: e.constants.push(
            NaraConstant::String { offset: e.blob.len() as usize, len: value.len() as usize },
        ),
        ..e
    };
    if idx > 255 {
        (
            None,
            reported(e1, pool_report(span, "string references use an 8-bit constant index"@)),
        )
    } else {
        (Some(idx), e1)
    }
}

/// Adds a word to the constants, unless it is there.
pub open spec fn add_value(e: Emission, bits: u64, span: Span) -> (Option<usize>, Emission) {
    if e.value_index.dom().contains(bits) {
        (Some(e.value_index[bits]), e)
    } else {
        let idx = e.constants.len() as usize;
        let e1 = Emission {
            values: e.values.push(bits),
            constants: e.constants.push(
                NaraConstant::Value { value_idx: e.values.len() as usize },
            ),
            value_index: e.value_index.insert(bits, idx),
            ..e
        };
        if idx > 255 {
            (
                None,
                reported(e1, pool_report(span, "value references use an 8-bit constant index"@)),
            )
        } else {
            (Some(idx), e1)
        }
    }
}

/// Adds a function to the constants.
pub open spec fn add_function(e: Emission, module: usize, function: usize) -> (
    Option<usize>,
    Emission,
) {
    let idx = e.constants.len() as usize;
    let e1 = Emission {
        constants: e.constants.push(NaraConstant::Function { module, function }),
        ..e
    };
    if idx > 255 {
        (
            None,
            reported(
                e1,
                pool_report(
                    Span { start: 0, end: 0 },
                    "function references use an 8-bit constant index"@,
                ),
            ),
        )
    } else {
        (Some(idx), e1)
    }
}

/// The low byte of an index.
pub open spec fn low_byte(n: usize) -> u8 {
    (n % 256) as u8
}

/// Loads a word into a new value register.
pub open spec fn load_word(e: Emission, bits: u64, span: Span) -> (Option<u8>, Emission) {
    match add_value(e, bits, span) {
        (None, e) => (None, e),
        (Some(idx), e) => match fresh_rv(e, span) {
            (None, e) => (None, e),
            (Some(rv), e) => (Some(rv), coded(e, seq![0x02u8, rv, low_byte(idx)])),
        },
    }
}

/// The value register that holds one, loaded where it is needed first.
pub open spec fn ensure_one(e: Emission, span: Span) -> (Option<u8>, Emission) {
    match e.one_rv {
        Some(rv) => (Some(rv), e),
        None => match load_word(e, 1, span) {
            (Some(rv), e) => (Some(rv), Emission { one_rv: Some(rv), ..e }),
            (None, e) => (None, e),
        },
    }
}

/// The value register that holds the sign bit, loaded where it is needed first.
pub open spec fn ensure_bias(e: Emission, span: Span) -> (Option<u8>, Emission) {
    match e.bias_rv {
        Some(rv) => (Some(rv), e),
        None => match load_word(e, 0x8000_0000_0000_0000, span) {
            (Some(rv), e) => (Some(rv), Emission { bias_rv: Some(rv), ..e }),
            (None, e) => (None, e),
        },
    }
}

// ---------------------------------------------------------------------------
// Instructions
// ---------------------------------------------------------------------------

/// What the emission of a function knows.
pub struct FnContext {
    pub func: FunctionView,
    pub functions: Seq<FunctionView>,
    pub fn_consts: Map<Seq<char>, usize>,
    pub native_consts: Map<Seq<char>, usize>,
    pub print_fn_idx: usize,
    pub print_u64_fn_idx: usize,
}

/// Whether a function is the program's entry.
pub open spec fn is_main(x: FnContext) -> bool {
    x.func.name == "main"@
}

/// The name under which code outside of functions stands.
pub open spec fn outside_name() -> Seq<char> {
    "<global>"@
}

/// The first function with a name.
pub open spec fn function_named(fs: Seq<FunctionView>, name: Seq<char>) -> Option<FunctionView>
    decreases fs.len(),
{
    if fs.len() == 0 {
        None
    } else {
        match function_named(fs.drop_last(), name) {
            Some(f) => Some(f),
            None => if fs.last().name == name && name != outside_name() {
                Some(fs.last())
            } else {
                None
            },
        }
    }
}

/// Whether a name is one under which `std.print` or `std.print_u64` is called.
pub open spec fn is_print(callee: Seq<char>) -> bool {
    callee == "std.print"@ || callee == "print"@ || callee == "std.print_u64"@ || callee
        == "print_u64"@
}

/// Whether a function takes or gives a file.
pub open spec fn deals_in_files(sig: FuncSigView) -> bool {
    sig.ret is File || exists|i: int| 0 <= i < sig.params.len() && (#[trigger] sig.params[i]).ty is File
}

/// The signature of a function that the machine provides: one that the targets
/// know and that does not deal in files.
#[verifier::opaque]
pub open spec fn native_sig(f: FuncSymbolView) -> Option<FuncSigView> {
    match scope::module_at(codegen::target_catalog(), module::dot_pieces(f.module)) {
        None => None,
        Some(m) => match module::first_named(m.exports, f.function) {
            None => None,
            Some(i) => if deals_in_files(m.exports[i].sig) {
                None
            } else {
                Some(m.exports[i].sig)
            },
        },
    }
}

/// The machine's name of a module.
pub open spec fn native_module(f: FuncSymbolView) -> Seq<char> {
    text::join(module::dot_pieces(f.module), "::"@)
}

/// The machine's name of a function, behind that of its module.
pub open spec fn native_name(f: FuncSymbolView) -> Seq<char> {
    native_module(f) + "::"@ + f.function
}

/// The function that an instruction calls, where the machine provides it.
pub open spec fn native_called(fs: Seq<FunctionView>, ins: InstrView) -> Option<FuncSymbolView> {
    match ins {
        InstrView::Call { callee, symbol, .. } => if function_named(fs, callee) is None
            && !is_print(callee) && native_sig(symbol) is Some {
            Some(symbol)
        } else {
            None
        },
        _ => None,
    }
}

/// The code of a call of a function constant.
pub open spec fn call_index(e: Emission, idx: usize, span: Span) -> Emission {
    if idx > 65535 {
        reported(
            e,
            complaint(
                "Naravm constant pool function index out of range"@,
                span,
                "call emitted here"@,
                "E500"@,
            ),
        )
    } else {
        coded(e, seq![0x20u8, (idx / 256) as u8, low_byte(idx)])
    }
}

/// The code that loads a scalar.
#[verifier::opaque]
pub open spec fn emit_const(e: Emission, dst: Reg, value: Scalar, span: Span) -> Emission {
    let kind = kind_of_scalar(value);
    let bits = scalar_bits(value);
    if !e.last_use.dom().contains(dst) {
        with_kind(add_value(e, bits, span).1, dst, kind)
    } else {
        match load_word(e, bits, span) {
            (None, e) => without_value(e, dst),
            (Some(rv), e) => with_kind(in_rv(e, dst, rv), dst, kind),
        }
    }
}

/// The code that loads a text.
#[verifier::opaque]
pub open spec fn emit_string(e: Emission, dst: Reg, value: Seq<u8>, span: Span) -> Emission {
    if !e.last_use.dom().contains(dst) {
        with_kind(add_string(e, value, span).1, dst, NaraKind::String)
    } else {
        match add_string(e, value, span) {
            (None, e) => without_value(e, dst),
            (Some(idx), e) => match fresh_rf(e, span) {
                (None, e) => without_value(e, dst),
                (Some(rf), e) => coded(
                    with_kind(in_rf(e, dst, rf), dst, NaraKind::String),
                    seq![0x03u8, rf, low_byte(idx)],
                ),
            },
        }
    }
}

/// The code that takes a parameter.
#[verifier::opaque]
pub open spec fn emit_param(x: FnContext, e: Emission, dst: Reg, index: usize, span: Span) -> Emission {
    let kind = if index < x.func.param_tys.len() {
        kind_of_ty(x.func.param_tys[index as int])
    } else {
        None
    };
    match kind {
        None => without_value(e, dst),
        Some(kind) => if is_ref(kind) {
            if e.param_ri >= 9 {
                without_value(
                    reported(
                        e,
                        complaint(
                            "Naravm backend supports at most 9 reference parameters per function"@,
                            span,
                            "parameter here"@,
                            "E404"@,
                        ),
                    ),
                    dst,
                )
            } else {
                let src = (0x31 + e.param_ri) as u8;
                let e = Emission { param_ri: (e.param_ri + 1) as u8, ..e };
                if !e.last_use.dom().contains(dst) {
                    e
                } else {
                    match fresh_rf(e, span) {
                        (None, e) => without_value(e, dst),
                        (Some(rf), e) => coded(
                            with_kind(in_rf(e, dst, rf), dst, kind),
                            seq![0x05u8, rf, src],
                        ),
                    }
                }
            }
        } else {
            if e.param_vi >= 15 {
                without_value(
                    reported(
                        e,
                        complaint(
                            "Naravm backend supports at most 15 value parameters per function"@,
                            span,
                            "parameter here"@,
                            "E404"@,
                        ),
                    ),
                    dst,
                )
            } else {
                let src = (0x11 + e.param_vi) as u8;
                let e = Emission { param_vi: (e.param_vi + 1) as u8, ..e };
                if !e.last_use.dom().contains(dst) {
                    e
                } else {
                    match fresh_rv(e, span) {
                        (None, e) => without_value(e, dst),
                        (Some(rv), e) => coded(
                            with_kind(in_rv(e, dst, rv), dst, kind),
                            seq![0x04u8, rv, src],
                        ),
                    }
                }
            }
        },
    }
}

/// The value register of a virtual register, taken where it has none.
pub open spec fn home_rv(e: Emission, dst: Reg, span: Span) -> (Option<u8>, Emission) {
    if e.rv_map.dom().contains(dst) {
        (Some(e.rv_map[dst]), e)
    } else {
        new_rv(e, dst, span)
    }
}

/// A new value register for a virtual register.
pub open spec fn new_rv(e: Emission, dst: Reg, span: Span) -> (Option<u8>, Emission) {
    match fresh_rv(e, span) {
        (Some(rv), e) => (Some(rv), in_rv(e, dst, rv)),
        (None, e) => (None, e),
    }
}

/// The reference register of a virtual register, taken where it has none.
pub open spec fn home_rf(e: Emission, dst: Reg, span: Span) -> (Option<u8>, Emission) {
    if e.rf_map.dom().contains(dst) {
        (Some(e.rf_map[dst]), e)
    } else {
        match fresh_rf(e, span) {
            (Some(rf), e) => (Some(rf), in_rf(e, dst, rf)),
            (None, e) => (None, e),
        }
    }
}

/// Whether two virtual registers live in one register.
pub open spec fn share_register(e: Emission, a: Reg, b: Reg) -> bool {
    (e.rv_map.dom().contains(a) && e.rv_map.dom().contains(b) && e.rv_map[a] == e.rv_map[b]) || (
    e.rf_map.dom().contains(a) && e.rf_map.dom().contains(b) && e.rf_map[a] == e.rf_map[b])
}

/// The code that copies a register.
#[verifier::opaque]
pub open spec fn emit_copy(e: Emission, dst: Reg, src: Reg, span: Span) -> Emission {
    if e.invalid.contains(src) || !e.kinds.dom().contains(src) {
        without_value(e, dst)
    } else {
        let kind = e.kinds[src];
        if share_register(e, dst, src) {
            with_kind(e, dst, kind)
        } else if is_ref(kind) {
            match (entry(e.rf_map, src), home_rf(e, dst, span)) {
                (Some(s), (Some(d), e)) => coded(with_kind(e, dst, kind), seq![0x05u8, d, s]),
                (_, (_, e)) => without_value(e, dst),
            }
        } else {
            match (entry(e.rv_map, src), home_rv(e, dst, span)) {
                (Some(s), (Some(d), e)) => coded(with_kind(e, dst, kind), seq![0x04u8, d, s]),
                (_, (_, e)) => without_value(e, dst),
            }
        }
    }
}

/// The code of a logical negation.
#[verifier::opaque]
pub open spec fn emit_not(e: Emission, dst: Reg, src: Reg, span: Span) -> Emission {
    match value_reg(e, src, span) {
        (None, e) => without_value(e, dst),
        (Some(s), e) => match ensure_one(e, span) {
            (None, e) => without_value(e, dst),
            (Some(one), e) => match new_rv(e, dst, span) {
                (None, e) => without_value(e, dst),
                (Some(d), e) => coded(
                    with_kind(e, dst, NaraKind::Bool),
                    seq![0x12u8, d, s, one],
                ),
            },
        },
    }
}

/// The operation code of an arithmetic operation.
pub open spec fn opcode(op: LirOp, k: NaraKind) -> Option<u8> {
    let column: Option<u8> = match k {
        NaraKind::U64 | NaraKind::U8 => Some(0),
        NaraKind::I64 => Some(1),
        NaraKind::F64 => Some(2),
        _ => None,
    };
    let row: Option<u8> = match op {
        LirOp::Add => Some(0x30),
        LirOp::Sub => Some(0x33),
        LirOp::Mul => Some(0x36),
        LirOp::Div => Some(0x39),
        _ => None,
    };
    match (row, column) {
        (Some(r), Some(c)) => Some((r + c) as u8),
        _ => None,
    }
}

/// The report of an operation that the machine does not have for a kind.
pub open spec fn unsupported_op(op: LirOp, k: NaraKind, span: Span) -> DiagnosticView {
    complaint(
        "Naravm backend does not support `"@ + lir::op_text(op) + "` on `"@ + kind_text(k)
            + "` yet"@,
        span,
        "unsupported operation"@,
        "E404"@,
    )
}

/// The code that turns a truth value in a register over, where asked to.
pub open spec fn emit_negation(e: Emission, dst: Reg, d: u8, negate: bool, span: Span) -> Emission {
    if negate {
        match ensure_one(e, span) {
            (None, e) => without_value(e, dst),
            (Some(one), e) => coded(e, seq![0x12u8, d, d, one]),
        }
    } else {
        e
    }
}

/// The code of an order comparison: the machine has `<` on unsigned words, so
/// operands change places, results turn over, and the signs of signed operands
/// are flipped first.
#[verifier::opaque]
pub open spec fn emit_ordering(
    e: Emission,
    dst: Reg,
    op: LirOp,
    kind: NaraKind,
    l: u8,
    r: u8,
    span: Span,
) -> Emission {
    if !is_integer(kind) {
        without_value(
            reported(
                e,
                unsupported_op(op, kind, span).noted(
                    "order comparisons lower for u64/i64/u8; f64 and strings are rejected"@,
                ),
            ),
            dst,
        )
    } else {
        let swap = op is Gt || op is Le;
        let negate = op is Le || op is Ge;
        let a = if swap {
            r
        } else {
            l
        };
        let b = if swap {
            l
        } else {
            r
        };
        if kind is I64 {
            let (bias, e) = ensure_bias(e, span);
            let (d, e) = fresh_rv(e, span);
            match (bias, d) {
                (Some(bias), Some(d)) => {
                    let (ta, e) = fresh_rv(e, span);
                    let (tb, e) = fresh_rv(e, span);
                    match (ta, tb) {
                        (Some(ta), Some(tb)) => {
                            let e = with_kind(in_rv(e, dst, d), dst, NaraKind::Bool);
                            let e = coded(e, seq![0x12u8, ta, a, bias]);
                            let e = coded(e, seq![0x12u8, tb, b, bias]);
                            let e = coded(e, seq![0x10u8, d, ta, tb]);
                            emit_negation(e, dst, d, negate, span)
                        },
                        _ => without_value(e, dst),
                    }
                },
                _ => without_value(e, dst),
            }
        } else {
            match new_rv(e, dst, span) {
                (None, e) => without_value(e, dst),
                (Some(d), e) => {
                    let e = with_kind(e, dst, NaraKind::Bool);
                    let e = coded(e, seq![0x10u8, d, a, b]);
                    emit_negation(e, dst, d, negate, span)
                },
            }
        }
    }
}

/// The code of a binary operation, the operands in value registers.
#[verifier::opaque]
pub open spec fn emit_op(
    e: Emission,
    dst: Reg,
    op: LirOp,
    kind: NaraKind,
    l: u8,
    r: u8,
    span: Span,
) -> Emission {
    match op {
        LirOp::Add | LirOp::Sub | LirOp::Mul | LirOp::Div => match opcode(op, kind) {
            None => without_value(reported(e, unsupported_op(op, kind, span)), dst),
            Some(code) => match new_rv(e, dst, span) {
                (None, e) => without_value(e, dst),
                (Some(d), e) => coded(with_kind(e, dst, kind), seq![code, d, l, r]),
            },
        },
        LirOp::Eq => match new_rv(e, dst, span) {
            (None, e) => without_value(e, dst),
            (Some(d), e) => coded(with_kind(e, dst, NaraKind::Bool), seq![0x0au8, d, l, r]),
        },
        LirOp::Ne => {
            let (d, e) = new_rv(e, dst, span);
            let (one, e) = ensure_one(e, span);
            match (d, one) {
                (Some(d), Some(one)) => coded(
                    coded(with_kind(e, dst, NaraKind::Bool), seq![0x0au8, d, l, r]),
                    seq![0x12u8, d, d, one],
                ),
                _ => without_value(e, dst),
            }
        },
        _ => emit_ordering(e, dst, op, kind, l, r, span),
    }
}

/// The code of a binary operation.
#[verifier::opaque]
pub open spec fn emit_binop(e: Emission, dst: Reg, op: LirOp, lhs: Reg, rhs: Reg, span: Span) -> Emission {
    let lkind = entry(e.kinds, lhs);
    let rkind = entry(e.kinds, rhs);
    if lkind != rkind || lkind is None {
        if e.invalid.contains(lhs) || e.invalid.contains(rhs) {
            without_value(e, dst)
        } else {
            without_value(
                reported(
                    e,
                    complaint(
                        "Naravm backend found mismatched operand types"@,
                        span,
                        "emitted here"@,
                        "E500"@,
                    ),
                ),
                dst,
            )
        }
    } else {
        let kind = lkind->0;
        if is_ref(kind) {
            without_value(
                reported(
                    e,
                    complaint(
                        "Naravm backend does not support `"@ + lir::op_text(op)
                            + "` on strings yet"@,
                        span,
                        "unsupported operation"@,
                        "E404"@,
                    ),
                ),
                dst,
            )
        } else {
            match value_reg(e, lhs, span) {
                (None, e) => without_value(e, dst),
                (Some(l), e) => match value_reg(e, rhs, span) {
                    (None, e) => without_value(e, dst),
                    (Some(r), e) => emit_op(e, dst, op, kind, l, r, span),
                },
            }
        }
    }
}

// ---------------------------------------------------------------------------
// Calls
// ---------------------------------------------------------------------------

/// Whether a virtual register lives in a register.
pub open spec fn lives_in(m: Map<Reg, u8>, n: u8) -> bool {
    exists|r: Reg| #[trigger] m.dom().contains(r) && m[r] == n
}

/// The registers below a number in which virtual registers live, in order.
pub open spec fn live_registers(m: Map<Reg, u8>, n: nat) -> Seq<u8>
    decreases n,
{
    if n == 0 {
        Seq::empty()
    } else {
        let front = live_registers(m, (n - 1) as nat);
        if lives_in(m, (n - 1) as u8) {
            front.push((n - 1) as u8)
        } else {
            front
        }
    }
}

/// A register that is saved around a call.
pub enum Spill {
    V(u8),
    F(u8),
}

/// Value registers to be saved.
pub open spec fn value_spills(rs: Seq<u8>) -> Seq<Spill> {
    Seq::new(rs.len(), |i: int| Spill::V(rs[i]))
}

/// Reference registers to be saved.
pub open spec fn ref_spills(rs: Seq<u8>) -> Seq<Spill> {
    Seq::new(rs.len(), |i: int| Spill::F(rs[i]))
}

/// One value register to be saved, where there is one.
pub open spec fn spill_of(r: Option<u8>) -> Seq<Spill> {
    match r {
        Some(r) => seq![Spill::V(r)],
        None => Seq::empty(),
    }
}

/// The registers that are saved around a call, in the order in which they are
/// pushed.
pub open spec fn spills(e: Emission) -> Seq<Spill> {
    value_spills(live_registers(e.rv_map, 256)) + spill_of(e.one_rv) + spill_of(e.bias_rv)
        + ref_spills(live_registers(e.rf_map, 256))
}

/// The code that pushes a register.
pub open spec fn push_code(s: Spill) -> Seq<u8> {
    match s {
        Spill::V(r) => seq![0x06u8, r],
        Spill::F(r) => seq![0x08u8, r],
    }
}

/// The code that pops a register.
pub open spec fn pop_code(s: Spill) -> Seq<u8> {
    match s {
        Spill::V(r) => seq![0x07u8, r],
        Spill::F(r) => seq![0x09u8, r],
    }
}

/// The code that pushes registers in order.
pub open spec fn push_all(ss: Seq<Spill>) -> Seq<u8>
    decreases ss.len(),
{
    if ss.len() == 0 {
        Seq::empty()
    } else {
        push_all(ss.drop_last()) + push_code(ss.last())
    }
}

/// The code that pops registers, the last first.
pub open spec fn pop_all(ss: Seq<Spill>) -> Seq<u8>
    decreases ss.len(),
{
    if ss.len() == 0 {
        Seq::empty()
    } else {
        pop_code(ss.last()) + pop_all(ss.drop_last())
    }
}

/// The registers of arguments: whether each is a reference, and its register.
/// `None` where one has none.
pub open spec fn actuals(e: Emission, args: Seq<Reg>) -> Option<Seq<(bool, u8)>>
    decreases args.len(),
{
    if args.len() == 0 {
        Some(Seq::empty())
    } else {
        match actuals(e, args.drop_last()) {
            None => None,
            Some(front) => match entry(e.kinds, args.last()) {
                None => None,
                Some(kind) => if is_ref(kind) {
                    match entry(e.rf_map, args.last()) {
                        Some(r) => Some(front.push((true, r))),
                        None => None,
                    }
                } else {
                    match entry(e.rv_map, args.last()) {
                        Some(r) => Some(front.push((false, r))),
                        None => None,
                    }
                },
            },
        }
    }
}

/// The number of arguments that are references, or of those that are not.
pub open spec fn count_args(xs: Seq<(bool, u8)>, reference: bool) -> nat
    decreases xs.len(),
{
    if xs.len() == 0 {
        0
    } else {
        count_args(xs.drop_last(), reference) + (if xs.last().0 == reference {
            1nat
        } else {
            0nat
        })
    }
}

/// The code that moves arguments, one after the other, into the registers of
/// parameters.
pub open spec fn move_args(xs: Seq<(bool, u8)>) -> Seq<u8>
    decreases xs.len(),
{
    if xs.len() == 0 {
        Seq::empty()
    } else {
        let front = xs.drop_last();
        move_args(front) + (if xs.last().0 {
            seq![0x05u8, (0x31 + count_args(front, true)) as u8, xs.last().1]
        } else {
            seq![0x04u8, (0x11 + count_args(front, false)) as u8, xs.last().1]
        })
    }
}

/// The registers that arguments live in.
pub open spec fn sources(xs: Seq<(bool, u8)>) -> Seq<Spill> {
    Seq::new(
        xs.len(),
        |i: int|
            if xs[i].0 {
                Spill::F(xs[i].1)
            } else {
                Spill::V(xs[i].1)
            },
    )
}

/// The registers of parameters that arguments go to.
pub open spec fn slots(xs: Seq<(bool, u8)>) -> Seq<Spill> {
    Seq::new(
        xs.len(),
        |i: int|
            if xs[i].0 {
                Spill::F((0x31 + count_args(xs.take(i), true)) as u8)
            } else {
                Spill::V((0x11 + count_args(xs.take(i), false)) as u8)
            },
    )
}

/// Whether moving an argument would overwrite a later one.
pub open spec fn args_clash(xs: Seq<(bool, u8)>) -> bool {
    exists|i: int, j: int|
        0 <= i < j < xs.len() && #[trigger] slots(xs)[i] == #[trigger] sources(xs)[j]
}

/// The code that puts arguments into the registers of parameters: by moves, or
/// through the stacks where a move would overwrite an argument.
pub open spec fn pass_args(xs: Seq<(bool, u8)>) -> Seq<u8> {
    if args_clash(xs) {
        push_all(sources(xs)) + pop_all(slots(xs))
    } else {
        move_args(xs)
    }
}

/// Whether one of the registers has no value because of an error.
pub open spec fn some_invalid(e: Emission, args: Seq<Reg>) -> bool {
    exists|i: int| 0 <= i < args.len() && e.invalid.contains(#[trigger] args[i])
}

/// The register for the result of a call, where the callee gives one.
pub open spec fn result_register(e: Emission, kind: Option<NaraKind>, span: Span) -> (
    Option<u8>,
    Emission,
) {
    match kind {
        None => (None, e),
        Some(k) => if is_ref(k) {
            fresh_rf(e, span)
        } else {
            fresh_rv(e, span)
        },
    }
}

/// The code behind a call that takes the result and restores registers.
pub open spec fn after_call(
    e: Emission,
    dst: Reg,
    kind: Option<NaraKind>,
    reg: Option<u8>,
    saved: Seq<Spill>,
) -> Emission {
    let e = match (kind, reg) {
        (Some(k), Some(r)) => if is_ref(k) {
            with_kind(in_rf(coded(e, seq![0x05u8, r, 0x31u8]), dst, r), dst, k)
        } else {
            let e = if r != 0x11 {
                coded(e, seq![0x04u8, r, 0x11u8])
            } else {
                e
            };
            with_kind(in_rv(e, dst, r), dst, k)
        },
        _ => e,
    };
    coded(e, pop_all(saved))
}

/// The code of a call, given its arguments and the constant of the callee.
pub open spec fn emit_call(
    e: Emission,
    dst: Reg,
    callee: Seq<char>,
    ret: TyView,
    idx: Option<usize>,
    xs: Seq<(bool, u8)>,
    span: Span,
) -> Emission {
    if count_args(xs, false) > 15 || count_args(xs, true) > 9 {
        without_value(
            reported(
                e,
                complaint(
                    "Naravm backend supports at most 15 value and 9 reference arguments per call"@,
                    span,
                    "call emitted here"@,
                    "E404"@,
                ),
            ),
            dst,
        )
    } else {
        let kind = kind_of_ty(ret);
        let (reg, e) = result_register(e, kind, span);
        if kind is Some && reg is None {
            without_value(e, dst)
        } else {
            let saved = spills(e);
            let e = coded(coded(e, push_all(saved)), pass_args(xs));
            match idx {
                Some(i) => after_call(call_index(e, i, span), dst, kind, reg, saved),
                None => without_value(
                    reported(
                        e,
                        complaint(
                            "codegen: missing function constant for `"@ + callee
                                + "` (compiler bug)"@,
                            span,
                            "call emitted here"@,
                            "E500"@,
                        ),
                    ),
                    dst,
                ),
            }
        }
    }
}

/// The code of a call of a function with a number of parameters, a result and a
/// constant.
pub open spec fn emit_known_call(
    e: Emission,
    dst: Reg,
    callee: Seq<char>,
    arity: nat,
    ret: TyView,
    idx: Option<usize>,
    args: Seq<Reg>,
    span: Span,
) -> Emission {
    if some_invalid(e, args) {
        without_value(e, dst)
    } else if args.len() != arity {
        without_value(
            reported(
                e,
                complaint(
                    "codegen: arity mismatch calling `"@ + callee + "` (compiler bug)"@,
                    span,
                    "call emitted here"@,
                    "E500"@,
                ),
            ),
            dst,
        )
    } else {
        match actuals(e, args) {
            None => without_value(
                reported(
                    e,
                    complaint(
                        "Naravm backend could not resolve a call argument (compiler bug)"@,
                        span,
                        "call emitted here"@,
                        "E500"@,
                    ),
                ),
                dst,
            ),
            Some(xs) => emit_call(e, dst, callee, ret, idx, xs, span),
        }
    }
}

/// The code of a call of a function of the program.
pub open spec fn emit_user_call(
    x: FnContext,
    e: Emission,
    dst: Reg,
    callee: Seq<char>,
    f: FunctionView,
    args: Seq<Reg>,
    span: Span,
) -> Emission {
    emit_known_call(
        e,
        dst,
        callee,
        f.param_tys.len(),
        f.ret,
        entry(x.fn_consts, callee),
        args,
        span,
    )
}

/// The code of a call of a function that the machine provides. Arguments and
/// results go the way of the program's own functions.
pub open spec fn emit_native_call(
    x: FnContext,
    e: Emission,
    dst: Reg,
    callee: Seq<char>,
    f: FuncSymbolView,
    sig: FuncSigView,
    args: Seq<Reg>,
    span: Span,
) -> Emission {
    emit_known_call(
        e,
        dst,
        callee,
        sig.params.len(),
        typed::known(sig.ret),
        entry(x.native_consts, native_name(f)),
        args,
        span,
    )
}

/// The report of a call with a wrong number of arguments.
pub open spec fn arity_report(message: Seq<char>, span: Span) -> DiagnosticView {
    complaint(message, span, "invalid call"@, "E401"@)
}

/// The code of a call of `std.print`.
pub open spec fn emit_print(x: FnContext, e: Emission, dst: Reg, args: Seq<Reg>, span: Span) -> Emission {
    if args.len() != 1 {
        without_value(
            reported(e, arity_report("std.print expects one string argument"@, span)),
            dst,
        )
    } else if e.invalid.contains(args[0]) {
        without_value(e, dst)
    } else {
        match ref_reg(e, args[0], span) {
            (None, e) => without_value(e, dst),
            (Some(s), e) => call_index(coded(e, seq![0x05u8, 0x31u8, s]), x.print_fn_idx, span),
        }
    }
}

/// The code of a call of `std.print_u64`.
pub open spec fn emit_print_u64(x: FnContext, e: Emission, dst: Reg, args: Seq<Reg>, span: Span) -> Emission {
    if args.len() != 1 {
        without_value(
            reported(e, arity_report("std.print_u64 expects one u64 argument"@, span)),
            dst,
        )
    } else if e.invalid.contains(args[0]) {
        without_value(e, dst)
    } else if entry(e.kinds, args[0]) != Some(NaraKind::U64) && entry(e.kinds, args[0]) != Some(
        NaraKind::U8,
    ) {
        without_value(
            reported(
                e,
                complaint(
                    "Naravm backend requires a u64 argument to std.print_u64"@,
                    span,
                    "unsupported argument"@,
                    "E402"@,
                ),
            ),
            dst,
        )
    } else {
        match value_reg(e, args[0], span) {
            (None, e) => without_value(e, dst),
            (Some(s), e) => {
                let e = if s != 0x11 {
                    coded(e, seq![0x04u8, 0x11u8, s])
                } else {
                    e
                };
                call_index(e, x.print_u64_fn_idx, span)
            },
        }
    }
}

/// The report of a call that the target does not support.
pub open spec fn unknown_callee(callee: Seq<char>, span: Span) -> DiagnosticView {
    error_view(
        "Naravm backend does not support call `"@ + callee + "` yet"@,
    ).label(span, "unsupported call"@).noted(
        "only `std.print`, `std.print_u64`, and user functions lower to Naravm calls"@,
    ).coded("E404"@)
}

/// The code of a call.
#[verifier::opaque]
pub open spec fn emit_any_call(
    x: FnContext,
    e: Emission,
    dst: Reg,
    callee: Seq<char>,
    symbol: FuncSymbolView,
    args: Seq<Reg>,
    span: Span,
) -> Emission {
    match function_named(x.functions, callee) {
        Some(f) => emit_user_call(x, e, dst, callee, f, args, span),
        None => if callee == "std.print"@ || callee == "print"@ {
            emit_print(x, e, dst, args, span)
        } else if callee == "std.print_u64"@ || callee == "print_u64"@ {
            emit_print_u64(x, e, dst, args, span)
        } else {
            match native_sig(symbol) {
                Some(sig) => emit_native_call(x, e, dst, callee, symbol, sig, args, span),
                None => without_value(reported(e, unknown_callee(callee, span)), dst),
            }
        },
    }
}

/// The report of a return whose value has no register.
pub open spec fn lost_return(span: Span) -> DiagnosticView {
    complaint(
        "Naravm backend could not resolve the return register (compiler bug)"@,
        span,
        "return emitted here"@,
        "E500"@,
    )
}

/// The code of a return.
#[verifier::opaque]
pub open spec fn emit_ret(x: FnContext, e: Emission, src: Reg, span: Span) -> Emission {
    let e = match kind_of_ty(x.func.ret) {
        None => e,
        Some(kind) => if is_main(x) || e.invalid.contains(src) {
            e
        } else if is_ref(kind) {
            match entry(e.rf_map, src) {
                Some(s) => coded(e, seq![0x05u8, 0x31u8, s]),
                None => reported(e, lost_return(span)),
            }
        } else {
            match entry(e.rv_map, src) {
                Some(s) => if s != 0x11 {
                    coded(e, seq![0x04u8, 0x11u8, s])
                } else {
                    e
                },
                None => reported(e, lost_return(span)),
            }
        },
    };
    coded(e, seq![0x00u8])
}

/// The state with a jump whose offset is yet to be filled in.
pub open spec fn emit_jump(e: Emission, bytes: Seq<u8>, target: u32, span: Span) -> Emission {
    Emission {
        patches: e.patches.push(
            NaraPatch {
                pos: e.bytecode.len() as usize,
                len: bytes.len() as usize,
                target,
                span,
            },
        ),
        ..coded(e, bytes)
    }
}

/// The report of an instruction that the target does not support.
pub open spec fn unsupported_instr(name: Seq<char>, span: Span) -> DiagnosticView {
    complaint(
        "Naravm backend does not support `"@ + name + "` yet"@,
        span,
        "unsupported operation"@,
        "E404"@,
    )
}

/// The state behind an instruction that the target does not support.
pub open spec fn refused(e: Emission, name: Seq<char>, dst: Option<Reg>, span: Span) -> Emission {
    let e = reported(e, unsupported_instr(name, span));
    match dst {
        Some(r) => without_value(e, r),
        None => e,
    }
}

/// The code of an instruction.
pub open spec fn emit_instr(x: FnContext, e: Emission, ins: InstrView) -> Emission {
    match ins {
        InstrView::Const { dst, value, span } => emit_const(e, dst, value, span),
        InstrView::StringConst { dst, value, span } => emit_string(e, dst, value, span),
        InstrView::Param { dst, index, span } => if is_main(x) {
            reported(
                e,
                complaint(
                    "Naravm backend only supports `function main()` with no parameters"@,
                    span,
                    "parameter here"@,
                    "E403"@,
                ),
            )
        } else {
            emit_param(x, e, dst, index, span)
        },
        InstrView::Copy { dst, src, span } => emit_copy(e, dst, src, span),
        InstrView::Not { dst, src, span } => emit_not(e, dst, src, span),
        InstrView::BinOp { dst, op, lhs, rhs, span } => emit_binop(e, dst, op, lhs, rhs, span),
        InstrView::Call { dst, callee, symbol, args, span } => emit_any_call(
            x,
            e,
            dst,
            callee,
            symbol,
            args,
            span,
        ),
        InstrView::Ret { src, span } => emit_ret(x, e, src, span),
        InstrView::BranchIfFalse { cond, target, span } => match value_reg(e, cond, span) {
            (None, e) => e,
            (Some(c), e) => emit_jump(e, seq![0x24u8, c, 0u8, 0u8], target, span),
        },
        InstrView::Jump { target, span } => emit_jump(e, seq![0x22u8, 0u8, 0u8], target, span),
        InstrView::Label { id, .. } => Emission {
            label_pos: e.label_pos.insert(id, e.bytecode.len() as usize),
            ..e
        },
        InstrView::NewArray { dst, span, .. } => refused(e, "new_array"@, Some(dst), span),
        InstrView::ArrayLit { dst, span, .. } => refused(e, "array_lit"@, Some(dst), span),
        InstrView::ArrayGet { dst, span, .. } => refused(e, "array_get"@, Some(dst), span),
        InstrView::ArraySet { span, .. } => refused(e, "array_set"@, None, span),
        InstrView::NewObject { dst, span, .. } => refused(e, "new_object"@, Some(dst), span),
        InstrView::ObjectGet { dst, span, .. } => refused(e, "object_get"@, Some(dst), span),
        InstrView::ObjectSet { span, .. } => refused(e, "object_set"@, None, span),
        InstrView::Cast { dst, span, .. } => refused(e, "cast"@, Some(dst), span),
        InstrView::GlobalLoad { dst, span, .. } => refused(e, "global_load"@, Some(dst), span),
        InstrView::GlobalStore { span, .. } => refused(e, "global_store"@, None, span),
    }
}

// ---------------------------------------------------------------------------
// Lifetimes
// ---------------------------------------------------------------------------

/// The registers that an instruction reads.
pub open spec fn reads(ins: InstrView) -> Seq<Reg> {
    match ins {
        InstrView::BinOp { lhs, rhs, .. } => seq![lhs, rhs],
        InstrView::Copy { src, .. } => seq![src],
        InstrView::Not { src, .. } => seq![src],
        InstrView::Call { args, .. } => args,
        InstrView::BranchIfFalse { cond, .. } => seq![cond],
        InstrView::Ret { src, .. } => seq![src],
        InstrView::NewArray { len, .. } => seq![len],
        InstrView::ArrayLit { elems, .. } => elems,
        InstrView::ArrayGet { array, index, .. } => seq![array, index],
        InstrView::ArraySet { array, index, value, .. } => seq![array, index, value],
        InstrView::NewObject { fields, .. } => Seq::new(fields.len(), |i: int| fields[i].1),
        InstrView::ObjectGet { object, .. } => seq![object],
        InstrView::ObjectSet { object, value, .. } => seq![object, value],
        InstrView::Cast { src, .. } => seq![src],
        InstrView::GlobalStore { src, .. } => seq![src],
        _ => Seq::empty(),
    }
}

/// The uses with those of registers at an instruction.
pub open spec fn with_uses(m: Map<Reg, usize>, rs: Seq<Reg>, at: usize) -> Map<Reg, usize>
    decreases rs.len(),
{
    if rs.len() == 0 {
        m
    } else {
        with_uses(m, rs.drop_last(), at).insert(rs.last(), at)
    }
}

/// The instruction that reads each register last.
pub open spec fn last_uses(xs: Seq<InstrView>) -> Map<Reg, usize>
    decreases xs.len(),
{
    if xs.len() == 0 {
        Map::empty()
    } else {
        with_uses(last_uses(xs.drop_last()), reads(xs.last()), (xs.len() - 1) as usize)
    }
}

/// The register that an instruction writes.
pub open spec fn defines(ins: InstrView) -> Option<Reg> {
    match ins {
        InstrView::Const { dst, .. } => Some(dst),
        InstrView::StringConst { dst, .. } => Some(dst),
        InstrView::Param { dst, .. } => Some(dst),
        InstrView::Copy { dst, .. } => Some(dst),
        InstrView::Not { dst, .. } => Some(dst),
        InstrView::BinOp { dst, .. } => Some(dst),
        InstrView::Call { dst, .. } => Some(dst),
        InstrView::NewArray { dst, .. } => Some(dst),
        InstrView::ArrayLit { dst, .. } => Some(dst),
        InstrView::ArrayGet { dst, .. } => Some(dst),
        InstrView::NewObject { dst, .. } => Some(dst),
        InstrView::ObjectGet { dst, .. } => Some(dst),
        InstrView::Cast { dst, .. } => Some(dst),
        InstrView::GlobalLoad { dst, .. } => Some(dst),
        _ => None,
    }
}

/// The label that an instruction may jump to.
pub open spec fn jump_target(ins: InstrView) -> Option<u32> {
    match ins {
        InstrView::Jump { target, .. } => Some(target),
        InstrView::BranchIfFalse { target, .. } => Some(target),
        _ => None,
    }
}

/// Whether a copy writes a register: it is the home of a variable, or joins the
/// sides of `&&` or `||`.
pub open spec fn is_home(xs: Seq<InstrView>, r: Reg) -> bool {
    exists|i: int| 0 <= i < xs.len() && copies_to(#[trigger] xs[i], r)
}

/// Whether an instruction copies into a register.
pub open spec fn copies_to(ins: InstrView, r: Reg) -> bool {
    ins matches InstrView::Copy { dst, .. } && dst == r
}

/// Whether a loop goes from one instruction, a label, back from another.
pub open spec fn loops_back(xs: Seq<InstrView>, h: int, j: int) -> bool {
    &&& 0 <= h <= j < xs.len()
    &&& xs[h] matches InstrView::Label { id, .. } && jump_target(xs[j]) == Some(id)
}

/// Whether an instruction before a position writes a register.
pub open spec fn defined_before(xs: Seq<InstrView>, r: Reg, h: int) -> bool {
    exists|d: int| 0 <= d < h && defines(#[trigger] xs[d]) == Some(r)
}

/// Whether one of the instructions from a position to another reads a register.
pub open spec fn read_between(xs: Seq<InstrView>, r: Reg, h: int, j: int) -> bool {
    exists|k: int| h <= k <= j && reads(#[trigger] xs[k]).contains(r)
}

/// Whether a register is read in a loop that is entered after it was written.
pub open spec fn read_in_loop(xs: Seq<InstrView>, r: Reg) -> bool {
    exists|h: int, j: int| #[trigger]
        loops_back(xs, h, j) && defined_before(xs, r, h) && read_between(xs, r, h, j)
}

/// Whether a register stays live past the instruction that reads it last in the
/// text.
pub open spec fn outlives(xs: Seq<InstrView>, r: Reg) -> bool {
    is_home(xs, r) || read_in_loop(xs, r)
}

/// The instruction with which each register that is read dies. One that outlives
/// the text dies with none.
pub open spec fn lifetimes(xs: Seq<InstrView>) -> Map<Reg, usize> {
    Map::new(
        |r: Reg| last_uses(xs).dom().contains(r),
        |r: Reg|
            if outlives(xs, r) {
                xs.len() as usize
            } else {
                last_uses(xs)[r]
            },
    )
}

/// Gives the registers of a virtual register back, where it dies with an
/// instruction.
pub open spec fn release(e: Emission, r: Reg, at: usize) -> Emission {
    if entry(e.last_use, r) != Some(at) {
        e
    } else {
        let e = if e.rv_map.dom().contains(r) {
            Emission { free_rv: e.free_rv.push(e.rv_map[r]), rv_map: e.rv_map.remove(r), ..e }
        } else {
            e
        };
        if e.rf_map.dom().contains(r) {
            Emission { free_rf: e.free_rf.push(e.rf_map[r]), rf_map: e.rf_map.remove(r), ..e }
        } else {
            e
        }
    }
}

/// Gives the registers of virtual registers back in order.
pub open spec fn release_all(e: Emission, rs: Seq<Reg>, at: usize) -> Emission
    decreases rs.len(),
{
    if rs.len() == 0 {
        e
    } else {
        release(release_all(e, rs.drop_last(), at), rs.last(), at)
    }
}

/// Gives back what dies with an instruction.
pub open spec fn free_dead(e: Emission, ins: InstrView, at: usize) -> Emission {
    release_all(e, reads(ins), at)
}

// ---------------------------------------------------------------------------
// Jumps
// ---------------------------------------------------------------------------

/// The two bytes of a jump offset.
pub open spec fn offset_bytes(offset: int) -> Seq<u8> {
    let w = if offset >= 0 {
        offset
    } else {
        offset + 65536
    };
    seq![(w / 256) as u8, (w % 256) as u8]
}

/// Code with a jump offset filled in at the end of an instruction.
pub open spec fn patched(code: Seq<u8>, end: int, offset: int) -> Seq<u8> {
    if 2 <= end <= code.len() {
        code.update(end - 2, offset_bytes(offset)[0]).update(end - 1, offset_bytes(offset)[1])
    } else {
        code
    }
}

/// Fills a jump offset in.
pub open spec fn resolve_jump(e: Emission, p: NaraPatch) -> Emission {
    if !e.label_pos.dom().contains(p.target) {
        reported(
            e,
            complaint(
                "codegen: unknown label L"@ + text::dec(p.target as nat) + " (compiler bug)"@,
                p.span,
                "jump emitted here"@,
                "E500"@,
            ),
        )
    } else {
        let offset = e.label_pos[p.target] as int - (p.pos as int + p.len as int);
        if offset < -32768 || offset > 32767 {
            reported(
                e,
                complaint(
                    "Naravm jump offset out of range (function too large)"@,
                    p.span,
                    "jump emitted here"@,
                    "E500"@,
                ),
            )
        } else {
            Emission { bytecode: patched(e.bytecode, p.pos + p.len, offset), ..e }
        }
    }
}

/// Fills jump offsets in.
pub open spec fn resolve_jumps(e: Emission, ps: Seq<NaraPatch>) -> Emission
    decreases ps.len(),
{
    if ps.len() == 0 {
        e
    } else {
        resolve_jump(resolve_jumps(e, ps.drop_last()), ps.last())
    }
}

// ---------------------------------------------------------------------------
// Functions
// ---------------------------------------------------------------------------

/// The code of instructions, up to the first that an error is reported for.
pub open spec fn emit_instrs(x: FnContext, e: Emission, xs: Seq<InstrView>) -> Emission
    decreases xs.len(),
{
    if xs.len() == 0 {
        e
    } else {
        let e = emit_instrs(x, e, xs.drop_last());
        if diagnostic::has_error(e.diags) {
            e
        } else {
            free_dead(emit_instr(x, e, xs.last()), xs.last(), (xs.len() - 1) as usize)
        }
    }
}

/// The code of a function.
pub open spec fn emit_function(x: FnContext, e: Emission) -> Emission {
    let e = emit_instrs(x, for_function(e, lifetimes(x.func.instrs)), x.func.instrs);
    if diagnostic::has_error(e.diags) {
        e
    } else {
        resolve_jumps(e, e.patches)
    }
}

/// The constants that the functions of a program refer to.
pub struct Pool {
    pub module_idx: usize,
    pub entry_name_idx: usize,
    pub print_fn_idx: usize,
    pub print_u64_fn_idx: usize,
    /// The constants of functions, by their names.
    pub fn_consts: Map<Seq<char>, usize>,
    /// The constants of the names of functions.
    pub fn_names: Map<Seq<char>, usize>,
    /// The constants of functions that the machine provides, by their names.
    pub native_consts: Map<Seq<char>, usize>,
}

/// The index, or zero.
pub open spec fn or_zero(i: Option<usize>) -> usize {
    match i {
        Some(i) => i,
        None => 0,
    }
}

/// Adds a function of the program to the constants.
pub open spec fn pool_function(p: Pool, e: Emission, name: Seq<char>) -> (Pool, Emission) {
    if name == outside_name() || p.fn_consts.dom().contains(name) {
        (p, e)
    } else if name == "main"@ {
        match add_function(e, p.module_idx, p.entry_name_idx) {
            (Some(idx), e) => (Pool { fn_consts: p.fn_consts.insert(name, idx), ..p }, e),
            (None, e) => (p, e),
        }
    } else {
        match add_string(e, vstd::utf8::encode_utf8(name), Span { start: 0, end: 0 }) {
            (None, e) => (p, e),
            (Some(name_idx), e) => match add_function(e, p.module_idx, name_idx) {
                (Some(idx), e) => (
                    Pool {
                        fn_consts: p.fn_consts.insert(name, idx),
                        fn_names: p.fn_names.insert(name, name_idx),
                        ..p
                    },
                    e,
                ),
                (None, e) => (p, e),
            },
        }
    }
}

/// Adds the functions of the program to the constants.
pub open spec fn pool_functions(p: Pool, e: Emission, fs: Seq<FunctionView>) -> (Pool, Emission)
    decreases fs.len(),
{
    if fs.len() == 0 {
        (p, e)
    } else {
        let (p, e) = pool_functions(p, e, fs.drop_last());
        pool_function(p, e, fs.last().name)
    }
}

/// Adds a function that the machine provides to the constants, unless it is there.
pub open spec fn pool_native(p: Pool, e: Emission, f: FuncSymbolView) -> (Pool, Emission) {
    let at = Span { start: 0, end: 0 };
    if p.native_consts.dom().contains(native_name(f)) {
        (p, e)
    } else {
        match add_string(e, vstd::utf8::encode_utf8(native_module(f)), at) {
            (None, e) => (p, e),
            (Some(module_idx), e) => match add_string(e, vstd::utf8::encode_utf8(f.function), at) {
                (None, e) => (p, e),
                (Some(name_idx), e) => match add_function(e, module_idx, name_idx) {
                    (None, e) => (p, e),
                    (Some(idx), e) => (
                        Pool { native_consts: p.native_consts.insert(native_name(f), idx), ..p },
                        e,
                    ),
                },
            },
        }
    }
}

/// Adds the functions that instructions call and that the machine provides to the
/// constants.
pub open spec fn pool_called(p: Pool, e: Emission, all: Seq<FunctionView>, xs: Seq<InstrView>) -> (
    Pool,
    Emission,
)
    decreases xs.len(),
{
    if xs.len() == 0 {
        (p, e)
    } else {
        let (p, e) = pool_called(p, e, all, xs.drop_last());
        match native_called(all, xs.last()) {
            Some(f) => pool_native(p, e, f),
            None => (p, e),
        }
    }
}

/// Adds the functions that a program calls and that the machine provides to the
/// constants.
pub open spec fn pool_natives(p: Pool, e: Emission, all: Seq<FunctionView>, fs: Seq<FunctionView>) -> (
    Pool,
    Emission,
)
    decreases fs.len(),
{
    if fs.len() == 0 {
        (p, e)
    } else {
        let (p, e) = pool_natives(p, e, all, fs.drop_last());
        if fs.last().name == outside_name() {
            (p, e)
        } else {
            pool_called(p, e, all, fs.last().instrs)
        }
    }
}

/// The constants that every program has.
pub open spec fn base_pool(module: Seq<char>) -> (Pool, Emission) {
    let at = Span { start: 0, end: 0 };
    let (module_idx, e) = add_string(nothing_emitted(), vstd::utf8::encode_utf8(module), at);
    let (entry_idx, e) = add_string(e, entry_name(), at);
    let (std_idx, e) = add_string(e, seq![115u8, 116u8, 100u8], at);
    let (print_idx, e) = add_string(e, print_name(), at);
    let (print_u64_idx, e) = add_string(e, print_name() + seq![95u8, 117u8, 54u8, 52u8], at);
    let print_fn_idx = e.constants.len() as usize;
    let e = Emission {
        constants: e.constants.push(
            NaraConstant::Function { module: or_zero(std_idx), function: or_zero(print_idx) },
        ),
        ..e
    };
    let print_u64_fn_idx = e.constants.len() as usize;
    let e = Emission {
        constants: e.constants.push(
            NaraConstant::Function { module: or_zero(std_idx), function: or_zero(print_u64_idx) },
        ),
        ..e
    };
    (
        Pool {
            module_idx: or_zero(module_idx),
            entry_name_idx: or_zero(entry_idx),
            print_fn_idx,
            print_u64_fn_idx,
            fn_consts: Map::empty(),
            fn_names: Map::empty(),
            native_consts: Map::empty(),
        },
        e,
    )
}

/// The bytes of `<entrypoint>`.
pub open spec fn entry_name() -> Seq<u8> {
    seq![60u8, 101u8, 110u8, 116u8, 114u8, 121u8, 112u8, 111u8, 105u8, 110u8, 116u8, 62u8]
}

/// The bytes of `print`.
pub open spec fn print_name() -> Seq<u8> {
    seq![112u8, 114u8, 105u8, 110u8, 116u8]
}

/// The constant of the name that a function has in the file.
pub open spec fn file_name(p: Pool, name: Seq<char>) -> usize {
    if name != "main"@ && p.fn_names.dom().contains(name) {
        p.fn_names[name]
    } else {
        p.entry_name_idx
    }
}

/// The code of functions, each behind the constant of its name, up to the first
/// that an error is reported for.
pub open spec fn emit_functions(p: Pool, e: Emission, all: Seq<FunctionView>, fs: Seq<FunctionView>) -> (
    Seq<(usize, Seq<u8>)>,
    Emission,
)
    decreases fs.len(),
{
    if fs.len() == 0 {
        (Seq::empty(), e)
    } else {
        let (out, e) = emit_functions(p, e, all, fs.drop_last());
        let f = fs.last();
        if diagnostic::has_error(e.diags) || f.name == outside_name() {
            (out, e)
        } else {
            let e = emit_function(context_for(p, all, f), e);
            if diagnostic::has_error(e.diags) {
                (out, e)
            } else {
                (out.push((file_name(p, f.name), e.bytecode)), e)
            }
        }
    }
}

/// What the emission of a function of a program knows.
pub open spec fn context_for(p: Pool, all: Seq<FunctionView>, f: FunctionView) -> FnContext {
    FnContext {
        func: f,
        functions: all,
        fn_consts: p.fn_consts,
        native_consts: p.native_consts,
        print_fn_idx: p.print_fn_idx,
        print_u64_fn_idx: p.print_u64_fn_idx,
    }
}

// ---------------------------------------------------------------------------
// The file
// ---------------------------------------------------------------------------

/// A number as two bytes, the high one first.
pub open spec fn two_bytes(n: u16) -> Seq<u8> {
    seq![(n / 256) as u8, (n % 256) as u8]
}

/// A number as four bytes, the high one first.
#[verifier::opaque]
pub open spec fn four_bytes(n: u32) -> Seq<u8> {
    seq![
        (n / 0x100_0000) as u8,
        (n / 0x1_0000 % 256) as u8,
        (n / 0x100 % 256) as u8,
        (n % 256) as u8,
    ]
}

/// A number as eight bytes, the high one first.
pub open spec fn eight_bytes(n: u64) -> Seq<u8> {
    four_bytes((n / 0x1_0000_0000) as u32) + four_bytes((n % 0x1_0000_0000) as u32)
}

/// The low four bytes of an index.
pub open spec fn index_bytes(n: nat) -> Seq<u8> {
    four_bytes((n % 0x1_0000_0000) as u32)
}

/// Bytes filled up to a multiple of four.
pub open spec fn aligned(out: Seq<u8>) -> Seq<u8> {
    out + Seq::new(((4 - out.len() % 4) % 4) as nat, |i: int| 0xffu8)
}

/// Words as bytes.
pub open spec fn words_bytes(vs: Seq<u64>) -> Seq<u8>
    decreases vs.len(),
{
    if vs.len() == 0 {
        Seq::empty()
    } else {
        words_bytes(vs.drop_last()) + eight_bytes(vs.last())
    }
}

/// The tags of constants.
pub open spec fn constant_tags(cs: Seq<NaraConstant>) -> Seq<u8> {
    Seq::new(
        cs.len(),
        |i: int|
            match cs[i] {
                NaraConstant::Value { .. } => 1u8,
                NaraConstant::String { .. } => 2u8,
                NaraConstant::Function { .. } => 3u8,
            },
    )
}

/// A constant as bytes.
pub open spec fn constant_bytes(c: NaraConstant) -> Seq<u8> {
    match c {
        NaraConstant::Value { value_idx } => index_bytes(value_idx as nat),
        NaraConstant::String { offset, len } => index_bytes(offset as nat) + index_bytes(
            len as nat,
        ),
        NaraConstant::Function { module, function } => index_bytes(module as nat) + index_bytes(
            function as nat,
        ),
    }
}

/// Constants as bytes.
pub open spec fn constants_bytes(cs: Seq<NaraConstant>) -> Seq<u8>
    decreases cs.len(),
{
    if cs.len() == 0 {
        Seq::empty()
    } else {
        constants_bytes(cs.drop_last()) + constant_bytes(cs.last())
    }
}

/// The file with functions behind it, each aligned.
pub open spec fn with_functions(out: Seq<u8>, fs: Seq<(usize, Seq<u8>)>) -> Seq<u8>
    decreases fs.len(),
{
    if fs.len() == 0 {
        out
    } else {
        aligned(
            with_functions(out, fs.drop_last()) + index_bytes(fs.last().0 as nat) + index_bytes(
                fs.last().1.len(),
            ) + fs.last().1,
        )
    }
}

/// The file before the functions.
pub open spec fn file_head(e: Emission, module_idx: usize) -> Seq<u8> {
    let out = seq![110u8, 97u8, 114u8, 97u8] + two_bytes(0) + two_bytes(2) + index_bytes(
        module_idx as nat,
    ) + index_bytes(e.values.len()) + words_bytes(e.values) + index_bytes(e.blob.len()) + e.blob;
    let out = aligned(out) + index_bytes(e.constants.len()) + constant_tags(e.constants);
    aligned(out) + constants_bytes(e.constants)
}

/// The file.
pub open spec fn file_bytes(e: Emission, fs: Seq<(usize, Seq<u8>)>, module_idx: usize) -> Seq<u8> {
    with_functions(file_head(e, module_idx) + index_bytes(fs.len()), fs)
}

/// The file of a program, or what was reported.
pub open spec fn program_file(p: LirProgramView) -> Result<Seq<u8>, Seq<DiagnosticView>> {
    let (base, e) = base_pool(p.module);
    let (pool, e) = pool_functions(base, e, p.functions);
    let (pool, e) = pool_natives(pool, e, p.functions, p.functions);
    if diagnostic::has_error(e.diags) {
        Err(e.diags)
    } else {
        let (out, e) = emit_functions(pool, e, p.functions, p.functions);
        if diagnostic::has_error(e.diags) {
            Err(e.diags)
        } else {
            Ok(file_bytes(e, out, pool.module_idx))
        }
    }
}

// ---------------------------------------------------------------------------
// Registers never clash
// ---------------------------------------------------------------------------

/// Whether a register may be handed out: it is in range and not reserved.
pub open spec fn may_hand_out(n: u8, low: u8, next: u8) -> bool {
    low <= n < next && n != 0x10 && n != 0x11 && n != 0x31
}

/// Whether the registers of one file are shared out soundly: no two virtual
/// registers live in one register, and none lives in one that is free or that
/// holds a fixed word.
pub open spec fn shared_out(
    m: Map<Reg, u8>,
    free: Seq<u8>,
    low: u8,
    next: u8,
    one: Option<u8>,
    bias: Option<u8>,
) -> bool {
    &&& forall|r: Reg| #[trigger]
        m.dom().contains(r) ==> may_hand_out(m[r], low, next) && !free.contains(m[r]) && one
            != Some(m[r]) && bias != Some(m[r])
    &&& forall|a: Reg, b: Reg|
        #![trigger m.dom().contains(a), m.dom().contains(b)]
        m.dom().contains(a) && m.dom().contains(b) && m[a] == m[b] ==> a == b
    &&& forall|i: int|
        0 <= i < free.len() ==> may_hand_out(#[trigger] free[i], low, next) && one != Some(free[i])
            && bias != Some(free[i])
    &&& free.no_duplicates()
    &&& one matches Some(n) ==> may_hand_out(n, low, next)
    &&& bias matches Some(n) ==> may_hand_out(n, low, next)
    &&& one is Some ==> one != bias
}

/// Whether registers are shared out soundly, and every jump to be filled in
/// stands inside the code.
pub open spec fn sound(e: Emission) -> bool {
    &&& shared_out(e.rv_map, e.free_rv, 0, e.next_rv, e.one_rv, e.bias_rv)
    &&& e.next_rv <= 0x20
    &&& shared_out(e.rf_map, e.free_rf, 0x20, e.next_rf, None, None)
    &&& 0x20 <= e.next_rf <= 0x40
    &&& forall|i: int|
        0 <= i < e.patches.len() ==> (#[trigger] e.patches[i]).len >= 3 && e.patches[i].pos
            + e.patches[i].len <= e.bytecode.len()
    &&& forall|i: int, j: int|
        0 <= i < j < e.patches.len() ==> (#[trigger] e.patches[i]).pos + e.patches[i].len <= (
        #[trigger] e.patches[j]).pos
}

/// Whether a value register was handed out and is not in use yet.
pub open spec fn unused_rv(e: Emission, n: u8) -> bool {
    &&& may_hand_out(n, 0, e.next_rv)
    &&& !e.free_rv.contains(n)
    &&& e.one_rv != Some(n)
    &&& e.bias_rv != Some(n)
    &&& forall|r: Reg| #[trigger] e.rv_map.dom().contains(r) ==> e.rv_map[r] != n
}

/// Whether a reference register was handed out and is not in use yet.
pub open spec fn unused_rf(e: Emission, n: u8) -> bool {
    &&& may_hand_out(n, 0x20, e.next_rf)
    &&& !e.free_rf.contains(n)
    &&& forall|r: Reg| #[trigger] e.rf_map.dom().contains(r) ==> e.rf_map[r] != n
}

proof fn popped<A>(s: Seq<A>)
    requires
        s.len() > 0,
        s.no_duplicates(),
    ensures
        !s.drop_last().contains(s.last()),
        s.drop_last().no_duplicates(),
        forall|x: A| #[trigger] s.drop_last().contains(x) ==> s.contains(x),
        s.contains(s.last()),
{
    assert(s[s.len() - 1] == s.last());
    assert forall|x: A| #[trigger] s.drop_last().contains(x) implies s.contains(x) by {
        let i = choose|i: int| 0 <= i < s.drop_last().len() && s.drop_last()[i] == x;
        assert(s[i] == x);
    }
}

pub(crate) proof fn fresh_rv_is_sound(e: Emission, span: Span)
    requires
        sound(e),
    ensures
        sound(fresh_rv(e, span).1),
        fresh_rv(e, span).0 matches Some(n) ==> unused_rv(fresh_rv(e, span).1, n),
        fresh_rv(e, span).0 matches Some(n) ==> forall|k: u8| #[trigger]
            unused_rv(e, k) ==> k != n && unused_rv(fresh_rv(e, span).1, k),
        fresh_rv(e, span).1.bytecode == e.bytecode,
{
    if e.free_rv.len() > 0 {
        popped(e.free_rv);
        let e2 = fresh_rv(e, span).1;
        assert forall|i: int| 0 <= i < e2.free_rv.len() implies may_hand_out(
            #[trigger] e2.free_rv[i],
            0,
            e2.next_rv,
        ) && e2.one_rv != Some(e2.free_rv[i]) && e2.bias_rv != Some(e2.free_rv[i]) by {
            assert(e2.free_rv[i] == e.free_rv[i]);
        }
        assert(e.free_rv[e.free_rv.len() - 1] == e.free_rv.last());
    } else {
        assert forall|x: u8| !e.free_rv.contains(x) by {}
    }
}

pub(crate) proof fn fresh_rf_is_sound(e: Emission, span: Span)
    requires
        sound(e),
    ensures
        sound(fresh_rf(e, span).1),
        fresh_rf(e, span).0 matches Some(n) ==> unused_rf(fresh_rf(e, span).1, n),
        fresh_rf(e, span).1.bytecode == e.bytecode,
{
    if e.free_rf.len() > 0 {
        popped(e.free_rf);
        let e2 = fresh_rf(e, span).1;
        assert forall|i: int| 0 <= i < e2.free_rf.len() implies may_hand_out(
            #[trigger] e2.free_rf[i],
            0x20,
            e2.next_rf,
        ) by {
            assert(e2.free_rf[i] == e.free_rf[i]);
        }
        assert(e.free_rf[e.free_rf.len() - 1] == e.free_rf.last());
    } else {
        assert forall|x: u8| !e.free_rf.contains(x) by {}
    }
}

pub(crate) proof fn in_rv_is_sound(e: Emission, r: Reg, n: u8)
    requires
        sound(e),
        unused_rv(e, n),
    ensures
        sound(in_rv(e, r, n)),
{
}

proof fn in_rf_is_sound(e: Emission, r: Reg, n: u8)
    requires
        sound(e),
        unused_rf(e, n),
    ensures
        sound(in_rf(e, r, n)),
{
}

proof fn new_rv_is_sound(e: Emission, dst: Reg, span: Span)
    requires
        sound(e),
    ensures
        sound(new_rv(e, dst, span).1),
{
    fresh_rv_is_sound(e, span);
    match fresh_rv(e, span) {
        (Some(n), e2) => in_rv_is_sound(e2, dst, n),
        _ => {},
    }
}

pub(crate) proof fn load_word_is_sound(e: Emission, bits: u64, span: Span)
    requires
        sound(e),
    ensures
        sound(load_word(e, bits, span).1),
        load_word(e, bits, span).0 matches Some(n) ==> unused_rv(load_word(e, bits, span).1, n),
        load_word(e, bits, span).1.one_rv == e.one_rv,
        load_word(e, bits, span).1.bias_rv == e.bias_rv,
{
    let e1 = add_value(e, bits, span).1;
    assert(sound(e1));
    fresh_rv_is_sound(e1, span);
}

proof fn ensure_one_is_sound(e: Emission, span: Span)
    requires
        sound(e),
    ensures
        sound(ensure_one(e, span).1),
{
    load_word_is_sound(e, 1, span);
}

proof fn ensure_bias_is_sound(e: Emission, span: Span)
    requires
        sound(e),
    ensures
        sound(ensure_bias(e, span).1),
{
    load_word_is_sound(e, 0x8000_0000_0000_0000, span);
}

proof fn emit_copy_is_sound(e: Emission, dst: Reg, src: Reg, span: Span)
    requires
        sound(e),
    ensures
        sound(emit_copy(e, dst, src, span)),
{
    reveal(emit_copy);
    fresh_rf_is_sound(e, span);
    match fresh_rf(e, span) {
        (Some(n), e2) => in_rf_is_sound(e2, dst, n),
        _ => {},
    }
    new_rv_is_sound(e, dst, span);
    assert(sound(home_rf(e, dst, span).1));
    assert(sound(home_rv(e, dst, span).1));
}

proof fn emit_param_is_sound(x: FnContext, e: Emission, dst: Reg, index: usize, span: Span)
    requires
        sound(e),
    ensures
        sound(emit_param(x, e, dst, index, span)),
{
    reveal(emit_param);
    let a = Emission { param_ri: (e.param_ri + 1) as u8, ..e };
    let b = Emission { param_vi: (e.param_vi + 1) as u8, ..e };
    assert(sound(a));
    assert(sound(b));
    fresh_rf_is_sound(a, span);
    match fresh_rf(a, span) {
        (Some(n), e2) => in_rf_is_sound(e2, dst, n),
        _ => {},
    }
    fresh_rv_is_sound(b, span);
    match fresh_rv(b, span) {
        (Some(n), e2) => in_rv_is_sound(e2, dst, n),
        _ => {},
    }
}

proof fn emit_loads_are_sound(e: Emission, dst: Reg, value: Scalar, bytes: Seq<u8>, span: Span)
    requires
        sound(e),
    ensures
        sound(emit_const(e, dst, value, span)),
        sound(emit_string(e, dst, bytes, span)),
{
    reveal(emit_const);
    reveal(emit_string);
    let bits = scalar_bits(value);
    assert(sound(add_value(e, bits, span).1));
    load_word_is_sound(e, bits, span);
    match load_word(e, bits, span) {
        (Some(n), e2) => in_rv_is_sound(e2, dst, n),
        _ => {},
    }
    let e1 = add_string(e, bytes, span).1;
    assert(sound(e1));
    fresh_rf_is_sound(e1, span);
    match fresh_rf(e1, span) {
        (Some(n), e2) => in_rf_is_sound(e2, dst, n),
        _ => {},
    }
}

proof fn emit_not_is_sound(e: Emission, dst: Reg, src: Reg, span: Span)
    requires
        sound(e),
    ensures
        sound(emit_not(e, dst, src, span)),
{
    reveal(emit_not);
    let e1 = value_reg(e, src, span).1;
    assert(sound(e1));
    ensure_one_is_sound(e1, span);
    new_rv_is_sound(ensure_one(e1, span).1, dst, span);
}

proof fn emit_negation_is_sound(e: Emission, dst: Reg, d: u8, negate: bool, span: Span)
    requires
        sound(e),
    ensures
        sound(emit_negation(e, dst, d, negate, span)),
{
    ensure_one_is_sound(e, span);
}

#[verifier::spinoff_prover]
#[verifier::rlimit(60)]
proof fn emit_ordering_is_sound(
    e: Emission,
    dst: Reg,
    op: LirOp,
    kind: NaraKind,
    l: u8,
    r: u8,
    span: Span,
)
    requires
        sound(e),
    ensures
        sound(emit_ordering(e, dst, op, kind, l, r, span)),
{
    reveal(emit_ordering);
    if is_integer(kind) {
        let swap = op is Gt || op is Le;
        let negate = op is Le || op is Ge;
        let a = if swap {
            r
        } else {
            l
        };
        let b = if swap {
            l
        } else {
            r
        };
        if kind is I64 {
            ensure_bias_is_sound(e, span);
            let (bias, e1) = ensure_bias(e, span);
            fresh_rv_is_sound(e1, span);
            let (d, e2) = fresh_rv(e1, span);
            fresh_rv_is_sound(e2, span);
            let (ta, e3) = fresh_rv(e2, span);
            fresh_rv_is_sound(e3, span);
            let (tb, e4) = fresh_rv(e3, span);
            if bias is Some && d is Some && ta is Some && tb is Some {
                assert(unused_rv(e2, d->0));
                assert(unused_rv(e3, d->0));
                assert(unused_rv(e4, d->0));
                in_rv_is_sound(e4, dst, d->0);
                let e5 = with_kind(in_rv(e4, dst, d->0), dst, NaraKind::Bool);
                let e6 = coded(e5, seq![0x12u8, ta->0, a, bias->0]);
                let e7 = coded(e6, seq![0x12u8, tb->0, b, bias->0]);
                let e8 = coded(e7, seq![0x10u8, d->0, ta->0, tb->0]);
                assert(sound(e8));
                emit_negation_is_sound(e8, dst, d->0, negate, span);
            }
        } else {
            new_rv_is_sound(e, dst, span);
            match new_rv(e, dst, span) {
                (Some(d), e1) => {
                    let e2 = coded(
                        with_kind(e1, dst, NaraKind::Bool),
                        seq![0x10u8, d, a, b],
                    );
                    assert(sound(e2));
                    emit_negation_is_sound(e2, dst, d, negate, span);
                },
                _ => {},
            }
        }
    }
}

proof fn emit_op_is_sound(
    e: Emission,
    dst: Reg,
    op: LirOp,
    kind: NaraKind,
    l: u8,
    r: u8,
    span: Span,
)
    requires
        sound(e),
    ensures
        sound(emit_op(e, dst, op, kind, l, r, span)),
{
    reveal(emit_op);
    new_rv_is_sound(e, dst, span);
    ensure_one_is_sound(new_rv(e, dst, span).1, span);
    emit_ordering_is_sound(e, dst, op, kind, l, r, span);
}

proof fn emit_binop_is_sound(e: Emission, dst: Reg, op: LirOp, lhs: Reg, rhs: Reg, span: Span)
    requires
        sound(e),
    ensures
        sound(emit_binop(e, dst, op, lhs, rhs, span)),
{
    reveal(emit_binop);
    let (l, e1) = value_reg(e, lhs, span);
    assert(sound(e1));
    let (r, e2) = value_reg(e1, rhs, span);
    assert(sound(e2));
    if l is Some && r is Some {
        emit_op_is_sound(e2, dst, op, entry(e.kinds, lhs)->0, l->0, r->0, span);
    }
}

proof fn emit_call_is_sound(
    e: Emission,
    dst: Reg,
    callee: Seq<char>,
    ret: TyView,
    idx: Option<usize>,
    xs: Seq<(bool, u8)>,
    span: Span,
)
    requires
        sound(e),
    ensures
        sound(emit_call(e, dst, callee, ret, idx, xs, span)),
{
    let kind = kind_of_ty(ret);
    fresh_rv_is_sound(e, span);
    fresh_rf_is_sound(e, span);
    let (reg, e1) = result_register(e, kind, span);
    assert(sound(e1));
    let saved = spills(e1);
    let e2 = coded(coded(e1, push_all(saved)), pass_args(xs));
    assert(sound(e2));
    if let Some(i) = idx {
        let e3 = call_index(e2, i, span);
        assert(sound(e3));
        match (kind, reg) {
            (Some(k), Some(r)) => {
                if is_ref(k) {
                    let e4 = coded(e3, seq![0x05u8, r, 0x31u8]);
                    assert(sound(e4) && unused_rf(e4, r));
                    in_rf_is_sound(e4, dst, r);
                } else {
                    let e4 = if r != 0x11 {
                        coded(e3, seq![0x04u8, r, 0x11u8])
                    } else {
                        e3
                    };
                    assert(sound(e4) && unused_rv(e4, r));
                    in_rv_is_sound(e4, dst, r);
                }
            },
            _ => {},
        }
    }
}

proof fn emit_any_call_is_sound(
    x: FnContext,
    e: Emission,
    dst: Reg,
    callee: Seq<char>,
    symbol: FuncSymbolView,
    args: Seq<Reg>,
    span: Span,
)
    requires
        sound(e),
    ensures
        sound(emit_any_call(x, e, dst, callee, symbol, args, span)),
{
    reveal(emit_any_call);
    if let Some(xs) = actuals(e, args) {
        if let Some(f) = function_named(x.functions, callee) {
            emit_call_is_sound(e, dst, callee, f.ret, entry(x.fn_consts, callee), xs, span);
        }
        if let Some(sig) = native_sig(symbol) {
            emit_call_is_sound(
                e,
                dst,
                callee,
                typed::known(sig.ret),
                entry(x.native_consts, native_name(symbol)),
                xs,
                span,
            );
        }
    }
}

pub(crate) proof fn emit_instr_is_sound(x: FnContext, e: Emission, ins: InstrView)
    requires
        sound(e),
        e.bytecode.len() + 4 <= usize::MAX,
    ensures
        sound(emit_instr(x, e, ins)),
{
    match ins {
        InstrView::Const { dst, value, span } => emit_loads_are_sound(
            e,
            dst,
            value,
            Seq::empty(),
            span,
        ),
        InstrView::StringConst { dst, value, span } => emit_loads_are_sound(
            e,
            dst,
            Scalar::Bool(true),
            value,
            span,
        ),
        InstrView::Param { dst, index, span } => emit_param_is_sound(x, e, dst, index, span),
        InstrView::Copy { dst, src, span } => emit_copy_is_sound(e, dst, src, span),
        InstrView::Not { dst, src, span } => emit_not_is_sound(e, dst, src, span),
        InstrView::BinOp { dst, op, lhs, rhs, span } => emit_binop_is_sound(
            e,
            dst,
            op,
            lhs,
            rhs,
            span,
        ),
        InstrView::Call { dst, callee, symbol, args, span } => emit_any_call_is_sound(
            x,
            e,
            dst,
            callee,
            symbol,
            args,
            span,
        ),
        InstrView::Ret { .. } => {
            reveal(emit_ret);
        },
        InstrView::BranchIfFalse { cond, span, .. } => {
            assert(sound(value_reg(e, cond, span).1));
        },
        _ => {},
    }
}

proof fn release_is_sound(e: Emission, r: Reg, at: usize)
    requires
        sound(e),
    ensures
        sound(release(e, r, at)),
        release(e, r, at).bytecode == e.bytecode,
{
    let e1 = if e.rv_map.dom().contains(r) {
        Emission { free_rv: e.free_rv.push(e.rv_map[r]), rv_map: e.rv_map.remove(r), ..e }
    } else {
        e
    };
    if e.rv_map.dom().contains(r) {
        pushed(e.free_rv, e.rv_map[r]);
    }
    assert(sound(e1));
    if e1.rf_map.dom().contains(r) {
        pushed(e1.free_rf, e1.rf_map[r]);
    }
}

proof fn pushed<A>(s: Seq<A>, x: A)
    requires
        s.no_duplicates(),
        !s.contains(x),
    ensures
        s.push(x).no_duplicates(),
        forall|y: A| #[trigger] s.push(x).contains(y) ==> s.contains(y) || y == x,
{
    assert forall|y: A| #[trigger] s.push(x).contains(y) implies s.contains(y) || y == x by {
        let i = choose|i: int| 0 <= i < s.push(x).len() && s.push(x)[i] == y;
        if i < s.len() {
            assert(s[i] == y);
        }
    }
}

pub(crate) proof fn release_all_is_sound(e: Emission, rs: Seq<Reg>, at: usize)
    requires
        sound(e),
    ensures
        sound(release_all(e, rs, at)),
        release_all(e, rs, at).bytecode == e.bytecode,
    decreases rs.len(),
{
    if rs.len() > 0 {
        release_all_is_sound(e, rs.drop_last(), at);
        release_is_sound(release_all(e, rs.drop_last(), at), rs.last(), at);
    }
}

/// Whether the code of each beginning of instructions is short enough to be
/// held.
pub open spec fn code_fits(x: FnContext, e: Emission, xs: Seq<InstrView>) -> bool {
    forall|n: int|
        0 <= n <= xs.len() ==> #[trigger] emit_instrs(x, e, xs.take(n)).bytecode.len() + 4
            <= usize::MAX
}

/// At every point of a function the registers are shared out soundly: no two
/// virtual registers live in one machine register, reserved registers are never
/// handed out, and every jump to be filled in stands inside the code.
pub proof fn registers_never_clash(x: FnContext, e: Emission, xs: Seq<InstrView>)
    requires
        code_fits(x, for_function(e, lifetimes(x.func.instrs)), xs),
    ensures
        sound(emit_instrs(x, for_function(e, lifetimes(x.func.instrs)), xs)),
    decreases xs.len(),
{
    let s = for_function(e, lifetimes(x.func.instrs));
    if xs.len() == 0 {
        assert(sound(s));
    } else {
        let front = xs.drop_last();
        assert forall|n: int| 0 <= n <= front.len() implies #[trigger] emit_instrs(
            x,
            s,
            front.take(n),
        ).bytecode.len() + 4 <= usize::MAX by {
            assert(front.take(n) =~= xs.take(n));
        }
        registers_never_clash(x, e, front);
        assert(xs.take(front.len() as int) =~= front);
        let e1 = emit_instrs(x, s, front);
        emit_instr_is_sound(x, e1, xs.last());
        release_all_is_sound(
            emit_instr(x, e1, xs.last()),
            reads(xs.last()),
            (xs.len() - 1) as usize,
        );
    }
}

pub(crate) proof fn live_registers_are(m: Map<Reg, u8>, n: nat, r: u8)
    requires
        n <= 256,
    ensures
        live_registers(m, n).contains(r) <==> (r < n && lives_in(m, r)),
    decreases n,
{
    if n > 0 {
        live_registers_are(m, (n - 1) as nat, r);
        let front = live_registers(m, (n - 1) as nat);
        let last = (n - 1) as u8;
        if lives_in(m, last) {
            let all = front.push(last);
            if r == last {
                assert(all[front.len() as int] == r);
            } else {
                if front.contains(r) {
                    let i = choose|i: int| 0 <= i < front.len() && front[i] == r;
                    assert(all[i] == r);
                }
                if all.contains(r) {
                    let i = choose|i: int| 0 <= i < all.len() && all[i] == r;
                    assert(front[i] == r);
                }
            }
        }
    }
}

/// A call saves every register in which a virtual register lives.
pub proof fn calls_save_live_registers(e: Emission, r: Reg)
    ensures
        e.rv_map.dom().contains(r) ==> spills(e).contains(Spill::V(e.rv_map[r])),
        e.rf_map.dom().contains(r) ==> spills(e).contains(Spill::F(e.rf_map[r])),
{
    let a = value_spills(live_registers(e.rv_map, 256));
    let b = a + spill_of(e.one_rv) + spill_of(e.bias_rv);
    let c = ref_spills(live_registers(e.rf_map, 256));
    if e.rv_map.dom().contains(r) {
        let n = e.rv_map[r];
        assert(lives_in(e.rv_map, n));
        live_registers_are(e.rv_map, 256, n);
        let i = choose|i: int|
            0 <= i < live_registers(e.rv_map, 256).len() && live_registers(e.rv_map, 256)[i] == n;
        assert(a[i] == Spill::V(n));
        assert(spills(e)[i] == Spill::V(n));
    }
    if e.rf_map.dom().contains(r) {
        let n = e.rf_map[r];
        assert(lives_in(e.rf_map, n));
        live_registers_are(e.rf_map, 256, n);
        let i = choose|i: int|
            0 <= i < live_registers(e.rf_map, 256).len() && live_registers(e.rf_map, 256)[i] == n;
        assert(c[i] == Spill::F(n));
        assert(spills(e)[b.len() + i] == Spill::F(n));
    }
}

// ---------------------------------------------------------------------------
// Jumps reach their labels
// ---------------------------------------------------------------------------

/// How far a jump goes, from its end to its label.
pub open spec fn jump_offset(e: Emission, p: NaraPatch) -> int {
    e.label_pos[p.target] as int - (p.pos + p.len)
}

/// Whether the last two bytes of a jump in code say how far it goes.
pub open spec fn jump_is_filled_in(e: Emission, code: Seq<u8>, p: NaraPatch) -> bool {
    &&& e.label_pos.dom().contains(p.target)
    &&& -32768 <= jump_offset(e, p) <= 32767
    &&& code[p.pos + p.len - 2] == offset_bytes(jump_offset(e, p))[0]
    &&& code[p.pos + p.len - 1] == offset_bytes(jump_offset(e, p))[1]
}

proof fn errors_stay(diags: Seq<DiagnosticView>, d: DiagnosticView)
    ensures
        diagnostic::has_error(diags) ==> diagnostic::has_error(diags.push(d)),
        d.severity == crate::diagnostic::Severity::Error ==> diagnostic::has_error(diags.push(d)),
{
    let all = diags.push(d);
    if diagnostic::has_error(diags) {
        let i = choose|i: int|
            0 <= i < diags.len() && (#[trigger] diags[i]).severity
                == crate::diagnostic::Severity::Error;
        assert(all[i] == diags[i]);
    }
    assert(all[diags.len() as int] == d);
}

proof fn resolving_fills_in(e: Emission, n: int)
    requires
        sound(e),
        0 <= n <= e.patches.len(),
        !diagnostic::has_error(resolve_jumps(e, e.patches.take(n)).diags),
    ensures
        ({
            let t = resolve_jumps(e, e.patches.take(n));
            &&& t.label_pos == e.label_pos
            &&& t.bytecode.len() == e.bytecode.len()
            &&& forall|i: int|
                0 <= i < n ==> jump_is_filled_in(e, t.bytecode, #[trigger] e.patches[i])
        }),
    decreases n,
{
    if n > 0 {
        let all = e.patches.take(n);
        let p = e.patches[n - 1];
        assert(all.drop_last() =~= e.patches.take(n - 1));
        let s = resolve_jumps(e, e.patches.take(n - 1));
        let t = resolve_jumps(e, all);
        assert(t == resolve_jump(s, p));
        if diagnostic::has_error(s.diags) || t.diags.len() > s.diags.len() {
            assert(t.diags == s.diags || t.diags == s.diags.push(t.diags.last()));
            errors_stay(s.diags, t.diags.last());
            assert(false);
        }
        resolving_fills_in(e, n - 1);
        assert forall|i: int| 0 <= i < n implies jump_is_filled_in(
            e,
            t.bytecode,
            #[trigger] e.patches[i],
        ) by {
            if i < n - 1 {
                assert(jump_is_filled_in(e, s.bytecode, e.patches[i]));
                assert(e.patches[i].pos + e.patches[i].len <= p.pos);
            }
        }
    }
}

/// Where nothing is wrong, every jump of a function says how far it goes: from
/// its end to its label, as a signed number of two bytes.
pub proof fn jumps_reach_their_labels(e: Emission)
    requires
        sound(e),
        !diagnostic::has_error(resolve_jumps(e, e.patches).diags),
    ensures
        resolve_jumps(e, e.patches).bytecode.len() == e.bytecode.len(),
        forall|i: int|
            0 <= i < e.patches.len() ==> jump_is_filled_in(
                e,
                resolve_jumps(e, e.patches).bytecode,
                #[trigger] e.patches[i],
            ),
{
    assert(e.patches.take(e.patches.len() as int) =~= e.patches);
    resolving_fills_in(e, e.patches.len() as int);
}

// ---------------------------------------------------------------------------
// The file is aligned
// ---------------------------------------------------------------------------

broadcast proof fn four_bytes_are_four(n: u32)
    ensures
        #[trigger] four_bytes(n).len() == 4,
{
    reveal(four_bytes);
}

proof fn functions_are_aligned(out: Seq<u8>, fs: Seq<(usize, Seq<u8>)>)
    requires
        out.len() % 4 == 0,
    ensures
        with_functions(out, fs).len() % 4 == 0,
        with_functions(out, fs).len() >= out.len(),
        with_functions(out, fs).take(out.len() as int) == out,
    decreases fs.len(),
{
    if fs.len() == 0 {
        assert(out.take(out.len() as int) =~= out);
    } else {
        functions_are_aligned(out, fs.drop_last());
        let front = with_functions(out, fs.drop_last());
        assert(with_functions(out, fs).take(front.len() as int) =~= front);
        assert(with_functions(out, fs).take(out.len() as int) =~= front.take(out.len() as int));
    }
}

proof fn constants_are_aligned(cs: Seq<NaraConstant>)
    ensures
        constants_bytes(cs).len() % 4 == 0,
    decreases cs.len(),
{
    broadcast use four_bytes_are_four;

    if cs.len() > 0 {
        constants_are_aligned(cs.drop_last());
    }
}

proof fn alignment(out: Seq<u8>)
    ensures
        aligned(out).len() % 4 == 0,
        aligned(out).len() >= out.len(),
        aligned(out).take(out.len() as int) == out,
{
    assert(aligned(out).take(out.len() as int) =~= out);
}

proof fn starts_with(a: Seq<u8>, b: Seq<u8>)
    requires
        a.len() >= 8,
    ensures
        (a + b).take(8) == a.take(8),
        (a + b).len() >= 8,
{
    assert((a + b).take(8) =~= a.take(8));
}

proof fn head_is_aligned(e: Emission, module_idx: usize)
    ensures
        file_head(e, module_idx).len() % 4 == 0,
        file_head(e, module_idx).len() >= 8,
        file_head(e, module_idx).take(8) == magic(),
{
    broadcast use four_bytes_are_four;

    constants_are_aligned(e.constants);
    let start = seq![110u8, 97u8, 114u8, 97u8] + two_bytes(0) + two_bytes(2);
    assert(start =~= magic());
    assert(start.take(8) =~= start);
    let a1 = start + index_bytes(module_idx as nat);
    starts_with(start, index_bytes(module_idx as nat));
    let a2 = a1 + index_bytes(e.values.len());
    starts_with(a1, index_bytes(e.values.len()));
    let a3 = a2 + words_bytes(e.values);
    starts_with(a2, words_bytes(e.values));
    let a4 = a3 + index_bytes(e.blob.len());
    starts_with(a3, index_bytes(e.blob.len()));
    let a5 = a4 + e.blob;
    starts_with(a4, e.blob);
    alignment(a5);
    let a6 = aligned(a5);
    assert(a6.take(8) =~= a6.take(a5.len() as int).take(8));
    let b1 = a6 + index_bytes(e.constants.len());
    starts_with(a6, index_bytes(e.constants.len()));
    let b2 = b1 + constant_tags(e.constants);
    starts_with(b1, constant_tags(e.constants));
    alignment(b2);
    let b3 = aligned(b2);
    assert(b3.take(8) =~= b3.take(b2.len() as int).take(8));
    starts_with(b3, constants_bytes(e.constants));
    let c = b3 + constants_bytes(e.constants);
    assert(c.len() == b3.len() + constants_bytes(e.constants).len());
    assert(file_head(e, module_idx) == c);
}

/// The bytes of `nara` and the version.
pub open spec fn magic() -> Seq<u8> {
    seq![110u8, 97u8, 114u8, 97u8, 0u8, 0u8, 0u8, 2u8]
}

/// The length of a file is a multiple of four, and it starts with the bytes of
/// `nara` and the version.
pub proof fn files_are_aligned(e: Emission, fs: Seq<(usize, Seq<u8>)>, module_idx: usize)
    ensures
        file_bytes(e, fs, module_idx).len() % 4 == 0,
        file_bytes(e, fs, module_idx).len() >= 8,
        file_bytes(e, fs, module_idx).take(8) == magic(),
{
    broadcast use four_bytes_are_four;

    head_is_aligned(e, module_idx);
    let head = file_head(e, module_idx) + index_bytes(fs.len());
    functions_are_aligned(head, fs);
    let all = file_bytes(e, fs, module_idx);
    assert(all.take(8) =~= all.take(head.len() as int).take(8));
    assert(head.take(8) =~= file_head(e, module_idx).take(8));
}

} // verus!
