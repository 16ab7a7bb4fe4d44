//! The NaraVM target: register allocation, bytecode and the file around it.

use vstd::prelude::*;

use crate::ast::Scalar;
use crate::codegen::{reg_oob, Artifact, ArtifactView, Target};
use crate::diagnostic::{any_error, Diagnostic, DiagnosticView};
use crate::lir::{show_op, FuncSymbol, Function, Instr, LirOp, LirProgram, LirProgramView, Reg};
use crate::lir_lowering::as_word;
use crate::module::{find_export, FuncSig, ModulePath, ModuleSpec};
use crate::nara_plan::{Emission, FnContext, NaraConstant, NaraKind, NaraPatch, Pool, Spill};
use crate::resolver::module_at;
use crate::span::Span;
use crate::table::{Key, Table};
use crate::text::{cat3, cat5, clone_bytes, dec_u64, join_strings, owned, str_eq};
use crate::ty::VlType;
use crate::typed::Ty;
use crate::{codegen, diagnostic, lir, model, nara_plan, text};

verus! {

broadcast use crate::model::group_model;

impl Key for Reg {
    fn same(&self, other: &Self) -> (r: bool) {
        self.0 == other.0
    }
}

impl Key for u64 {
    fn same(&self, other: &Self) -> (r: bool) {
        *self == *other
    }
}

fn kind_of_ty(t: &Ty) -> (r: Option<NaraKind>)
    ensures
        r == nara_plan::kind_of_ty(t@),
{
    match t {
        Ty::U64 => Some(NaraKind::U64),
        Ty::I64 => Some(NaraKind::I64),
        Ty::F64 => Some(NaraKind::F64),
        Ty::Bool => Some(NaraKind::Bool),
        Ty::U8 => Some(NaraKind::U8),
        Ty::String => Some(NaraKind::String),
        Ty::File => Some(NaraKind::File),
        _ => None,
    }
}

fn is_ref(k: NaraKind) -> (r: bool)
    ensures
        r == nara_plan::is_ref(k),
{
    match k {
        NaraKind::String => true,
        NaraKind::File => true,
        _ => false,
    }
}

fn is_integer(k: NaraKind) -> (r: bool)
    ensures
        r == nara_plan::is_integer(k),
{
    match k {
        NaraKind::U64 => true,
        NaraKind::I64 => true,
        NaraKind::U8 => true,
        _ => false,
    }
}

fn kind_of_scalar(v: Scalar) -> (r: NaraKind)
    ensures
        r == nara_plan::kind_of_scalar(v),
{
    match v {
        Scalar::Int(_) => NaraKind::I64,
        Scalar::U64(_) => NaraKind::U64,
        Scalar::I64(_) => NaraKind::I64,
        Scalar::F64(_) => NaraKind::F64,
        Scalar::Bool(_) => NaraKind::Bool,
        Scalar::U8(_) => NaraKind::U8,
    }
}

fn scalar_bits(v: Scalar) -> (r: u64)
    ensures
        r == nara_plan::scalar_bits(v),
{
    match v {
        Scalar::Int(n) => as_word(n),
        Scalar::U64(n) => n,
        Scalar::I64(n) => as_word(n),
        Scalar::F64(bits) => bits,
        Scalar::Bool(b) => if b {
            1
        } else {
            0
        },
        Scalar::U8(n) => n as u64,
    }
}

fn show_kind(k: NaraKind) -> (r: &'static str)
    ensures
        r@ == nara_plan::kind_text(k),
{
    match k {
        NaraKind::U64 => "U64",
        NaraKind::I64 => "I64",
        NaraKind::F64 => "F64",
        NaraKind::Bool => "Bool",
        NaraKind::U8 => "U8",
        NaraKind::String => "String",
        NaraKind::File => "File",
    }
}

fn opcode(op: LirOp, k: NaraKind) -> (r: Option<u8>)
    ensures
        r == nara_plan::opcode(op, k),
{
    let column: u8 = match k {
        NaraKind::U64 => 0,
        NaraKind::U8 => 0,
        NaraKind::I64 => 1,
        NaraKind::F64 => 2,
        _ => {
            return None;
        },
    };
    match op {
        LirOp::Add => Some(0x30 + column),
        LirOp::Sub => Some(0x33 + column),
        LirOp::Mul => Some(0x36 + column),
        LirOp::Div => Some(0x39 + column),
        _ => None,
    }
}

fn append(out: &mut Vec<u8>, bytes: &[u8])
    ensures
        final(out)@ == old(out)@ + bytes@,
{
    let ghost start = out@;
    let mut i: usize = 0;
    while i < bytes.len()
        invariant
            i <= bytes@.len(),
            out@ =~= start + bytes@.take(i as int),
        decreases bytes@.len() - i,
    {
        out.push(bytes[i]);
        i += 1;
    }
    assert(bytes@.take(bytes@.len() as int) =~= bytes@);
}

fn low_byte(n: usize) -> (r: u8)
    ensures
        r == nara_plan::low_byte(n),
{
    (n % 256) as u8
}

/// The emission at work.
struct NaraEmit {
    blob: Vec<u8>,
    values: Vec<u64>,
    value_index: Table<u64, usize>,
    constants: Vec<NaraConstant>,
    bytecode: Vec<u8>,
    diags: Vec<Diagnostic>,
    rv_map: Table<Reg, u8>,
    rf_map: Table<Reg, u8>,
    kinds: Table<Reg, NaraKind>,
    invalid: Table<Reg, bool>,
    next_rv: u8,
    next_rf: u8,
    free_rv: Vec<u8>,
    free_rf: Vec<u8>,
    last_use: Table<Reg, usize>,
    label_pos: Table<u32, usize>,
    patches: Vec<NaraPatch>,
    one_rv: Option<u8>,
    bias_rv: Option<u8>,
    param_vi: u8,
    param_ri: u8,
}

impl NaraEmit {
    spec fn st(&self) -> Emission {
        Emission {
            blob: self.blob@,
            values: self.values@,
            value_index: self.value_index@,
            constants: self.constants@,
            bytecode: self.bytecode@,
            diags: model::all(self.diags@),
            rv_map: self.rv_map@,
            rf_map: self.rf_map@,
            kinds: self.kinds@,
            invalid: self.invalid@.dom(),
            next_rv: self.next_rv,
            next_rf: self.next_rf,
            free_rv: self.free_rv@,
            free_rf: self.free_rf@,
            last_use: self.last_use@,
            label_pos: self.label_pos@,
            patches: self.patches@,
            one_rv: self.one_rv,
            bias_rv: self.bias_rv,
            param_vi: self.param_vi,
            param_ri: self.param_ri,
        }
    }

    fn new() -> (r: Self)
        ensures
            r.st() == nara_plan::nothing_emitted(),
    {
        let r = NaraEmit {
            blob: Vec::new(),
            values: Vec::new(),
            value_index: Table::new(),
            constants: Vec::new(),
            bytecode: Vec::new(),
            diags: Vec::new(),
            rv_map: Table::new(),
            rf_map: Table::new(),
            kinds: Table::new(),
            invalid: Table::new(),
            next_rv: 0,
            next_rf: 0x20,
            free_rv: Vec::new(),
            free_rf: Vec::new(),
            last_use: Table::new(),
            label_pos: Table::new(),
            patches: Vec::new(),
            one_rv: None,
            bias_rv: None,
            param_vi: 0,
            param_ri: 0,
        };
        assert(r.st().blob =~= Seq::empty());
        assert(r.st().values =~= Seq::empty());
        assert(r.st().constants =~= Seq::empty());
        assert(r.st().bytecode =~= Seq::empty());
        assert(r.st().free_rv =~= Seq::empty());
        assert(r.st().free_rf =~= Seq::empty());
        assert(r.st().patches =~= Seq::empty());
        assert(r.st().invalid =~= Set::empty());
        r
    }

    fn reset_fn(&mut self, last_use: Table<Reg, usize>)
        ensures
            final(self).st() == nara_plan::for_function(old(self).st(), last_use@),
    {
        let ghost before = self.st();
        self.bytecode = Vec::new();
        self.rv_map = Table::new();
        self.rf_map = Table::new();
        self.kinds = Table::new();
        self.invalid = Table::new();
        self.next_rv = 0;
        self.next_rf = 0x20;
        self.free_rv = Vec::new();
        self.free_rf = Vec::new();
        self.last_use = last_use;
        self.label_pos = Table::new();
        self.patches = Vec::new();
        self.one_rv = None;
        self.bias_rv = None;
        self.param_vi = 0;
        self.param_ri = 0;
        assert(self.st().bytecode =~= Seq::empty());
        assert(self.st().free_rv =~= Seq::empty());
        assert(self.st().free_rf =~= Seq::empty());
        assert(self.st().patches =~= Seq::empty());
        assert(self.st().invalid =~= Set::empty());
    }

    fn report(&mut self, d: Diagnostic)
        ensures
            final(self).st() == nara_plan::reported(old(self).st(), d@),
    {
        self.diags.push(d);
    }

    fn complain(&mut self, message: &str, span: Span, label: &str, code: &str)
        ensures
            final(self).st() == nara_plan::reported(
                old(self).st(),
                nara_plan::complaint(message@, span, label@, code@),
            ),
    {
        self.report(Diagnostic::error(message).with_label(span, label).with_code(code));
    }

    fn code(&mut self, bytes: &[u8])
        ensures
            final(self).st() == nara_plan::coded(old(self).st(), bytes@),
    {
        append(&mut self.bytecode, bytes);
    }

    fn code1(&mut self, a: u8)
        ensures
            final(self).st() == nara_plan::coded(old(self).st(), seq![a]),
    {
        let ghost start = self.bytecode@;
        self.bytecode.push(a);
        assert(self.bytecode@ =~= start + seq![a]);
    }

    fn code2(&mut self, a: u8, b: u8)
        ensures
            final(self).st() == nara_plan::coded(old(self).st(), seq![a, b]),
    {
        let ghost start = self.bytecode@;
        self.bytecode.push(a);
        self.bytecode.push(b);
        assert(self.bytecode@ =~= start + seq![a, b]);
    }

    fn code3(&mut self, a: u8, b: u8, c: u8)
        ensures
            final(self).st() == nara_plan::coded(old(self).st(), seq![a, b, c]),
    {
        let ghost start = self.bytecode@;
        self.bytecode.push(a);
        self.bytecode.push(b);
        self.bytecode.push(c);
        assert(self.bytecode@ =~= start + seq![a, b, c]);
    }

    fn code4(&mut self, a: u8, b: u8, c: u8, d: u8)
        ensures
            final(self).st() == nara_plan::coded(old(self).st(), seq![a, b, c, d]),
    {
        let ghost start = self.bytecode@;
        self.bytecode.push(a);
        self.bytecode.push(b);
        self.bytecode.push(c);
        self.bytecode.push(d);
        assert(self.bytecode@ =~= start + seq![a, b, c, d]);
    }

    fn lose(&mut self, r: Reg)
        ensures
            final(self).st() == nara_plan::without_value(old(self).st(), r),
    {
        let ghost before = self.invalid@.dom();
        self.invalid.insert(r, true);
        assert(self.invalid@.dom() =~= before.insert(r));
    }

    fn set_kind(&mut self, r: Reg, k: NaraKind)
        ensures
            final(self).st() == nara_plan::with_kind(old(self).st(), r, k),
    {
        self.kinds.insert(r, k);
    }

    fn set_rv(&mut self, r: Reg, rv: u8)
        ensures
            final(self).st() == nara_plan::in_rv(old(self).st(), r, rv),
    {
        self.rv_map.insert(r, rv);
    }

    fn set_rf(&mut self, r: Reg, rf: u8)
        ensures
            final(self).st() == nara_plan::in_rf(old(self).st(), r, rf),
    {
        self.rf_map.insert(r, rf);
    }

    fn kind(&self, r: Reg) -> (k: Option<NaraKind>)
        ensures
            k == nara_plan::entry(self.st().kinds, r),
    {
        match self.kinds.get(&r) {
            Some(k) => Some(*k),
            None => None,
        }
    }

    fn rv(&self, r: Reg) -> (n: Option<u8>)
        ensures
            n == nara_plan::entry(self.st().rv_map, r),
    {
        match self.rv_map.get(&r) {
            Some(n) => Some(*n),
            None => None,
        }
    }

    fn rf(&self, r: Reg) -> (n: Option<u8>)
        ensures
            n == nara_plan::entry(self.st().rf_map, r),
    {
        match self.rf_map.get(&r) {
            Some(n) => Some(*n),
            None => None,
        }
    }

    fn is_invalid(&self, r: Reg) -> (b: bool)
        ensures
            b == self.st().invalid.contains(r),
    {
        self.invalid.contains(&r)
    }

    fn is_used(&self, r: Reg) -> (b: bool)
        ensures
            b == self.st().last_use.dom().contains(r),
    {
        self.last_use.contains(&r)
    }

    fn has_error(&self) -> (r: bool)
        ensures
            r == diagnostic::has_error(self.st().diags),
    {
        any_error(self.diags.as_slice())
    }

    fn fresh_rv(&mut self, span: Span) -> (r: Option<u8>)
        ensures
            (r, final(self).st()) == nara_plan::fresh_rv(old(self).st(), span),
    {
        let n: usize = self.free_rv.len();
        if n > 0 {
            return self.free_rv.pop();
        }
        let rv: u8 = if self.next_rv == 0x10 || self.next_rv == 0x11 {
            0x12
        } else {
            self.next_rv
        };
        if rv > 0x1f {
            self.report(reg_oob(span, rv as u32));
            None
        } else {
            self.next_rv = rv + 1;
            Some(rv)
        }
    }

    fn fresh_rf(&mut self, span: Span) -> (r: Option<u8>)
        ensures
            (r, final(self).st()) == nara_plan::fresh_rf(old(self).st(), span),
    {
        let n: usize = self.free_rf.len();
        if n > 0 {
            return self.free_rf.pop();
        }
        let rf: u8 = if self.next_rf == 0x31 {
            0x32
        } else {
            self.next_rf
        };
        if rf > 0x3f {
            self.report(reg_oob(span, rf as u32));
            None
        } else {
            self.next_rf = rf + 1;
            Some(rf)
        }
    }

    fn value_reg(&mut self, r: Reg, span: Span) -> (n: Option<u8>)
        ensures
            (n, final(self).st()) == nara_plan::value_reg(old(self).st(), r, span),
    {
        match self.rv(r) {
            Some(n) => Some(n),
            None => {
                if !self.is_invalid(r) {
                    self.complain(
                        "Naravm backend could not resolve a value register",
                        span,
                        "used here",
                        "E500",
                    );
                }
                None
            },
        }
    }

    fn ref_reg(&mut self, r: Reg, span: Span) -> (n: Option<u8>)
        ensures
            (n, final(self).st()) == nara_plan::ref_reg(old(self).st(), r, span),
    {
        match self.rf(r) {
            Some(n) => Some(n),
            None => {
                if !self.is_invalid(r) {
                    self.complain(
                        "Naravm backend requires a string argument to std.print",
                        span,
                        "unsupported argument",
                        "E402",
                    );
                }
                None
            },
        }
    }

    fn pool_full(&mut self, span: Span, note: &str)
        ensures
            final(self).st() == nara_plan::reported(
                old(self).st(),
                nara_plan::pool_report(span, note@),
            ),
    {
        self.report(
            Diagnostic::error("Naravm constant pool has more than 256 entries").with_label(
                span,
                "defined here",
            ).with_note(note).with_code("E405"),
        );
    }

    fn add_string(&mut self, value: &[u8], span: Span) -> (r: Option<usize>)
        ensures
            (r, final(self).st()) == nara_plan::add_string(old(self).st(), value@, span),
    {
        let offset: usize = self.blob.len();
        append(&mut self.blob, value);
        let idx: usize = self.constants.len();
        self.constants.push(NaraConstant::String { offset, len: value.len() });
        if idx > 255 {
            self.pool_full(span, "string references use an 8-bit constant index");
            None
        } else {
            Some(idx)
        }
    }

    fn add_value(&mut self, bits: u64, span: Span) -> (r: Option<usize>)
        ensures
            (r, final(self).st()) == nara_plan::add_value(old(self).st(), bits, span),
    {
        match self.value_index.get(&bits) {
            Some(idx) => {
                return Some(*idx);
            },
            None => {},
        }
        let value_idx: usize = self.values.len();
        self.values.push(bits);
        let idx: usize = self.constants.len();
        self.constants.push(NaraConstant::Value { value_idx });
        self.value_index.insert(bits, idx);
        if idx > 255 {
            self.pool_full(span, "value references use an 8-bit constant index");
            None
        } else {
            Some(idx)
        }
    }

    fn add_function(&mut self, module: usize, function: usize) -> (r: Option<usize>)
        ensures
            (r, final(self).st()) == nara_plan::add_function(old(self).st(), module, function),
    {
        let idx: usize = self.constants.len();
        self.constants.push(NaraConstant::Function { module, function });
        if idx > 255 {
            self.pool_full(Span::empty(0), "function references use an 8-bit constant index");
            None
        } else {
            Some(idx)
        }
    }

    fn load_word(&mut self, bits: u64, span: Span) -> (r: Option<u8>)
        ensures
            (r, final(self).st()) == nara_plan::load_word(old(self).st(), bits, span),
    {
        let idx: usize = self.add_value(bits, span)?;
        let rv: u8 = self.fresh_rv(span)?;
        self.code3(0x02, rv, low_byte(idx));
        Some(rv)
    }

    fn ensure_one(&mut self, span: Span) -> (r: Option<u8>)
        ensures
            (r, final(self).st()) == nara_plan::ensure_one(old(self).st(), span),
    {
        match self.one_rv {
            Some(rv) => Some(rv),
            None => {
                let rv: u8 = self.load_word(1, span)?;
                self.one_rv = Some(rv);
                Some(rv)
            },
        }
    }

    fn ensure_bias(&mut self, span: Span) -> (r: Option<u8>)
        ensures
            (r, final(self).st()) == nara_plan::ensure_bias(old(self).st(), span),
    {
        match self.bias_rv {
            Some(rv) => Some(rv),
            None => {
                let rv: u8 = self.load_word(0x8000_0000_0000_0000, span)?;
                self.bias_rv = Some(rv);
                Some(rv)
            },
        }
    }

    fn call_index(&mut self, idx: usize, span: Span)
        ensures
            final(self).st() == nara_plan::call_index(old(self).st(), idx, span),
    {
        if idx > 65535 {
            self.complain(
                "Naravm constant pool function index out of range",
                span,
                "call emitted here",
                "E500",
            );
        } else {
            self.code3(0x20, (idx / 256) as u8, low_byte(idx));
        }
    }

    fn emit_const(&mut self, dst: Reg, value: Scalar, span: Span)
        ensures
            final(self).st() == nara_plan::emit_const(old(self).st(), dst, value, span),
    {
        reveal(nara_plan::emit_const);
        let kind = kind_of_scalar(value);
        let bits: u64 = scalar_bits(value);
        if !self.is_used(dst) {
            let _ = self.add_value(bits, span);
            self.set_kind(dst, kind);
            return ;
        }
        match self.load_word(bits, span) {
            None => self.lose(dst),
            Some(rv) => {
                self.set_rv(dst, rv);
                self.set_kind(dst, kind);
            },
        }
    }

    fn emit_string(&mut self, dst: Reg, value: &Vec<u8>, span: Span)
        ensures
            final(self).st() == nara_plan::emit_string(old(self).st(), dst, value@, span),
    {
        reveal(nara_plan::emit_string);
        if !self.is_used(dst) {
            let _ = self.add_string(value.as_slice(), span);
            self.set_kind(dst, NaraKind::String);
            return ;
        }
        match self.add_string(value.as_slice(), span) {
            None => self.lose(dst),
            Some(idx) => match self.fresh_rf(span) {
                None => self.lose(dst),
                Some(rf) => {
                    self.set_rf(dst, rf);
                    self.set_kind(dst, NaraKind::String);
                    self.code3(0x03, rf, low_byte(idx));
                },
            },
        }
    }

    fn home_rv(&mut self, dst: Reg, span: Span) -> (r: Option<u8>)
        ensures
            (r, final(self).st()) == nara_plan::home_rv(old(self).st(), dst, span),
    {
        match self.rv(dst) {
            Some(rv) => Some(rv),
            None => self.new_rv(dst, span),
        }
    }

    fn new_rv(&mut self, dst: Reg, span: Span) -> (r: Option<u8>)
        ensures
            (r, final(self).st()) == nara_plan::new_rv(old(self).st(), dst, span),
    {
        let rv: u8 = self.fresh_rv(span)?;
        self.set_rv(dst, rv);
        Some(rv)
    }

    fn home_rf(&mut self, dst: Reg, span: Span) -> (r: Option<u8>)
        ensures
            (r, final(self).st()) == nara_plan::home_rf(old(self).st(), dst, span),
    {
        match self.rf(dst) {
            Some(rf) => Some(rf),
            None => {
                let rf: u8 = self.fresh_rf(span)?;
                self.set_rf(dst, rf);
                Some(rf)
            },
        }
    }

    fn share_register(&self, a: Reg, b: Reg) -> (r: bool)
        ensures
            r == nara_plan::share_register(self.st(), a, b),
    {
        let by_value = match (self.rv(a), self.rv(b)) {
            (Some(x), Some(y)) => x == y,
            _ => false,
        };
        let by_ref = match (self.rf(a), self.rf(b)) {
            (Some(x), Some(y)) => x == y,
            _ => false,
        };
        by_value || by_ref
    }

    fn emit_copy(&mut self, dst: Reg, src: Reg, span: Span)
        ensures
            final(self).st() == nara_plan::emit_copy(old(self).st(), dst, src, span),
    {
        reveal(nara_plan::emit_copy);
        if self.is_invalid(src) {
            self.lose(dst);
            return ;
        }
        let kind = match self.kind(src) {
            Some(k) => k,
            None => {
                self.lose(dst);
                return ;
            },
        };
        if self.share_register(dst, src) {
            self.set_kind(dst, kind);
            return ;
        }
        if is_ref(kind) {
            let s = self.rf(src);
            let d = self.home_rf(dst, span);
            match (s, d) {
                (Some(s), Some(d)) => {
                    self.set_kind(dst, kind);
                    self.code3(0x05, d, s);
                },
                _ => self.lose(dst),
            }
        } else {
            let s = self.rv(src);
            let d = self.home_rv(dst, span);
            match (s, d) {
                (Some(s), Some(d)) => {
                    self.set_kind(dst, kind);
                    self.code3(0x04, d, s);
                },
                _ => self.lose(dst),
            }
        }
    }

    fn emit_not(&mut self, dst: Reg, src: Reg, span: Span)
        ensures
            final(self).st() == nara_plan::emit_not(old(self).st(), dst, src, span),
    {
        reveal(nara_plan::emit_not);
        let s: u8 = match self.value_reg(src, span) {
            Some(s) => s,
            None => {
                self.lose(dst);
                return ;
            },
        };
        let one: u8 = match self.ensure_one(span) {
            Some(one) => one,
            None => {
                self.lose(dst);
                return ;
            },
        };
        match self.new_rv(dst, span) {
            None => self.lose(dst),
            Some(d) => {
                self.set_kind(dst, NaraKind::Bool);
                self.code4(0x12, d, s, one);
            },
        }
    }

    fn emit_negation(&mut self, dst: Reg, d: u8, negate: bool, span: Span)
        ensures
            final(self).st() == nara_plan::emit_negation(old(self).st(), dst, d, negate, span),
    {
        if negate {
            match self.ensure_one(span) {
                None => self.lose(dst),
                Some(one) => self.code4(0x12, d, d, one),
            }
        }
    }

    fn unsupported_op(&mut self, op: LirOp, kind: NaraKind, span: Span, note: bool)
        ensures
            final(self).st() == nara_plan::reported(
                old(self).st(),
                if note {
                    nara_plan::unsupported_op(op, kind, span).noted(
                        "order comparisons lower for u64/i64/u8; f64 and strings are rejected"@,
                    )
                } else {
                    nara_plan::unsupported_op(op, kind, span)
                },
            ),
    {
        let message = cat5(
            "Naravm backend does not support `",
            show_op(op),
            "` on `",
            show_kind(kind),
            "` yet",
        );
        let d = Diagnostic::error(message.as_str()).with_label(span, "unsupported operation");
        let d = if note {
            d.with_note("order comparisons lower for u64/i64/u8; f64 and strings are rejected")
        } else {
            d
        };
        self.report(d.with_code("E404"));
    }

    fn emit_ordering(&mut self, dst: Reg, op: LirOp, kind: NaraKind, l: u8, r: u8, span: Span)
        ensures
            final(self).st() == nara_plan::emit_ordering(
                old(self).st(),
                dst,
                op,
                kind,
                l,
                r,
                span,
            ),
    {
        reveal(nara_plan::emit_ordering);
        if !is_integer(kind) {
            self.unsupported_op(op, kind, span, true);
            self.lose(dst);
            return ;
        }
        let swap = match op {
            LirOp::Gt => true,
            LirOp::Le => true,
            _ => false,
        };
        let negate = match op {
            LirOp::Le => true,
            LirOp::Ge => true,
            _ => false,
        };
        let a: u8 = if swap {
            r
        } else {
            l
        };
        let b: u8 = if swap {
            l
        } else {
            r
        };
        if kind == NaraKind::I64 {
            let bias = self.ensure_bias(span);
            let d = self.fresh_rv(span);
            match (bias, d) {
                (Some(bias), Some(d)) => {
                    let ta = self.fresh_rv(span);
                    let tb = self.fresh_rv(span);
                    match (ta, tb) {
                        (Some(ta), Some(tb)) => {
                            self.set_rv(dst, d);
                            self.set_kind(dst, NaraKind::Bool);
                            self.code4(0x12, ta, a, bias);
                            self.code4(0x12, tb, b, bias);
                            self.code4(0x10, d, ta, tb);
                            self.emit_negation(dst, d, negate, span);
                        },
                        _ => self.lose(dst),
                    }
                },
                _ => self.lose(dst),
            }
            return ;
        }
        match self.new_rv(dst, span) {
            None => self.lose(dst),
            Some(d) => {
                self.set_kind(dst, NaraKind::Bool);
                self.code4(0x10, d, a, b);
                self.emit_negation(dst, d, negate, span);
            },
        }
    }

    fn emit_op(&mut self, dst: Reg, op: LirOp, kind: NaraKind, l: u8, r: u8, span: Span)
        ensures
            final(self).st() == nara_plan::emit_op(old(self).st(), dst, op, kind, l, r, span),
    {
        reveal(nara_plan::emit_op);
        match op {
            LirOp::Add | LirOp::Sub | LirOp::Mul | LirOp::Div => match opcode(op, kind) {
                None => {
                    self.unsupported_op(op, kind, span, false);
                    self.lose(dst);
                },
                Some(code) => match self.new_rv(dst, span) {
                    None => self.lose(dst),
                    Some(d) => {
                        self.set_kind(dst, kind);
                        self.code4(code, d, l, r);
                    },
                },
            },
            LirOp::Eq => match self.new_rv(dst, span) {
                None => self.lose(dst),
                Some(d) => {
                    self.set_kind(dst, NaraKind::Bool);
                    self.code4(0x0a, d, l, r);
                },
            },
            LirOp::Ne => {
                let d = self.new_rv(dst, span);
                let one = self.ensure_one(span);
                match (d, one) {
                    (Some(d), Some(one)) => {
                        self.set_kind(dst, NaraKind::Bool);
                        self.code4(0x0a, d, l, r);
                        self.code4(0x12, d, d, one);
                    },
                    _ => self.lose(dst),
                }
            },
            _ => self.emit_ordering(dst, op, kind, l, r, span),
        }
    }

    fn emit_binop(&mut self, dst: Reg, op: LirOp, lhs: Reg, rhs: Reg, span: Span)
        ensures
            final(self).st() == nara_plan::emit_binop(old(self).st(), dst, op, lhs, rhs, span),
    {
        reveal(nara_plan::emit_binop);
        let both = match (self.kind(lhs), self.kind(rhs)) {
            (Some(a), Some(b)) => if a == b {
                Some(a)
            } else {
                None
            },
            _ => None,
        };
        let kind = match both {
            Some(k) => k,
            None => {
                if !self.is_invalid(lhs) && !self.is_invalid(rhs) {
                    self.complain(
                        "Naravm backend found mismatched operand types",
                        span,
                        "emitted here",
                        "E500",
                    );
                }
                self.lose(dst);
                return ;
            },
        };
        if is_ref(kind) {
            let message = cat3(
                "Naravm backend does not support `",
                show_op(op),
                "` on strings yet",
            );
            self.complain(message.as_str(), span, "unsupported operation", "E404");
            self.lose(dst);
            return ;
        }
        let l: u8 = match self.value_reg(lhs, span) {
            Some(l) => l,
            None => {
                self.lose(dst);
                return ;
            },
        };
        let r: u8 = match self.value_reg(rhs, span) {
            Some(r) => r,
            None => {
                self.lose(dst);
                return ;
            },
        };
        self.emit_op(dst, op, kind, l, r, span);
    }

    fn live(m: &Table<Reg, u8>) -> (r: Vec<u8>)
        ensures
            r@ == nara_plan::live_registers(m@, 256),
    {
        let mut out: Vec<u8> = Vec::new();
        let mut n: u16 = 0;
        assert(out@ =~= Seq::empty());
        while n < 256
            invariant
                n <= 256,
                out@ == nara_plan::live_registers(m@, n as nat),
            decreases 256 - n,
        {
            let b: u8 = n as u8;
            if m.has_value(b) {
                out.push(b);
            }
            n += 1;
        }
        out
    }

    fn spills(&self) -> (r: Vec<Spilled>)
        ensures
            spilled_view(r@) == nara_plan::spills(self.st()),
    {
        let mut out: Vec<Spilled> = Vec::new();
        let rvs = NaraEmit::live(&self.rv_map);
        let rfs = NaraEmit::live(&self.rf_map);
        let mut i: usize = 0;
        while i < rvs.len()
            invariant
                i <= rvs@.len(),
                out@.len() == i,
                spilled_view(out@) =~= nara_plan::value_spills(rvs@).take(i as int),
            decreases rvs@.len() - i,
        {
            let ghost before = out@;
            out.push(Spilled { reference: false, reg: rvs[i] });
            assert(spilled_view(out@) =~= spilled_view(before).push(Spill::V(rvs@[i as int])));
            i += 1;
        }
        assert(spilled_view(out@) =~= nara_plan::value_spills(rvs@));
        let ghost first = out@;
        match self.one_rv {
            Some(r) => {
                out.push(Spilled { reference: false, reg: r });
            },
            None => {},
        }
        assert(spilled_view(out@) =~= nara_plan::value_spills(rvs@) + nara_plan::spill_of(
            self.one_rv,
        ));
        let ghost second = out@;
        match self.bias_rv {
            Some(r) => {
                out.push(Spilled { reference: false, reg: r });
            },
            None => {},
        }
        assert(spilled_view(out@) =~= nara_plan::value_spills(rvs@) + nara_plan::spill_of(
            self.one_rv,
        ) + nara_plan::spill_of(self.bias_rv));
        let ghost third = spilled_view(out@);
        let mut j: usize = 0;
        while j < rfs.len()
            invariant
                j <= rfs@.len(),
                spilled_view(out@) =~= third + nara_plan::ref_spills(rfs@).take(j as int),
            decreases rfs@.len() - j,
        {
            let ghost before = out@;
            out.push(Spilled { reference: true, reg: rfs[j] });
            assert(spilled_view(out@) =~= spilled_view(before).push(Spill::F(rfs@[j as int])));
            j += 1;
        }
        assert(spilled_view(out@) =~= nara_plan::spills(self.st()));
        out
    }

    fn push_all(&mut self, ss: &Vec<Spilled>)
        ensures
            final(self).st() == nara_plan::coded(
                old(self).st(),
                nara_plan::push_all(spilled_view(ss@)),
            ),
    {
        let ghost all = spilled_view(ss@);
        let ghost start = self.st();
        let mut i: usize = 0;
        assert(all.take(0).len() == 0);
        assert(start.bytecode + Seq::<u8>::empty() =~= start.bytecode);
        while i < ss.len()
            invariant
                i <= ss@.len(),
                all == spilled_view(ss@),
                self.st() == nara_plan::coded(start, nara_plan::push_all(all.take(i as int))),
            decreases ss@.len() - i,
        {
            assert(all.take(i + 1).drop_last() =~= all.take(i as int));
            assert(all.take(i + 1).last() == all[i as int]);
            if ss[i].reference {
                self.code2(0x08, ss[i].reg);
            } else {
                self.code2(0x06, ss[i].reg);
            }
            assert(self.bytecode@ =~= start.bytecode + nara_plan::push_all(all.take(i + 1)));
            i += 1;
        }
        assert(all.take(all.len() as int) =~= all);
    }

    fn pop_all(&mut self, ss: &Vec<Spilled>)
        ensures
            final(self).st() == nara_plan::coded(
                old(self).st(),
                nara_plan::pop_all(spilled_view(ss@)),
            ),
    {
        let ghost all = spilled_view(ss@);
        let ghost start = self.st();
        let mut i: usize = ss.len();
        assert(all.take(all.len() as int) =~= all);
        while i > 0
            invariant
                i <= ss@.len(),
                all == spilled_view(ss@),
                nara_plan::coded(start, nara_plan::pop_all(all)) == nara_plan::coded(
                    self.st(),
                    nara_plan::pop_all(all.take(i as int)),
                ),
            decreases i,
        {
            let ghost before = self.st();
            i = i - 1;
            assert(all.take(i + 1).drop_last() =~= all.take(i as int));
            assert(all.take(i + 1).last() == all[i as int]);
            if ss[i].reference {
                self.code2(0x09, ss[i].reg);
            } else {
                self.code2(0x07, ss[i].reg);
            }
            assert(before.bytecode + nara_plan::pop_all(all.take(i + 1)) =~= self.st().bytecode
                + nara_plan::pop_all(all.take(i as int)));
        }
        assert(self.bytecode@ + nara_plan::pop_all(all.take(0)) =~= self.bytecode@);
    }

    fn actuals(&self, args: &Vec<Reg>) -> (r: Option<Vec<(bool, u8)>>)
        ensures
            match r {
                Some(xs) => nara_plan::actuals(self.st(), args@) == Some(xs@),
                None => nara_plan::actuals(self.st(), args@) is None,
            },
    {
        let mut out: Vec<(bool, u8)> = Vec::new();
        let mut i: usize = 0;
        assert(args@.take(0).len() == 0);
        assert(out@ =~= Seq::empty());
        while i < args.len()
            invariant
                i <= args@.len(),
                nara_plan::actuals(self.st(), args@.take(i as int)) == Some(out@),
            decreases args@.len() - i,
        {
            assert(args@.take(i + 1).drop_last() =~= args@.take(i as int));
            assert(args@.take(i + 1).last() == args@[i as int]);
            let arg = args[i];
            let found = match self.kind(arg) {
                None => None,
                Some(k) => if is_ref(k) {
                    match self.rf(arg) {
                        Some(r) => Some((true, r)),
                        None => None,
                    }
                } else {
                    match self.rv(arg) {
                        Some(r) => Some((false, r)),
                        None => None,
                    }
                },
            };
            match found {
                Some(x) => out.push(x),
                None => {
                    proof {
                        actuals_stop(self.st(), args@, i + 1);
                    }
                    return None;
                },
            }
            i += 1;
        }
        assert(args@.take(args@.len() as int) =~= args@);
        Some(out)
    }

    fn move_args(&mut self, xs: &Vec<(bool, u8)>)
        requires
            nara_plan::count_args(xs@, false) <= 15,
            nara_plan::count_args(xs@, true) <= 9,
        ensures
            final(self).st() == nara_plan::coded(old(self).st(), nara_plan::move_args(xs@)),
    {
        let ghost start = self.st();
        let mut vi: u8 = 0;
        let mut ri: u8 = 0;
        let mut i: usize = 0;
        assert(xs@.take(0).len() == 0);
        assert(start.bytecode + Seq::<u8>::empty() =~= start.bytecode);
        while i < xs.len()
            invariant
                i <= xs@.len(),
                nara_plan::count_args(xs@, false) <= 15,
                nara_plan::count_args(xs@, true) <= 9,
                vi == nara_plan::count_args(xs@.take(i as int), false),
                ri == nara_plan::count_args(xs@.take(i as int), true),
                vi <= 15,
                ri <= 9,
                self.st() == nara_plan::coded(start, nara_plan::move_args(xs@.take(i as int))),
            decreases xs@.len() - i,
        {
            assert(xs@.take(i + 1).drop_last() =~= xs@.take(i as int));
            assert(xs@.take(i + 1).last() == xs@[i as int]);
            proof {
                count_grows(xs@, i + 1, false);
                count_grows(xs@, i + 1, true);
            }
            if xs[i].0 {
                self.code3(0x05, 0x31 + ri, xs[i].1);
                ri = ri + 1;
            } else {
                self.code3(0x04, 0x11 + vi, xs[i].1);
                vi = vi + 1;
            }
            assert(self.bytecode@ =~= start.bytecode + nara_plan::move_args(xs@.take(i + 1)));
            i += 1;
        }
        assert(xs@.take(xs@.len() as int) =~= xs@);
    }

    fn pass_args(&mut self, xs: &Vec<(bool, u8)>)
        requires
            nara_plan::count_args(xs@, false) <= 15,
            nara_plan::count_args(xs@, true) <= 9,
        ensures
            final(self).st() == nara_plan::coded(old(self).st(), nara_plan::pass_args(xs@)),
    {
        let from = sources(xs);
        let to = slots(xs);
        assert(spilled_view(to@).len() == xs@.len() && spilled_view(from@).len() == xs@.len());
        if clash(&to, &from) {
            let ghost start = self.st();
            self.push_all(&from);
            self.pop_all(&to);
            assert(self.bytecode@ =~= start.bytecode + nara_plan::pass_args(xs@));
        } else {
            self.move_args(xs);
        }
    }

    fn result_register(&mut self, kind: Option<NaraKind>, span: Span) -> (r: Option<u8>)
        ensures
            (r, final(self).st()) == nara_plan::result_register(old(self).st(), kind, span),
    {
        match kind {
            None => None,
            Some(k) => if is_ref(k) {
                self.fresh_rf(span)
            } else {
                self.fresh_rv(span)
            },
        }
    }

    fn after_call(
        &mut self,
        dst: Reg,
        kind: Option<NaraKind>,
        reg: Option<u8>,
        saved: &Vec<Spilled>,
    )
        ensures
            final(self).st() == nara_plan::after_call(
                old(self).st(),
                dst,
                kind,
                reg,
                spilled_view(saved@),
            ),
    {
        match (kind, reg) {
            (Some(k), Some(r)) => {
                if is_ref(k) {
                    self.code3(0x05, r, 0x31);
                    self.set_rf(dst, r);
                    self.set_kind(dst, k);
                } else {
                    if r != 0x11 {
                        self.code3(0x04, r, 0x11);
                    }
                    self.set_rv(dst, r);
                    self.set_kind(dst, k);
                }
            },
            _ => {},
        }
        self.pop_all(saved);
    }
}

fn sources(xs: &Vec<(bool, u8)>) -> (r: Vec<Spilled>)
    ensures
        spilled_view(r@) == nara_plan::sources(xs@),
{
    let mut out: Vec<Spilled> = Vec::new();
    let mut i: usize = 0;
    while i < xs.len()
        invariant
            i <= xs@.len(),
            spilled_view(out@) =~= nara_plan::sources(xs@).take(i as int),
        decreases xs@.len() - i,
    {
        let ghost before = out@;
        out.push(Spilled { reference: xs[i].0, reg: xs[i].1 });
        assert(spilled_view(out@) =~= spilled_view(before).push(
            nara_plan::sources(xs@)[i as int],
        ));
        i += 1;
    }
    assert(nara_plan::sources(xs@).take(i as int) =~= nara_plan::sources(xs@));
    out
}

fn slots(xs: &Vec<(bool, u8)>) -> (r: Vec<Spilled>)
    requires
        nara_plan::count_args(xs@, false) <= 15,
        nara_plan::count_args(xs@, true) <= 9,
    ensures
        spilled_view(r@) == nara_plan::slots(xs@),
{
    let mut out: Vec<Spilled> = Vec::new();
    let mut vi: u8 = 0;
    let mut ri: u8 = 0;
    let mut i: usize = 0;
    assert(xs@.take(0).len() == 0);
    while i < xs.len()
        invariant
            i <= xs@.len(),
            nara_plan::count_args(xs@, false) <= 15,
            nara_plan::count_args(xs@, true) <= 9,
            vi == nara_plan::count_args(xs@.take(i as int), false),
            ri == nara_plan::count_args(xs@.take(i as int), true),
            vi <= 15,
            ri <= 9,
            spilled_view(out@) =~= nara_plan::slots(xs@).take(i as int),
        decreases xs@.len() - i,
    {
        assert(xs@.take(i + 1).drop_last() =~= xs@.take(i as int));
        assert(xs@.take(i + 1).last() == xs@[i as int]);
        proof {
            count_grows(xs@, i + 1, false);
            count_grows(xs@, i + 1, true);
        }
        let ghost before = out@;
        if xs[i].0 {
            out.push(Spilled { reference: true, reg: 0x31 + ri });
            ri = ri + 1;
        } else {
            out.push(Spilled { reference: false, reg: 0x11 + vi });
            vi = vi + 1;
        }
        assert(spilled_view(out@) =~= spilled_view(before).push(nara_plan::slots(xs@)[i as int]));
        i += 1;
    }
    assert(nara_plan::slots(xs@).take(i as int) =~= nara_plan::slots(xs@));
    out
}

fn clash(to: &Vec<Spilled>, from: &Vec<Spilled>) -> (r: bool)
    requires
        to@.len() == from@.len(),
    ensures
        r == exists|i: int, j: int|
            0 <= i < j < to@.len() && #[trigger] spilled_view(to@)[i] == #[trigger] spilled_view(
                from@,
            )[j],
{
    let ghost a = spilled_view(to@);
    let ghost b = spilled_view(from@);
    let mut i: usize = 0;
    while i < to.len()
        invariant
            i <= to@.len(),
            to@.len() == from@.len(),
            a == spilled_view(to@),
            b == spilled_view(from@),
            forall|k: int, j: int| 0 <= k < i && k < j < b.len() ==> #[trigger] a[k] != #[trigger] b[j],
        decreases to@.len() - i,
    {
        let mut j: usize = i + 1;
        while j < from.len()
            invariant
                i < j <= from@.len(),
                to@.len() == from@.len(),
                a == spilled_view(to@),
                b == spilled_view(from@),
                forall|z: int| i < z < j ==> a[i as int] != #[trigger] b[z],
            decreases from@.len() - j,
        {
            if to[i].reference == from[j].reference && to[i].reg == from[j].reg {
                assert(a[i as int] == b[j as int]);
                return true;
            }
            assert(a[i as int] != b[j as int]);
            j += 1;
        }
        i += 1;
    }
    false
}

/// A register that is saved around a call.
struct Spilled {
    reference: bool,
    reg: u8,
}

spec fn spilled_view(ss: Seq<Spilled>) -> Seq<Spill> {
    Seq::new(
        ss.len(),
        |i: int|
            if ss[i].reference {
                Spill::F(ss[i].reg)
            } else {
                Spill::V(ss[i].reg)
            },
    )
}

proof fn actuals_stop(e: Emission, args: Seq<Reg>, n: int)
    requires
        0 <= n <= args.len(),
        nara_plan::actuals(e, args.take(n)) is None,
    ensures
        nara_plan::actuals(e, args) is None,
    decreases args.len() - n,
{
    if n == args.len() {
        assert(args.take(n) =~= args);
    } else {
        assert(args.take(n + 1).drop_last() =~= args.take(n));
        actuals_stop(e, args, n + 1);
    }
}

proof fn count_grows(xs: Seq<(bool, u8)>, n: int, reference: bool)
    requires
        0 <= n <= xs.len(),
    ensures
        nara_plan::count_args(xs.take(n), reference) <= nara_plan::count_args(xs, reference),
    decreases xs.len() - n,
{
    if n == xs.len() {
        assert(xs.take(n) =~= xs);
    } else {
        assert(xs.take(n + 1).drop_last() =~= xs.take(n));
        count_grows(xs, n + 1, reference);
    }
}

fn count_args(xs: &Vec<(bool, u8)>, reference: bool) -> (r: usize)
    ensures
        r == nara_plan::count_args(xs@, reference),
{
    let mut n: usize = 0;
    let mut i: usize = 0;
    assert(xs@.take(0).len() == 0);
    while i < xs.len()
        invariant
            i <= xs@.len(),
            n <= i,
            n == nara_plan::count_args(xs@.take(i as int), reference),
        decreases xs@.len() - i,
    {
        assert(xs@.take(i + 1).drop_last() =~= xs@.take(i as int));
        assert(xs@.take(i + 1).last() == xs@[i as int]);
        if xs[i].0 == reference {
            n += 1;
        }
        i += 1;
    }
    assert(xs@.take(xs@.len() as int) =~= xs@);
    n
}

proof fn named_stays(fs: Seq<lir::FunctionView>, n: int, name: Seq<char>)
    requires
        0 <= n <= fs.len(),
        nara_plan::function_named(fs.take(n), name) is Some,
    ensures
        nara_plan::function_named(fs, name) == nara_plan::function_named(fs.take(n), name),
    decreases fs.len() - n,
{
    if n == fs.len() {
        assert(fs.take(n) =~= fs);
    } else {
        assert(fs.take(n + 1).drop_last() =~= fs.take(n));
        named_stays(fs, n + 1, name);
    }
}

fn find_function<'a>(fs: &'a Vec<Function>, name: &str) -> (r: Option<&'a Function>)
    ensures
        match r {
            Some(f) => nara_plan::function_named(model::all(fs@), name@) == Some(f@),
            None => nara_plan::function_named(model::all(fs@), name@) is None,
        },
{
    let ghost all = model::all(fs@);
    let outside = str_eq(name, "<global>");
    let mut i: usize = 0;
    assert(all.take(0).len() == 0);
    while i < fs.len()
        invariant
            i <= fs@.len(),
            all == model::all(fs@),
            outside == (name@ == nara_plan::outside_name()),
            nara_plan::function_named(all.take(i as int), name@) is None,
        decreases fs@.len() - i,
    {
        assert(all.take(i + 1).drop_last() =~= all.take(i as int));
        assert(all.take(i + 1).last() == all[i as int]);
        if !outside && str_eq(fs[i].name.as_str(), name) {
            proof {
                named_stays(all, i + 1, name@);
            }
            return Some(&fs[i]);
        }
        i += 1;
    }
    assert(all.take(all.len() as int) =~= all);
    None
}

/// What the emission of a function knows.
struct Ctx<'a> {
    func: &'a Function,
    functions: &'a Vec<Function>,
    fn_consts: &'a Table<String, usize>,
    native_consts: &'a Table<String, usize>,
    natives: &'a Vec<ModuleSpec>,
    print_fn_idx: usize,
    print_u64_fn_idx: usize,
    is_main: bool,
}

impl<'a> Ctx<'a> {
    spec fn st(&self) -> FnContext {
        FnContext {
            func: self.func@,
            functions: model::all(self.functions@),
            fn_consts: self.fn_consts@,
            native_consts: self.native_consts@,
            print_fn_idx: self.print_fn_idx,
            print_u64_fn_idx: self.print_u64_fn_idx,
        }
    }

    spec fn ok(&self) -> bool {
        &&& self.is_main == nara_plan::is_main(self.st())
        &&& model::all(self.natives@) == codegen::target_catalog()
    }
}

fn deals_in_files(sig: &FuncSig) -> (r: bool)
    ensures
        r == nara_plan::deals_in_files(sig@),
{
    if let VlType::File = sig.ret {
        return true;
    }
    let ghost all = sig@.params;
    let mut i: usize = 0;
    while i < sig.params.len()
        invariant
            i <= sig.params@.len(),
            all == model::all(sig.params@),
            forall|k: int| 0 <= k < i ==> !((#[trigger] all[k]).ty is File),
        decreases sig.params@.len() - i,
    {
        assert(all[i as int] == sig.params@[i as int]@);
        if let VlType::File = sig.params[i].ty {
            return true;
        }
        i += 1;
    }
    false
}

pub(crate) fn native_sig<'a>(natives: &'a Vec<ModuleSpec>, f: &FuncSymbol) -> (r: Option<&'a FuncSig>)
    requires
        model::all(natives@) == codegen::target_catalog(),
    ensures
        match r {
            Some(sig) => nara_plan::native_sig(f@) == Some(sig@),
            None => nara_plan::native_sig(f@) is None,
        },
{
    reveal(nara_plan::native_sig);
    let path = ModulePath::from_dotted(f.module.as_str());
    match module_at(natives.as_slice(), &path) {
        None => None,
        Some(m) => match find_export(&m.exports, f.function.as_str()) {
            None => None,
            Some(e) => if deals_in_files(&e.sig) {
                None
            } else {
                Some(&e.sig)
            },
        },
    }
}

fn native_module(f: &FuncSymbol) -> (r: String)
    ensures
        r@ == nara_plan::native_module(f@),
{
    let path = ModulePath::from_dotted(f.module.as_str());
    join_strings(path.segments(), "::")
}

fn native_name(f: &FuncSymbol) -> (r: String)
    ensures
        r@ == nara_plan::native_name(f@),
{
    let module = native_module(f);
    cat3(module.as_str(), "::", f.function.as_str())
}

fn native_called<'a>(natives: &Vec<ModuleSpec>, fs: &Vec<Function>, ins: &'a Instr) -> (r: Option<
    &'a FuncSymbol,
>)
    requires
        model::all(natives@) == codegen::target_catalog(),
    ensures
        match r {
            Some(f) => nara_plan::native_called(model::all(fs@), ins@) == Some(f@),
            None => nara_plan::native_called(model::all(fs@), ins@) is None,
        },
{
    match ins {
        Instr::Call { callee, symbol, .. } => {
            let name = callee.as_str();
            if find_function(fs, name).is_some() || str_eq(name, "std.print") || str_eq(
                name,
                "print",
            ) || str_eq(name, "std.print_u64") || str_eq(name, "print_u64") {
                return None;
            }
            if native_sig(natives, symbol).is_some() {
                Some(symbol)
            } else {
                None
            }
        },
        _ => None,
    }
}

impl NaraEmit {
    fn emit_param(&mut self, x: &Ctx<'_>, dst: Reg, index: usize, span: Span)
        ensures
            final(self).st() == nara_plan::emit_param(x.st(), old(self).st(), dst, index, span),
    {
        reveal(nara_plan::emit_param);
        let found = if index < x.func.param_tys.len() {
            kind_of_ty(&x.func.param_tys[index])
        } else {
            None
        };
        let kind = match found {
            Some(k) => k,
            None => {
                self.lose(dst);
                return ;
            },
        };
        if is_ref(kind) {
            if self.param_ri >= 9 {
                self.complain(
                    "Naravm backend supports at most 9 reference parameters per function",
                    span,
                    "parameter here",
                    "E404",
                );
                self.lose(dst);
                return ;
            }
            let src: u8 = 0x31 + self.param_ri;
            self.param_ri = self.param_ri + 1;
            if !self.is_used(dst) {
                return ;
            }
            match self.fresh_rf(span) {
                None => self.lose(dst),
                Some(rf) => {
                    self.set_rf(dst, rf);
                    self.set_kind(dst, kind);
                    self.code3(0x05, rf, src);
                },
            }
        } else {
            if self.param_vi >= 15 {
                self.complain(
                    "Naravm backend supports at most 15 value parameters per function",
                    span,
                    "parameter here",
                    "E404",
                );
                self.lose(dst);
                return ;
            }
            let src: u8 = 0x11 + self.param_vi;
            self.param_vi = self.param_vi + 1;
            if !self.is_used(dst) {
                return ;
            }
            match self.fresh_rv(span) {
                None => self.lose(dst),
                Some(rv) => {
                    self.set_rv(dst, rv);
                    self.set_kind(dst, kind);
                    self.code3(0x04, rv, src);
                },
            }
        }
    }

    fn some_invalid(&self, args: &Vec<Reg>) -> (r: bool)
        ensures
            r == nara_plan::some_invalid(self.st(), args@),
    {
        let mut i: usize = 0;
        while i < args.len()
            invariant
                i <= args@.len(),
                forall|k: int| 0 <= k < i ==> !self.st().invalid.contains(#[trigger] args@[k]),
            decreases args@.len() - i,
        {
            if self.is_invalid(args[i]) {
                assert(self.st().invalid.contains(args@[i as int]));
                return true;
            }
            i += 1;
        }
        false
    }

    fn emit_call(
        &mut self,
        dst: Reg,
        callee: &String,
        ret: &Ty,
        idx: Option<usize>,
        xs: &Vec<(bool, u8)>,
        span: Span,
    )
        ensures
            final(self).st() == nara_plan::emit_call(
                old(self).st(),
                dst,
                callee@,
                ret@,
                idx,
                xs@,
                span,
            ),
    {
        if count_args(xs, false) > 15 || count_args(xs, true) > 9 {
            self.complain(
                "Naravm backend supports at most 15 value and 9 reference arguments per call",
                span,
                "call emitted here",
                "E404",
            );
            self.lose(dst);
            return ;
        }
        let kind = kind_of_ty(ret);
        let reg = self.result_register(kind, span);
        if kind.is_some() && reg.is_none() {
            self.lose(dst);
            return ;
        }
        let saved = self.spills();
        self.push_all(&saved);
        self.pass_args(xs);
        match idx {
            Some(i) => {
                self.call_index(i, span);
                self.after_call(dst, kind, reg, &saved);
            },
            None => {
                let message = cat3(
                    "codegen: missing function constant for `",
                    callee.as_str(),
                    "` (compiler bug)",
                );
                self.complain(message.as_str(), span, "call emitted here", "E500");
                self.lose(dst);
            },
        }
    }

    fn emit_known_call(
        &mut self,
        dst: Reg,
        callee: &String,
        arity: usize,
        ret: &Ty,
        idx: Option<usize>,
        args: &Vec<Reg>,
        span: Span,
    )
        ensures
            final(self).st() == nara_plan::emit_known_call(
                old(self).st(),
                dst,
                callee@,
                arity as nat,
                ret@,
                idx,
                args@,
                span,
            ),
    {
        if self.some_invalid(args) {
            self.lose(dst);
            return ;
        }
        if args.len() != arity {
            let message = cat3(
                "codegen: arity mismatch calling `",
                callee.as_str(),
                "` (compiler bug)",
            );
            self.complain(message.as_str(), span, "call emitted here", "E500");
            self.lose(dst);
            return ;
        }
        match self.actuals(args) {
            None => {
                self.complain(
                    "Naravm backend could not resolve a call argument (compiler bug)",
                    span,
                    "call emitted here",
                    "E500",
                );
                self.lose(dst);
            },
            Some(xs) => self.emit_call(dst, callee, ret, idx, &xs, span),
        }
    }

    fn emit_user_call(
        &mut self,
        x: &Ctx<'_>,
        dst: Reg,
        callee: &String,
        f: &Function,
        args: &Vec<Reg>,
        span: Span,
    )
        ensures
            final(self).st() == nara_plan::emit_user_call(
                x.st(),
                old(self).st(),
                dst,
                callee@,
                f@,
                args@,
                span,
            ),
    {
        let idx = constant_of(x.fn_consts, callee);
        self.emit_known_call(dst, callee, f.param_tys.len(), &f.ret, idx, args, span);
    }

    fn emit_native_call(
        &mut self,
        x: &Ctx<'_>,
        dst: Reg,
        callee: &String,
        f: &FuncSymbol,
        sig: &FuncSig,
        args: &Vec<Reg>,
        span: Span,
    )
        ensures
            final(self).st() == nara_plan::emit_native_call(
                x.st(),
                old(self).st(),
                dst,
                callee@,
                f@,
                sig@,
                args@,
                span,
            ),
    {
        let name = native_name(f);
        let idx = constant_of(x.native_consts, &name);
        let ret = Ty::from_vl(&sig.ret);
        self.emit_known_call(dst, callee, sig.params.len(), &ret, idx, args, span);
    }

    fn emit_print(&mut self, x: &Ctx<'_>, dst: Reg, args: &Vec<Reg>, span: Span)
        ensures
            final(self).st() == nara_plan::emit_print(x.st(), old(self).st(), dst, args@, span),
    {
        if args.len() != 1 {
            self.complain("std.print expects one string argument", span, "invalid call", "E401");
            self.lose(dst);
            return ;
        }
        if self.is_invalid(args[0]) {
            self.lose(dst);
            return ;
        }
        match self.ref_reg(args[0], span) {
            None => self.lose(dst),
            Some(s) => {
                self.code3(0x05, 0x31, s);
                self.call_index(x.print_fn_idx, span);
            },
        }
    }

    fn emit_print_u64(&mut self, x: &Ctx<'_>, dst: Reg, args: &Vec<Reg>, span: Span)
        ensures
            final(self).st() == nara_plan::emit_print_u64(
                x.st(),
                old(self).st(),
                dst,
                args@,
                span,
            ),
    {
        if args.len() != 1 {
            self.complain(
                "std.print_u64 expects one u64 argument",
                span,
                "invalid call",
                "E401",
            );
            self.lose(dst);
            return ;
        }
        if self.is_invalid(args[0]) {
            self.lose(dst);
            return ;
        }
        let fits = match self.kind(args[0]) {
            Some(k) => k == NaraKind::U64 || k == NaraKind::U8,
            None => false,
        };
        if !fits {
            self.complain(
                "Naravm backend requires a u64 argument to std.print_u64",
                span,
                "unsupported argument",
                "E402",
            );
            self.lose(dst);
            return ;
        }
        match self.value_reg(args[0], span) {
            None => self.lose(dst),
            Some(s) => {
                if s != 0x11 {
                    self.code3(0x04, 0x11, s);
                }
                self.call_index(x.print_u64_fn_idx, span);
            },
        }
    }

    fn emit_any_call(
        &mut self,
        x: &Ctx<'_>,
        dst: Reg,
        callee: &String,
        symbol: &FuncSymbol,
        args: &Vec<Reg>,
        span: Span,
    )
        requires
            x.ok(),
        ensures
            final(self).st() == nara_plan::emit_any_call(
                x.st(),
                old(self).st(),
                dst,
                callee@,
                symbol@,
                args@,
                span,
            ),
    {
        reveal(nara_plan::emit_any_call);
        match find_function(x.functions, callee.as_str()) {
            Some(f) => self.emit_user_call(x, dst, callee, f, args, span),
            None => {
                let name = callee.as_str();
                if str_eq(name, "std.print") || str_eq(name, "print") {
                    self.emit_print(x, dst, args, span);
                } else if str_eq(name, "std.print_u64") || str_eq(name, "print_u64") {
                    self.emit_print_u64(x, dst, args, span);
                } else if let Some(sig) = native_sig(x.natives, symbol) {
                    self.emit_native_call(x, dst, callee, symbol, sig, args, span);
                } else {
                    let message = cat3("Naravm backend does not support call `", name, "` yet");
                    self.report(
                        Diagnostic::error(message.as_str()).with_label(
                            span,
                            "unsupported call",
                        ).with_note(
                            "only `std.print`, `std.print_u64`, and user functions lower to Naravm calls",
                        ).with_code("E404"),
                    );
                    self.lose(dst);
                }
            },
        }
    }

    fn lost_return(&mut self, span: Span)
        ensures
            final(self).st() == nara_plan::reported(
                old(self).st(),
                nara_plan::lost_return(span),
            ),
    {
        self.complain(
            "Naravm backend could not resolve the return register (compiler bug)",
            span,
            "return emitted here",
            "E500",
        );
    }

    fn emit_ret(&mut self, x: &Ctx<'_>, src: Reg, span: Span)
        requires
            x.ok(),
        ensures
            final(self).st() == nara_plan::emit_ret(x.st(), old(self).st(), src, span),
    {
        reveal(nara_plan::emit_ret);
        match kind_of_ty(&x.func.ret) {
            None => {},
            Some(kind) => {
                if !x.is_main && !self.is_invalid(src) {
                    if is_ref(kind) {
                        match self.rf(src) {
                            Some(s) => self.code3(0x05, 0x31, s),
                            None => self.lost_return(span),
                        }
                    } else {
                        match self.rv(src) {
                            Some(s) => {
                                if s != 0x11 {
                                    self.code3(0x04, 0x11, s);
                                }
                            },
                            None => self.lost_return(span),
                        }
                    }
                }
            },
        }
        self.code1(0x00);
    }

    fn refuse(&mut self, name: &str, dst: Option<Reg>, span: Span)
        ensures
            final(self).st() == nara_plan::refused(old(self).st(), name@, dst, span),
    {
        let message = cat3("Naravm backend does not support `", name, "` yet");
        self.complain(message.as_str(), span, "unsupported operation", "E404");
        match dst {
            Some(r) => self.lose(r),
            None => {},
        }
    }

    fn emit_instr(&mut self, x: &Ctx<'_>, ins: &Instr)
        requires
            x.ok(),
        ensures
            final(self).st() == nara_plan::emit_instr(x.st(), old(self).st(), ins@),
    {
        match ins {
            Instr::Const { dst, value, span } => self.emit_const(*dst, *value, *span),
            Instr::StringConst { dst, value, span } => self.emit_string(*dst, value, *span),
            Instr::Param { dst, index, span } => {
                if x.is_main {
                    self.complain(
                        "Naravm backend only supports `function main()` with no parameters",
                        *span,
                        "parameter here",
                        "E403",
                    );
                } else {
                    self.emit_param(x, *dst, *index, *span);
                }
            },
            Instr::Copy { dst, src, span } => self.emit_copy(*dst, *src, *span),
            Instr::Not { dst, src, span } => self.emit_not(*dst, *src, *span),
            Instr::BinOp { dst, op, lhs, rhs, span } => self.emit_binop(
                *dst,
                *op,
                *lhs,
                *rhs,
                *span,
            ),
            Instr::Call { dst, callee, symbol, args, span } => self.emit_any_call(
                x,
                *dst,
                callee,
                symbol,
                args,
                *span,
            ),
            Instr::Ret { src, span } => self.emit_ret(x, *src, *span),
            Instr::BranchIfFalse { cond, target, span } => {
                match self.value_reg(*cond, *span) {
                    None => {},
                    Some(c) => {
                        let pos: usize = self.bytecode.len();
                        self.code4(0x24, c, 0, 0);
                        self.patches.push(
                            NaraPatch { pos, len: 4, target: *target, span: *span },
                        );
                    },
                }
            },
            Instr::Jump { target, span } => {
                let pos: usize = self.bytecode.len();
                self.code3(0x22, 0, 0);
                self.patches.push(NaraPatch { pos, len: 3, target: *target, span: *span });
            },
            Instr::Label { id, .. } => {
                let pos: usize = self.bytecode.len();
                self.label_pos.insert(*id, pos);
            },
            Instr::NewArray { dst, span, .. } => self.refuse("new_array", Some(*dst), *span),
            Instr::ArrayLit { dst, span, .. } => self.refuse("array_lit", Some(*dst), *span),
            Instr::ArrayGet { dst, span, .. } => self.refuse("array_get", Some(*dst), *span),
            Instr::ArraySet { span, .. } => self.refuse("array_set", None, *span),
            Instr::NewObject { dst, span, .. } => self.refuse("new_object", Some(*dst), *span),
            Instr::ObjectGet { dst, span, .. } => self.refuse("object_get", Some(*dst), *span),
            Instr::ObjectSet { span, .. } => self.refuse("object_set", None, *span),
            Instr::Cast { dst, span, .. } => self.refuse("cast", Some(*dst), *span),
            Instr::GlobalLoad { dst, span, .. } => self.refuse("global_load", Some(*dst), *span),
            Instr::GlobalStore { span, .. } => self.refuse("global_store", None, *span),
        }
    }

    fn release(&mut self, r: Reg, at: usize)
        ensures
            final(self).st() == nara_plan::release(old(self).st(), r, at),
    {
        let last = match self.last_use.get(&r) {
            Some(n) => *n == at,
            None => false,
        };
        if !last {
            return ;
        }
        match self.rv(r) {
            Some(n) => {
                self.free_rv.push(n);
                self.rv_map.remove(&r);
            },
            None => {},
        }
        match self.rf(r) {
            Some(n) => {
                self.free_rf.push(n);
                self.rf_map.remove(&r);
            },
            None => {},
        }
    }

    fn free_dead(&mut self, ins: &Instr, at: usize)
        ensures
            final(self).st() == nara_plan::free_dead(old(self).st(), ins@, at),
    {
        let rs = reads(ins);
        let mut i: usize = 0;
        assert(rs@.take(0).len() == 0);
        while i < rs.len()
            invariant
                i <= rs@.len(),
                self.st() == nara_plan::release_all(old(self).st(), rs@.take(i as int), at),
            decreases rs@.len() - i,
        {
            assert(rs@.take(i + 1).drop_last() =~= rs@.take(i as int));
            assert(rs@.take(i + 1).last() == rs@[i as int]);
            self.release(rs[i], at);
            i += 1;
        }
        assert(rs@.take(rs@.len() as int) =~= rs@);
    }

    fn resolve_jump(&mut self, p: NaraPatch)
        ensures
            final(self).st() == nara_plan::resolve_jump(old(self).st(), p),
    {
        let target: usize = match self.label_pos.get(&p.target) {
            Some(n) => *n,
            None => {
                let message = cat3(
                    "codegen: unknown label L",
                    dec_u64(p.target as u64).as_str(),
                    " (compiler bug)",
                );
                self.complain(message.as_str(), p.span, "jump emitted here", "E500");
                return ;
            },
        };
        let offset: i128 = target as i128 - (p.pos as i128 + p.len as i128);
        if offset < -32768 || offset > 32767 {
            self.complain(
                "Naravm jump offset out of range (function too large)",
                p.span,
                "jump emitted here",
                "E500",
            );
            return ;
        }
        let w: u32 = if offset >= 0 {
            offset as u32
        } else {
            (offset + 65536) as u32
        };
        let n: usize = self.bytecode.len();
        let end: i128 = p.pos as i128 + p.len as i128;
        if 2 <= end && end <= n as i128 {
            let at: usize = end as usize;
            self.bytecode.set(at - 2, (w / 256) as u8);
            self.bytecode.set(at - 1, (w % 256) as u8);
        }
    }

    fn resolve_jumps(&mut self)
        ensures
            final(self).st() == nara_plan::resolve_jumps(old(self).st(), old(self).st().patches),
    {
        let ghost ps = self.patches@;
        let mut i: usize = 0;
        assert(ps.take(0).len() == 0);
        while i < self.patches.len()
            invariant
                i <= self.patches@.len(),
                self.patches@ == ps,
                self.st() == nara_plan::resolve_jumps(old(self).st(), ps.take(i as int)),
            decreases self.patches@.len() - i,
        {
            assert(ps.take(i + 1).drop_last() =~= ps.take(i as int));
            assert(ps.take(i + 1).last() == ps[i as int]);
            let ghost before = self.st();
            let p = self.patches[i];
            self.resolve_jump(p);
            assert(self.st().patches == before.patches);
            i += 1;
        }
        assert(ps.take(ps.len() as int) =~= ps);
    }

    fn emit_instrs(&mut self, x: &Ctx<'_>, xs: &Vec<Instr>)
        requires
            x.ok(),
        ensures
            final(self).st() == nara_plan::emit_instrs(
                x.st(),
                old(self).st(),
                model::all(xs@),
            ),
    {
        let ghost all = model::all(xs@);
        let mut i: usize = 0;
        assert(all.take(0).len() == 0);
        while i < xs.len()
            invariant
                i <= xs@.len(),
                x.ok(),
                all == model::all(xs@),
                self.st() == nara_plan::emit_instrs(x.st(), old(self).st(), all.take(i as int)),
            decreases xs@.len() - i,
        {
            assert(all.take(i + 1).drop_last() =~= all.take(i as int));
            assert(all.take(i + 1).last() == all[i as int]);
            if !self.has_error() {
                self.emit_instr(x, &xs[i]);
                self.free_dead(&xs[i], i);
            }
            i += 1;
        }
        assert(all.take(all.len() as int) =~= all);
    }

    fn emit_function(&mut self, x: &Ctx<'_>)
        requires
            x.ok(),
        ensures
            final(self).st() == nara_plan::emit_function(x.st(), old(self).st()),
    {
        self.reset_fn(lifetimes(&x.func.instrs));
        self.emit_instrs(x, &x.func.instrs);
        if !self.has_error() {
            self.resolve_jumps();
        }
    }
}

fn reads(ins: &Instr) -> (r: Vec<Reg>)
    ensures
        r@ == nara_plan::reads(ins@),
{
    let r = match ins {
        Instr::BinOp { lhs, rhs, .. } => vec![*lhs, *rhs],
        Instr::Copy { src, .. } => vec![*src],
        Instr::Not { src, .. } => vec![*src],
        Instr::Call { args, .. } => lir::clone_regs(args),
        Instr::BranchIfFalse { cond, .. } => vec![*cond],
        Instr::Ret { src, .. } => vec![*src],
        Instr::NewArray { len, .. } => vec![*len],
        Instr::ArrayLit { elems, .. } => lir::clone_regs(elems),
        Instr::ArrayGet { array, index, .. } => vec![*array, *index],
        Instr::ArraySet { array, index, value, .. } => vec![*array, *index, *value],
        Instr::NewObject { fields, .. } => field_regs(fields),
        Instr::ObjectGet { object, .. } => vec![*object],
        Instr::ObjectSet { object, value, .. } => vec![*object, *value],
        Instr::Cast { src, .. } => vec![*src],
        Instr::GlobalStore { src, .. } => vec![*src],
        _ => Vec::new(),
    };
    assert(r@ =~= nara_plan::reads(ins@));
    r
}

fn field_regs(fs: &Vec<(String, Reg)>) -> (r: Vec<Reg>)
    ensures
        r@ == Seq::new(fs@.len(), |i: int| fs@[i].1),
{
    let mut out: Vec<Reg> = Vec::new();
    let mut i: usize = 0;
    while i < fs.len()
        invariant
            i <= fs@.len(),
            out@.len() == i,
            forall|k: int| 0 <= k < i ==> #[trigger] out@[k] == fs@[k].1,
        decreases fs@.len() - i,
    {
        out.push(fs[i].1);
        i += 1;
    }
    assert(out@ =~= Seq::new(fs@.len(), |i: int| fs@[i].1));
    out
}

fn last_uses(xs: &Vec<Instr>) -> (r: Table<Reg, usize>)
    ensures
        r@ == nara_plan::last_uses(model::all(xs@)),
{
    let ghost all = model::all(xs@);
    let mut m: Table<Reg, usize> = Table::new();
    let mut i: usize = 0;
    assert(all.take(0).len() == 0);
    while i < xs.len()
        invariant
            i <= xs@.len(),
            all == model::all(xs@),
            m@ == nara_plan::last_uses(all.take(i as int)),
        decreases xs@.len() - i,
    {
        assert(all.take(i + 1).drop_last() =~= all.take(i as int));
        assert(all.take(i + 1).last() == all[i as int]);
        let rs = reads(&xs[i]);
        let ghost start = m@;
        let mut j: usize = 0;
        assert(rs@.take(0).len() == 0);
        while j < rs.len()
            invariant
                j <= rs@.len(),
                m@ == nara_plan::with_uses(start, rs@.take(j as int), i),
            decreases rs@.len() - j,
        {
            assert(rs@.take(j + 1).drop_last() =~= rs@.take(j as int));
            assert(rs@.take(j + 1).last() == rs@[j as int]);
            m.insert(rs[j], i);
            j += 1;
        }
        assert(rs@.take(rs@.len() as int) =~= rs@);
        i += 1;
    }
    assert(all.take(all.len() as int) =~= all);
    m
}

fn defines(ins: &Instr) -> (r: Option<Reg>)
    ensures
        r == nara_plan::defines(ins@),
{
    match ins {
        Instr::Const { dst, .. } => Some(*dst),
        Instr::StringConst { dst, .. } => Some(*dst),
        Instr::Param { dst, .. } => Some(*dst),
        Instr::Copy { dst, .. } => Some(*dst),
        Instr::Not { dst, .. } => Some(*dst),
        Instr::BinOp { dst, .. } => Some(*dst),
        Instr::Call { dst, .. } => Some(*dst),
        Instr::NewArray { dst, .. } => Some(*dst),
        Instr::ArrayLit { dst, .. } => Some(*dst),
        Instr::ArrayGet { dst, .. } => Some(*dst),
        Instr::NewObject { dst, .. } => Some(*dst),
        Instr::ObjectGet { dst, .. } => Some(*dst),
        Instr::Cast { dst, .. } => Some(*dst),
        Instr::GlobalLoad { dst, .. } => Some(*dst),
        _ => None,
    }
}

fn jump_target(ins: &Instr) -> (r: Option<u32>)
    ensures
        r == nara_plan::jump_target(ins@),
{
    match ins {
        Instr::Jump { target, .. } => Some(*target),
        Instr::BranchIfFalse { target, .. } => Some(*target),
        _ => None,
    }
}

fn is_home(xs: &Vec<Instr>, r: Reg) -> (b: bool)
    ensures
        b == nara_plan::is_home(model::all(xs@), r),
{
    let ghost all = model::all(xs@);
    let mut i: usize = 0;
    while i < xs.len()
        invariant
            i <= xs@.len(),
            all == model::all(xs@),
            forall|k: int| 0 <= k < i ==> !nara_plan::copies_to(#[trigger] all[k], r),
        decreases xs@.len() - i,
    {
        let hit = match &xs[i] {
            Instr::Copy { dst, .. } => *dst == r,
            _ => false,
        };
        assert(all[i as int] == xs@[i as int]@);
        assert(hit == nara_plan::copies_to(all[i as int], r));
        if hit {
            return true;
        }
        i += 1;
    }
    false
}

fn defined_before(xs: &Vec<Instr>, r: Reg, h: usize) -> (b: bool)
    requires
        h <= xs@.len(),
    ensures
        b == nara_plan::defined_before(model::all(xs@), r, h as int),
{
    let ghost all = model::all(xs@);
    let mut i: usize = 0;
    while i < h
        invariant
            i <= h <= xs@.len(),
            all == model::all(xs@),
            forall|k: int| 0 <= k < i ==> nara_plan::defines(#[trigger] all[k]) != Some(r),
        decreases h - i,
    {
        assert(all[i as int] == xs@[i as int]@);
        match defines(&xs[i]) {
            Some(d) => if d == r {
                return true;
            },
            None => {},
        }
        i += 1;
    }
    false
}

fn has_reg(rs: &Vec<Reg>, r: Reg) -> (b: bool)
    ensures
        b == rs@.contains(r),
{
    let mut i: usize = 0;
    while i < rs.len()
        invariant
            i <= rs@.len(),
            forall|k: int| 0 <= k < i ==> rs@[k] != r,
        decreases rs@.len() - i,
    {
        if rs[i] == r {
            return true;
        }
        i += 1;
    }
    false
}

fn read_between(xs: &Vec<Instr>, r: Reg, h: usize, j: usize) -> (b: bool)
    requires
        h <= j < xs@.len(),
    ensures
        b == nara_plan::read_between(model::all(xs@), r, h as int, j as int),
{
    let ghost all = model::all(xs@);
    let n: usize = xs.len();
    let mut i: usize = h;
    while i <= j
        invariant
            h <= i <= j + 1,
            j < n == xs@.len(),
            all == model::all(xs@),
            forall|k: int| h <= k < i ==> !nara_plan::reads(#[trigger] all[k]).contains(r),
        decreases j + 1 - i,
    {
        assert(all[i as int] == xs@[i as int]@);
        if has_reg(&reads(&xs[i]), r) {
            return true;
        }
        i += 1;
    }
    false
}

fn read_in_loop(xs: &Vec<Instr>, r: Reg) -> (b: bool)
    ensures
        b == nara_plan::read_in_loop(model::all(xs@), r),
{
    let ghost all = model::all(xs@);
    let mut h: usize = 0;
    while h < xs.len()
        invariant
            h <= xs@.len(),
            all == model::all(xs@),
            forall|a: int, z: int|
                #![trigger nara_plan::loops_back(all, a, z)]
                a < h && nara_plan::loops_back(all, a, z) ==> !(nara_plan::defined_before(all, r, a)
                    && nara_plan::read_between(all, r, a, z)),
        decreases xs@.len() - h,
    {
        assert(all[h as int] == xs@[h as int]@);
        let label: Option<u32> = match &xs[h] {
            Instr::Label { id, .. } => Some(*id),
            _ => None,
        };
        if label.is_some() && defined_before(xs, r, h) {
            let mut j: usize = h;
            while j < xs.len()
                invariant
                    h <= j <= xs@.len(),
                    h < xs@.len(),
                    all == model::all(xs@),
                    label is Some,
                    all[h as int] matches lir::InstrView::Label { id, .. } && label == Some(id),
                    nara_plan::defined_before(all, r, h as int),
                    forall|z: int|
                        #![trigger nara_plan::loops_back(all, h as int, z)]
                        z < j && nara_plan::loops_back(all, h as int, z)
                            ==> !nara_plan::read_between(all, r, h as int, z),
                decreases xs@.len() - j,
            {
                assert(all[j as int] == xs@[j as int]@);
                let back = match (jump_target(&xs[j]), label) {
                    (Some(t), Some(id)) => t == id,
                    _ => false,
                };
                assert(back == nara_plan::loops_back(all, h as int, j as int));
                if back && read_between(xs, r, h, j) {
                    return true;
                }
                j += 1;
            }
        }
        h += 1;
    }
    false
}

fn lifetimes(xs: &Vec<Instr>) -> (r: Table<Reg, usize>)
    ensures
        r@ == nara_plan::lifetimes(model::all(xs@)),
{
    let ghost all = model::all(xs@);
    let last = last_uses(xs);
    let keys = last.keys();
    let mut m: Table<Reg, usize> = Table::new();
    let mut i: usize = 0;
    while i < keys.len()
        invariant
            i <= keys@.len(),
            all == model::all(xs@),
            last@ == nara_plan::last_uses(all),
            forall|k: Reg|
                last@.dom().contains(k) <==> exists|n: int|
                    0 <= n < keys@.len() && (#[trigger] keys@[n])@ == k,
            forall|n: int| 0 <= n < i ==> m@.dom().contains((#[trigger] keys@[n])@),
            forall|k: Reg| #[trigger]
                m@.dom().contains(k) ==> last@.dom().contains(k) && m@[k]
                    == nara_plan::lifetimes(all)[k],
        decreases keys@.len() - i,
    {
        let r = *keys[i];
        assert(keys@[i as int]@ == r);
        assert(last@.dom().contains(r));
        let n: usize = match last.get(&r) {
            Some(n) => *n,
            None => 0,
        };
        let until: usize = if is_home(xs, r) || read_in_loop(xs, r) {
            xs.len()
        } else {
            n
        };
        m.insert(r, until);
        i += 1;
    }
    assert(m@ =~= nara_plan::lifetimes(all));
    m
}

/// The constants that the functions of a program refer to.
struct PoolTables {
    module_idx: usize,
    entry_name_idx: usize,
    print_fn_idx: usize,
    print_u64_fn_idx: usize,
    fn_consts: Table<String, usize>,
    fn_names: Table<String, usize>,
    native_consts: Table<String, usize>,
}

impl PoolTables {
    spec fn st(&self) -> Pool {
        Pool {
            module_idx: self.module_idx,
            entry_name_idx: self.entry_name_idx,
            print_fn_idx: self.print_fn_idx,
            print_u64_fn_idx: self.print_u64_fn_idx,
            fn_consts: self.fn_consts@,
            fn_names: self.fn_names@,
            native_consts: self.native_consts@,
        }
    }

    fn pool_function(&mut self, e: &mut NaraEmit, name: &String)
        ensures
            (final(self).st(), final(e).st()) == nara_plan::pool_function(
                old(self).st(),
                old(e).st(),
                name@,
            ),
    {
        if str_eq(name.as_str(), "<global>") || self.fn_consts.contains(name) {
            return ;
        }
        if str_eq(name.as_str(), "main") {
            match e.add_function(self.module_idx, self.entry_name_idx) {
                Some(idx) => self.fn_consts.insert(name.clone(), idx),
                None => {},
            }
            return ;
        }
        match e.add_string(name.as_str().as_bytes(), Span::empty(0)) {
            None => {},
            Some(name_idx) => match e.add_function(self.module_idx, name_idx) {
                Some(idx) => {
                    self.fn_consts.insert(name.clone(), idx);
                    self.fn_names.insert(name.clone(), name_idx);
                },
                None => {},
            },
        }
    }

    fn pool_functions(&mut self, e: &mut NaraEmit, fs: &Vec<Function>)
        ensures
            (final(self).st(), final(e).st()) == nara_plan::pool_functions(
                old(self).st(),
                old(e).st(),
                model::all(fs@),
            ),
    {
        let ghost all = model::all(fs@);
        let mut i: usize = 0;
        assert(all.take(0).len() == 0);
        while i < fs.len()
            invariant
                i <= fs@.len(),
                all == model::all(fs@),
                (self.st(), e.st()) == nara_plan::pool_functions(
                    old(self).st(),
                    old(e).st(),
                    all.take(i as int),
                ),
            decreases fs@.len() - i,
        {
            assert(all.take(i + 1).drop_last() =~= all.take(i as int));
            assert(all.take(i + 1).last() == all[i as int]);
            self.pool_function(e, &fs[i].name);
            i += 1;
        }
        assert(all.take(all.len() as int) =~= all);
    }

    fn pool_native(&mut self, e: &mut NaraEmit, f: &FuncSymbol)
        ensures
            (final(self).st(), final(e).st()) == nara_plan::pool_native(
                old(self).st(),
                old(e).st(),
                f@,
            ),
    {
        let name = native_name(f);
        if self.native_consts.contains(&name) {
            return ;
        }
        let module = native_module(f);
        match e.add_string(module.as_str().as_bytes(), Span::empty(0)) {
            None => {},
            Some(module_idx) => match e.add_string(
                f.function.as_str().as_bytes(),
                Span::empty(0),
            ) {
                None => {},
                Some(name_idx) => match e.add_function(module_idx, name_idx) {
                    None => {},
                    Some(idx) => self.native_consts.insert(name, idx),
                },
            },
        }
    }

    fn pool_called(
        &mut self,
        e: &mut NaraEmit,
        natives: &Vec<ModuleSpec>,
        fs: &Vec<Function>,
        xs: &Vec<Instr>,
    )
        requires
            model::all(natives@) == codegen::target_catalog(),
        ensures
            (final(self).st(), final(e).st()) == nara_plan::pool_called(
                old(self).st(),
                old(e).st(),
                model::all(fs@),
                model::all(xs@),
            ),
    {
        let ghost all = model::all(xs@);
        let mut i: usize = 0;
        assert(all.take(0).len() == 0);
        while i < xs.len()
            invariant
                i <= xs@.len(),
                all == model::all(xs@),
                model::all(natives@) == codegen::target_catalog(),
                (self.st(), e.st()) == nara_plan::pool_called(
                    old(self).st(),
                    old(e).st(),
                    model::all(fs@),
                    all.take(i as int),
                ),
            decreases xs@.len() - i,
        {
            assert(all.take(i + 1).drop_last() =~= all.take(i as int));
            assert(all.take(i + 1).last() == all[i as int]);
            match native_called(natives, fs, &xs[i]) {
                Some(f) => self.pool_native(e, f),
                None => {},
            }
            i += 1;
        }
        assert(all.take(all.len() as int) =~= all);
    }

    fn pool_natives(&mut self, e: &mut NaraEmit, natives: &Vec<ModuleSpec>, fs: &Vec<Function>)
        requires
            model::all(natives@) == codegen::target_catalog(),
        ensures
            (final(self).st(), final(e).st()) == nara_plan::pool_natives(
                old(self).st(),
                old(e).st(),
                model::all(fs@),
                model::all(fs@),
            ),
    {
        let ghost all = model::all(fs@);
        let mut i: usize = 0;
        assert(all.take(0).len() == 0);
        while i < fs.len()
            invariant
                i <= fs@.len(),
                all == model::all(fs@),
                model::all(natives@) == codegen::target_catalog(),
                (self.st(), e.st()) == nara_plan::pool_natives(
                    old(self).st(),
                    old(e).st(),
                    all,
                    all.take(i as int),
                ),
            decreases fs@.len() - i,
        {
            assert(all.take(i + 1).drop_last() =~= all.take(i as int));
            assert(all.take(i + 1).last() == all[i as int]);
            if !str_eq(fs[i].name.as_str(), "<global>") {
                self.pool_called(e, natives, fs, &fs[i].instrs);
            }
            i += 1;
        }
        assert(all.take(all.len() as int) =~= all);
    }

    fn file_name(&self, name: &String) -> (r: usize)
        ensures
            r == nara_plan::file_name(self.st(), name@),
    {
        if str_eq(name.as_str(), "main") {
            return self.entry_name_idx;
        }
        match self.fn_names.get(name) {
            Some(idx) => *idx,
            None => self.entry_name_idx,
        }
    }
}

fn constant_of(m: &Table<String, usize>, name: &String) -> (r: Option<usize>)
    ensures
        r == nara_plan::entry(m@, name@),
{
    match m.get(name) {
        Some(idx) => Some(*idx),
        None => None,
    }
}

fn or_zero(i: Option<usize>) -> (r: usize)
    ensures
        r == nara_plan::or_zero(i),
{
    match i {
        Some(i) => i,
        None => 0,
    }
}

fn base_pool(module: &str) -> (r: (PoolTables, NaraEmit))
    ensures
        (r.0.st(), r.1.st()) == nara_plan::base_pool(module@),
{
    let at = Span::empty(0);
    let mut e = NaraEmit::new();
    let module_idx = e.add_string(module.as_bytes(), at);
    let entry: Vec<u8> = vec![60, 101, 110, 116, 114, 121, 112, 111, 105, 110, 116, 62];
    assert(entry@ =~= nara_plan::entry_name());
    let entry_idx = e.add_string(entry.as_slice(), at);
    let std_name: Vec<u8> = vec![115, 116, 100];
    assert(std_name@ =~= seq![115u8, 116u8, 100u8]);
    let std_idx = e.add_string(std_name.as_slice(), at);
    let print: Vec<u8> = vec![112, 114, 105, 110, 116];
    assert(print@ =~= nara_plan::print_name());
    let print_idx = e.add_string(print.as_slice(), at);
    let print_u64: Vec<u8> = vec![112, 114, 105, 110, 116, 95, 117, 54, 52];
    assert(print_u64@ =~= nara_plan::print_name() + seq![95u8, 117u8, 54u8, 52u8]);
    let print_u64_idx = e.add_string(print_u64.as_slice(), at);
    let print_fn_idx: usize = e.constants.len();
    e.constants.push(
        NaraConstant::Function { module: or_zero(std_idx), function: or_zero(print_idx) },
    );
    let print_u64_fn_idx: usize = e.constants.len();
    e.constants.push(
        NaraConstant::Function { module: or_zero(std_idx), function: or_zero(print_u64_idx) },
    );
    let p = PoolTables {
        module_idx: or_zero(module_idx),
        entry_name_idx: or_zero(entry_idx),
        print_fn_idx,
        print_u64_fn_idx,
        fn_consts: Table::new(),
        fn_names: Table::new(),
        native_consts: Table::new(),
    };
    (p, e)
}

/// A function of the file: the constant of its name, and its code.
struct FileFunction {
    name: usize,
    code: Vec<u8>,
}

impl View for FileFunction {
    type V = (usize, Seq<u8>);

    closed spec fn view(&self) -> (usize, Seq<u8>) {
        (self.name, self.code@)
    }
}

fn emit_functions(
    p: &PoolTables,
    e: &mut NaraEmit,
    natives: &Vec<ModuleSpec>,
    fs: &Vec<Function>,
) -> (r: Vec<FileFunction>)
    requires
        model::all(natives@) == codegen::target_catalog(),
    ensures
        (model::all(r@), final(e).st()) == nara_plan::emit_functions(
            p.st(),
            old(e).st(),
            model::all(fs@),
            model::all(fs@),
        ),
{
    let ghost all = model::all(fs@);
    let mut out: Vec<FileFunction> = Vec::new();
    let mut i: usize = 0;
    assert(all.take(0).len() == 0);
    while i < fs.len()
        invariant
            i <= fs@.len(),
            all == model::all(fs@),
            model::all(natives@) == codegen::target_catalog(),
            (model::all(out@), e.st()) == nara_plan::emit_functions(
                p.st(),
                old(e).st(),
                all,
                all.take(i as int),
            ),
        decreases fs@.len() - i,
    {
        assert(all.take(i + 1).drop_last() =~= all.take(i as int));
        assert(all.take(i + 1).last() == all[i as int]);
        let name = fs[i].name.as_str();
        if !e.has_error() && !str_eq(name, "<global>") {
            let x = Ctx {
                func: &fs[i],
                functions: fs,
                fn_consts: &p.fn_consts,
                native_consts: &p.native_consts,
                natives,
                print_fn_idx: p.print_fn_idx,
                print_u64_fn_idx: p.print_u64_fn_idx,
                is_main: str_eq(name, "main"),
            };
            assert(x.st() == nara_plan::context_for(p.st(), all, all[i as int]));
            e.emit_function(&x);
            if !e.has_error() {
                out.push(
                    FileFunction {
                        name: p.file_name(&fs[i].name),
                        code: clone_bytes(&e.bytecode),
                    },
                );
            }
        }
        i += 1;
    }
    assert(all.take(all.len() as int) =~= all);
    out
}

// ---------------------------------------------------------------------------
// The file
// ---------------------------------------------------------------------------

fn put_u16(out: &mut Vec<u8>, n: u16)
    ensures
        final(out)@ == old(out)@ + nara_plan::two_bytes(n),
{
    let ghost start = out@;
    out.push((n / 256) as u8);
    out.push((n % 256) as u8);
    assert(out@ =~= start + nara_plan::two_bytes(n));
}

fn put_u32(out: &mut Vec<u8>, n: u32)
    ensures
        final(out)@ == old(out)@ + nara_plan::four_bytes(n),
{
    reveal(nara_plan::four_bytes);
    let ghost start = out@;
    out.push((n / 0x100_0000) as u8);
    out.push((n / 0x1_0000 % 256) as u8);
    out.push((n / 0x100 % 256) as u8);
    out.push((n % 256) as u8);
    assert(out@ =~= start + nara_plan::four_bytes(n));
}

fn put_u64(out: &mut Vec<u8>, n: u64)
    ensures
        final(out)@ == old(out)@ + nara_plan::eight_bytes(n),
{
    let ghost start = out@;
    put_u32(out, (n / 0x1_0000_0000) as u32);
    put_u32(out, (n % 0x1_0000_0000) as u32);
    assert(out@ =~= start + nara_plan::eight_bytes(n));
}

fn put_index(out: &mut Vec<u8>, n: usize)
    ensures
        final(out)@ == old(out)@ + nara_plan::index_bytes(n as nat),
{
    let w: u64 = n as u64;
    put_u32(out, (w % 0x1_0000_0000) as u32);
}

fn pad4(out: &mut Vec<u8>)
    ensures
        final(out)@ == nara_plan::aligned(old(out)@),
{
    let ghost start = out@;
    let ghost mut k: nat = 0;
    while out.len() % 4 != 0
        invariant
            k <= 3,
            out@ =~= start + Seq::new(k, |i: int| 0xffu8),
            k <= (4 - start.len() % 4) % 4,
            k > 0 ==> start.len() % 4 != 0,
        decreases 4 - k,
    {
        out.push(0xff);
        proof {
            k = k + 1;
        }
    }
    assert(out@ =~= nara_plan::aligned(start));
}

fn put_words(out: &mut Vec<u8>, vs: &Vec<u64>)
    ensures
        final(out)@ == old(out)@ + nara_plan::words_bytes(vs@),
{
    let ghost start = out@;
    let mut i: usize = 0;
    assert(vs@.take(0).len() == 0);
    assert(start + Seq::<u8>::empty() =~= start);
    while i < vs.len()
        invariant
            i <= vs@.len(),
            out@ == start + nara_plan::words_bytes(vs@.take(i as int)),
        decreases vs@.len() - i,
    {
        assert(vs@.take(i + 1).drop_last() =~= vs@.take(i as int));
        assert(vs@.take(i + 1).last() == vs@[i as int]);
        put_u64(out, vs[i]);
        assert(out@ =~= start + nara_plan::words_bytes(vs@.take(i + 1)));
        i += 1;
    }
    assert(vs@.take(vs@.len() as int) =~= vs@);
}

fn put_tags(out: &mut Vec<u8>, cs: &Vec<NaraConstant>)
    ensures
        final(out)@ == old(out)@ + nara_plan::constant_tags(cs@),
{
    let ghost start = out@;
    let mut i: usize = 0;
    while i < cs.len()
        invariant
            i <= cs@.len(),
            out@ =~= start + nara_plan::constant_tags(cs@).take(i as int),
        decreases cs@.len() - i,
    {
        out.push(
            match cs[i] {
                NaraConstant::Value { .. } => 1,
                NaraConstant::String { .. } => 2,
                NaraConstant::Function { .. } => 3,
            },
        );
        i += 1;
    }
    assert(nara_plan::constant_tags(cs@).take(cs@.len() as int) =~= nara_plan::constant_tags(cs@));
}

fn put_constants(out: &mut Vec<u8>, cs: &Vec<NaraConstant>)
    ensures
        final(out)@ == old(out)@ + nara_plan::constants_bytes(cs@),
{
    let ghost start = out@;
    let mut i: usize = 0;
    assert(cs@.take(0).len() == 0);
    assert(start + Seq::<u8>::empty() =~= start);
    while i < cs.len()
        invariant
            i <= cs@.len(),
            out@ == start + nara_plan::constants_bytes(cs@.take(i as int)),
        decreases cs@.len() - i,
    {
        assert(cs@.take(i + 1).drop_last() =~= cs@.take(i as int));
        assert(cs@.take(i + 1).last() == cs@[i as int]);
        match cs[i] {
            NaraConstant::Value { value_idx } => put_index(out, value_idx),
            NaraConstant::String { offset, len } => {
                put_index(out, offset);
                put_index(out, len);
            },
            NaraConstant::Function { module, function } => {
                put_index(out, module);
                put_index(out, function);
            },
        }
        assert(out@ =~= start + nara_plan::constants_bytes(cs@.take(i + 1)));
        i += 1;
    }
    assert(cs@.take(cs@.len() as int) =~= cs@);
}

fn put_functions(out: &mut Vec<u8>, fs: &Vec<FileFunction>)
    ensures
        final(out)@ == nara_plan::with_functions(old(out)@, model::all(fs@)),
{
    let ghost all = model::all(fs@);
    let mut i: usize = 0;
    assert(all.take(0).len() == 0);
    while i < fs.len()
        invariant
            i <= fs@.len(),
            all == model::all(fs@),
            out@ == nara_plan::with_functions(old(out)@, all.take(i as int)),
        decreases fs@.len() - i,
    {
        assert(all.take(i + 1).drop_last() =~= all.take(i as int));
        assert(all.take(i + 1).last() == all[i as int]);
        put_index(out, fs[i].name);
        put_index(out, fs[i].code.len());
        append(out, fs[i].code.as_slice());
        pad4(out);
        i += 1;
    }
    assert(all.take(all.len() as int) =~= all);
}

fn serialize(e: &NaraEmit, fs: &Vec<FileFunction>, module_idx: usize) -> (r: Vec<u8>)
    ensures
        r@ == nara_plan::file_bytes(e.st(), model::all(fs@), module_idx),
{
    let mut out: Vec<u8> = vec![110, 97, 114, 97];
    assert(out@ =~= seq![110u8, 97u8, 114u8, 97u8]);
    put_u16(&mut out, 0);
    put_u16(&mut out, 2);
    put_index(&mut out, module_idx);
    put_index(&mut out, e.values.len());
    put_words(&mut out, &e.values);
    put_index(&mut out, e.blob.len());
    append(&mut out, e.blob.as_slice());
    pad4(&mut out);
    put_index(&mut out, e.constants.len());
    put_tags(&mut out, &e.constants);
    pad4(&mut out);
    put_constants(&mut out, &e.constants);
    put_index(&mut out, fs.len());
    put_functions(&mut out, fs);
    out
}

fn vmfile(prog: &LirProgram) -> (r: Result<Vec<u8>, Vec<Diagnostic>>)
    ensures
        match r {
            Ok(bytes) => nara_plan::program_file(prog@) == Ok::<Seq<u8>, Seq<DiagnosticView>>(bytes@),
            Err(diags) => nara_plan::program_file(prog@) == Err::<Seq<u8>, Seq<DiagnosticView>>(
                model::all(diags@),
            ),
        },
{
    let (mut p, mut e) = base_pool(prog.module.as_str());
    let natives = codegen::modules();
    p.pool_functions(&mut e, &prog.functions);
    p.pool_natives(&mut e, &natives, &prog.functions);
    if e.has_error() {
        return Err(e.diags);
    }
    let out = emit_functions(&p, &mut e, &natives, &prog.functions);
    if e.has_error() {
        return Err(e.diags);
    }
    Ok(serialize(&e, &out, p.module_idx))
}

/// The NaraVM target.
pub struct NaraVmTarget;

/// What the target makes of a program, and what it reports. A program without
/// `main` is a library: whether there is an entry point is for the loader to say.
pub open spec fn nara_emitted(p: LirProgramView) -> (Option<ArtifactView>, Seq<DiagnosticView>) {
    match nara_plan::program_file(p) {
        Ok(bytes) => (
            Some(ArtifactView { target: "naravm"@, text: Seq::empty(), bytes: Some(bytes) }),
            Seq::empty(),
        ),
        Err(diags) => (None, diags),
    }
}

impl Target for NaraVmTarget {
    open spec fn title(&self) -> Seq<char> {
        "naravm"@
    }

    open spec fn emitted(&self, p: LirProgramView) -> (Option<ArtifactView>, Seq<DiagnosticView>) {
        nara_emitted(p)
    }

    fn name(&self) -> (r: &'static str) {
        "naravm"
    }

    fn emit(&self, prog: &LirProgram) -> (r: (Option<Artifact>, Vec<Diagnostic>)) {
        match vmfile(prog) {
            Ok(bytes) => {
                let artifact = Artifact {
                    target: owned("naravm"),
                    text: String::new(),
                    bytes: Some(bytes),
                };
                assert(artifact@.text =~= Seq::empty());
                (Some(artifact), Vec::new())
            },
            Err(diags) => (None, diags),
        }
    }
}

} // verus!
