//! What holds of the code for NaraVM when it runs: it computes the values of the
//! instructions it is for, arguments arrive in the registers of parameters, saved
//! registers come back, and variables keep their homes.

use vstd::prelude::*;

use crate::ast::Scalar;
use crate::lir::{FuncSymbolView, InstrView, LirOp, Reg};
use crate::meaning::{Value, World};
use crate::nara_plan;
use crate::nara_plan::{Emission, FnContext, NaraConstant, NaraKind, Spill};
use crate::span::Span;
use crate::meaning;

verus! {

// ---------------------------------------------------------------------------
// The machine
// ---------------------------------------------------------------------------

/// What the machine holds: the words in its registers, its two stacks, the words of
/// its constants, what references stand for, and its arithmetic of doubles.
pub struct Machine {
    pub regs: spec_fn(Spill) -> int,
    pub values: Seq<int>,
    pub references: Seq<int>,
    pub constants: spec_fn(u8) -> int,
    pub objects: spec_fn(int) -> Value,
    pub doubles: World,
}

/// The machine with a word in a register.
pub open spec fn set(m: Machine, r: Spill, w: int) -> Machine {
    Machine {
        regs: |q: Spill|
            if q == r {
                w
            } else {
                (m.regs)(q)
            },
        ..m
    }
}

/// The number of words.
pub open spec fn word_count() -> int {
    0x1_0000_0000_0000_0000
}

/// The number that a word is, with its first bit as a sign.
pub open spec fn signed(w: int) -> int {
    if w < 0x8000_0000_0000_0000 {
        w
    } else {
        w - word_count()
    }
}

/// What an operation reads in a register: a word, a signed word or a double.
pub open spec fn operand(column: int, w: int) -> Value {
    if column == 0 {
        Value::Num(w)
    } else if column == 1 {
        Value::Num(signed(w))
    } else {
        Value::Float(w as u64)
    }
}

/// The word of an arithmetic operation on two words. The operations stand in rows
/// of three, for words, signed words and doubles: `+`, `-`, `*` and `/`.
pub open spec fn computed(m: Machine, op: u8, a: int, b: int) -> int {
    let row = (op - 0x30) / 3;
    let column = (op - 0x30) % 3;
    let (x, y) = (operand(column, a), operand(column, b));
    let v = if row == 0 {
        meaning::sum(m.doubles, x, y)
    } else if row == 1 {
        meaning::difference(m.doubles, x, y)
    } else if row == 2 {
        meaning::product(m.doubles, x, y)
    } else {
        meaning::quotient(m.doubles, x, y)
    };
    match v {
        Some(Value::Num(n)) => n % word_count(),
        Some(Value::Float(bits)) => bits as int,
        _ => 0,
    }
}

/// One for true, and zero for false.
pub open spec fn bit(b: bool) -> int {
    if b {
        1
    } else {
        0
    }
}

/// The length of an instruction.
pub open spec fn size(op: u8) -> int {
    if op == 0x02 || op == 0x03 || op == 0x04 || op == 0x05 {
        3
    } else if op <= 0x09 {
        2
    } else {
        4
    }
}

/// Whether an operation is one of those on two value registers: `==`, `<`, exclusive
/// or, and arithmetic.
pub open spec fn is_binary(op: u8) -> bool {
    op == 0x0a || op == 0x10 || op == 0x12 || 0x30 <= op < 0x3c
}

/// Whether code starts with an instruction that loads a constant, moves, pushes or
/// pops a register, or computes.
pub open spec fn starts_known(code: Seq<u8>) -> bool {
    code.len() > 0 && (0x02 <= code[0] <= 0x09 || is_binary(code[0])) && code.len() >= size(code[0])
}

/// The word that an operation makes of those in two value registers.
pub open spec fn combined(m: Machine, op: u8, a: int, b: int) -> int {
    if op == 0x0a {
        bit(a == b)
    } else if op == 0x10 {
        bit(a < b)
    } else if op == 0x12 {
        ((a as u64) ^ (b as u64)) as int
    } else {
        computed(m, op, a, b)
    }
}

/// The machine behind the first instruction of code.
pub open spec fn step(code: Seq<u8>, m: Machine) -> Machine {
    if code[0] == 0x02 {
        set(m, Spill::V(code[1]), (m.constants)(code[2]))
    } else if code[0] == 0x03 {
        set(m, Spill::F(code[1]), (m.constants)(code[2]))
    } else if is_binary(code[0]) {
        set(
            m,
            Spill::V(code[1]),
            combined(m, code[0], (m.regs)(Spill::V(code[2])), (m.regs)(Spill::V(code[3]))),
        )
    } else if code[0] == 0x04 {
        set(m, Spill::V(code[1]), (m.regs)(Spill::V(code[2])))
    } else if code[0] == 0x05 {
        set(m, Spill::F(code[1]), (m.regs)(Spill::F(code[2])))
    } else if code[0] == 0x06 {
        Machine { values: m.values.push((m.regs)(Spill::V(code[1]))), ..m }
    } else if code[0] == 0x07 {
        Machine { values: m.values.drop_last(), ..set(m, Spill::V(code[1]), m.values.last()) }
    } else if code[0] == 0x08 {
        Machine { references: m.references.push((m.regs)(Spill::F(code[1]))), ..m }
    } else {
        Machine {
            references: m.references.drop_last(),
            ..set(m, Spill::F(code[1]), m.references.last())
        }
    }
}

/// The machine behind code without jumps and calls.
pub open spec fn run(code: Seq<u8>, m: Machine) -> Machine
    decreases code.len(),
{
    if starts_known(code) {
        run(code.skip(size(code[0])), step(code, m))
    } else {
        m
    }
}

/// Whether code holds no jump and no call.
pub open spec fn known(code: Seq<u8>) -> bool
    decreases code.len(),
{
    code.len() == 0 || (starts_known(code) && known(code.skip(size(code[0]))))
}

proof fn run_appended(a: Seq<u8>, b: Seq<u8>, m: Machine)
    requires
        known(a),
    ensures
        run(a + b, m) == run(b, run(a, m)),
        known(b) ==> known(a + b),
    decreases a.len(),
{
    if a.len() == 0 {
        assert(a + b =~= b);
    } else {
        let n = size(a[0]);
        assert((a + b).skip(n) =~= a.skip(n) + b);
        run_appended(a.skip(n), b, step(a, m));
    }
}

proof fn one_step(code: Seq<u8>, m: Machine)
    requires
        starts_known(code),
        code.len() == size(code[0]),
    ensures
        known(code),
        run(code, m) == step(code, m),
{
    let rest = code.skip(size(code[0]));
    assert(rest.len() == 0);
    assert(run(rest, step(code, m)) == step(code, m));
    assert(known(rest));
}

/// The words in value registers, or in reference registers, among those given.
pub open spec fn words(ss: Seq<Spill>, reference: bool, m: Machine) -> Seq<int>
    decreases ss.len(),
{
    if ss.len() == 0 {
        Seq::empty()
    } else if (ss.last() is F) == reference {
        words(ss.drop_last(), reference, m).push((m.regs)(ss.last()))
    } else {
        words(ss.drop_last(), reference, m)
    }
}

proof fn pushing(ss: Seq<Spill>, m: Machine)
    ensures
        known(nara_plan::push_all(ss)),
        run(nara_plan::push_all(ss), m).regs == m.regs,
        run(nara_plan::push_all(ss), m).values == m.values + words(ss, false, m),
        run(nara_plan::push_all(ss), m).references == m.references + words(ss, true, m),
    decreases ss.len(),
{
    if ss.len() == 0 {
        assert(m.values + Seq::<int>::empty() =~= m.values);
        assert(m.references + Seq::<int>::empty() =~= m.references);
    } else {
        let front = ss.drop_last();
        let a = nara_plan::push_all(front);
        let b = nara_plan::push_code(ss.last());
        pushing(front, m);
        let t = run(a, m);
        one_step(b, t);
        run_appended(a, b, m);
        assert(run(a + b, m).values =~= m.values + words(ss, false, m));
        assert(run(a + b, m).references =~= m.references + words(ss, true, m));
    }
}

/// Popping what was pushed from other registers moves the words over.
proof fn popping(to: Seq<Spill>, from: Seq<Spill>, values: Seq<int>, references: Seq<int>, m: Machine, t: Machine)
    requires
        to.len() == from.len(),
        to.no_duplicates(),
        forall|i: int| 0 <= i < to.len() ==> ((#[trigger] to[i]) is F) == (from[i] is F),
        t.values == values + words(from, false, m),
        t.references == references + words(from, true, m),
    ensures
        known(nara_plan::pop_all(to)),
        run(nara_plan::pop_all(to), t).values == values,
        run(nara_plan::pop_all(to), t).references == references,
        forall|i: int|
            0 <= i < to.len() ==> (run(nara_plan::pop_all(to), t).regs)(#[trigger] to[i]) == (m.regs)(
                from[i],
            ),
        forall|q: Spill|
            !to.contains(q) ==> #[trigger] (run(nara_plan::pop_all(to), t).regs)(q) == (t.regs)(q),
    decreases to.len(),
{
    if to.len() == 0 {
        assert(values + Seq::<int>::empty() =~= values);
        assert(references + Seq::<int>::empty() =~= references);
    } else {
        let n = to.len() - 1;
        let (a, b) = (nara_plan::pop_code(to.last()), nara_plan::pop_all(to.drop_last()));
        assert(to[n] is F == (from[n] is F));
        one_step(a, t);
        let u = run(a, t);
        assert(u.values =~= values + words(from.drop_last(), false, m));
        assert(u.references =~= references + words(from.drop_last(), true, m));
        assert((u.regs)(to[n]) == (m.regs)(from[n]));
        let front = to.drop_last();
        assert forall|i: int| 0 <= i < front.len() implies ((#[trigger] front[i]) is F) == (
        from.drop_last()[i] is F) by {
            assert(front[i] == to[i]);
        }
        popping(front, from.drop_last(), values, references, m, u);
        run_appended(a, b, t);
        let r = run(a + b, t);
        assert(!front.contains(to[n]));
        assert forall|i: int| 0 <= i < to.len() implies (r.regs)(#[trigger] to[i]) == (m.regs)(
            from[i],
        ) by {
            if i < n {
                assert(front[i] == to[i]);
            }
        }
        assert forall|q: Spill| !to.contains(q) implies #[trigger] (r.regs)(q) == (t.regs)(q) by {
            assert(to.contains(to[n]));
            if front.contains(q) {
                let i = choose|i: int| 0 <= i < front.len() && front[i] == q;
                assert(to[i] == q);
            }
        }
    }
}

// ---------------------------------------------------------------------------
// Arguments
// ---------------------------------------------------------------------------

proof fn counts_grow(xs: Seq<(bool, u8)>, i: int, reference: bool)
    requires
        0 <= i <= xs.len(),
    ensures
        nara_plan::count_args(xs.take(i), reference) <= nara_plan::count_args(xs, reference),
    decreases xs.len() - i,
{
    if i == xs.len() {
        assert(xs.take(i) =~= xs);
    } else {
        counts_grow(xs, i + 1, reference);
        assert(xs.take(i + 1).drop_last() =~= xs.take(i));
    }
}

proof fn slots_differ(xs: Seq<(bool, u8)>, i: int, j: int)
    requires
        0 <= i < j < xs.len(),
        nara_plan::count_args(xs, false) <= 15,
        nara_plan::count_args(xs, true) <= 9,
    ensures
        nara_plan::slots(xs)[i] != nara_plan::slots(xs)[j],
{
    let kind = xs[i].0;
    let upto = xs.take(j);
    assert(upto.take(i + 1) =~= xs.take(i + 1));
    assert(xs.take(i + 1).drop_last() =~= xs.take(i));
    counts_grow(upto, i + 1, true);
    counts_grow(upto, i + 1, false);
    counts_grow(xs, j, true);
    counts_grow(xs, j, false);
}

proof fn slots_are_distinct(xs: Seq<(bool, u8)>)
    requires
        nara_plan::count_args(xs, false) <= 15,
        nara_plan::count_args(xs, true) <= 9,
    ensures
        nara_plan::slots(xs).no_duplicates(),
{
    let ss = nara_plan::slots(xs);
    assert forall|i: int, j: int| 0 <= i < ss.len() && 0 <= j < ss.len() && i != j implies ss[i]
        != ss[j] by {
        if i < j {
            slots_differ(xs, i, j);
        } else {
            slots_differ(xs, j, i);
        }
    }
}

proof fn moving(xs: Seq<(bool, u8)>, n: int, m: Machine)
    requires
        0 <= n <= xs.len(),
        nara_plan::count_args(xs, false) <= 15,
        nara_plan::count_args(xs, true) <= 9,
        !nara_plan::args_clash(xs),
    ensures
        known(nara_plan::move_args(xs.take(n))),
        run(nara_plan::move_args(xs.take(n)), m).values == m.values,
        run(nara_plan::move_args(xs.take(n)), m).references == m.references,
        forall|i: int|
            0 <= i < n ==> (run(nara_plan::move_args(xs.take(n)), m).regs)(
                #[trigger] nara_plan::slots(xs)[i],
            ) == (m.regs)(nara_plan::sources(xs)[i]),
        forall|q: Spill|
            (forall|i: int| 0 <= i < n ==> #[trigger] nara_plan::slots(xs)[i] != q) ==> #[trigger] (
            run(nara_plan::move_args(xs.take(n)), m).regs)(q) == (m.regs)(q),
    decreases n,
{
    let (ss, from) = (nara_plan::slots(xs), nara_plan::sources(xs));
    if n == 0 {
        assert(xs.take(0).len() == 0);
    } else {
        let k = n - 1;
        moving(xs, k, m);
        assert(xs.take(n).drop_last() =~= xs.take(k));
        assert(xs.take(n).last() == xs[k]);
        let a = nara_plan::move_args(xs.take(k));
        let b = if xs[k].0 {
            seq![0x05u8, (0x31 + nara_plan::count_args(xs.take(k), true)) as u8, xs[k].1]
        } else {
            seq![0x04u8, (0x11 + nara_plan::count_args(xs.take(k), false)) as u8, xs[k].1]
        };
        let t = run(a, m);
        one_step(b, t);
        run_appended(a, b, m);
        assert forall|i: int| 0 <= i < k implies #[trigger] ss[i] != from[k] by {}
        assert((t.regs)(from[k]) == (m.regs)(from[k]));
        let r = run(a + b, m);
        assert((r.regs)(ss[k]) == (m.regs)(from[k]));
        assert forall|i: int| 0 <= i < n implies (r.regs)(#[trigger] ss[i]) == (m.regs)(from[i]) by {
            if i < k {
                slots_differ(xs, i, k);
            }
        }
    }
}

/// Passing arguments puts the word of each into the register of its parameter,
/// and leaves the stacks as they were.
pub proof fn arguments_arrive(xs: Seq<(bool, u8)>, m: Machine, i: int)
    requires
        nara_plan::count_args(xs, false) <= 15,
        nara_plan::count_args(xs, true) <= 9,
        0 <= i < xs.len(),
    ensures
        ({
            let t = run(nara_plan::pass_args(xs), m);
            &&& (t.regs)(nara_plan::slots(xs)[i]) == (m.regs)(nara_plan::sources(xs)[i])
            &&& t.values == m.values
            &&& t.references == m.references
        }),
{
    let (ss, from) = (nara_plan::slots(xs), nara_plan::sources(xs));
    if nara_plan::args_clash(xs) {
        pushing(from, m);
        slots_are_distinct(xs);
        let t = run(nara_plan::push_all(from), m);
        popping(ss, from, m.values, m.references, m, t);
        run_appended(nara_plan::push_all(from), nara_plan::pop_all(ss), m);
    } else {
        moving(xs, xs.len() as int, m);
        assert(xs.take(xs.len() as int) =~= xs);
    }
}

/// Registers that are saved before a call hold their words again after it,
/// whatever the callee left in them, provided that it left the stacks as they
/// were.
pub proof fn saved_registers_come_back(saved: Seq<Spill>, m: Machine, t: Machine, i: int)
    requires
        saved.no_duplicates(),
        t.values == run(nara_plan::push_all(saved), m).values,
        t.references == run(nara_plan::push_all(saved), m).references,
        0 <= i < saved.len(),
    ensures
        ({
            let u = run(nara_plan::pop_all(saved), t);
            &&& (u.regs)(saved[i]) == (m.regs)(saved[i])
            &&& u.values == m.values
            &&& u.references == m.references
        }),
{
    pushing(saved, m);
    popping(saved, saved, m.values, m.references, m, t);
}

// ---------------------------------------------------------------------------
// Homes
// ---------------------------------------------------------------------------

/// Whether a virtual register that lives in a register lives there still.
pub open spec fn stays(e: Emission, t: Emission, r: Reg) -> bool {
    &&& t.last_use == e.last_use
    &&& e.rv_map.dom().contains(r) ==> t.rv_map.dom().contains(r) && t.rv_map[r] == e.rv_map[r]
    &&& e.rf_map.dom().contains(r) ==> t.rf_map.dom().contains(r) && t.rf_map[r] == e.rf_map[r]
}

proof fn loading_stays(e: Emission, bits: u64, span: Span, q: Reg)
    ensures
        stays(e, nara_plan::load_word(e, bits, span).1, q),
{
}

proof fn fixed_words_stay(e: Emission, span: Span, q: Reg)
    ensures
        stays(e, nara_plan::ensure_one(e, span).1, q),
        stays(e, nara_plan::ensure_bias(e, span).1, q),
{
    loading_stays(e, 1, span, q);
    loading_stays(e, 0x8000_0000_0000_0000, span, q);
}

proof fn negation_stays(e: Emission, dst: Reg, d: u8, negate: bool, span: Span, q: Reg)
    ensures
        stays(e, nara_plan::emit_negation(e, dst, d, negate, span), q),
{
    fixed_words_stay(e, span, q);
}

#[verifier::spinoff_prover]
#[verifier::rlimit(60)]
proof fn ordering_stays(
    e: Emission,
    dst: Reg,
    op: LirOp,
    kind: NaraKind,
    l: u8,
    r: u8,
    span: Span,
    q: Reg,
)
    requires
        q != dst,
    ensures
        stays(e, nara_plan::emit_ordering(e, dst, op, kind, l, r, span), q),
{
    reveal(nara_plan::emit_ordering);
    let swap = op is Gt || op is Le;
    let negate = op is Le || op is Ge;
    let a = if swap {
        r
    } else {
        l
    };
    let b = if swap {
        l
    } else {
        r
    };
    if !nara_plan::is_integer(kind) {
    } else if kind is I64 {
        fixed_words_stay(e, span, q);
        let (bias, e1) = nara_plan::ensure_bias(e, span);
        let (d, e2) = nara_plan::fresh_rv(e1, span);
        let (ta, e3) = nara_plan::fresh_rv(e2, span);
        let (tb, e4) = nara_plan::fresh_rv(e3, span);
        assert(stays(e, e2, q) && stays(e, e4, q));
        match (bias, d) {
            (Some(bias), Some(d)) => {
                match (ta, tb) {
                    (Some(ta), Some(tb)) => {
                        let e5 = nara_plan::with_kind(
                            nara_plan::in_rv(e4, dst, d),
                            dst,
                            NaraKind::Bool,
                        );
                        let e6 = nara_plan::coded(e5, seq![0x12u8, ta, a, bias]);
                        let e7 = nara_plan::coded(e6, seq![0x12u8, tb, b, bias]);
                        let e8 = nara_plan::coded(e7, seq![0x10u8, d, ta, tb]);
                        assert(stays(e, e8, q));
                        negation_stays(e8, dst, d, negate, span, q);
                    },
                    _ => {},
                }
            },
            _ => {},
        }
    } else {
        match nara_plan::new_rv(e, dst, span) {
            (Some(d), e9) => {
                let e10 = nara_plan::coded(
                    nara_plan::with_kind(e9, dst, NaraKind::Bool),
                    seq![0x10u8, d, a, b],
                );
                assert(stays(e, e10, q));
                negation_stays(e10, dst, d, negate, span, q);
            },
            _ => {},
        }
    }
}

proof fn binop_stays(e: Emission, dst: Reg, op: LirOp, lhs: Reg, rhs: Reg, span: Span, q: Reg)
    requires
        q != dst,
    ensures
        stays(e, nara_plan::emit_binop(e, dst, op, lhs, rhs, span), q),
{
    reveal(nara_plan::emit_binop);
    reveal(nara_plan::emit_op);
    let (l, e1) = nara_plan::value_reg(e, lhs, span);
    let (r, e2) = nara_plan::value_reg(e1, rhs, span);
    match (l, r, nara_plan::entry(e.kinds, lhs)) {
        (Some(l), Some(r), Some(kind)) => ordering_stays(e2, dst, op, kind, l, r, span, q),
        _ => {},
    }
}

#[verifier::spinoff_prover]
#[verifier::rlimit(60)]
proof fn call_stays(
    x: FnContext,
    e: Emission,
    dst: Reg,
    callee: Seq<char>,
    symbol: FuncSymbolView,
    args: Seq<Reg>,
    span: Span,
    q: Reg,
)
    requires
        q != dst,
    ensures
        stays(e, nara_plan::emit_any_call(x, e, dst, callee, symbol, args, span), q),
{
    reveal(nara_plan::emit_any_call);
}

proof fn loads_stay(e: Emission, dst: Reg, value: Scalar, bytes: Seq<u8>, span: Span, q: Reg)
    requires
        q != dst,
    ensures
        stays(e, nara_plan::emit_const(e, dst, value, span), q),
        stays(e, nara_plan::emit_string(e, dst, bytes, span), q),
{
    reveal(nara_plan::emit_const);
    reveal(nara_plan::emit_string);
    loading_stays(e, nara_plan::scalar_bits(value), span, q);
}

proof fn params_stay(x: FnContext, e: Emission, dst: Reg, index: usize, span: Span, q: Reg)
    requires
        q != dst,
    ensures
        stays(e, nara_plan::emit_param(x, e, dst, index, span), q),
{
    reveal(nara_plan::emit_param);
}

proof fn copies_stay(e: Emission, dst: Reg, src: Reg, span: Span, q: Reg)
    ensures
        stays(e, nara_plan::emit_copy(e, dst, src, span), q),
{
    reveal(nara_plan::emit_copy);
}

proof fn nots_stay(e: Emission, dst: Reg, src: Reg, span: Span, q: Reg)
    requires
        q != dst,
    ensures
        stays(e, nara_plan::emit_not(e, dst, src, span), q),
{
    reveal(nara_plan::emit_not);
    fixed_words_stay(e, span, q);
}

proof fn rets_stay(x: FnContext, e: Emission, src: Reg, span: Span, q: Reg)
    ensures
        stays(e, nara_plan::emit_ret(x, e, src, span), q),
{
    reveal(nara_plan::emit_ret);
}

proof fn instr_stays(x: FnContext, e: Emission, ins: InstrView, q: Reg)
    requires
        nara_plan::defines(ins) == Some(q) ==> ins is Copy,
    ensures
        stays(e, nara_plan::emit_instr(x, e, ins), q),
{
    match ins {
        InstrView::Const { dst, value, span } => loads_stay(
            e,
            dst,
            value,
            Seq::empty(),
            span,
            q,
        ),
        InstrView::StringConst { dst, value, span } => loads_stay(
            e,
            dst,
            Scalar::Bool(true),
            value,
            span,
            q,
        ),
        InstrView::Param { dst, index, span } => params_stay(x, e, dst, index, span, q),
        InstrView::Copy { dst, src, span } => copies_stay(e, dst, src, span, q),
        InstrView::Not { dst, src, span } => nots_stay(e, dst, src, span, q),
        InstrView::BinOp { dst, op, lhs, rhs, span } => binop_stays(e, dst, op, lhs, rhs, span, q),
        InstrView::Call { dst, callee, symbol, args, span } => call_stays(
            x,
            e,
            dst,
            callee,
            symbol,
            args,
            span,
            q,
        ),
        InstrView::Ret { src, span } => rets_stay(x, e, src, span, q),
        _ => {},
    }
}

proof fn releasing_stays(e: Emission, rs: Seq<Reg>, at: usize, q: Reg)
    requires
        nara_plan::entry(e.last_use, q) != Some(at),
    ensures
        stays(e, nara_plan::release_all(e, rs, at), q),
    decreases rs.len(),
{
    if rs.len() > 0 {
        releasing_stays(e, rs.drop_last(), at, q);
    }
}

proof fn lifetimes_stay(x: FnContext, e: Emission, n: int)
    requires
        0 <= n <= x.func.instrs.len(),
    ensures
        nara_plan::emit_instrs(x, e, x.func.instrs.take(n)).last_use == e.last_use,
    decreases n,
{
    let xs = x.func.instrs;
    if n == 0 {
        assert(xs.take(0).len() == 0);
    } else {
        lifetimes_stay(x, e, n - 1);
        assert(xs.take(n).drop_last() =~= xs.take(n - 1));
        let e1 = nara_plan::emit_instrs(x, e, xs.take(n - 1));
        let ins = xs.take(n).last();
        keeps_lifetimes(x, e1, ins);
        releasing_keeps_lifetimes(
            nara_plan::emit_instr(x, e1, ins),
            nara_plan::reads(ins),
            (n - 1) as usize,
        );
    }
}

proof fn keeps_lifetimes(x: FnContext, e: Emission, ins: InstrView)
    ensures
        nara_plan::emit_instr(x, e, ins).last_use == e.last_use,
{
    let q = match nara_plan::defines(ins) {
        Some(Reg(n)) => Reg(if n == 0 {
            1
        } else {
            0
        }),
        None => Reg(0),
    };
    instr_stays(x, e, ins, q);
}

proof fn releasing_keeps_lifetimes(e: Emission, rs: Seq<Reg>, at: usize)
    ensures
        nara_plan::release_all(e, rs, at).last_use == e.last_use,
    decreases rs.len(),
{
    if rs.len() > 0 {
        releasing_keeps_lifetimes(e, rs.drop_last(), at);
    }
}

/// A variable keeps its home: a virtual register that a copy writes, or that is
/// read in a loop entered after it was written, lives in the same register from
/// one instruction to the next, unless the instruction gives it a new value by
/// other means than a copy.
pub proof fn homes_are_kept(x: FnContext, e: Emission, n: int, r: Reg)
    requires
        0 <= n < x.func.instrs.len() <= usize::MAX,
        nara_plan::outlives(x.func.instrs, r),
        nara_plan::defines(x.func.instrs[n]) == Some(r) ==> x.func.instrs[n] is Copy,
    ensures
        ({
            let s = nara_plan::for_function(e, nara_plan::lifetimes(x.func.instrs));
            stays(
                nara_plan::emit_instrs(x, s, x.func.instrs.take(n)),
                nara_plan::emit_instrs(x, s, x.func.instrs.take(n + 1)),
                r,
            )
        }),
{
    let xs = x.func.instrs;
    let s = nara_plan::for_function(e, nara_plan::lifetimes(xs));
    assert(xs.take(n + 1).drop_last() =~= xs.take(n));
    let e1 = nara_plan::emit_instrs(x, s, xs.take(n));
    lifetimes_stay(x, s, n);
    instr_stays(x, e1, xs[n], r);
    let e2 = nara_plan::emit_instr(x, e1, xs[n]);
    assert(nara_plan::entry(e2.last_use, r) != Some(n as usize));
    releasing_stays(e2, nara_plan::reads(xs[n]), n as usize, r);
}

// ---------------------------------------------------------------------------
// Values
// ---------------------------------------------------------------------------

/// The word of a value of a kind, where it has one.
pub open spec fn word_of(k: NaraKind, v: Value) -> Option<int> {
    match (k, v) {
        (NaraKind::U64, Value::Num(n)) => if 0 <= n < word_count() {
            Some(n)
        } else {
            None
        },
        (NaraKind::U8, Value::Num(n)) => if 0 <= n < 256 {
            Some(n)
        } else {
            None
        },
        (NaraKind::I64, Value::Num(n)) => if -0x8000_0000_0000_0000 <= n < 0x8000_0000_0000_0000 {
            Some(n % word_count())
        } else {
            None
        },
        (NaraKind::F64, Value::Float(bits)) => Some(bits as int),
        (NaraKind::Bool, Value::Bool(b)) => Some(bit(b)),
        _ => None,
    }
}

/// Whether the registers that hold fixed words hold them.
pub open spec fn fixed(e: Emission, m: Machine) -> bool {
    &&& e.one_rv matches Some(n) ==> (m.regs)(Spill::V(n)) == 1
    &&& e.bias_rv matches Some(n) ==> (m.regs)(Spill::V(n)) == 0x8000_0000_0000_0000
}

/// Whether the machine holds the values of virtual registers where they live.
pub open spec fn mirrors(e: Emission, m: Machine, regs: Map<Reg, Value>) -> bool {
    &&& forall|r: Reg| #[trigger]
        e.rv_map.dom().contains(r) ==> e.kinds.dom().contains(r) && !nara_plan::is_ref(e.kinds[r])
            && word_of(e.kinds[r], regs[r]) == Some((m.regs)(Spill::V(e.rv_map[r])))
    &&& forall|r: Reg| #[trigger]
        e.rf_map.dom().contains(r) ==> e.kinds.dom().contains(r) && nara_plan::is_ref(e.kinds[r])
            && (m.objects)((m.regs)(Spill::F(e.rf_map[r]))) == regs[r]
    &&& fixed(e, m)
}

/// Whether a virtual register lives in a register.
pub open spec fn lives(e: Emission, r: Reg) -> bool {
    e.rv_map.dom().contains(r) || e.rf_map.dom().contains(r)
}

/// Whether each word that was asked for is found among the constants, and
/// constants refer to words and texts that are there.
pub open spec fn pooled(e: Emission) -> bool {
    &&& forall|w: u64| #[trigger]
        e.value_index.dom().contains(w) ==> {
            let i = e.value_index[w];
            &&& i <= 255
            &&& i < e.constants.len()
            &&& e.constants[i as int] matches NaraConstant::Value { value_idx } && value_idx
                < e.values.len() && e.values[value_idx as int] == w
        }
    &&& forall|i: int|
        0 <= i < e.constants.len() ==> match (#[trigger] e.constants[i]) {
            NaraConstant::Value { value_idx } => value_idx < e.values.len(),
            NaraConstant::String { offset, len } => offset + len <= e.blob.len(),
            _ => true,
        }
    &&& e.values.len() <= e.constants.len() <= usize::MAX
    &&& e.blob.len() <= usize::MAX
}

/// Whether the machine has the words and the texts of constants.
pub open spec fn agrees(e: Emission, m: Machine) -> bool {
    forall|i: int|
        0 <= i < e.constants.len() && i <= 255 ==> match (#[trigger] e.constants[i]) {
            NaraConstant::Value { value_idx } => (m.constants)(i as u8)
                == e.values[value_idx as int],
            NaraConstant::String { offset, len } => (m.objects)((m.constants)(i as u8))
                == Value::Text(e.blob.subrange(offset as int, offset + len)),
            _ => true,
        }
}

/// Whether constants are only added.
pub open spec fn grows(e: Emission, t: Emission) -> bool {
    &&& e.constants.is_prefix_of(t.constants)
    &&& e.values.is_prefix_of(t.values)
    &&& e.blob.is_prefix_of(t.blob)
}

/// The code that one state has and an earlier one does not.
pub open spec fn added(e: Emission, t: Emission) -> Seq<u8> {
    t.bytecode.skip(e.bytecode.len() as int)
}

/// Whether the code between two states takes the machine from one state to
/// another.
pub open spec fn leads(e: Emission, t: Emission, m: Machine, n: Machine) -> bool {
    &&& e.bytecode.is_prefix_of(t.bytecode)
    &&& known(added(e, t))
    &&& run(added(e, t), m) == n
    &&& grows(e, t)
}

/// Whether a machine differs from another at most in value registers in which
/// nothing lives.
pub open spec fn kept(e: Emission, m: Machine, n: Machine) -> bool {
    &&& n.values == m.values
    &&& n.references == m.references
    &&& n.constants == m.constants
    &&& n.objects == m.objects
    &&& n.doubles == m.doubles
    &&& forall|r: Reg| #[trigger]
        e.rv_map.dom().contains(r) ==> (n.regs)(Spill::V(e.rv_map[r])) == (m.regs)(
            Spill::V(e.rv_map[r]),
        )
    &&& forall|x: u8| #[trigger] (n.regs)(Spill::F(x)) == (m.regs)(Spill::F(x))
}

proof fn still_agrees(e: Emission, t: Emission, m: Machine)
    requires
        grows(e, t),
        pooled(e),
        agrees(t, m),
    ensures
        agrees(e, m),
{
    assert forall|i: int| 0 <= i < e.constants.len() && i <= 255 implies match (
    #[trigger] e.constants[i]) {
        NaraConstant::Value { value_idx } => (m.constants)(i as u8) == e.values[value_idx as int],
        NaraConstant::String { offset, len } => (m.objects)((m.constants)(i as u8)) == Value::Text(
            e.blob.subrange(offset as int, offset + len),
        ),
        _ => true,
    } by {
        assert(e.constants[i] == t.constants[i]);
        match e.constants[i] {
            NaraConstant::Value { value_idx } => {
                assert(e.values[value_idx as int] == t.values[value_idx as int]);
            },
            NaraConstant::String { offset, len } => {
                assert(e.blob.subrange(offset as int, offset + len) =~= t.blob.subrange(
                    offset as int,
                    offset + len,
                ));
            },
            _ => {},
        }
    }
}

proof fn leads_on(e: Emission, t: Emission, u: Emission, m: Machine, n: Machine, o: Machine)
    requires
        leads(e, t, m, n),
        leads(t, u, n, o),
    ensures
        leads(e, u, m, o),
{
    let (a, b) = (added(e, t), added(t, u));
    run_appended(a, b, m);
    assert(added(e, u) =~= a + b);
    assert(e.bytecode.is_prefix_of(u.bytecode));
    assert(grows(e, u));
}

proof fn leads_nowhere(e: Emission, t: Emission, m: Machine)
    requires
        t.bytecode == e.bytecode,
        grows(e, t),
    ensures
        leads(e, t, m, m),
{
    assert(added(e, t).len() == 0);
}

proof fn leads_one_step(e: Emission, t: Emission, bytes: Seq<u8>, m: Machine)
    requires
        t.bytecode == e.bytecode + bytes,
        grows(e, t),
        starts_known(bytes),
        bytes.len() == size(bytes[0]),
    ensures
        leads(e, t, m, step(bytes, m)),
{
    assert(added(e, t) =~= bytes);
    one_step(bytes, m);
    assert(e.bytecode.is_prefix_of(t.bytecode));
}

proof fn setting_keeps(e: Emission, m: Machine, q: u8, w: int)
    requires
        nara_plan::unused_rv(e, q),
    ensures
        kept(e, m, set(m, Spill::V(q), w)),
        fixed(e, m) ==> fixed(e, set(m, Spill::V(q), w)),
{
}

proof fn adding_a_word(e: Emission, w: u64, span: Span)
    requires
        pooled(e),
    ensures
        ({
            let (i, t) = nara_plan::add_value(e, w, span);
            &&& grows(e, t)
            &&& t.bytecode == e.bytecode
            &&& i matches Some(i) ==> {
                &&& pooled(t)
                &&& i <= 255
                &&& i < t.constants.len()
                &&& t.constants[i as int] matches NaraConstant::Value { value_idx } && value_idx
                    < t.values.len() && t.values[value_idx as int] == w
            }
        }),
{
    let (i, t) = nara_plan::add_value(e, w, span);
    if e.value_index.dom().contains(w) {
    } else {
        let k = e.constants.len();
        assert(t.constants[k as int] == NaraConstant::Value { value_idx: e.values.len() as usize });
        if i is Some {
            assert forall|v: u64| #[trigger] t.value_index.dom().contains(v) implies {
                let i = t.value_index[v];
                &&& i <= 255
                &&& i < t.constants.len()
                &&& t.constants[i as int] matches NaraConstant::Value { value_idx } && value_idx
                    < t.values.len() && t.values[value_idx as int] == v
            } by {
                if v != w {
                    assert(e.value_index.dom().contains(v));
                }
            }
        }
    }
}

/// What loading a word into a new value register does.
#[verifier::spinoff_prover]
#[verifier::rlimit(60)]
proof fn loading(e: Emission, w: u64, span: Span, m: Machine) -> (n: Machine)
    requires
        nara_plan::sound(e),
        pooled(e),
        nara_plan::load_word(e, w, span).0 is Some,
        agrees(nara_plan::load_word(e, w, span).1, m),
    ensures
        ({
            let (q, t) = nara_plan::load_word(e, w, span);
            &&& n == set(m, Spill::V(q->0), w as int)
            &&& leads(e, t, m, n)
            &&& pooled(t)
            &&& nara_plan::sound(t)
            &&& nara_plan::unused_rv(t, q->0)
            &&& forall|k: u8| #[trigger] nara_plan::unused_rv(e, k) ==> k != q->0 && nara_plan::unused_rv(t, k)
            &&& t.rv_map == e.rv_map
            &&& t.rf_map == e.rf_map
            &&& t.kinds == e.kinds
            &&& t.invalid == e.invalid
            &&& t.last_use == e.last_use
            &&& t.one_rv == e.one_rv
            &&& t.bias_rv == e.bias_rv
            &&& kept(e, m, n)
            &&& fixed(e, m) ==> fixed(t, n)
        }),
{
    let (q, t) = nara_plan::load_word(e, w, span);
    let (i, e1) = nara_plan::add_value(e, w, span);
    adding_a_word(e, w, span);
    let i = i->0;
    let bytes = seq![0x02u8, q->0, nara_plan::low_byte(i)];
    let e2 = nara_plan::fresh_rv(e1, span).1;
    assert(nara_plan::sound(e1));
    nara_plan::fresh_rv_is_sound(e1, span);
    nara_plan::load_word_is_sound(e, w, span);
    assert forall|k: u8| #[trigger] nara_plan::unused_rv(e, k) implies k != q->0
        && nara_plan::unused_rv(t, k) by {
        assert(nara_plan::unused_rv(e1, k));
        assert(nara_plan::unused_rv(e2, k));
    }
    leads_one_step(e, t, bytes, m);
    assert((m.constants)(i as u8) == w) by {
        assert(t.constants[i as int] is Value);
    }
    assert(nara_plan::low_byte(i) == i as u8);
    setting_keeps(t, m, q->0, w as int);
    set(m, Spill::V(q->0), w as int)
}

/// What asking for the register that holds one does.
#[verifier::spinoff_prover]
#[verifier::rlimit(60)]
proof fn having_one(e: Emission, span: Span, m: Machine) -> (n: Machine)
    requires
        nara_plan::sound(e),
        pooled(e),
        fixed(e, m),
        nara_plan::ensure_one(e, span).0 is Some,
        agrees(nara_plan::ensure_one(e, span).1, m),
    ensures
        ({
            let (q, t) = nara_plan::ensure_one(e, span);
            &&& leads(e, t, m, n)
            &&& pooled(t)
            &&& nara_plan::sound(t)
            &&& t.one_rv == q
            &&& t.bias_rv == e.bias_rv
            &&& (n.regs)(Spill::V(q->0)) == 1
            &&& forall|k: u8| #[trigger]
                nara_plan::unused_rv(e, k) ==> nara_plan::unused_rv(t, k) && (n.regs)(Spill::V(k))
                    == (m.regs)(Spill::V(k))
            &&& t.rv_map == e.rv_map
            &&& t.rf_map == e.rf_map
            &&& t.kinds == e.kinds
            &&& t.invalid == e.invalid
            &&& t.last_use == e.last_use
            &&& kept(e, m, n)
            &&& fixed(t, n)
        }),
{
    match e.one_rv {
        Some(_) => {
            leads_nowhere(e, e, m);
            m
        },
        None => {
            let (q, t) = nara_plan::load_word(e, 1, span);
            let n = loading(e, 1, span, m);
            let u = nara_plan::ensure_one(e, span).1;
            leads_nowhere(t, u, n);
            leads_on(e, t, u, m, n, n);
            assert forall|k: u8| #[trigger] nara_plan::unused_rv(e, k) implies nara_plan::unused_rv(
                u,
                k,
            ) && (n.regs)(Spill::V(k)) == (m.regs)(Spill::V(k)) by {
                assert(nara_plan::unused_rv(t, k));
            }
            n
        },
    }
}

/// What asking for the register that holds the sign bit does.
#[verifier::spinoff_prover]
#[verifier::rlimit(60)]
proof fn having_bias(e: Emission, span: Span, m: Machine) -> (n: Machine)
    requires
        nara_plan::sound(e),
        pooled(e),
        fixed(e, m),
        nara_plan::ensure_bias(e, span).0 is Some,
        agrees(nara_plan::ensure_bias(e, span).1, m),
    ensures
        ({
            let (q, t) = nara_plan::ensure_bias(e, span);
            &&& leads(e, t, m, n)
            &&& pooled(t)
            &&& nara_plan::sound(t)
            &&& t.bias_rv == q
            &&& t.one_rv == e.one_rv
            &&& (n.regs)(Spill::V(q->0)) == 0x8000_0000_0000_0000
            &&& forall|k: u8| #[trigger]
                nara_plan::unused_rv(e, k) ==> nara_plan::unused_rv(t, k) && (n.regs)(Spill::V(k))
                    == (m.regs)(Spill::V(k))
            &&& t.rv_map == e.rv_map
            &&& t.rf_map == e.rf_map
            &&& t.kinds == e.kinds
            &&& t.invalid == e.invalid
            &&& t.last_use == e.last_use
            &&& kept(e, m, n)
            &&& fixed(t, n)
        }),
{
    match e.bias_rv {
        Some(_) => {
            leads_nowhere(e, e, m);
            m
        },
        None => {
            let (q, t) = nara_plan::load_word(e, 0x8000_0000_0000_0000, span);
            let n = loading(e, 0x8000_0000_0000_0000, span, m);
            let u = nara_plan::ensure_bias(e, span).1;
            leads_nowhere(t, u, n);
            leads_on(e, t, u, m, n, n);
            assert forall|k: u8| #[trigger] nara_plan::unused_rv(e, k) implies nara_plan::unused_rv(
                u,
                k,
            ) && (n.regs)(Spill::V(k)) == (m.regs)(Spill::V(k)) by {
                assert(nara_plan::unused_rv(t, k));
            }
            n
        },
    }
}

// ---------------------------------------------------------------------------
// Operations
// ---------------------------------------------------------------------------

proof fn flipping_the_sign(w: u64)
    ensures
        (w ^ 0x8000_0000_0000_0000u64) as int == signed(w as int) + 0x8000_0000_0000_0000,
{
    assert(w < 0x8000_0000_0000_0000u64 ==> (w ^ 0x8000_0000_0000_0000u64) == w
        + 0x8000_0000_0000_0000u64) by (bit_vector);
    assert(w >= 0x8000_0000_0000_0000u64 ==> (w ^ 0x8000_0000_0000_0000u64) == w
        - 0x8000_0000_0000_0000u64) by (bit_vector);
}

proof fn flipping_a_bit(b: bool)
    ensures
        ((bit(b) as u64) ^ (1int as u64)) as int == bit(!b),
{
    assert(1u64 ^ 1u64 == 0u64) by (bit_vector);
    assert(0u64 ^ 1u64 == 1u64) by (bit_vector);
}

proof fn words_are_words(k: NaraKind, v: Value)
    ensures
        word_of(k, v) matches Some(w) ==> 0 <= w < word_count(),
        k is I64 ==> (word_of(k, v) matches Some(w) ==> v == Value::Num(signed(w))),
{
}

/// The operation that the machine is given for an arithmetic operator and a kind
/// makes the word of the result of the words of the operands.
pub proof fn arithmetic_is_right(m: Machine, op: LirOp, k: NaraKind, a: Value, b: Value)
    requires
        op is Add || op is Sub || op is Mul || op is Div,
        nara_plan::opcode(op, k) is Some,
        word_of(k, a) is Some,
        word_of(k, b) is Some,
        meaning::lir_op(m.doubles, op, a, b) is Some,
        word_of(k, meaning::lir_op(m.doubles, op, a, b)->0) is Some,
    ensures
        is_binary(nara_plan::opcode(op, k)->0),
        word_of(k, meaning::lir_op(m.doubles, op, a, b)->0) == Some(
            combined(m, nara_plan::opcode(op, k)->0, word_of(k, a)->0, word_of(k, b)->0),
        ),
{
    words_are_words(k, a);
    words_are_words(k, b);
}

proof fn comparison_is_right(k: NaraKind, a: Value, b: Value)
    requires
        word_of(k, a) is Some,
        word_of(k, b) is Some,
    ensures
        word_of(k, a) == word_of(k, b) <==> a == b,
        k is U64 || k is U8 ==> (a matches Value::Num(x) && b matches Value::Num(y) && (
        word_of(k, a)->0 < word_of(k, b)->0 <==> x < y)),
        k is I64 ==> (a matches Value::Num(x) && b matches Value::Num(y) && (((word_of(k, a)->0
            as u64) ^ 0x8000_0000_0000_0000u64) < ((word_of(k, b)->0 as u64)
            ^ 0x8000_0000_0000_0000u64) <==> x < y)),
{
    words_are_words(k, a);
    words_are_words(k, b);
    flipping_the_sign(word_of(k, a)->0 as u64);
    flipping_the_sign(word_of(k, b)->0 as u64);
}

/// The machine mirrors a state in which one more virtual register has a value.
proof fn mirrors_more(
    e: Emission,
    t: Emission,
    m: Machine,
    n: Machine,
    regs: Map<Reg, Value>,
    dst: Reg,
    d: u8,
    k: NaraKind,
    v: Value,
)
    requires
        mirrors(e, m, regs),
        !lives(e, dst),
        kept(e, m, n),
        fixed(t, n),
        t.rv_map == e.rv_map.insert(dst, d),
        t.rf_map == e.rf_map,
        t.kinds == e.kinds.insert(dst, k),
        !nara_plan::is_ref(k),
        word_of(k, v) == Some((n.regs)(Spill::V(d))),
    ensures
        mirrors(t, n, regs.insert(dst, v)),
{
    let after = regs.insert(dst, v);
    assert forall|r: Reg| #[trigger] t.rv_map.dom().contains(r) implies t.kinds.dom().contains(r)
        && !nara_plan::is_ref(t.kinds[r]) && word_of(t.kinds[r], after[r]) == Some(
        (n.regs)(Spill::V(t.rv_map[r])),
    ) by {
        if r != dst {
            assert(e.rv_map.dom().contains(r));
        }
    }
    assert forall|r: Reg| #[trigger] t.rf_map.dom().contains(r) implies t.kinds.dom().contains(r)
        && nara_plan::is_ref(t.kinds[r]) && (n.objects)((n.regs)(Spill::F(t.rf_map[r])))
        == after[r] by {
        assert(e.rf_map.dom().contains(r));
        assert((n.regs)(Spill::F(e.rf_map[r])) == (m.regs)(Spill::F(e.rf_map[r])));
    }
}

/// What the code that turns a truth value over does.
#[verifier::spinoff_prover]
#[verifier::rlimit(60)]
proof fn negating(e: Emission, dst: Reg, d: u8, negate: bool, span: Span, m: Machine, b: bool) -> (n: Machine)
    requires
        nara_plan::sound(e),
        pooled(e),
        fixed(e, m),
        e.rv_map.dom().contains(dst),
        e.rv_map[dst] == d,
        (m.regs)(Spill::V(d)) == bit(b),
        !nara_plan::emit_negation(e, dst, d, negate, span).invalid.contains(dst),
        agrees(nara_plan::emit_negation(e, dst, d, negate, span), m),
    ensures
        ({
            let t = nara_plan::emit_negation(e, dst, d, negate, span);
            &&& leads(e, t, m, n)
            &&& pooled(t)
            &&& fixed(t, n)
            &&& t.rv_map == e.rv_map
            &&& t.rf_map == e.rf_map
            &&& t.kinds == e.kinds
            &&& (n.regs)(Spill::V(d)) == bit(b != negate)
            &&& n.values == m.values && n.references == m.references && n.constants == m.constants
                && n.objects == m.objects && n.doubles == m.doubles
            &&& forall|r: Reg| #[trigger]
                e.rv_map.dom().contains(r) && r != dst ==> (n.regs)(Spill::V(e.rv_map[r])) == (
                m.regs)(Spill::V(e.rv_map[r]))
            &&& forall|x: u8| #[trigger] (n.regs)(Spill::F(x)) == (m.regs)(Spill::F(x))
        }),
{
    let t = nara_plan::emit_negation(e, dst, d, negate, span);
    if negate {
        let (one, e1) = nara_plan::ensure_one(e, span);
        assert(grows(e1, t));
        let m1 = having_one(e, span, m);
        let bytes = seq![0x12u8, d, d, one->0];
        leads_one_step(e1, t, bytes, m1);
        let n = step(bytes, m1);
        leads_on(e, e1, t, m, m1, n);
        flipping_a_bit(b);
        assert((m1.regs)(Spill::V(d)) == bit(b)) by {
            assert(e.rv_map.dom().contains(dst));
        }
        assert forall|r: Reg| #[trigger] e.rv_map.dom().contains(r) && r != dst implies (n.regs)(
            Spill::V(e.rv_map[r]),
        ) == (m.regs)(Spill::V(e.rv_map[r])) by {
            assert(e.rv_map[r] != d);
        }
        n
    } else {
        leads_nowhere(e, t, m);
        m
    }
}

/// The state behind the code that compares two signed words.
spec fn signed_below(e: Emission, dst: Reg, a: u8, b: u8, span: Span) -> Emission {
    let (bias, e1) = nara_plan::ensure_bias(e, span);
    let (d, e2) = nara_plan::fresh_rv(e1, span);
    let (ta, e3) = nara_plan::fresh_rv(e2, span);
    let (tb, e4) = nara_plan::fresh_rv(e3, span);
    let e5 = nara_plan::with_kind(nara_plan::in_rv(e4, dst, d->0), dst, NaraKind::Bool);
    let e6 = nara_plan::coded(e5, seq![0x12u8, ta->0, a, bias->0]);
    let e7 = nara_plan::coded(e6, seq![0x12u8, tb->0, b, bias->0]);
    nara_plan::coded(e7, seq![0x10u8, d->0, ta->0, tb->0])
}

/// The state behind the code that compares two words.
spec fn plain_below(e: Emission, dst: Reg, a: u8, b: u8, span: Span) -> Emission {
    let (d, e1) = nara_plan::new_rv(e, dst, span);
    nara_plan::coded(
        nara_plan::with_kind(e1, dst, NaraKind::Bool),
        seq![0x10u8, d->0, a, b],
    )
}

/// Whether registers are found for comparing two signed words.
spec fn signed_fits(e: Emission, span: Span) -> bool {
    let (bias, e1) = nara_plan::ensure_bias(e, span);
    let (d, e2) = nara_plan::fresh_rv(e1, span);
    let (ta, e3) = nara_plan::fresh_rv(e2, span);
    let (tb, e4) = nara_plan::fresh_rv(e3, span);
    bias is Some && d is Some && ta is Some && tb is Some
}

/// Whether comparing has left a truth value in the register of a virtual register.
spec fn compared(
    e: Emission,
    t: Emission,
    m: Machine,
    n: Machine,
    dst: Reg,
    d: u8,
    below: bool,
) -> bool {
    &&& leads(e, t, m, n)
    &&& pooled(t)
    &&& nara_plan::sound(t)
    &&& fixed(t, n)
    &&& kept(e, m, n)
    &&& t.rv_map == e.rv_map.insert(dst, d)
    &&& t.rf_map == e.rf_map
    &&& t.kinds == e.kinds.insert(dst, NaraKind::Bool)
    &&& (n.regs)(Spill::V(d)) == bit(below)
}

#[verifier::spinoff_prover]
#[verifier::rlimit(60)]
proof fn signed_words_compare(
    e: Emission,
    dst: Reg,
    ra: Reg,
    rb: Reg,
    span: Span,
    m: Machine,
    regs: Map<Reg, Value>,
    t: Emission,
) -> (o: (u8, Machine))
    requires
        nara_plan::sound(e),
        pooled(e),
        mirrors(e, m, regs),
        !lives(e, dst),
        e.rv_map.dom().contains(ra),
        e.rv_map.dom().contains(rb),
        e.kinds[ra] is I64,
        e.kinds[rb] is I64,
        signed_fits(e, span),
        grows(signed_below(e, dst, e.rv_map[ra], e.rv_map[rb], span), t),
        agrees(t, m),
    ensures
        regs[ra] is Num,
        regs[rb] is Num,
        compared(
            e,
            signed_below(e, dst, e.rv_map[ra], e.rv_map[rb], span),
            m,
            o.1,
            dst,
            o.0,
            regs[ra]->Num_0 < regs[rb]->Num_0,
        ),
{
    let (a, b) = (e.rv_map[ra], e.rv_map[rb]);
    let (va, vb) = (regs[ra], regs[rb]);
    let k = NaraKind::I64;
    assert(word_of(k, va) == Some((m.regs)(Spill::V(a))));
    assert(word_of(k, vb) == Some((m.regs)(Spill::V(b))));
    comparison_is_right(k, va, vb);
    words_are_words(k, va);
    words_are_words(k, vb);
    let (bias, e1) = nara_plan::ensure_bias(e, span);
    let (d, e2) = nara_plan::fresh_rv(e1, span);
    let (ta, e3) = nara_plan::fresh_rv(e2, span);
    let (tb, e4) = nara_plan::fresh_rv(e3, span);
    let bias = bias->0;
    let d = d->0;
    let ta = ta->0;
    let tb = tb->0;
    let e5 = nara_plan::with_kind(nara_plan::in_rv(e4, dst, d), dst, NaraKind::Bool);
    let (b6, b7, b8) = (
        seq![0x12u8, ta, a, bias],
        seq![0x12u8, tb, b, bias],
        seq![0x10u8, d, ta, tb],
    );
    let e6 = nara_plan::coded(e5, b6);
    let e7 = nara_plan::coded(e6, b7);
    let e8 = nara_plan::coded(e7, b8);
    assert(e8 == signed_below(e, dst, a, b, span));
    assert(grows(e1, e8));
    still_agrees_bias(e, span, t, m, e8);
    let m1 = having_bias(e, span, m);
    nara_plan::fresh_rv_is_sound(e1, span);
    assert(nara_plan::unused_rv(e2, d));
    nara_plan::fresh_rv_is_sound(e2, span);
    assert(nara_plan::unused_rv(e3, d) && nara_plan::unused_rv(e3, ta) && ta != d);
    nara_plan::fresh_rv_is_sound(e3, span);
    assert(nara_plan::unused_rv(e4, d) && nara_plan::unused_rv(e4, ta) && tb != d && tb != ta);
    nara_plan::in_rv_is_sound(e4, dst, d);
    assert(nara_plan::sound(e8));
    let m6 = step(b6, m1);
    let m7 = step(b7, m6);
    let m8 = step(b8, m7);
    leads_one_step(e1, e6, b6, m1);
    leads_one_step(e6, e7, b7, m6);
    leads_one_step(e7, e8, b8, m7);
    leads_on(e, e1, e6, m, m1, m6);
    leads_on(e, e6, e7, m, m6, m7);
    leads_on(e, e7, e8, m, m7, m8);
    assert(e4.rv_map == e.rv_map && e4.bias_rv == Some(bias));
    assert(bias != ta && bias != tb && bias != d);
    assert(a != ta && b != ta && b != tb && a != tb);
    assert((m1.regs)(Spill::V(a)) == (m.regs)(Spill::V(a)));
    assert((m1.regs)(Spill::V(b)) == (m.regs)(Spill::V(b)));
    assert(m6 == set(
        m1,
        Spill::V(ta),
        (((m1.regs)(Spill::V(a)) as u64) ^ ((m1.regs)(Spill::V(bias)) as u64)) as int,
    ));
    assert(m7 == set(
        m6,
        Spill::V(tb),
        (((m6.regs)(Spill::V(b)) as u64) ^ ((m6.regs)(Spill::V(bias)) as u64)) as int,
    ));
    assert(m8 == set(
        m7,
        Spill::V(d),
        bit((m7.regs)(Spill::V(ta)) < (m7.regs)(Spill::V(tb))),
    ));
    assert((m8.regs)(Spill::V(d)) == bit(va->Num_0 < vb->Num_0));
    setting_keeps(e4, m1, ta, (m6.regs)(Spill::V(ta)));
    setting_keeps(e4, m6, tb, (m7.regs)(Spill::V(tb)));
    setting_keeps(e4, m7, d, (m8.regs)(Spill::V(d)));
    assert(kept(e, m, m8));
    assert(fixed(e8, m8));
    assert(pooled(e8));
    (d, m8)
}

#[verifier::spinoff_prover]
proof fn plain_words_compare(
    e: Emission,
    dst: Reg,
    ra: Reg,
    rb: Reg,
    span: Span,
    m: Machine,
    regs: Map<Reg, Value>,
) -> (o: (u8, Machine))
    requires
        nara_plan::sound(e),
        pooled(e),
        mirrors(e, m, regs),
        !lives(e, dst),
        e.rv_map.dom().contains(ra),
        e.rv_map.dom().contains(rb),
        e.kinds[ra] == e.kinds[rb],
        e.kinds[ra] is U64 || e.kinds[ra] is U8,
        nara_plan::new_rv(e, dst, span).0 is Some,
    ensures
        regs[ra] is Num,
        regs[rb] is Num,
        compared(
            e,
            plain_below(e, dst, e.rv_map[ra], e.rv_map[rb], span),
            m,
            o.1,
            dst,
            o.0,
            regs[ra]->Num_0 < regs[rb]->Num_0,
        ),
{
    let (a, b) = (e.rv_map[ra], e.rv_map[rb]);
    let k = e.kinds[ra];
    assert(word_of(k, regs[ra]) == Some((m.regs)(Spill::V(a))));
    assert(word_of(k, regs[rb]) == Some((m.regs)(Spill::V(b))));
    comparison_is_right(k, regs[ra], regs[rb]);
    let d = nara_plan::new_rv(e, dst, span).0->0;
    let t = plain_below(e, dst, a, b, span);
    let bytes = seq![0x10u8, d, a, b];
    nara_plan::fresh_rv_is_sound(e, span);
    let f = nara_plan::fresh_rv(e, span).1;
    nara_plan::in_rv_is_sound(f, dst, d);
    assert(nara_plan::sound(t));
    leads_one_step(e, t, bytes, m);
    let n = step(bytes, m);
    setting_keeps(f, m, d, (n.regs)(Spill::V(d)));
    assert(kept(e, m, n));
    (d, n)
}

/// What the code of an order comparison does.
#[verifier::spinoff_prover]
#[verifier::rlimit(40)]
proof fn ordering_computes(
    e: Emission,
    dst: Reg,
    op: LirOp,
    k: NaraKind,
    lhs: Reg,
    rhs: Reg,
    span: Span,
    m: Machine,
    regs: Map<Reg, Value>,
) -> (n: Machine)
    requires
        nara_plan::sound(e),
        pooled(e),
        mirrors(e, m, regs),
        !lives(e, dst),
        e.rv_map.dom().contains(lhs),
        e.rv_map.dom().contains(rhs),
        e.kinds[lhs] == k,
        e.kinds[rhs] == k,
        op is Lt || op is Gt || op is Le || op is Ge,
        ({
            let t = nara_plan::emit_ordering(e, dst, op, k, e.rv_map[lhs], e.rv_map[rhs], span);
            !t.invalid.contains(dst) && agrees(t, m)
        }),
    ensures
        ({
            let t = nara_plan::emit_ordering(e, dst, op, k, e.rv_map[lhs], e.rv_map[rhs], span);
            &&& leads(e, t, m, n)
            &&& pooled(t)
            &&& lives(t, dst)
            &&& n.values == m.values && n.references == m.references
            &&& meaning::lir_op(m.doubles, op, regs[lhs], regs[rhs]) matches Some(v) && mirrors(
                t,
                n,
                regs.insert(dst, v),
            )
        }),
{
    let t = nara_plan::emit_ordering(e, dst, op, k, e.rv_map[lhs], e.rv_map[rhs], span);
    let swap = op is Gt || op is Le;
    let negate = op is Le || op is Ge;
    let (ra, rb) = if swap {
        (rhs, lhs)
    } else {
        (lhs, rhs)
    };
    let u = if k is I64 {
        signed_below(e, dst, e.rv_map[ra], e.rv_map[rb], span)
    } else {
        plain_below(e, dst, e.rv_map[ra], e.rv_map[rb], span)
    };
    let d = u.rv_map[dst];
    assert(t == nara_plan::emit_negation(u, dst, d, negate, span) && (k is I64 ==> signed_fits(
        e,
        span,
    )) && (k is I64 || k is U64 || k is U8) && (!(k is I64) ==> nara_plan::new_rv(
        e,
        dst,
        span,
    ).0 is Some)) by {
        reveal(nara_plan::emit_ordering);
    }
    negation_grows(u, dst, d, negate, span);
    let (q, m1) = if k is I64 {
        signed_words_compare(e, dst, ra, rb, span, m, regs, t)
    } else {
        plain_words_compare(e, dst, ra, rb, span, m, regs)
    };
    let below = regs[ra]->Num_0 < regs[rb]->Num_0;
    let v = meaning::lir_op(m.doubles, op, regs[lhs], regs[rhs])->0;
    assert(meaning::lir_op(m.doubles, op, regs[lhs], regs[rhs]) == Some(
        Value::Bool(below != negate),
    ));
    assert(q == d);
    assert(agrees(t, m1));
    let n = negating(u, dst, d, negate, span, m1, below);
    leads_on(e, u, t, m, m1, n);
    assert(kept(e, m, n)) by {
        assert forall|r: Reg| #[trigger] e.rv_map.dom().contains(r) implies (n.regs)(
            Spill::V(e.rv_map[r]),
        ) == (m.regs)(Spill::V(e.rv_map[r])) by {
            assert(u.rv_map.dom().contains(r));
        }
    }
    mirrors_more(e, t, m, n, regs, dst, d, NaraKind::Bool, v);
    n
}

proof fn one_grows(e: Emission, span: Span)
    ensures
        grows(e, nara_plan::ensure_one(e, span).1),
        grows(e, nara_plan::ensure_bias(e, span).1),
{
}

proof fn negation_grows(e: Emission, dst: Reg, d: u8, negate: bool, span: Span)
    ensures
        grows(e, nara_plan::emit_negation(e, dst, d, negate, span)),
{
    one_grows(e, span);
}

proof fn still_agrees_bias(e: Emission, span: Span, t: Emission, m: Machine, u: Emission)
    requires
        nara_plan::sound(e),
        pooled(e),
        nara_plan::ensure_bias(e, span).0 is Some,
        grows(nara_plan::ensure_bias(e, span).1, u),
        grows(u, t),
        agrees(t, m),
    ensures
        agrees(nara_plan::ensure_bias(e, span).1, m),
{
    adding_a_word(e, 0x8000_0000_0000_0000, span);
    still_agrees(nara_plan::ensure_bias(e, span).1, t, m);
}

/// What the code of `!=` does.
#[verifier::spinoff_prover]
#[verifier::rlimit(60)]
proof fn inequality_computes(
    e: Emission,
    dst: Reg,
    k: NaraKind,
    lhs: Reg,
    rhs: Reg,
    span: Span,
    m: Machine,
    regs: Map<Reg, Value>,
) -> (n: Machine)
    requires
        nara_plan::sound(e),
        pooled(e),
        mirrors(e, m, regs),
        !lives(e, dst),
        e.rv_map.dom().contains(lhs),
        e.rv_map.dom().contains(rhs),
        e.kinds[lhs] == k,
        e.kinds[rhs] == k,
        ({
            let t = nara_plan::emit_op(
                e,
                dst,
                LirOp::Ne,
                k,
                e.rv_map[lhs],
                e.rv_map[rhs],
                span,
            );
            !t.invalid.contains(dst) && agrees(t, m)
        }),
    ensures
        ({
            let t = nara_plan::emit_op(
                e,
                dst,
                LirOp::Ne,
                k,
                e.rv_map[lhs],
                e.rv_map[rhs],
                span,
            );
            &&& leads(e, t, m, n)
            &&& pooled(t)
            &&& lives(t, dst)
            &&& n.values == m.values && n.references == m.references
            &&& mirrors(t, n, regs.insert(dst, Value::Bool(regs[lhs] != regs[rhs])))
        }),
{
    reveal(nara_plan::emit_op);
    let (l, r) = (e.rv_map[lhs], e.rv_map[rhs]);
    let (va, vb) = (regs[lhs], regs[rhs]);
    let t = nara_plan::emit_op(e, dst, LirOp::Ne, k, l, r, span);
    let (d, e1) = nara_plan::new_rv(e, dst, span);
    let d = d->0;
    nara_plan::fresh_rv_is_sound(e, span);
    let f = nara_plan::fresh_rv(e, span).1;
    nara_plan::in_rv_is_sound(f, dst, d);
    let (one, e2) = nara_plan::ensure_one(e1, span);
    let one = one->0;
    let e3 = nara_plan::with_kind(e2, dst, NaraKind::Bool);
    let (b4, b5) = (seq![0x0au8, d, l, r], seq![0x12u8, d, d, one]);
    let e4 = nara_plan::coded(e3, b4);
    assert(t == nara_plan::coded(e4, b5));
    assert(grows(e2, t));
    adding_a_word(e1, 1, span);
    still_agrees(e2, t, m);
    leads_nowhere(e, e1, m);
    let m2 = having_one(e1, span, m);
    let m4 = step(b4, m2);
    let m5 = step(b5, m4);
    leads_one_step(e2, e4, b4, m2);
    leads_one_step(e4, t, b5, m4);
    leads_on(e, e1, e2, m, m, m2);
    leads_on(e, e2, e4, m, m2, m4);
    leads_on(e, e4, t, m, m4, m5);
    comparison_is_right(k, va, vb);
    assert(e1.rv_map.dom().contains(lhs) && e1.rv_map.dom().contains(rhs));
    assert(e1.rv_map.dom().contains(dst) && e2.rv_map[dst] == d && one != d);
    flipping_a_bit(va == vb);
    assert((m4.regs)(Spill::V(d)) == bit(va == vb));
    assert((m5.regs)(Spill::V(d)) == bit(va != vb));
    assert(kept(e, m, m5)) by {
        assert forall|q: Reg| #[trigger] e.rv_map.dom().contains(q) implies (m5.regs)(
            Spill::V(e.rv_map[q]),
        ) == (m.regs)(Spill::V(e.rv_map[q])) by {
            assert(e1.rv_map.dom().contains(q));
            assert(e.rv_map[q] != d);
        }
    }
    mirrors_more(e, t, m, m5, regs, dst, d, NaraKind::Bool, Value::Bool(va != vb));
    m5
}

/// What the code of an operation that the machine has does.
#[verifier::spinoff_prover]
#[verifier::rlimit(60)]
proof fn one_operation_computes(
    e: Emission,
    dst: Reg,
    op: LirOp,
    k: NaraKind,
    lhs: Reg,
    rhs: Reg,
    span: Span,
    m: Machine,
    regs: Map<Reg, Value>,
    v: Value,
) -> (n: Machine)
    requires
        nara_plan::sound(e),
        pooled(e),
        mirrors(e, m, regs),
        !lives(e, dst),
        e.rv_map.dom().contains(lhs),
        e.rv_map.dom().contains(rhs),
        e.kinds[lhs] == k,
        e.kinds[rhs] == k,
        op is Add || op is Sub || op is Mul || op is Div || (op is Eq && !(k is F64)),
        !nara_plan::emit_op(
            e,
            dst,
            op,
            k,
            e.rv_map[lhs],
            e.rv_map[rhs],
            span,
        ).invalid.contains(dst),
        meaning::lir_op(m.doubles, op, regs[lhs], regs[rhs]) == Some(v),
        op is Eq || word_of(k, v) is Some,
    ensures
        ({
            let t = nara_plan::emit_op(e, dst, op, k, e.rv_map[lhs], e.rv_map[rhs], span);
            &&& leads(e, t, m, n)
            &&& pooled(t)
            &&& lives(t, dst)
            &&& n.values == m.values && n.references == m.references
            &&& mirrors(t, n, regs.insert(dst, v))
        }),
{
    reveal(nara_plan::emit_op);
    let (l, r) = (e.rv_map[lhs], e.rv_map[rhs]);
    let (va, vb) = (regs[lhs], regs[rhs]);
    let t = nara_plan::emit_op(e, dst, op, k, l, r, span);
    let (d, e1) = nara_plan::new_rv(e, dst, span);
    let d = d->0;
    nara_plan::fresh_rv_is_sound(e, span);
    let f = nara_plan::fresh_rv(e, span).1;
    let (code, kind) = if op is Eq {
        (0x0au8, NaraKind::Bool)
    } else {
        (nara_plan::opcode(op, k)->0, k)
    };
    let bytes = seq![code, d, l, r];
    assert(t == nara_plan::coded(nara_plan::with_kind(e1, dst, kind), bytes));
    if op is Eq {
        comparison_is_right(k, va, vb);
    } else {
        arithmetic_is_right(m, op, k, va, vb);
    }
    leads_one_step(e, t, bytes, m);
    let n = step(bytes, m);
    setting_keeps(f, m, d, (n.regs)(Spill::V(d)));
    assert(kept(e, m, n));
    mirrors_more(e, t, m, n, regs, dst, d, kind, v);
    n
}

/// The code of a binary operation leaves the value of the operation in the
/// register of the result, and every other virtual register keeps its value. The
/// result has to be one of its kind, and the machine compares doubles as words.
#[verifier::spinoff_prover]
#[verifier::rlimit(60)]
pub proof fn operations_compute(
    e: Emission,
    dst: Reg,
    op: LirOp,
    lhs: Reg,
    rhs: Reg,
    span: Span,
    m: Machine,
    regs: Map<Reg, Value>,
    v: Value,
)
    requires
        nara_plan::sound(e),
        pooled(e),
        mirrors(e, m, regs),
        !lives(e, dst),
        !nara_plan::emit_binop(e, dst, op, lhs, rhs, span).invalid.contains(dst),
        agrees(nara_plan::emit_binop(e, dst, op, lhs, rhs, span), m),
        meaning::lir_op(m.doubles, op, regs[lhs], regs[rhs]) == Some(v),
        (op is Add || op is Sub || op is Mul || op is Div) ==> word_of(e.kinds[lhs], v) is Some,
        (op is Eq || op is Ne) ==> !(e.kinds[lhs] is F64),
    ensures
        ({
            let t = nara_plan::emit_binop(e, dst, op, lhs, rhs, span);
            let n = run(added(e, t), m);
            &&& leads(e, t, m, n)
            &&& pooled(t)
            &&& lives(t, dst)
            &&& mirrors(t, n, regs.insert(dst, v))
            &&& n.values == m.values
            &&& n.references == m.references
        }),
{
    let t = nara_plan::emit_binop(e, dst, op, lhs, rhs, span);
    let k = e.kinds[lhs];
    assert(e.rv_map.dom().contains(lhs) && e.rv_map.dom().contains(rhs) && e.kinds[rhs] == k && t
        == nara_plan::emit_op(e, dst, op, k, e.rv_map[lhs], e.rv_map[rhs], span)) by {
        reveal(nara_plan::emit_binop);
    }
    if op is Lt || op is Gt || op is Le || op is Ge {
        assert(t == nara_plan::emit_ordering(
            e,
            dst,
            op,
            k,
            e.rv_map[lhs],
            e.rv_map[rhs],
            span,
        )) by {
            reveal(nara_plan::emit_op);
        }
        let n = ordering_computes(e, dst, op, k, lhs, rhs, span, m, regs);
    } else if op is Ne {
        let n = inequality_computes(e, dst, k, lhs, rhs, span, m, regs);
        assert(word_of(k, regs[lhs]) is Some && word_of(k, regs[rhs]) is Some);
        assert(v == Value::Bool(regs[lhs] != regs[rhs]));
    } else {
        let n = one_operation_computes(e, dst, op, k, lhs, rhs, span, m, regs, v);
    }
}

// ---------------------------------------------------------------------------
// Other instructions
// ---------------------------------------------------------------------------

/// The code that loads a scalar leaves its value in the register of the result.
#[verifier::spinoff_prover]
#[verifier::rlimit(60)]
pub proof fn constants_are_loaded(
    e: Emission,
    dst: Reg,
    v: Scalar,
    span: Span,
    m: Machine,
    regs: Map<Reg, Value>,
)
    requires
        nara_plan::sound(e),
        pooled(e),
        mirrors(e, m, regs),
        !lives(e, dst),
        !nara_plan::emit_const(e, dst, v, span).invalid.contains(dst),
        e.last_use.dom().contains(dst),
        agrees(nara_plan::emit_const(e, dst, v, span), m),
    ensures
        ({
            let t = nara_plan::emit_const(e, dst, v, span);
            let n = run(added(e, t), m);
            &&& leads(e, t, m, n)
            &&& pooled(t)
            &&& lives(t, dst)
            &&& mirrors(t, n, regs.insert(dst, meaning::plain(v)))
            &&& n.values == m.values
            &&& n.references == m.references
        }),
{
    reveal(nara_plan::emit_const);
    let t = nara_plan::emit_const(e, dst, v, span);
    let bits = nara_plan::scalar_bits(v);
    let k = nara_plan::kind_of_scalar(v);
    let (q, e1) = nara_plan::load_word(e, bits, span);
    still_agrees_load(e, bits, span, t, m);
    let n = loading(e, bits, span, m);
    leads_nowhere(e1, t, n);
    leads_on(e, e1, t, m, n, n);
    assert(word_of(k, meaning::plain(v)) == Some(bits as int));
    mirrors_more(e, t, m, n, regs, dst, q->0, k, meaning::plain(v));
}

proof fn still_agrees_load(e: Emission, bits: u64, span: Span, t: Emission, m: Machine)
    requires
        pooled(e),
        nara_plan::load_word(e, bits, span).0 is Some,
        grows(nara_plan::load_word(e, bits, span).1, t),
        agrees(t, m),
    ensures
        agrees(nara_plan::load_word(e, bits, span).1, m),
{
    adding_a_word(e, bits, span);
    still_agrees(nara_plan::load_word(e, bits, span).1, t, m);
}

/// The code of a logical negation leaves the opposite in the register of the result.
#[verifier::spinoff_prover]
#[verifier::rlimit(60)]
pub proof fn negations_compute(
    e: Emission,
    dst: Reg,
    src: Reg,
    span: Span,
    m: Machine,
    regs: Map<Reg, Value>,
    b: bool,
)
    requires
        nara_plan::sound(e),
        pooled(e),
        mirrors(e, m, regs),
        !lives(e, dst),
        regs[src] == Value::Bool(b),
        !nara_plan::emit_not(e, dst, src, span).invalid.contains(dst),
        agrees(nara_plan::emit_not(e, dst, src, span), m),
    ensures
        ({
            let t = nara_plan::emit_not(e, dst, src, span);
            let n = run(added(e, t), m);
            &&& leads(e, t, m, n)
            &&& pooled(t)
            &&& lives(t, dst)
            &&& mirrors(t, n, regs.insert(dst, Value::Bool(!b)))
            &&& n.values == m.values
            &&& n.references == m.references
        }),
{
    reveal(nara_plan::emit_not);
    let t = nara_plan::emit_not(e, dst, src, span);
    assert(e.rv_map.dom().contains(src));
    let s = e.rv_map[src];
    let (one, e1) = nara_plan::ensure_one(e, span);
    let one = one->0;
    let (d, e2) = nara_plan::new_rv(e1, dst, span);
    let d = d->0;
    let bytes = seq![0x12u8, d, s, one];
    assert(grows(e1, t));
    adding_a_word(e, 1, span);
    still_agrees(e1, t, m);
    let m1 = having_one(e, span, m);
    nara_plan::fresh_rv_is_sound(e1, span);
    let f = nara_plan::fresh_rv(e1, span).1;
    leads_one_step(e1, t, bytes, m1);
    let n = step(bytes, m1);
    leads_on(e, e1, t, m, m1, n);
    setting_keeps(f, m1, d, (n.regs)(Spill::V(d)));
    flipping_a_bit(b);
    assert(kept(e, m, n));
    mirrors_more(e, t, m, n, regs, dst, d, NaraKind::Bool, Value::Bool(!b));
}

/// The code of a copy leaves the value of one virtual register in the register of
/// another, which may have a value already.
#[verifier::spinoff_prover]
#[verifier::rlimit(60)]
pub proof fn copies_compute(
    e: Emission,
    dst: Reg,
    src: Reg,
    span: Span,
    m: Machine,
    regs: Map<Reg, Value>,
)
    requires
        nara_plan::sound(e),
        pooled(e),
        mirrors(e, m, regs),
        lives(e, src),
        e.rv_map.dom().contains(dst) ==> e.rv_map.dom().contains(src),
        e.rf_map.dom().contains(dst) ==> e.rf_map.dom().contains(src),
        !nara_plan::emit_copy(e, dst, src, span).invalid.contains(dst),
        !e.invalid.contains(src),
    ensures
        ({
            let t = nara_plan::emit_copy(e, dst, src, span);
            let n = run(added(e, t), m);
            &&& leads(e, t, m, n)
            &&& pooled(t)
            &&& lives(t, dst)
            &&& mirrors(t, n, regs.insert(dst, regs[src]))
            &&& n.values == m.values
            &&& n.references == m.references
        }),
{
    reveal(nara_plan::emit_copy);
    let t = nara_plan::emit_copy(e, dst, src, span);
    let after = regs.insert(dst, regs[src]);
    let k = e.kinds[src];
    assert(e.rv_map.dom().contains(src) ==> !nara_plan::is_ref(k));
    assert(e.rf_map.dom().contains(src) ==> nara_plan::is_ref(k));
    if nara_plan::share_register(e, dst, src) {
        assert(dst == src);
        leads_nowhere(e, t, m);
        assert(t.kinds =~= e.kinds);
        assert(after[src] == regs[src]);
        assert(mirrors(t, m, after));
    } else if nara_plan::is_ref(k) {
        let s = e.rf_map[src];
        let (d, e1) = nara_plan::home_rf(e, dst, span);
        let d = d->0;
        if !e.rf_map.dom().contains(dst) {
            nara_plan::fresh_rf_is_sound(e, span);
        }
        let bytes = seq![0x05u8, d, s];
        leads_one_step(e, t, bytes, m);
        let n = step(bytes, m);
        assert forall|r: Reg| #[trigger] t.rf_map.dom().contains(r) implies t.kinds.dom().contains(r)
            && nara_plan::is_ref(t.kinds[r]) && (n.objects)((n.regs)(Spill::F(t.rf_map[r])))
            == after[r] by {
            if r != dst {
                assert(e.rf_map.dom().contains(r));
                assert(e.rf_map[r] != d);
            }
        }
        assert forall|r: Reg| #[trigger] t.rv_map.dom().contains(r) implies t.kinds.dom().contains(r)
            && !nara_plan::is_ref(t.kinds[r]) && word_of(t.kinds[r], after[r]) == Some(
            (n.regs)(Spill::V(t.rv_map[r])),
        ) by {
            assert(e.rv_map.dom().contains(r));
        }
    } else {
        let s = e.rv_map[src];
        let (d, e1) = nara_plan::home_rv(e, dst, span);
        let d = d->0;
        if !e.rv_map.dom().contains(dst) {
            nara_plan::fresh_rv_is_sound(e, span);
        }
        let bytes = seq![0x04u8, d, s];
        leads_one_step(e, t, bytes, m);
        let n = step(bytes, m);
        assert forall|r: Reg| #[trigger] t.rv_map.dom().contains(r) implies t.kinds.dom().contains(r)
            && !nara_plan::is_ref(t.kinds[r]) && word_of(t.kinds[r], after[r]) == Some(
            (n.regs)(Spill::V(t.rv_map[r])),
        ) by {
            if r != dst {
                assert(e.rv_map.dom().contains(r));
                assert(e.rv_map[r] != d);
            }
        }
        assert forall|r: Reg| #[trigger] t.rf_map.dom().contains(r) implies t.kinds.dom().contains(r)
            && nara_plan::is_ref(t.kinds[r]) && (n.objects)((n.regs)(Spill::F(t.rf_map[r])))
            == after[r] by {
            assert(e.rf_map.dom().contains(r));
        }
        assert(fixed(t, n));
    }
}

/// The code that loads a text leaves it in the register of the result.
#[verifier::spinoff_prover]
#[verifier::rlimit(60)]
pub proof fn texts_are_loaded(
    e: Emission,
    dst: Reg,
    bytes: Seq<u8>,
    span: Span,
    m: Machine,
    regs: Map<Reg, Value>,
)
    requires
        nara_plan::sound(e),
        pooled(e),
        mirrors(e, m, regs),
        !lives(e, dst),
        e.constants.len() < usize::MAX,
        e.blob.len() + bytes.len() <= usize::MAX,
        !nara_plan::emit_string(e, dst, bytes, span).invalid.contains(dst),
        e.last_use.dom().contains(dst),
        agrees(nara_plan::emit_string(e, dst, bytes, span), m),
    ensures
        ({
            let t = nara_plan::emit_string(e, dst, bytes, span);
            let n = run(added(e, t), m);
            &&& leads(e, t, m, n)
            &&& pooled(t)
            &&& lives(t, dst)
            &&& mirrors(t, n, regs.insert(dst, Value::Text(bytes)))
            &&& n.values == m.values
            &&& n.references == m.references
        }),
{
    reveal(nara_plan::emit_string);
    let t = nara_plan::emit_string(e, dst, bytes, span);
    let (i, e1) = nara_plan::add_string(e, bytes, span);
    let i = i->0;
    let (f, e2) = nara_plan::fresh_rf(e1, span);
    let f = f->0;
    assert(nara_plan::sound(e1));
    nara_plan::fresh_rf_is_sound(e1, span);
    assert(t.constants[i as int] == NaraConstant::String {
        offset: e.blob.len() as usize,
        len: bytes.len() as usize,
    });
    assert(t.blob.subrange(e.blob.len() as int, (e.blob.len() + bytes.len()) as int) =~= bytes);
    let code = seq![0x03u8, f, nara_plan::low_byte(i)];
    leads_one_step(e, t, code, m);
    let n = step(code, m);
    assert((m.objects)((m.constants)(i as u8)) == Value::Text(bytes));
    assert(nara_plan::low_byte(i) == i as u8);
    assert(pooled(t)) by {
        assert forall|w: u64| #[trigger] t.value_index.dom().contains(w) implies {
            let i = t.value_index[w];
            &&& i <= 255
            &&& i < t.constants.len()
            &&& t.constants[i as int] matches NaraConstant::Value { value_idx } && value_idx
                < t.values.len() && t.values[value_idx as int] == w
        } by {
            assert(e.value_index.dom().contains(w));
        }
        assert forall|i: int| 0 <= i < t.constants.len() implies match (#[trigger] t.constants[i]) {
            NaraConstant::Value { value_idx } => value_idx < t.values.len(),
            NaraConstant::String { offset, len } => offset + len <= t.blob.len(),
            _ => true,
        } by {
            if i < e.constants.len() {
                assert(t.constants[i] == e.constants[i]);
            }
        }
    }
    let after = regs.insert(dst, Value::Text(bytes));
    assert forall|r: Reg| #[trigger] t.rf_map.dom().contains(r) implies t.kinds.dom().contains(r)
        && nara_plan::is_ref(t.kinds[r]) && (n.objects)((n.regs)(Spill::F(t.rf_map[r])))
        == after[r] by {
        if r != dst {
            assert(e.rf_map.dom().contains(r));
            assert(e.rf_map[r] != f);
        }
    }
    assert forall|r: Reg| #[trigger] t.rv_map.dom().contains(r) implies t.kinds.dom().contains(r)
        && !nara_plan::is_ref(t.kinds[r]) && word_of(t.kinds[r], after[r]) == Some(
        (n.regs)(Spill::V(t.rv_map[r])),
    ) by {
        assert(e.rv_map.dom().contains(r));
    }
}

/// The code of a return puts the value into the register for results, and ends the
/// function. The entry of a program returns nothing.
pub proof fn returns_hand_over(
    x: FnContext,
    e: Emission,
    src: Reg,
    span: Span,
    m: Machine,
    regs: Map<Reg, Value>,
)
    requires
        mirrors(e, m, regs),
        lives(e, src),
        !e.invalid.contains(src),
        nara_plan::kind_of_ty(x.func.ret) == Some(e.kinds[src]),
        !nara_plan::is_main(x),
    ensures
        ({
            let code = added(e, nara_plan::emit_ret(x, e, src, span));
            let n = run(code.drop_last(), m);
            let k = e.kinds[src];
            &&& code.len() > 0
            &&& code.last() == 0x00
            &&& known(code.drop_last())
            &&& !nara_plan::is_ref(k) ==> word_of(k, regs[src]) == Some((n.regs)(Spill::V(0x11)))
            &&& nara_plan::is_ref(k) ==> (n.objects)((n.regs)(Spill::F(0x31))) == regs[src]
        }),
{
    reveal(nara_plan::emit_ret);
    let code = added(e, nara_plan::emit_ret(x, e, src, span));
    if nara_plan::is_ref(e.kinds[src]) {
        assert(e.rf_map.dom().contains(src));
        let bytes = seq![0x05u8, 0x31u8, e.rf_map[src]];
        assert(code.drop_last() =~= bytes);
        one_step(bytes, m);
    } else {
        assert(e.rv_map.dom().contains(src));
        if e.rv_map[src] != 0x11 {
            let bytes = seq![0x04u8, 0x11u8, e.rv_map[src]];
            assert(code.drop_last() =~= bytes);
            one_step(bytes, m);
        } else {
            assert(code.drop_last() =~= Seq::<u8>::empty());
        }
    }
    assert(code.last() == 0x00);
}

/// A branch tests the register of its condition, which holds zero exactly where the
/// condition is false, and is to go to its label. A jump is to go to its label too.
pub proof fn branches_test_their_condition(
    x: FnContext,
    e: Emission,
    cond: Reg,
    target: u32,
    span: Span,
    m: Machine,
    regs: Map<Reg, Value>,
    b: bool,
)
    requires
        mirrors(e, m, regs),
        e.rv_map.dom().contains(cond),
        regs[cond] == Value::Bool(b),
        e.bytecode.len() <= usize::MAX,
    ensures
        ({
            let t = nara_plan::emit_instr(x, e, InstrView::BranchIfFalse { cond, target, span });
            let code = added(e, t);
            &&& code.len() == 4
            &&& code[0] == 0x24
            &&& (m.regs)(Spill::V(code[1])) == bit(b)
            &&& t.patches.len() == e.patches.len() + 1
            &&& t.patches.last().pos == e.bytecode.len()
            &&& t.patches.last().len == 4
            &&& t.patches.last().target == target
            &&& mirrors(t, m, regs)
        }),
        ({
            let t = nara_plan::emit_instr(x, e, InstrView::Jump { target, span });
            let code = added(e, t);
            &&& code.len() == 3
            &&& code[0] == 0x22
            &&& t.patches.len() == e.patches.len() + 1
            &&& t.patches.last().pos == e.bytecode.len()
            &&& t.patches.last().len == 3
            &&& t.patches.last().target == target
            &&& mirrors(t, m, regs)
        }),
        nara_plan::emit_instr(x, e, InstrView::Label { id: target, span }).label_pos[target]
            == e.bytecode.len(),
{
}

/// Giving back the registers of virtual registers that die changes no value.
pub proof fn releasing_keeps_values(
    e: Emission,
    rs: Seq<Reg>,
    at: usize,
    m: Machine,
    regs: Map<Reg, Value>,
)
    requires
        mirrors(e, m, regs),
    ensures
        mirrors(nara_plan::release_all(e, rs, at), m, regs),
    decreases rs.len(),
{
    if rs.len() > 0 {
        releasing_keeps_values(e, rs.drop_last(), at, m, regs);
        let e1 = nara_plan::release_all(e, rs.drop_last(), at);
        let t = nara_plan::release_all(e, rs, at);
        assert forall|r: Reg| #[trigger] t.rv_map.dom().contains(r) implies e1.rv_map.dom().contains(
            r,
        ) && t.rv_map[r] == e1.rv_map[r] by {}
        assert forall|r: Reg| #[trigger] t.rf_map.dom().contains(r) implies e1.rf_map.dom().contains(
            r,
        ) && t.rf_map[r] == e1.rf_map[r] by {}
    }
}

// ---------------------------------------------------------------------------
// Calls
// ---------------------------------------------------------------------------

proof fn live_registers_are_below(live: Map<Reg, u8>, n: nat, i: int)
    requires
        n <= 256,
        0 <= i < nara_plan::live_registers(live, n).len(),
    ensures
        nara_plan::live_registers(live, n)[i] < n,
    decreases n,
{
    if n > 0 {
        let front = nara_plan::live_registers(live, (n - 1) as nat);
        if i < front.len() {
            live_registers_are_below(live, (n - 1) as nat, i);
        }
    }
}

proof fn live_registers_are_distinct(live: Map<Reg, u8>, n: nat)
    requires
        n <= 256,
    ensures
        nara_plan::live_registers(live, n).no_duplicates(),
    decreases n,
{
    if n > 0 {
        let front = nara_plan::live_registers(live, (n - 1) as nat);
        let all = nara_plan::live_registers(live, n);
        live_registers_are_distinct(live, (n - 1) as nat);
        assert forall|i: int, j: int| 0 <= i < all.len() && 0 <= j < all.len() && i != j implies all[i]
            != all[j] by {
            if i < front.len() {
                live_registers_are_below(live, (n - 1) as nat, i);
            }
            if j < front.len() {
                live_registers_are_below(live, (n - 1) as nat, j);
            }
        }
    }
}

proof fn live_register_lives(live: Map<Reg, u8>, n: nat, i: int)
    requires
        n <= 256,
        0 <= i < nara_plan::live_registers(live, n).len(),
    ensures
        nara_plan::lives_in(live, nara_plan::live_registers(live, n)[i]),
    decreases n,
{
    if n > 0 {
        let front = nara_plan::live_registers(live, (n - 1) as nat);
        if i < front.len() {
            live_register_lives(live, (n - 1) as nat, i);
        }
    }
}

/// The registers that are saved around a call are distinct, and none of them is one
/// that nothing lives in.
#[verifier::spinoff_prover]
#[verifier::rlimit(60)]
proof fn saved_registers_are_distinct(e: Emission)
    requires
        nara_plan::sound(e),
    ensures
        nara_plan::spills(e).no_duplicates(),
        forall|q: u8| #[trigger]
            nara_plan::unused_rv(e, q) ==> !nara_plan::spills(e).contains(Spill::V(q)),
        forall|q: u8| #[trigger]
            nara_plan::unused_rf(e, q) ==> !nara_plan::spills(e).contains(Spill::F(q)),
{
    let vs = nara_plan::live_registers(e.rv_map, 256);
    let fs = nara_plan::live_registers(e.rf_map, 256);
    live_registers_are_distinct(e.rv_map, 256);
    live_registers_are_distinct(e.rf_map, 256);
    let ones = nara_plan::spill_of(e.one_rv);
    let biases = nara_plan::spill_of(e.bias_rv);
    let ss = nara_plan::spills(e);
    let (a, b, c) = (vs.len(), ones.len(), biases.len());
    assert forall|i: int| 0 <= i < ss.len() implies ({
        &&& i < a ==> #[trigger] ss[i] == Spill::V(vs[i]) && nara_plan::lives_in(e.rv_map, vs[i])
        &&& a <= i < a + b ==> e.one_rv is Some && ss[i] == Spill::V(e.one_rv->0)
        &&& a + b <= i < a + b + c ==> e.bias_rv is Some && ss[i] == Spill::V(e.bias_rv->0)
        &&& a + b + c <= i ==> ss[i] == Spill::F(fs[i - a - b - c]) && nara_plan::lives_in(
            e.rf_map,
            fs[i - a - b - c],
        )
    }) by {
        if i < a {
            live_register_lives(e.rv_map, 256, i);
        } else if i >= a + b + c {
            live_register_lives(e.rf_map, 256, i - a - b - c);
        }
    }
    assert forall|i: int, j: int| 0 <= i < ss.len() && 0 <= j < ss.len() && i != j implies ss[i]
        != ss[j] by {
        if i < a {
            let r = choose|r: Reg| #[trigger] e.rv_map.dom().contains(r) && e.rv_map[r] == vs[i];
            assert(e.one_rv != Some(vs[i]) && e.bias_rv != Some(vs[i]));
        }
        if j < a {
            let r = choose|r: Reg| #[trigger] e.rv_map.dom().contains(r) && e.rv_map[r] == vs[j];
            assert(e.one_rv != Some(vs[j]) && e.bias_rv != Some(vs[j]));
        }
    }
    assert forall|q: u8| #[trigger] nara_plan::unused_rv(e, q) implies !ss.contains(
        Spill::V(q),
    ) by {
        if ss.contains(Spill::V(q)) {
            let i = choose|i: int| 0 <= i < ss.len() && ss[i] == Spill::V(q);
            if i < a {
                let r = choose|r: Reg| #[trigger] e.rv_map.dom().contains(r) && e.rv_map[r] == vs[i];
            }
        }
    }
    assert forall|q: u8| #[trigger] nara_plan::unused_rf(e, q) implies !ss.contains(
        Spill::F(q),
    ) by {
        if ss.contains(Spill::F(q)) {
            let i = choose|i: int| 0 <= i < ss.len() && ss[i] == Spill::F(q);
            let k = i - a - b - c;
            let r = choose|r: Reg| #[trigger] e.rf_map.dom().contains(r) && e.rf_map[r] == fs[k];
        }
    }
}

proof fn live_values_are_saved(e: Emission, q: u8)
    requires
        e.one_rv == Some(q) || e.bias_rv == Some(q),
    ensures
        nara_plan::spills(e).contains(Spill::V(q)),
{
    let vs = nara_plan::value_spills(nara_plan::live_registers(e.rv_map, 256));
    let ones = nara_plan::spill_of(e.one_rv);
    let ss = nara_plan::spills(e);
    if e.one_rv == Some(q) {
        assert(ss[vs.len() as int] == Spill::V(q));
    } else {
        assert(ss[(vs.len() + ones.len()) as int] == Spill::V(q));
    }
}

/// Behind a call the result is in the register of the result, and every other
/// virtual register has the value that it had before the call, whatever the callee
/// left in registers, provided that it left the stacks as they were.
#[verifier::spinoff_prover]
#[verifier::rlimit(60)]
pub proof fn calls_give_results(
    e: Emission,
    dst: Reg,
    k: NaraKind,
    r: u8,
    before: Machine,
    returned: Machine,
    regs: Map<Reg, Value>,
    v: Value,
)
    requires
        nara_plan::sound(e),
        mirrors(e, before, regs),
        !lives(e, dst),
        nara_plan::is_ref(k) ==> nara_plan::unused_rf(e, r),
        !nara_plan::is_ref(k) ==> nara_plan::unused_rv(e, r),
        returned.values == run(nara_plan::push_all(nara_plan::spills(e)), before).values,
        returned.references == run(nara_plan::push_all(nara_plan::spills(e)), before).references,
        returned.objects == before.objects,
        nara_plan::is_ref(k) ==> (returned.objects)((returned.regs)(Spill::F(0x31))) == v,
        !nara_plan::is_ref(k) ==> word_of(k, v) == Some((returned.regs)(Spill::V(0x11))),
    ensures
        ({
            let t = nara_plan::after_call(e, dst, Some(k), Some(r), nara_plan::spills(e));
            let n = run(added(e, t), returned);
            &&& lives(t, dst)
            &&& mirrors(t, n, regs.insert(dst, v))
            &&& n.values == before.values
            &&& n.references == before.references
        }),
{
    let saved = nara_plan::spills(e);
    let t = nara_plan::after_call(e, dst, Some(k), Some(r), saved);
    saved_registers_are_distinct(e);
    let home = if nara_plan::is_ref(k) {
        Spill::F(r)
    } else {
        Spill::V(r)
    };
    let mv = if nara_plan::is_ref(k) {
        seq![0x05u8, r, 0x31u8]
    } else {
        seq![0x04u8, r, 0x11u8]
    };
    assert(added(e, t) =~= mv + nara_plan::pop_all(saved));
    one_step(mv, returned);
    run_appended(mv, nara_plan::pop_all(saved), returned);
    let u = run(mv, returned);
    pushing(saved, before);
    popping(saved, saved, before.values, before.references, before, u);
    let n = run(nara_plan::pop_all(saved), u);
    running_keeps_objects(nara_plan::pop_all(saved), u);
    assert(n == run(added(e, t), returned));
    assert(!saved.contains(home));
    assert((n.regs)(home) == (u.regs)(home));
    let after = regs.insert(dst, v);
    assert forall|q: Reg| #[trigger] t.rv_map.dom().contains(q) implies t.kinds.dom().contains(q)
        && !nara_plan::is_ref(t.kinds[q]) && word_of(t.kinds[q], after[q]) == Some(
        (n.regs)(Spill::V(t.rv_map[q])),
    ) by {
        if q != dst {
            assert(e.rv_map.dom().contains(q));
            nara_plan::calls_save_live_registers(e, q);
            let i = choose|i: int| 0 <= i < saved.len() && saved[i] == Spill::V(e.rv_map[q]);
            assert((n.regs)(saved[i]) == (before.regs)(saved[i]));
        }
    }
    assert forall|q: Reg| #[trigger] t.rf_map.dom().contains(q) implies t.kinds.dom().contains(q)
        && nara_plan::is_ref(t.kinds[q]) && (n.objects)((n.regs)(Spill::F(t.rf_map[q])))
        == after[q] by {
        if q != dst {
            assert(e.rf_map.dom().contains(q));
            nara_plan::calls_save_live_registers(e, q);
            let i = choose|i: int| 0 <= i < saved.len() && saved[i] == Spill::F(e.rf_map[q]);
            assert((n.regs)(saved[i]) == (before.regs)(saved[i]));
        }
    }
    assert(fixed(t, n)) by {
        match e.one_rv {
            Some(q) => {
                live_values_are_saved(e, q);
                let i = choose|i: int| 0 <= i < saved.len() && saved[i] == Spill::V(q);
                assert((n.regs)(saved[i]) == (before.regs)(saved[i]));
            },
            None => {},
        }
        match e.bias_rv {
            Some(q) => {
                live_values_are_saved(e, q);
                let i = choose|i: int| 0 <= i < saved.len() && saved[i] == Spill::V(q);
                assert((n.regs)(saved[i]) == (before.regs)(saved[i]));
            },
            None => {},
        }
    }
}

proof fn running_keeps_objects(code: Seq<u8>, m: Machine)
    ensures
        run(code, m).objects == m.objects,
    decreases code.len(),
{
    if starts_known(code) {
        running_keeps_objects(code.skip(size(code[0])), step(code, m));
    }
}

} // verus!
