//! Decimal literals as IEEE double-precision bit patterns, by integer
//! arithmetic on natural numbers of any size.

use vstd::arithmetic::power2::pow2;
use vstd::prelude::*;

verus! {

// ---------------------------------------------------------------------------
// Natural numbers as little-endian limbs
// ---------------------------------------------------------------------------

/// The limb base.
pub open spec fn limb_base() -> nat {
    0x1_0000_0000
}

/// The number that a sequence of limbs stands for, least significant first.
pub open spec fn limbs_value(s: Seq<u32>) -> nat
    decreases s.len(),
{
    if s.len() == 0 {
        0
    } else {
        s[0] as nat + limb_base() * limbs_value(s.drop_first())
    }
}

/// A natural number of any size.
#[derive(Debug)]
pub struct Natural {
    limbs: Vec<u32>,
}

impl View for Natural {
    type V = nat;

    closed spec fn view(&self) -> nat {
        limbs_value(self.limbs@)
    }
}

/// How two numbers compare.
#[derive(Debug, Clone, Copy, PartialEq, Eq, Structural)]
pub enum Relation {
    Less,
    Equal,
    Greater,
}

/// The relation between two numbers.
pub open spec fn relation(a: nat, b: nat) -> Relation {
    if a < b {
        Relation::Less
    } else if a == b {
        Relation::Equal
    } else {
        Relation::Greater
    }
}

/// `base` to the power of the given bound, for the value of a limb prefix.
spec fn base_pow(n: nat) -> nat
    decreases n,
{
    if n == 0 {
        1
    } else {
        limb_base() * base_pow((n - 1) as nat)
    }
}

proof fn limbs_value_push(s: Seq<u32>, x: u32)
    ensures
        limbs_value(s.push(x)) == limbs_value(s) + x as nat * base_pow(s.len()),
    decreases s.len(),
{
    if s.len() == 0 {
        assert(s.push(x).drop_first() =~= Seq::<u32>::empty());
        assert(limbs_value(s.push(x)) == x as nat + limb_base() * limbs_value(Seq::<u32>::empty()));
        assert(limbs_value(Seq::<u32>::empty()) == 0);
        assert(limbs_value(s) == 0);
        assert(base_pow(0) == 1);
    } else {
        let t = s.drop_first();
        assert(s.push(x).drop_first() =~= t.push(x));
        limbs_value_push(t, x);
        let a = limbs_value(t);
        let p = base_pow(t.len());
        assert(base_pow(s.len()) == limb_base() * p);
        assert(limb_base() * (a + x as nat * p) == limb_base() * a + x as nat * (limb_base() * p))
            by (nonlinear_arith);
        assert(s.push(x)[0] == s[0]);
        assert(limbs_value(s) == s[0] as nat + limb_base() * a);
        assert(limbs_value(s.push(x)) == s[0] as nat + limb_base() * limbs_value(t.push(x)));
    }
}

impl Natural {
    /// Zero.
    pub fn zero() -> (r: Natural)
        ensures
            r@ == 0,
    {
        Natural { limbs: Vec::new() }
    }

    /// The number times `m`, plus `c`.
    pub fn mul_add(&self, m: u64, c: u64) -> (r: Natural)
        ensures
            r@ == self@ * (m as nat) + c as nat,
    {
        let mut out: Vec<u32> = Vec::new();
        let mut carry: u64 = c;
        let mut i: usize = 0;
        let ghost all = self.limbs@;
        assert(all.take(0) =~= Seq::<u32>::empty());
        assert(base_pow(0) == 1);
        assert(limbs_value(all.take(0)) * (m as nat) == 0) by (nonlinear_arith)
            requires
                limbs_value(all.take(0)) == 0,
        ;
        while i < self.limbs.len()
            invariant
                i <= all.len(),
                all == self.limbs@,
                out@.len() == i,
                limbs_value(out@) + carry as nat * base_pow(i as nat) == limbs_value(
                    all.take(i as int),
                ) * (m as nat) + c as nat,
            decreases all.len() - i,
        {
            let limb: u32 = self.limbs[i];
            proof {
                assert((limb as int) * (m as int) <= 0xffff_ffff * 0xffff_ffff_ffff_ffff)
                    by (nonlinear_arith)
                    requires
                        0 <= limb <= 0xffff_ffff,
                        0 <= m <= 0xffff_ffff_ffff_ffff,
                ;
            }
            let t: u128 = (limb as u128) * (m as u128) + (carry as u128);
            let low: u32 = (t % 0x1_0000_0000u128) as u32;
            let high: u64 = (t / 0x1_0000_0000u128) as u64;
            proof {
                assert(t <= 0xffff_ffff * 0xffff_ffff_ffff_ffff + 0xffff_ffff_ffff_ffff);
                assert(t / 0x1_0000_0000u128 <= 0xffff_ffff_ffff_ffff);
                assert(t == low as nat + limb_base() * (high as nat));
                assert(all.take(i + 1) =~= all.take(i as int).push(limb));
                limbs_value_push(all.take(i as int), limb);
                limbs_value_push(out@, low);
                let p = base_pow(i as nat);
                let a = limbs_value(all.take(i as int));
                let o = limbs_value(out@);
                assert(base_pow((i + 1) as nat) == limb_base() * p);
                assert((o + low as nat * p) + high as nat * (limb_base() * p) == (a + limb as nat
                    * p) * (m as nat) + c as nat) by (nonlinear_arith)
                    requires
                        o + carry as nat * p == a * (m as nat) + c as nat,
                        limb as nat * (m as nat) + carry as nat == low as nat + limb_base() * (
                        high as nat),
                ;
            }
            out.push(low);
            carry = high;
            i += 1;
        }
        let low: u32 = (carry % 0x1_0000_0000u64) as u32;
        let high: u32 = (carry / 0x1_0000_0000u64) as u32;
        proof {
            assert(all.take(all.len() as int) =~= all);
            let p = base_pow(all.len());
            limbs_value_push(out@, low);
            limbs_value_push(out@.push(low), high);
            assert(base_pow(all.len() + 1) == limb_base() * p);
            assert(carry == low as nat + limb_base() * (high as nat));
            let o = limbs_value(out@);
            assert(o + low as nat * p + high as nat * (limb_base() * p) == o + carry as nat * p)
                by (nonlinear_arith)
                requires
                    carry as nat == low as nat + limb_base() * (high as nat),
            ;
        }
        out.push(low);
        out.push(high);
        Natural { limbs: out }
    }

    /// The number times two to the power of `k`.
    pub fn shifted(self, k: u64) -> (r: Natural)
        ensures
            r@ == self@ * pow2(k as nat),
    {
        let ghost start = self@;
        let mut v = self;
        let mut left: u64 = k;
        proof {
            vstd::arithmetic::power2::lemma2_to64();
            assert(start * pow2(0) == start);
        }
        while left >= 32
            invariant
                left <= k,
                v@ * pow2(left as nat) == start * pow2(k as nat),
            decreases left,
        {
            proof {
                vstd::arithmetic::power2::lemma2_to64();
                vstd::arithmetic::power2::lemma_pow2_adds(32, (left - 32) as nat);
                let a = v@;
                let q = pow2((left - 32) as nat);
                assert(a * 0x1_0000_0000 * q == a * (0x1_0000_0000 * q)) by (nonlinear_arith);
            }
            v = v.mul_add(0x1_0000_0000, 0);
            left = left - 32;
        }
        while left > 0
            invariant
                left <= k,
                v@ * pow2(left as nat) == start * pow2(k as nat),
            decreases left,
        {
            proof {
                vstd::arithmetic::power2::lemma_pow2_unfold(left as nat);
                let a = v@;
                let q = pow2((left - 1) as nat);
                assert(a * 2 * q == a * (2 * q)) by (nonlinear_arith);
            }
            v = v.mul_add(2, 0);
            left = left - 1;
        }
        proof {
            vstd::arithmetic::power2::lemma2_to64();
            assert(v@ * 1 == v@);
        }
        v
    }

    /// How the number compares with another.
    pub fn compare(&self, other: &Natural) -> (r: Relation)
        ensures
            r == relation(self@, other@),
    {
        let a = &self.limbs;
        let b = &other.limbs;
        let top: usize = if a.len() < b.len() { b.len() } else { a.len() };
        let mut i: usize = top;
        let mut r = Relation::Equal;
        assert(tail_value(a@, top as int) == 0);
        assert(tail_value(b@, top as int) == 0);
        while i > 0
            invariant
                i <= top,
                r == relation(tail_value(a@, i as int), tail_value(b@, i as int)),
            decreases i,
        {
            i = i - 1;
            let x: u32 = if i < a.len() { a[i] } else { 0 };
            let y: u32 = if i < b.len() { b[i] } else { 0 };
            proof {
                tail_value_step(a@, i as int);
                tail_value_step(b@, i as int);
            }
            if r == Relation::Equal {
                if x < y {
                    r = Relation::Less;
                } else if x > y {
                    r = Relation::Greater;
                }
            }
        }
        assert(a@.skip(0) =~= a@);
        assert(b@.skip(0) =~= b@);
        r
    }
}

/// The value of the limbs from position `i` on.
spec fn tail_value(s: Seq<u32>, i: int) -> nat {
    if i >= s.len() {
        0
    } else {
        limbs_value(s.skip(i))
    }
}

proof fn tail_value_step(s: Seq<u32>, i: int)
    requires
        0 <= i,
    ensures
        tail_value(s, i) == (if i < s.len() { s[i] as nat } else { 0 }) + limb_base() * tail_value(
            s,
            i + 1,
        ),
{
    if i < s.len() {
        assert(s.skip(i).drop_first() =~= s.skip(i + 1));
        assert(limbs_value(s.skip(i)) == s[i] as nat + limb_base() * limbs_value(s.skip(i + 1)));
        if i + 1 == s.len() {
            assert(s.skip(i + 1) =~= Seq::<u32>::empty());
            assert(limbs_value(Seq::<u32>::empty()) == 0);
        }
    }
}

// ---------------------------------------------------------------------------
// Nearest double
// ---------------------------------------------------------------------------

/// The bit pattern of positive infinity.
pub const INFINITY_BITS: u64 = 0x7ff0_0000_0000_0000;

/// The exponent field of a bit pattern.
pub open spec fn exponent_of(bits: nat) -> nat {
    bits / 0x10_0000_0000_0000
}

/// The significand of a bit pattern, with the implicit leading bit.
pub open spec fn significand_of(bits: nat) -> nat {
    bits % 0x10_0000_0000_0000 + (if exponent_of(bits) > 0 { 0x10_0000_0000_0000 } else { 0nat })
}

/// Units of the last place, as a power of two above the smallest one.
pub open spec fn scale_of(bits: nat) -> nat {
    if exponent_of(bits) > 0 {
        (exponent_of(bits) - 1) as nat
    } else {
        0
    }
}

/// The value of a finite non-negative bit pattern, in units of the smallest
/// positive double, two to the power of minus 1074.
pub open spec fn finite_units(bits: nat) -> nat {
    significand_of(bits) * pow2(scale_of(bits))
}

/// Twice the midpoint between a bit pattern and its successor, in the units of
/// [`finite_units`].
pub open spec fn twice_midpoint(bits: nat) -> nat {
    (2 * significand_of(bits) + 1) * pow2(scale_of(bits))
}

/// Ten to the power of `k`.
pub open spec fn pow10(k: nat) -> nat
    decreases k,
{
    if k == 0 {
        1
    } else {
        10 * pow10((k - 1) as nat)
    }
}

/// Whether `n / 10^k` rounds, to nearest with ties to even, to a double above
/// the one with the given bit pattern.
pub open spec fn rounds_above(n: nat, k: nat, bits: nat) -> bool {
    let exact = n * pow2(1075);
    let mid = twice_midpoint(bits) * pow10(k);
    exact > mid || (exact == mid && bits % 2 == 1)
}

/// Whether `bits` is the double nearest to `n / 10^k`, with ties to even and
/// values beyond the largest finite double going to infinity.
pub open spec fn is_nearest(n: nat, k: nat, bits: u64) -> bool {
    &&& bits <= INFINITY_BITS
    &&& bits < INFINITY_BITS ==> !rounds_above(n, k, bits as nat)
    &&& bits > 0 ==> rounds_above(n, k, (bits - 1) as nat)
}

/// The bit pattern of the double nearest to `n / 10^k`.
pub open spec fn nearest_bits(n: nat, k: nat) -> u64 {
    choose|b: u64| is_nearest(n, k, b)
}

/// Midpoints grow with the bit pattern.
pub proof fn midpoints_increase(a: nat, b: nat)
    requires
        a < b,
    ensures
        twice_midpoint(a) < twice_midpoint(b),
    decreases b - a,
{
    if a + 1 < b {
        midpoints_increase(a, (b - 1) as nat);
        midpoints_increase((b - 1) as nat, b);
    } else {
        let ea = exponent_of(a);
        let eb = exponent_of(b);
        let pa = pow2(scale_of(a));
        vstd::arithmetic::power2::lemma_pow2_pos(scale_of(a));
        if ea == eb {
            assert(significand_of(b) == significand_of(a) + 1);
            let m = significand_of(a);
            assert((2 * m + 1) * pa < (2 * (m + 1) + 1) * pa) by (nonlinear_arith)
                requires
                    pa > 0,
            ;
        } else {
            assert(eb == ea + 1);
            assert(significand_of(b) == 0x10_0000_0000_0000);
            if ea == 0 {
                assert(scale_of(b) == 0);
                assert(significand_of(a) == 0xf_ffff_ffff_ffff);
                assert((2 * 0xf_ffff_ffff_ffffnat + 1) * pa < (2 * 0x10_0000_0000_0000nat + 1) * pa)
                    by (nonlinear_arith)
                    requires
                        pa > 0,
                ;
            } else {
                assert(significand_of(a) == 0x1f_ffff_ffff_ffff);
                vstd::arithmetic::power2::lemma_pow2_unfold(scale_of(b));
                assert(pow2(scale_of(b)) == 2 * pa);
                assert((2 * 0x1f_ffff_ffff_ffffnat + 1) * pa < (2 * 0x10_0000_0000_0000nat + 1) * (2
                    * pa)) by (nonlinear_arith)
                    requires
                        pa > 0,
                ;
            }
        }
    }
}

/// Powers of ten are positive.
pub proof fn pow10_pos(k: nat)
    ensures
        pow10(k) > 0,
    decreases k,
{
    if k > 0 {
        pow10_pos((k - 1) as nat);
    }
}

proof fn above_goes_down(n: nat, k: nat, a: nat, b: nat)
    requires
        a < b,
        rounds_above(n, k, b),
    ensures
        rounds_above(n, k, a),
{
    midpoints_increase(a, b);
    pow10_pos(k);
    let x = twice_midpoint(a);
    let y = twice_midpoint(b);
    let p = pow10(k);
    assert(x * p < y * p) by (nonlinear_arith)
        requires
            x < y,
            p > 0,
    ;
}

/// At most one bit pattern is nearest to a given decimal fraction.
pub proof fn nearest_is_unique(n: nat, k: nat, a: u64, b: u64)
    requires
        is_nearest(n, k, a),
        is_nearest(n, k, b),
    ensures
        a == b,
{
    if a < b {
        if a < b - 1 {
            above_goes_down(n, k, a as nat, (b - 1) as nat);
        }
    } else if b < a {
        if b < a - 1 {
            above_goes_down(n, k, b as nat, (a - 1) as nat);
        }
    }
}

/// Ten to the power of `k`.
fn power_of_ten(k: usize) -> (r: Natural)
    ensures
        r@ == pow10(k as nat),
{
    let mut v = Natural::zero().mul_add(0, 1);
    let mut i: usize = 0;
    while i < k
        invariant
            i <= k,
            v@ == pow10(i as nat),
        decreases k - i,
    {
        v = v.mul_add(10, 0);
        i += 1;
    }
    v
}

/// Whether `n / 10^k` rounds above a finite bit pattern, given `n * 2^1075`
/// and `10^k`.
fn is_above(exact: &Natural, ten: &Natural, bits: u64, n: Ghost<nat>, k: Ghost<nat>) -> (r: bool)
    requires
        bits < INFINITY_BITS,
        exact@ == n@ * pow2(1075),
        ten@ == pow10(k@),
    ensures
        r == rounds_above(n@, k@, bits as nat),
{
    let field: u64 = bits / 0x10_0000_0000_0000;
    let low: u64 = bits % 0x10_0000_0000_0000;
    let significand: u64 = if field > 0 { low + 0x10_0000_0000_0000 } else { low };
    let scale: u64 = if field > 0 { field - 1 } else { 0 };
    let mid = ten.mul_add(2 * significand + 1, 0).shifted(scale);
    proof {
        let t = ten@;
        let m = (2 * significand + 1) as nat;
        let q = pow2(scale as nat);
        assert(t * m * q == (m * q) * t) by (nonlinear_arith);
    }
    match exact.compare(&mid) {
        Relation::Greater => true,
        Relation::Equal => bits % 2 == 1,
        Relation::Less => false,
    }
}

/// The bit pattern of the double nearest to `n / 10^k`.
pub fn nearest_double(n: &Natural, k: usize) -> (r: u64)
    ensures
        is_nearest(n@, k as nat, r),
        r == nearest_bits(n@, k as nat),
{
    let ten = power_of_ten(k);
    let exact = n.mul_add(1, 0).shifted(1075);
    let mut lo: u64 = 0;
    let mut hi: u64 = INFINITY_BITS;
    while lo < hi
        invariant
            lo <= hi <= INFINITY_BITS,
            exact@ == n@ * pow2(1075),
            ten@ == pow10(k as nat),
            hi < INFINITY_BITS ==> !rounds_above(n@, k as nat, hi as nat),
            lo > 0 ==> rounds_above(n@, k as nat, (lo - 1) as nat),
        decreases hi - lo,
    {
        let mid: u64 = lo + (hi - lo) / 2;
        if is_above(&exact, &ten, mid, Ghost(n@), Ghost(k as nat)) {
            lo = mid + 1;
        } else {
            hi = mid;
        }
    }
    proof {
        assert(is_nearest(n@, k as nat, lo));
        nearest_is_unique(n@, k as nat, lo, nearest_bits(n@, k as nat));
    }
    lo
}

// ---------------------------------------------------------------------------
// Decimal text
// ---------------------------------------------------------------------------

/// The numerator of a positive finite double divided by `10^x`.
pub open spec fn numerator(bits: nat, x: int) -> nat {
    if x >= 0 {
        finite_units(bits)
    } else {
        finite_units(bits) * pow10((-x) as nat)
    }
}

/// The denominator of a positive finite double divided by `10^x`.
pub open spec fn denominator(x: int) -> nat {
    if x >= 0 {
        pow10(x as nat) * pow2(1074)
    } else {
        pow2(1074)
    }
}

/// The least exponent, from a given one on, above which a double lies below the
/// next power of ten.
pub open spec fn decimal_exponent(bits: nat, e: int) -> int
    decreases 308 - e,
{
    if e >= 308 || numerator(bits, e + 1) < denominator(e + 1) {
        e
    } else {
        decimal_exponent(bits, e + 1)
    }
}

/// Ten to the power of eighteen, more than what is ever written before stripping.
pub const DIGIT_LIMIT: u64 = 1_000_000_000_000_000_000;

/// A double in units of `10^x`, rounded down.
pub open spec fn leading(bits: nat, x: int) -> nat {
    let d = numerator(bits, x) / denominator(x);
    if d > DIGIT_LIMIT {
        DIGIT_LIMIT as nat
    } else {
        d
    }
}

/// Whether `d * 10^x` reads back as a double.
pub open spec fn reads_back(d: nat, x: int, bits: u64) -> bool {
    if x >= 0 {
        nearest_bits(d * pow10(x as nat), 0) == bits
    } else {
        nearest_bits(d, (-x) as nat) == bits
    }
}

/// The multiple of `10^x` closest to a double, of those beside it that read back.
pub open spec fn closest(bits: u64, x: int) -> Option<nat> {
    let d = leading(bits as nat, x);
    let low = reads_back(d, x, bits);
    let high = reads_back(d + 1, x, bits);
    if high && (!low || 2 * numerator(bits as nat, x) >= (2 * d + 1) * denominator(x)) {
        Some(d + 1)
    } else if low {
        Some(d)
    } else {
        None
    }
}

/// The shortest decimal `d * 10^x` that reads back as a double, with at least `n`
/// digits, where the first digit stands for `10^e`. At most seventeen digits are
/// tried.
pub open spec fn shortest(bits: u64, e: int, n: int) -> (nat, int)
    decreases 17 - n,
{
    let x = e - n + 1;
    match closest(bits, x) {
        Some(d) => (d, x),
        None => if n >= 17 {
            (leading(bits as nat, x), x)
        } else {
            shortest(bits, e, n + 1)
        },
    }
}

/// A decimal without zeros at its end.
pub open spec fn stripped(d: nat, x: int) -> (nat, int)
    decreases d,
{
    if d > 0 && d % 10 == 0 {
        stripped(d / 10, x + 1)
    } else {
        (d, x)
    }
}

/// A number of zeros.
pub open spec fn zeros(k: nat) -> Seq<char> {
    Seq::new(k, |i: int| '0')
}

/// The text of `d * 10^x`, without an exponent.
pub open spec fn plain_text(d: nat, x: int) -> Seq<char> {
    let ds = crate::text::dec(d);
    let point = ds.len() + x;
    if x >= 0 {
        ds + zeros(x as nat)
    } else if point > 0 {
        ds.take(point) + "."@ + ds.skip(point)
    } else {
        "0."@ + zeros((-point) as nat) + ds
    }
}

/// The text of a non-negative double: the shortest decimal that reads back.
pub open spec fn magnitude_text(bits: u64) -> Seq<char> {
    if bits > INFINITY_BITS {
        "NaN"@
    } else if bits == INFINITY_BITS {
        "inf"@
    } else if bits == 0 {
        "0"@
    } else {
        let e = decimal_exponent(bits as nat, -324);
        let (d, x) = shortest(bits, e, 1);
        let (d, x) = stripped(d, x);
        plain_text(d, x)
    }
}

/// The bit pattern of minus zero: the sign bit alone.
pub const SIGN_BITS: u64 = 0x8000_0000_0000_0000;

/// How a double is written.
pub open spec fn double_text(bits: u64) -> Seq<char> {
    if bits < SIGN_BITS {
        magnitude_text(bits)
    } else if bits - SIGN_BITS > INFINITY_BITS {
        "NaN"@
    } else {
        "-"@ + magnitude_text((bits - SIGN_BITS) as u64)
    }
}

fn units(bits: u64) -> (r: Natural)
    requires
        bits < INFINITY_BITS,
    ensures
        r@ == finite_units(bits as nat),
{
    let field: u64 = bits / 0x10_0000_0000_0000;
    let low: u64 = bits % 0x10_0000_0000_0000;
    let significand: u64 = if field > 0 { low + 0x10_0000_0000_0000 } else { low };
    let scale: u64 = if field > 0 { field - 1 } else { 0 };
    Natural::zero().mul_add(0, significand).shifted(scale)
}

fn times_power(n: Natural, k: usize) -> (r: Natural)
    ensures
        r@ == n@ * pow10(k as nat),
{
    let ghost start = n@;
    let mut v = n;
    let mut i: usize = 0;
    assert(start * pow10(0) == start) by (nonlinear_arith)
        requires
            pow10(0) == 1,
    ;
    while i < k
        invariant
            i <= k,
            v@ == start * pow10(i as nat),
        decreases k - i,
    {
        proof {
            let p = pow10(i as nat);
            assert(start * p * 10 == start * (10 * p)) by (nonlinear_arith);
            assert(pow10((i + 1) as nat) == 10 * p);
        }
        v = v.mul_add(10, 0);
        i += 1;
    }
    v
}

/// The numerator and the denominator of a double divided by `10^x`.
fn ratio(bits: u64, x: i32) -> (r: (Natural, Natural))
    requires
        bits < INFINITY_BITS,
        -400 <= x <= 400,
    ensures
        r.0@ == numerator(bits as nat, x as int),
        r.1@ == denominator(x as int),
{
    let u = units(bits);
    let one = Natural::zero().mul_add(0, 1);
    proof {
        let p = pow2(1074);
        assert(1 * p == p) by (nonlinear_arith);
        assert(pow10(0) == 1);
    }
    if x >= 0 {
        let t = power_of_ten(x as usize);
        (u, t.shifted(1074))
    } else {
        let k: i32 = -x;
        (times_power(u, k as usize), one.shifted(1074))
    }
}

fn find_exponent(bits: u64) -> (r: i32)
    requires
        bits < INFINITY_BITS,
    ensures
        r == decimal_exponent(bits as nat, -324),
        -324 <= r <= 308,
{
    let mut e: i32 = -324;
    while e < 308
        invariant
            bits < INFINITY_BITS,
            -324 <= e <= 308,
            decimal_exponent(bits as nat, -324) == decimal_exponent(bits as nat, e as int),
        decreases 308 - e,
    {
        let (n, m) = ratio(bits, e + 1);
        if n.compare(&m) == Relation::Less {
            return e;
        }
        e += 1;
    }
    e
}

fn find_leading(n: &Natural, m: &Natural) -> (r: u64)
    requires
        m@ > 0,
    ensures
        r == (if n@ / m@ > DIGIT_LIMIT { DIGIT_LIMIT as nat } else { n@ / m@ }),
{
    let mut lo: u64 = 0;
    let mut hi: u64 = DIGIT_LIMIT + 1;
    assert(0 * m@ == 0) by (nonlinear_arith);
    while hi - lo > 1
        invariant
            lo < hi <= DIGIT_LIMIT + 1,
            m@ > 0,
            lo * m@ <= n@,
            hi <= DIGIT_LIMIT ==> n@ < hi * m@,
        decreases hi - lo,
    {
        let mid: u64 = lo + (hi - lo) / 2;
        let t = m.mul_add(mid, 0);
        assert(m@ * mid == mid * m@) by (nonlinear_arith);
        match t.compare(n) {
            Relation::Greater => {
                hi = mid;
            },
            _ => {
                lo = mid;
            },
        }
    }
    proof {
        let a = n@ as int;
        let b = m@ as int;
        let q = lo as int;
        if hi <= DIGIT_LIMIT {
            assert(hi == lo + 1);
            assert((q + 1) * b == q * b + b) by (nonlinear_arith);
            vstd::arithmetic::div_mod::lemma_fundamental_div_mod_converse(a, b, q, a - q * b);
        } else {
            assert(lo == DIGIT_LIMIT);
            vstd::arithmetic::div_mod::lemma_div_is_ordered(q * b, a, b);
            vstd::arithmetic::div_mod::lemma_div_by_multiple(q, b);
        }
    }
    lo
}

fn does_read_back(d: u64, x: i32, bits: u64) -> (r: bool)
    requires
        -400 <= x <= 400,
    ensures
        r == reads_back(d as nat, x as int, bits),
{
    let n = Natural::zero().mul_add(0, d);
    if x >= 0 {
        nearest_double(&times_power(n, x as usize), 0) == bits
    } else {
        let k: i32 = -x;
        nearest_double(&n, k as usize) == bits
    }
}

fn find_closest(bits: u64, x: i32) -> (r: (u64, bool))
    requires
        bits < INFINITY_BITS,
        -400 <= x <= 400,
    ensures
        r.0 <= DIGIT_LIMIT + 1,
        match closest(bits, x as int) {
            Some(d) => r.1 && r.0 == d,
            None => !r.1 && r.0 == leading(bits as nat, x as int),
        },
{
    let (n, m) = ratio(bits, x);
    proof {
        vstd::arithmetic::power2::lemma_pow2_pos(1074);
        if x >= 0 {
            pow10_pos(x as nat);
            let a = pow10(x as nat);
            let b = pow2(1074);
            assert(a * b > 0) by (nonlinear_arith)
                requires
                    a > 0,
                    b > 0,
            ;
        }
    }
    let d: u64 = find_leading(&n, &m);
    let low = does_read_back(d, x, bits);
    let high = does_read_back(d + 1, x, bits);
    let twice = n.mul_add(2, 0);
    let mid = m.mul_add(2 * d + 1, 0);
    proof {
        let b = m@;
        let k = (2 * d + 1) as nat;
        assert(b * k == k * b) by (nonlinear_arith);
    }
    let up = match twice.compare(&mid) {
        Relation::Less => false,
        _ => true,
    };
    if high && (!low || up) {
        (d + 1, true)
    } else {
        (d, low)
    }
}

fn find_shortest(bits: u64) -> (r: (u64, i32))
    requires
        bits < INFINITY_BITS,
    ensures
        (r.0 as nat, r.1 as int) == shortest(bits, decimal_exponent(bits as nat, -324), 1),
        -400 <= r.1 <= 400,
{
    let e: i32 = find_exponent(bits);
    let mut n: i32 = 1;
    loop
        invariant
            bits < INFINITY_BITS,
            1 <= n <= 17,
            -324 <= e <= 308,
            shortest(bits, e as int, 1) == shortest(bits, e as int, n as int),
            e == decimal_exponent(bits as nat, -324),
        decreases 17 - n,
    {
        let x: i32 = e - n + 1;
        let (d, found) = find_closest(bits, x);
        if found || n >= 17 {
            return (d, x);
        }
        n += 1;
    }
}

fn strip(d: u64, x: i32) -> (r: (u64, i32))
    requires
        -400 <= x <= 400,
    ensures
        (r.0 as nat, r.1 as int) == stripped(d as nat, x as int),
        -400 <= r.1 <= 500,
{
    let mut d = d;
    let mut x = x;
    let mut k: i32 = 0;
    let ghost want = stripped(d as nat, x as int);
    let ghost start = x;
    proof {
        fewer_digits(d);
    }
    while d > 0 && d % 10 == 0
        invariant
            want == stripped(d as nat, x as int),
            -400 <= start <= 400,
            x == start + k,
            0 <= k <= 20,
            d * pow10(k as nat) <= u64::MAX,
        decreases d,
    {
        proof {
            let a = (d / 10) as nat;
            let p = pow10(k as nat);
            assert(a * (10 * p) == (10 * a) * p) by (nonlinear_arith);
            assert((10 * a) * p <= d * p) by (nonlinear_arith)
                requires
                    10 * a <= d,
                    p >= 0,
            ;
            assert(pow10((k + 1) as nat) == 10 * p);
            if k >= 20 {
                reveal_with_fuel(pow10, 21);
                pow10_grows(20, k as nat);
                assert(d * p >= p) by (nonlinear_arith)
                    requires
                        d >= 1,
                        p >= 0,
                ;
                assert(pow10(20) == 100_000_000_000_000_000_000nat);
                assert(false);
            }
        }
        d = d / 10;
        x = x + 1;
        k = k + 1;
    }
    (d, x)
}

proof fn fewer_digits(d: u64)
    ensures
        d * pow10(0) <= u64::MAX,
{
    assert(pow10(0) == 1);
    assert(d * 1 == d) by (nonlinear_arith);
}

proof fn pow10_grows(a: nat, b: nat)
    requires
        a <= b,
    ensures
        pow10(a) <= pow10(b),
    decreases b - a,
{
    if a < b {
        pow10_grows(a, (b - 1) as nat);
    }
}

fn add_zeros(s: &mut String, k: usize)
    ensures
        final(s)@ == old(s)@ + zeros(k as nat),
{
    let ghost start = s@;
    let mut i: usize = 0;
    assert(start + zeros(0) =~= start);
    while i < k
        invariant
            i <= k,
            s@ == start + zeros(i as nat),
        decreases k - i,
    {
        s.push('0');
        assert(s@ =~= start + zeros((i + 1) as nat));
        i += 1;
    }
}

fn show_plain(d: u64, x: i32) -> (r: String)
    requires
        -400 <= x <= 500,
    ensures
        r@ == plain_text(d as nat, x as int),
{
    let ds = crate::text::dec_u64(d);
    let cs = crate::text::chars_of(ds.as_str());
    let n: usize = cs.len();
    if x >= 0 {
        let mut r = ds;
        add_zeros(&mut r, x as usize);
        return r;
    }
    let k: i32 = -x;
    let back: usize = k as usize;
    if n > back {
        let point: usize = n - back;
        let mut r = crate::text::string_of(&cs, 0, point);
        let tail = crate::text::string_of(&cs, point, n);
        assert(r@ =~= ds@.take(point as int));
        assert(tail@ =~= ds@.skip(point as int));
        r.append(".");
        r.append(tail.as_str());
        r
    } else {
        let mut r = crate::text::owned("0.");
        add_zeros(&mut r, back - n);
        r.append(ds.as_str());
        r
    }
}

fn show_magnitude(bits: u64) -> (r: String)
    ensures
        r@ == magnitude_text(bits),
{
    if bits > INFINITY_BITS {
        crate::text::owned("NaN")
    } else if bits == INFINITY_BITS {
        crate::text::owned("inf")
    } else if bits == 0 {
        crate::text::owned("0")
    } else {
        let (d, x) = find_shortest(bits);
        let (d, x) = strip(d, x);
        show_plain(d, x)
    }
}

/// How a double is written: the shortest decimal that reads back, without an
/// exponent.
pub fn show_double(bits: u64) -> (r: String)
    ensures
        r@ == double_text(bits),
{
    if bits < SIGN_BITS {
        show_magnitude(bits)
    } else if bits - SIGN_BITS > INFINITY_BITS {
        crate::text::owned("NaN")
    } else {
        crate::text::cat("-", show_magnitude(bits - SIGN_BITS).as_str())
    }
}

} // verus!
