//! What holds of every double that is written: its digits read back.

use vstd::arithmetic::power2::{lemma_pow2_adds, lemma_pow2_pos, lemma_pow2_unfold, pow2};
use vstd::prelude::*;

use crate::float;
use crate::float::{DIGIT_LIMIT, INFINITY_BITS};

verus! {

proof fn pow10_adds(a: nat, b: nat)
    ensures
        float::pow10(a + b) == float::pow10(a) * float::pow10(b),
    decreases b,
{
    let p = float::pow10(a);
    if b == 0 {
        assert(p * 1 == p) by (nonlinear_arith);
    } else {
        pow10_adds(a, (b - 1) as nat);
        let q = float::pow10((b - 1) as nat);
        assert(float::pow10(a + b) == 10 * float::pow10((a + b - 1) as nat));
        assert(10 * (p * q) == p * (10 * q)) by (nonlinear_arith);
    }
}

/// Two to the power of ninety-three lies just below a power of ten.
proof fn ninety_three_bits()
    ensures
        pow2(93) < float::pow10(28),
        pow2(53) < float::pow10(16),
        pow2(51) < float::pow10(16),
        float::pow10(16) == 10_000_000_000_000_000,
        float::pow10(17) == 100_000_000_000_000_000,
        pow2(52) == 0x10_0000_0000_0000,
        pow2(53) == 0x20_0000_0000_0000,
        pow2(1) == 2,
{
    vstd::arithmetic::power2::lemma2_to64();
    reveal_with_fuel(float::pow10, 29);
    vstd::arithmetic::power2::lemma2_to64_rest();
    lemma_pow2_adds(46, 47);
}

/// Powers of ten outgrow powers of two.
proof fn outgrown(k: nat)
    ensures
        pow2(93 * k) <= float::pow10(28 * k),
    decreases k,
{
    if k == 0 {
        vstd::arithmetic::power2::lemma2_to64();
    } else {
        let j = (k - 1) as nat;
        outgrown(j);
        ninety_three_bits();
        lemma_pow2_adds(93 * j, 93);
        pow10_adds(28 * j, 28);
        let (a, b, c, d) = (pow2(93 * j), float::pow10(28 * j), pow2(93), float::pow10(28));
        assert(a * c <= b * d) by (nonlinear_arith)
            requires
                a <= b,
                c <= d,
        ;
        assert(93 * j + 93 == 93 * k);
        assert(28 * j + 28 == 28 * k);
    }
}

/// The smallest positive double is at least ten to the power of minus 324, and
/// every finite one lies below ten to the power of 309.
proof fn doubles_are_bounded()
    ensures
        pow2(1074) <= float::pow10(324),
        pow2(1024) < float::pow10(309),
{
    ninety_three_bits();
    outgrown(11);
    let (a, b) = (pow2(1023), float::pow10(308));
    lemma_pow2_adds(1023, 51);
    pow10_adds(308, 16);
    let (c, d) = (pow2(51), float::pow10(16));
    assert(a * c <= b * d) by (nonlinear_arith)
        requires
            a <= b,
            c <= d,
    ;
    lemma_pow2_unfold(1024);
    float::pow10_pos(308);
}

proof fn denominator_pos(x: int)
    ensures
        float::denominator(x) > 0,
{
    lemma_pow2_pos(1074);
    if x >= 0 {
        float::pow10_pos(x as nat);
        let (a, b) = (float::pow10(x as nat), pow2(1074));
        assert(a * b > 0) by (nonlinear_arith)
            requires
                a > 0,
                b > 0,
        ;
    }
}

/// One more digit: a double is ten times as many units of a tenth of the size.
proof fn one_more_digit(bits: nat, x: int, c: nat)
    ensures
        float::numerator(bits, x) >= c * float::denominator(x) <==> float::numerator(bits, x - 1)
            >= (10 * c) * float::denominator(x - 1),
{
    let v = float::finite_units(bits);
    let p = pow2(1074);
    if x > 0 {
        let t = float::pow10((x - 1) as nat);
        assert(float::pow10(x as nat) == 10 * t);
        assert(c * ((10 * t) * p) == (10 * c) * (t * p)) by (nonlinear_arith);
    } else if x == 0 {
        assert(float::pow10(0) == 1);
        assert(float::pow10(1) == 10 * float::pow10(0));
        assert(1 * p == p) by (nonlinear_arith);
        assert((10 * c) * p == 10 * (c * p)) by (nonlinear_arith);
        assert(v * 10 == 10 * v) by (nonlinear_arith);
    } else {
        let t = float::pow10((-x) as nat);
        assert(float::pow10((-(x - 1)) as nat) == 10 * t);
        assert(v * (10 * t) == 10 * (v * t)) by (nonlinear_arith);
        assert((10 * c) * p == 10 * (c * p)) by (nonlinear_arith);
    }
}

proof fn more_digits(bits: nat, x: int, k: nat)
    ensures
        float::numerator(bits, x) >= float::denominator(x) <==> float::numerator(bits, x - k)
            >= float::pow10(k) * float::denominator(x - k),
    decreases k,
{
    if k == 0 {
        let d = float::denominator(x);
        assert(1 * d == d) by (nonlinear_arith);
    } else {
        let j = (k - 1) as nat;
        more_digits(bits, x, j);
        one_more_digit(bits, x - j, float::pow10(j));
    }
}

proof fn significands_are_bounded(bits: nat)
    requires
        0 < bits < INFINITY_BITS,
    ensures
        0 < float::significand_of(bits) < 0x20_0000_0000_0000,
        float::scale_of(bits) <= 2045,
{
}

proof fn units_are_bounded(bits: nat)
    requires
        0 < bits < INFINITY_BITS,
    ensures
        1 <= float::finite_units(bits) < pow2(2098),
{
    significands_are_bounded(bits);
    ninety_three_bits();
    let s = float::scale_of(bits);
    let m = float::significand_of(bits);
    lemma_pow2_pos(s);
    if s < 2045 {
        vstd::arithmetic::power2::lemma_pow2_strictly_increases(s, 2045);
    }
    lemma_pow2_adds(53, 2045);
    let (a, b, c) = (pow2(53), pow2(s), pow2(2045));
    assert(m * b >= 1 && m * b < a * c) by (nonlinear_arith)
        requires
            0 < m < a,
            0 < b <= c,
    ;
}

/// The decimal exponent of a double is that of its first digit.
proof fn exponent_is_that_of_the_first_digit(bits: nat, e: int)
    requires
        0 < bits < INFINITY_BITS,
        e <= 308,
        float::numerator(bits, e) >= float::denominator(e),
    ensures
        ({
            let r = float::decimal_exponent(bits, e);
            &&& e <= r <= 308
            &&& float::numerator(bits, r) >= float::denominator(r)
            &&& float::numerator(bits, r + 1) < float::denominator(r + 1)
        }),
    decreases 308 - e,
{
    if e >= 308 {
        units_are_bounded(bits);
        doubles_are_bounded();
        lemma_pow2_adds(1024, 1074);
        lemma_pow2_pos(1074);
        let (v, a, b, p) = (
            float::finite_units(bits),
            pow2(1024),
            float::pow10(309),
            pow2(1074),
        );
        assert(a * p < b * p) by (nonlinear_arith)
            requires
                a < b,
                p > 0,
        ;
    } else if !(float::numerator(bits, e + 1) < float::denominator(e + 1)) {
        exponent_is_that_of_the_first_digit(bits, e + 1);
    }
}

proof fn doubles_have_a_first_digit(bits: nat)
    requires
        0 < bits < INFINITY_BITS,
    ensures
        float::numerator(bits, -324) >= float::denominator(-324),
{
    units_are_bounded(bits);
    doubles_are_bounded();
    let (v, t) = (float::finite_units(bits), float::pow10(324));
    assert(v * t >= t) by (nonlinear_arith)
        requires
            v >= 1,
    ;
}

/// Whether a double is the one nearest to `d * 10^x`.
pub open spec fn is_near(d: nat, x: int, bits: u64) -> bool {
    if x >= 0 {
        float::is_nearest(d * float::pow10(x as nat), 0, bits)
    } else {
        float::is_nearest(d, (-x) as nat, bits)
    }
}

proof fn near_reads_back(d: nat, x: int, bits: u64)
    requires
        is_near(d, x, bits),
    ensures
        float::reads_back(d, x, bits),
{
    let (n, k) = if x >= 0 {
        (d * float::pow10(x as nat), 0nat)
    } else {
        (d, (-x) as nat)
    };
    assert(float::is_nearest(n, k, bits));
    float::nearest_is_unique(n, k, bits, float::nearest_bits(n, k));
}

/// What a double is multiplied by in [`float::numerator`].
spec fn factor(x: int) -> nat {
    if x >= 0 {
        1
    } else {
        float::pow10((-x) as nat)
    }
}

proof fn factor_is(bits: nat, x: int)
    ensures
        factor(x) > 0,
        float::numerator(bits, x) == float::finite_units(bits) * factor(x),
{
    let v = float::finite_units(bits);
    assert(v * 1 == v) by (nonlinear_arith);
    if x < 0 {
        float::pow10_pos((-x) as nat);
    }
}

/// Rounding `c * 10^x`, in the units of the numerator and the denominator.
proof fn rounding_is(c: nat, x: int, bits: nat)
    ensures
        ({
            let above = 2 * c * float::denominator(x) > float::twice_midpoint(bits) * factor(x);
            let on = 2 * c * float::denominator(x) == float::twice_midpoint(bits) * factor(x);
            if x >= 0 {
                float::rounds_above(c * float::pow10(x as nat), 0, bits) == (above || (on && bits
                    % 2 == 1))
            } else {
                float::rounds_above(c, (-x) as nat, bits) == (above || (on && bits % 2 == 1))
            }
        }),
{
    let p = pow2(1074);
    lemma_pow2_unfold(1075);
    assert(pow2(1075) == 2 * p);
    if x >= 0 {
        let t = float::pow10(x as nat);
        assert((c * t) * (2 * p) == 2 * c * (t * p)) by (nonlinear_arith);
        assert(float::pow10(0) == 1);
    } else {
        assert(c * (2 * p) == 2 * c * p) by (nonlinear_arith);
    }
}

/// Twice the midpoint below a double: half a unit of its last place below it, or
/// a quarter where it is a power of two.
proof fn midpoint_below(bits: nat)
    requires
        0 < bits < INFINITY_BITS,
    ensures
        ({
            let m = float::significand_of(bits);
            let g = pow2(float::scale_of(bits));
            let below = float::twice_midpoint((bits - 1) as nat);
            ||| below == (2 * m - 1) * g
            ||| m == 0x10_0000_0000_0000 && 2 * below == (4 * m - 1) * g
        }),
{
    let a = (bits - 1) as nat;
    let m = float::significand_of(bits);
    let g = pow2(float::scale_of(bits));
    if float::exponent_of(a) == float::exponent_of(bits) {
        assert(float::significand_of(a) == m - 1);
        assert(2 * (m - 1) + 1 == 2 * m - 1);
    } else {
        assert(float::exponent_of(bits) == float::exponent_of(a) + 1);
        assert(m == 0x10_0000_0000_0000);
        if float::exponent_of(a) == 0 {
            assert(float::scale_of(bits) == 0 && float::scale_of(a) == 0);
            assert(float::significand_of(a) == 0xf_ffff_ffff_ffff);
        } else {
            assert(float::significand_of(a) == 0x1f_ffff_ffff_ffff);
            lemma_pow2_unfold(float::scale_of(bits));
            let h = pow2(float::scale_of(a));
            assert(g == 2 * h);
            assert(2 * ((2 * 0x1f_ffff_ffff_ffffnat + 1) * h) == (4 * 0x10_0000_0000_0000nat - 1) * (2
                * h)) by (nonlinear_arith);
        }
    }
}

/// A decimal of seventeen digits that lies no further from a double than half a
/// unit of the last of them rounds to the double.
proof fn close_decimals_are_near(c: nat, x: int, bits: u64)
    requires
        0 < bits < INFINITY_BITS,
        float::numerator(bits as nat, x) >= float::pow10(16) * float::denominator(x),
        2 * float::numerator(bits as nat, x) <= (2 * c + 1) * float::denominator(x),
        (2 * c - 1) * float::denominator(x) <= 2 * float::numerator(bits as nat, x),
    ensures
        is_near(c, x, bits),
{
    let b = bits as nat;
    let (n, d, t) = (float::numerator(b, x), float::denominator(x), factor(x));
    let (m, s) = (float::significand_of(b), pow2(float::scale_of(b)));
    let below = float::twice_midpoint((b - 1) as nat);
    denominator_pos(x);
    factor_is(b, x);
    significands_are_bounded(b);
    ninety_three_bits();
    lemma_pow2_pos(float::scale_of(b));
    rounding_is(c, x, b);
    rounding_is(c, x, (b - 1) as nat);
    midpoint_below(b);
    let g = s * t;
    assert(g > 0) by (nonlinear_arith)
        requires
            s > 0,
            t > 0,
            g == s * t,
    ;
    assert(n == m * g) by (nonlinear_arith)
        requires
            n == (m * s) * t,
            g == s * t,
    ;
    // A unit of the last digit is less than a unit of the last place.
    assert(d < g && (m == 0x10_0000_0000_0000 ==> 2 * d < g)) by (nonlinear_arith)
        requires
            n == m * g,
            n >= 10_000_000_000_000_000 * d,
            0 < m < 0x20_0000_0000_0000,
            g > 0,
            d > 0,
    ;
    let e = 2 * c * d;
    assert(e <= 2 * n + d && 2 * n - d <= e) by (nonlinear_arith)
        requires
            2 * n <= (2 * c + 1) * d,
            (2 * c - 1) * d <= 2 * n,
            e == 2 * c * d,
    ;
    assert(float::twice_midpoint(b) * t == 2 * n + g) by (nonlinear_arith)
        requires
            float::twice_midpoint(b) == (2 * m + 1) * s,
            n == m * g,
            g == s * t,
    ;
    if below == (2 * m - 1) * s {
        assert(below * t == 2 * n - g) by (nonlinear_arith)
            requires
                below == (2 * m - 1) * s,
                n == m * g,
                g == s * t,
        ;
    } else {
        assert(2 * (below * t) == 4 * n - g) by (nonlinear_arith)
            requires
                2 * below == (4 * m - 1) * s,
                n == m * g,
                g == s * t,
        ;
    }
}

/// Seventeen digits are enough.
proof fn seventeen_digits_suffice(bits: u64, e: int)
    requires
        0 < bits < INFINITY_BITS,
        float::numerator(bits as nat, e) >= float::denominator(e),
        float::numerator(bits as nat, e + 1) < float::denominator(e + 1),
    ensures
        float::closest(bits, e - 16) is Some,
{
    let b = bits as nat;
    let x = e - 16;
    let (n, m) = (float::numerator(b, x), float::denominator(x));
    more_digits(b, e, 16);
    more_digits(b, e + 1, 17);
    ninety_three_bits();
    denominator_pos(x);
    let d = n / m;
    vstd::arithmetic::div_mod::lemma_fundamental_div_mod(n as int, m as int);
    assert(d * m <= n && n < (d + 1) * m && d <= DIGIT_LIMIT) by (nonlinear_arith)
        requires
            n == m * d + n % m,
            0 <= n % m < m,
            n < 100_000_000_000_000_000 * m,
            m > 0,
            DIGIT_LIMIT == 1_000_000_000_000_000_000u64,
    ;
    assert(float::leading(b, x) == d);
    if 2 * n <= (2 * d + 1) * m {
        assert((2 * d - 1) * m <= 2 * n) by (nonlinear_arith)
            requires
                d * m <= n,
                m > 0,
        ;
        close_decimals_are_near(d, x, bits);
        near_reads_back(d, x, bits);
    } else {
        assert(2 * n <= (2 * (d + 1) + 1) * m && (2 * (d + 1) - 1) * m <= 2 * n) by (nonlinear_arith)
            requires
                n < (d + 1) * m,
                2 * n > (2 * d + 1) * m,
                m > 0,
        ;
        close_decimals_are_near(d + 1, x, bits);
        near_reads_back(d + 1, x, bits);
    }
}

proof fn shortest_reads_back(bits: u64, e: int, n: int)
    requires
        0 < bits < INFINITY_BITS,
        n <= 17,
        float::numerator(bits as nat, e) >= float::denominator(e),
        float::numerator(bits as nat, e + 1) < float::denominator(e + 1),
    ensures
        ({
            let (d, x) = float::shortest(bits, e, n);
            float::reads_back(d, x, bits)
        }),
    decreases 17 - n,
{
    if float::closest(bits, e - n + 1) is None {
        if n >= 17 {
            seventeen_digits_suffice(bits, e);
        } else {
            shortest_reads_back(bits, e, n + 1);
        }
    }
}

/// There is a double nearest to every decimal, at or below one that it does not
/// round above.
proof fn nearest_exists(n: nat, k: nat, b: u64) -> (r: u64)
    requires
        b <= INFINITY_BITS,
        b == INFINITY_BITS || !float::rounds_above(n, k, b as nat),
    ensures
        float::is_nearest(n, k, r),
    decreases b,
{
    if b == 0 || float::rounds_above(n, k, (b - 1) as nat) {
        b
    } else {
        nearest_exists(n, k, (b - 1) as u64)
    }
}

proof fn reading_back_is_near(d: nat, x: int, bits: u64)
    requires
        float::reads_back(d, x, bits),
    ensures
        is_near(d, x, bits),
{
    if x >= 0 {
        nearest_exists(d * float::pow10(x as nat), 0, INFINITY_BITS);
    } else {
        nearest_exists(d, (-x) as nat, INFINITY_BITS);
    }
}

proof fn rounding_without_a_zero(d: nat, x: int, bits: nat)
    ensures
        ({
            let (n, k) = if x >= 0 {
                ((10 * d) * float::pow10(x as nat), 0nat)
            } else {
                (10 * d, (-x) as nat)
            };
            let (m, j) = if x + 1 >= 0 {
                (d * float::pow10((x + 1) as nat), 0nat)
            } else {
                (d, (-(x + 1)) as nat)
            };
            float::rounds_above(n, k, bits) == float::rounds_above(m, j, bits)
        }),
{
    rounding_is(10 * d, x, bits);
    rounding_is(d, x + 1, bits);
    let (t, p) = (float::twice_midpoint(bits), float::denominator(x));
    if x >= 0 {
        let (a, b) = (float::pow10(x as nat), pow2(1074));
        assert(float::pow10((x + 1) as nat) == 10 * a);
        assert(2 * (10 * d) * (a * b) == 2 * d * ((10 * a) * b)) by (nonlinear_arith);
    } else {
        let f = factor(x + 1);
        assert(float::pow10(0) == 1);
        assert(factor(x) == 10 * f);
        assert(1 * pow2(1074) == pow2(1074)) by (nonlinear_arith);
        assert(float::denominator(x + 1) == p);
        assert(2 * (10 * d) * p == 10 * (2 * d * p)) by (nonlinear_arith);
        assert(t * (10 * f) == 10 * (t * f)) by (nonlinear_arith);
    }
}

proof fn stripped_reads_back(d: nat, x: int, bits: u64)
    requires
        float::reads_back(d, x, bits),
    ensures
        ({
            let (d2, x2) = float::stripped(d, x);
            float::reads_back(d2, x2, bits)
        }),
    decreases d,
{
    if d > 0 && d % 10 == 0 {
        reading_back_is_near(d, x, bits);
        assert(d == 10 * (d / 10));
        rounding_without_a_zero(d / 10, x, bits as nat);
        if bits > 0 {
            rounding_without_a_zero(d / 10, x, (bits - 1) as nat);
        }
        near_reads_back(d / 10, x + 1, bits);
        stripped_reads_back(d / 10, x + 1, bits);
    }
}

/// The digits that are written for a positive finite double read back as the
/// double: seventeen of them are always enough.
pub proof fn written_digits_read_back(bits: u64)
    requires
        0 < bits < INFINITY_BITS,
    ensures
        ({
            let (d, x) = float::shortest(bits, float::decimal_exponent(bits as nat, -324), 1);
            let (d, x) = float::stripped(d, x);
            float::reads_back(d, x, bits)
        }),
{
    let e = float::decimal_exponent(bits as nat, -324);
    doubles_have_a_first_digit(bits as nat);
    exponent_is_that_of_the_first_digit(bits as nat, -324);
    shortest_reads_back(bits, e, 1);
    let (d, x) = float::shortest(bits, e, 1);
    stripped_reads_back(d, x, bits);
}

} // verus!
