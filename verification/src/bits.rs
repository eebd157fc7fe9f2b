//! Bit-level model of IEEE-754 double-precision values.
//!
//! A float payload is carried as its 64-bit pattern: sign in the top bit,
//! an 11-bit biased exponent below it, and a 52-bit fraction at the bottom.
//! All classification used by the library (NaN, infinite, finite, zero,
//! sign) is defined arithmetically on that pattern, so it can be verified
//! without any floating-point type.

use vstd::prelude::*;
use vstd::arithmetic::div_mod::*;
use vstd::arithmetic::mul::*;
use vstd::arithmetic::power2::*;

verus! {

/// The biased exponent field: bits 52..=62 of the pattern.
pub open spec fn exp_field(b: u64) -> int {
    ((b as int) / pow2(52) as int) % pow2(11) as int
}

/// The fraction field: bits 0..=51 of the pattern.
pub open spec fn frac_field(b: u64) -> int {
    (b as int) % pow2(52) as int
}

/// The sign bit: bit 63 of the pattern.
pub open spec fn sign_field(b: u64) -> bool {
    (b as int) / pow2(63) as int == 1
}

/// A pattern is NaN when the exponent field is saturated and the fraction
/// is non-zero.
pub open spec fn bits_is_nan(b: u64) -> bool {
    exp_field(b) == 0x7ff && frac_field(b) != 0
}

/// A pattern is an infinity when the exponent field is saturated and the
/// fraction is zero.
pub open spec fn bits_is_inf(b: u64) -> bool {
    exp_field(b) == 0x7ff && frac_field(b) == 0
}

/// A pattern is finite when the exponent field is not saturated.
pub open spec fn bits_is_finite(b: u64) -> bool {
    exp_field(b) != 0x7ff
}

/// A pattern is a zero (of either sign) when both fields are zero.
pub open spec fn bits_is_zero(b: u64) -> bool {
    exp_field(b) == 0 && frac_field(b) == 0
}

/// IEEE-754 equality of two patterns: NaN equals nothing, the two zeros
/// are equal to each other, and every other value is equal exactly to its
/// own pattern.
pub open spec fn spec_float_eq(a: u64, b: u64) -> bool {
    &&& !bits_is_nan(a)
    &&& !bits_is_nan(b)
    &&& (a == b || (bits_is_zero(a) && bits_is_zero(b)))
}

/// Extracts the biased exponent field.
pub fn exp_bits(b: u64) -> (r: u64)
    ensures
        r as int == exp_field(b),
{
    proof {
        lemma2_to64();
        lemma2_to64_rest();
    }
    (b / 0x10_0000_0000_0000) % 0x800
}

/// Extracts the fraction field.
pub fn frac_bits(b: u64) -> (r: u64)
    ensures
        r as int == frac_field(b),
{
    proof {
        lemma2_to64_rest();
    }
    b % 0x10_0000_0000_0000
}

/// Reads the sign bit.
pub fn sign_bit(b: u64) -> (r: bool)
    ensures
        r == sign_field(b),
{
    proof {
        lemma2_to64_rest();
    }
    b / 0x8000_0000_0000_0000 == 1
}

/// Decides whether a pattern is NaN.
pub fn is_nan_bits(b: u64) -> (r: bool)
    ensures
        r == bits_is_nan(b),
{
    exp_bits(b) == 0x7ff && frac_bits(b) != 0
}

/// Decides whether a pattern is an infinity.
pub fn is_inf_bits(b: u64) -> (r: bool)
    ensures
        r == bits_is_inf(b),
{
    exp_bits(b) == 0x7ff && frac_bits(b) == 0
}

/// Decides whether a pattern is finite.
pub fn is_finite_bits(b: u64) -> (r: bool)
    ensures
        r == bits_is_finite(b),
{
    exp_bits(b) != 0x7ff
}

/// The position of the most significant set bit of `n`: the floor of the
/// base-2 logarithm for `n >= 1`, and zero for smaller arguments.
pub open spec fn msb(n: int) -> nat
    decreases n,
{
    if n < 2 {
        0
    } else {
        (1 + msb(n / 2)) as nat
    }
}

/// `n / 2^s`, rounded to the nearest integer, with ties going to the even
/// quotient.
pub open spec fn rne_div_pow2(n: int, s: nat) -> int {
    let q = n / (pow2(s) as int);
    let r = n % (pow2(s) as int);
    if 2 * r > pow2(s) || (2 * r == pow2(s) && q % 2 == 1) {
        q + 1
    } else {
        q
    }
}

/// The IEEE-754 double bit pattern that encodes the non-negative integer
/// `n`: the exponent field holds the bit length of `n` plus the bias 1023,
/// and the fraction field holds the bits below the leading one, rounded to
/// nearest (ties to even) when `n` needs more than 53 significant bits.
/// A rounding carry that overflows the fraction moves into the exponent.
pub open spec fn f64_bits_of(n: int) -> int {
    if n <= 0 {
        0
    } else {
        let k = msb(n) as int;
        if k <= 52 {
            (1023 + k) * pow2(52) + (n - pow2(k as nat)) * pow2((52 - k) as nat)
        } else {
            let q = rne_div_pow2(n, (k - 52) as nat);
            if q == pow2(53) {
                (1024 + k) * pow2(52)
            } else {
                (1023 + k) * pow2(52) + (q - pow2(52))
            }
        }
    }
}

/// The IEEE-754 double bit pattern for `-mag`, where `mag >= 1`: the
/// magnitude's pattern with the sign bit set.
pub open spec fn f64_bits_of_neg(mag: int) -> int {
    pow2(63) + f64_bits_of(mag)
}

/// For `n >= 1`, `msb(n)` is the exponent of the largest power of two
/// that does not exceed `n`.
pub proof fn lemma_msb_bounds(n: int)
    requires
        n >= 1,
    ensures
        pow2(msb(n)) <= n < pow2(msb(n) + 1),
    decreases n,
{
    lemma2_to64();
    if n < 2 {
        assert(msb(n) == 0);
    } else {
        lemma_msb_bounds(n / 2);
        let m = msb(n / 2);
        assert(msb(n) == m + 1);
        lemma_pow2_unfold((m + 1) as nat);
        lemma_pow2_unfold((m + 2) as nat);
        assert(pow2(m + 1) == 2 * pow2(m));
        assert(pow2(m + 2) == 2 * pow2(m + 1));
        assert(n == 2 * (n / 2) + n % 2);
        assert(pow2(m + 1) <= n);
        assert(n < pow2(m + 2));
    }
}

/// The most significant bit position never decreases with the value.
proof fn lemma_msb_monotone(a: int, b: int)
    requires
        1 <= a <= b,
    ensures
        msb(a) <= msb(b),
{
    lemma_msb_bounds(a);
    lemma_msb_bounds(b);
    if msb(a) > msb(b) {
        lemma_pow2_strictly_increases(msb(b) + 1, msb(a) + 1);
        if msb(b) + 1 < msb(a) {
            lemma_pow2_strictly_increases(msb(b) + 1, msb(a));
        }
        assert(b < pow2(msb(b) + 1) <= pow2(msb(a)) <= a);
        assert(false);
    }
}

/// Below 2^53 the double encoding is exact: distinct integers receive
/// distinct patterns, and in the same order, so no precision is lost.
pub proof fn lemma_f64_bits_lossless_small(a: int, b: int)
    requires
        0 <= a < b,
        b < pow2(53),
    ensures
        f64_bits_of(a) < f64_bits_of(b),
{
    lemma2_to64();
    lemma2_to64_rest();
    lemma_msb_bounds(b);
    let kb = msb(b) as int;
    assert(kb <= 52) by {
        if msb(b) >= 53 {
            if msb(b) > 53 {
                lemma_pow2_strictly_increases(53, msb(b));
            }
            assert(pow2(53) <= pow2(msb(b)) <= b);
            assert(false);
        }
    }
    lemma_pow2_adds(msb(b), (52 - kb) as nat);
    assert(pow2(msb(b)) * pow2((52 - kb) as nat) == pow2(52));
    let fracb = (b - pow2(msb(b))) * pow2((52 - kb) as nat);
    assert(0 <= fracb < pow2(52)) by (nonlinear_arith)
        requires
            pow2(msb(b)) <= b,
            b < 2 * pow2(msb(b)),
            pow2(msb(b)) * pow2((52 - kb) as nat) == pow2(52),
            pow2((52 - kb) as nat) >= 1,
            fracb == (b - pow2(msb(b))) * pow2((52 - kb) as nat),
    ;
    assert(f64_bits_of(b) == (1023 + kb) * pow2(52) + fracb);
    assert((1023 + kb) * pow2(52) >= 1023 * pow2(52)) by (nonlinear_arith)
        requires
            kb >= 0,
            pow2(52) >= 1,
    ;
    if a == 0 {
        assert(f64_bits_of(a) == 0);
        assert(f64_bits_of(b) > 0);
    } else {
        lemma_msb_bounds(a);
        lemma_msb_monotone(a, b);
        let ka = msb(a) as int;
        lemma_pow2_adds(msb(a), (52 - ka) as nat);
        assert(pow2(msb(a)) * pow2((52 - ka) as nat) == pow2(52));
        let fraca = (a - pow2(msb(a))) * pow2((52 - ka) as nat);
        assert(0 <= fraca < pow2(52)) by (nonlinear_arith)
            requires
                pow2(msb(a)) <= a,
                a < 2 * pow2(msb(a)),
                pow2(msb(a)) * pow2((52 - ka) as nat) == pow2(52),
                pow2((52 - ka) as nat) >= 1,
                fraca == (a - pow2(msb(a))) * pow2((52 - ka) as nat),
        ;
        assert(f64_bits_of(a) == (1023 + ka) * pow2(52) + fraca);
        if ka == kb {
            assert(fraca < fracb) by (nonlinear_arith)
                requires
                    a < b,
                    pow2((52 - ka) as nat) >= 1,
                    fraca == (a - pow2(msb(a))) * pow2((52 - ka) as nat),
                    fracb == (b - pow2(msb(a))) * pow2((52 - ka) as nat),
            ;
        } else {
            assert(ka < kb);
            assert((1023 + ka) * pow2(52) + pow2(52) <= (1023 + kb) * pow2(52))
                by (nonlinear_arith)
                requires
                    ka + 1 <= kb,
                    pow2(52) >= 1,
            ;
        }
    }
}

/// The pattern of an integer below 2^53 stays below the sign bit.
pub proof fn lemma_f64_bits_small_range(n: int)
    requires
        0 <= n < pow2(53),
    ensures
        0 <= f64_bits_of(n) < pow2(63),
{
    lemma2_to64();
    lemma2_to64_rest();
    assert(pow2(63) == pow2(11) * pow2(52)) by {
        lemma_pow2_adds(11, 52);
    }
    if n >= 1 {
        lemma_msb_bounds(n);
        let k = msb(n) as int;
        assert(k <= 52) by {
            if msb(n) >= 53 {
                if msb(n) > 53 {
                    lemma_pow2_strictly_increases(53, msb(n));
                }
                assert(pow2(53) <= pow2(msb(n)) <= n);
                assert(false);
            }
        }
        lemma_pow2_adds(msb(n), (52 - k) as nat);
        assert(pow2(msb(n)) * pow2((52 - k) as nat) == pow2(52));
        let frac = (n - pow2(msb(n))) * pow2((52 - k) as nat);
        assert(0 <= frac < pow2(52)) by (nonlinear_arith)
            requires
                pow2(msb(n)) <= n,
                n < 2 * pow2(msb(n)),
                pow2(msb(n)) * pow2((52 - k) as nat) == pow2(52),
                pow2((52 - k) as nat) >= 1,
                frac == (n - pow2(msb(n))) * pow2((52 - k) as nat),
        ;
        assert(f64_bits_of(n) == (1023 + k) * pow2(52) + frac);
        assert(0 <= (1023 + k) * pow2(52) + pow2(52) <= 1076 * pow2(52)) by (nonlinear_arith)
            requires
                0 <= k <= 52,
                pow2(52) >= 1,
        ;
        assert(1076 * pow2(52) < pow2(11) * pow2(52)) by (nonlinear_arith)
            requires
                pow2(11) == 0x800,
                pow2(52) >= 1,
        ;
    }
}

/// Converts a non-negative 64-bit integer to the IEEE-754 double bit
/// pattern that encodes it, rounding to nearest with ties to even.
pub fn u64_to_f64_bits(n: u64) -> (r: u64)
    ensures
        r as int == f64_bits_of(n as int),
        r < 0x8000_0000_0000_0000,
{
    proof {
        lemma2_to64();
        lemma2_to64_rest();
    }
    if n == 0 {
        return 0;
    }
    let mut m: u64 = n;
    let mut k: u64 = 0;
    let mut p: u64 = 1;
    while m >= 2
        invariant
            n >= 1,
            1 <= m,
            m as int == (n as int) / (pow2(k as nat) as int),
            p as int == pow2(k as nat),
            msb(n as int) == k as nat + msb(m as int),
            k <= 63,
        decreases m,
    {
        proof {
            lemma2_to64();
            let ki = k as nat;
            lemma_pow2_pos(ki);
            lemma_fundamental_div_mod(n as int, pow2(ki) as int);
            assert(n as int == pow2(ki) * (m as int) + (n as int) % (pow2(ki) as int));
            lemma_mod_bound(n as int, pow2(ki) as int);
            assert(2 * pow2(ki) <= pow2(ki) * (m as int)) by (nonlinear_arith)
                requires
                    m >= 2,
                    pow2(ki) >= 1,
            ;
            lemma_pow2_unfold((ki + 1) as nat);
            assert(pow2(ki + 1) <= n as int);
            assert((n as int) <= 0xffff_ffff_ffff_ffff);
            assert(pow2(64) == 0x1_0000_0000_0000_0000);
            if k + 1 >= 64 {
                if k + 1 > 64 {
                    lemma_pow2_strictly_increases(64, (k + 1) as nat);
                }
                assert(false);
            }
            assert(k + 1 <= 63);
            lemma_div_denominator(n as int, pow2(ki) as int, 2);
            assert((n as int) / (pow2(ki) as int) / 2 == (n as int) / (pow2(ki) as int * 2));
            assert(pow2(ki + 1) == pow2(ki) * 2);
            assert(msb(m as int) == 1 + msb((m as int) / 2));
        }
        m = m / 2;
        k = k + 1;
        p = p * 2;
    }
    proof {
        assert(m == 1);
        assert(msb(n as int) == k as nat);
        lemma_fundamental_div_mod(n as int, pow2(k as nat) as int);
        lemma_pow2_pos(k as nat);
        lemma_mod_bound(n as int, pow2(k as nat) as int);
        lemma_pow2_unfold((k + 1) as nat);
        assert(pow2(k as nat) <= n as int);
        assert((n as int) < 2 * pow2(k as nat));
        assert(pow2(63) == 0x8000_0000_0000_0000) by {
            lemma2_to64_rest();
        }
        assert(pow2(52) == 0x10_0000_0000_0000) by {
            lemma2_to64_rest();
        }
        assert(pow2(53) == 0x20_0000_0000_0000) by {
            lemma2_to64_rest();
        }
        assert(pow2(11) == 0x800) by {
            lemma2_to64();
        }
        assert(pow2(63) == pow2(11) * pow2(52)) by {
            lemma_pow2_adds(11, 52);
        }
    }
    if k <= 52 {
        let scale: u64 = 0x10_0000_0000_0000 / p;
        proof {
            lemma_pow2_subtracts(k as nat, 52);
            assert(scale as int == pow2((52 - k) as nat));
            lemma_pow2_adds(k as nat, (52 - k) as nat);
            assert(pow2(k as nat) * pow2((52 - k) as nat) == pow2(52));
            assert((n - p) as int * (scale as int) < pow2(52)) by (nonlinear_arith)
                requires
                    ((n - p) as int) < p as int,
                    p as int * (scale as int) == pow2(52),
                    scale as int >= 1,
                    n >= p,
            ;
            assert((1023 + k as int) * pow2(52) + pow2(52) <= 1076 * pow2(52)) by (nonlinear_arith)
                requires
                    k <= 52,
            ;
            assert(1076 * pow2(52) < pow2(11) * pow2(52)) by (nonlinear_arith)
                requires
                    pow2(11) == 0x800,
                    pow2(52) >= 1,
            ;
        }
        let man: u64 = (n - p) * scale;
        (1023 + k) * 0x10_0000_0000_0000 + man
    } else {
        let d: u64 = p / 0x10_0000_0000_0000;
        proof {
            lemma_pow2_subtracts(52, k as nat);
            assert(d as int == pow2((k - 52) as nat));
            lemma_pow2_strictly_increases(0, (k - 52) as nat);
            assert(d >= 2) by {
                lemma2_to64();
                if (k - 52) as nat > 1 {
                    lemma_pow2_strictly_increases(1, (k - 52) as nat);
                }
            }
            lemma_div_is_ordered(p as int, n as int, d as int);
            lemma_pow2_subtracts((k - 52) as nat, k as nat);
            assert((p as int) / (d as int) == pow2(52));
            assert((n as int) / (d as int) >= pow2(52));
            lemma_pow2_adds(53, (k - 52) as nat);
            assert(pow2(k as nat + 1) == pow2(53) * pow2((k - 52) as nat)) by {
                lemma_pow2_adds(53, (k - 52) as nat);
                assert(53 + (k - 52) as nat == k as nat + 1);
            }
            lemma_multiply_divide_lt(n as int, d as int, pow2(53) as int);
            assert((n as int) / (d as int) < pow2(53));
        }
        let q0: u64 = n / d;
        let rem: u64 = n % d;
        let q: u64 = if rem * 2 > d || (rem * 2 == d && q0 % 2 == 1) {
            q0 + 1
        } else {
            q0
        };
        proof {
            assert(q as int == rne_div_pow2(n as int, (k - 52) as nat));
            assert((1024 + k as int) * pow2(52) < pow2(11) * pow2(52)) by (nonlinear_arith)
                requires
                    k <= 63,
                    pow2(11) == 0x800,
                    pow2(52) >= 1,
            ;
            assert((1023 + k as int) * pow2(52) + pow2(52) <= (1024 + k as int) * pow2(52))
                by (nonlinear_arith)
                requires
                    pow2(52) >= 1,
            ;
        }
        if q == 0x20_0000_0000_0000 {
            (1024 + k) * 0x10_0000_0000_0000
        } else {
            (1023 + k) * 0x10_0000_0000_0000 + (q - 0x10_0000_0000_0000)
        }
    }
}

/// Converts a negative signed 64-bit integer to the IEEE-754 double bit
/// pattern that encodes it: the pattern of its magnitude with the sign
/// bit set.
pub fn i64_neg_to_f64_bits(i: i64) -> (r: u64)
    requires
        i < 0,
    ensures
        r as int == f64_bits_of_neg(-(i as int)),
{
    let mag: u64 = ((-(i + 1)) as u64) + 1;
    proof {
        assert(mag as int == -(i as int));
        lemma2_to64_rest();
    }
    let b = u64_to_f64_bits(mag);
    0x8000_0000_0000_0000 + b
}

/// IEEE-754 comparison of two patterns. NaN compares with nothing. The
/// two zeros are equal. Otherwise values of different sign order by sign,
/// and values of equal sign order as their patterns do, reversed when
/// both are negative.
pub open spec fn spec_float_cmp(a: u64, b: u64) -> Option<core::cmp::Ordering> {
    if bits_is_nan(a) || bits_is_nan(b) {
        None
    } else if bits_is_zero(a) && bits_is_zero(b) {
        Some(core::cmp::Ordering::Equal)
    } else if a == b {
        Some(core::cmp::Ordering::Equal)
    } else if sign_field(a) != sign_field(b) {
        if sign_field(a) {
            Some(core::cmp::Ordering::Less)
        } else {
            Some(core::cmp::Ordering::Greater)
        }
    } else if !sign_field(a) {
        if a < b {
            Some(core::cmp::Ordering::Less)
        } else {
            Some(core::cmp::Ordering::Greater)
        }
    } else {
        if a > b {
            Some(core::cmp::Ordering::Less)
        } else {
            Some(core::cmp::Ordering::Greater)
        }
    }
}

/// Decides IEEE-754 comparison of two patterns.
pub fn float_cmp_bits(a: u64, b: u64) -> (r: Option<core::cmp::Ordering>)
    ensures
        r == spec_float_cmp(a, b),
{
    if is_nan_bits(a) || is_nan_bits(b) {
        None
    } else if (exp_bits(a) == 0 && frac_bits(a) == 0 && exp_bits(b) == 0 && frac_bits(b) == 0)
        || a == b {
        Some(core::cmp::Ordering::Equal)
    } else if sign_bit(a) != sign_bit(b) {
        if sign_bit(a) {
            Some(core::cmp::Ordering::Less)
        } else {
            Some(core::cmp::Ordering::Greater)
        }
    } else if !sign_bit(a) {
        if a < b {
            Some(core::cmp::Ordering::Less)
        } else {
            Some(core::cmp::Ordering::Greater)
        }
    } else {
        if a > b {
            Some(core::cmp::Ordering::Less)
        } else {
            Some(core::cmp::Ordering::Greater)
        }
    }
}

/// Decides IEEE-754 equality of two patterns.
pub fn float_eq_bits(a: u64, b: u64) -> (r: bool)
    ensures
        r == spec_float_eq(a, b),
{
    if is_nan_bits(a) || is_nan_bits(b) {
        false
    } else if a == b {
        true
    } else {
        exp_bits(a) == 0 && frac_bits(a) == 0 && exp_bits(b) == 0 && frac_bits(b) == 0
    }
}

} // verus!
