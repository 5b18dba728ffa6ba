//! IEEE-754 values seen through their bit patterns.
//!
//! A pattern's *key* is the signed integer that orders finite values exactly as
//! the values themselves are ordered: the magnitude bits, negated when the sign
//! bit is set. Both zeros have key 0.
use vstd::arithmetic::power2::{
    lemma2_to64, lemma2_to64_rest, lemma_pow2_adds, lemma_pow2_pos, lemma_pow2_strictly_increases,
    lemma_pow2_unfold, pow2,
};
use vstd::prelude::*;

verus! {

/// Magnitude bits of positive infinity, single precision.
pub const F32_INFINITY: u32 = 0x7f80_0000;

/// Sign bit, single precision.
pub const F32_SIGN: u32 = 0x8000_0000;

/// Magnitude bits of positive infinity, double precision.
pub const F64_INFINITY: u64 = 0x7ff0_0000_0000_0000;

/// Sign bit, double precision.
pub const F64_SIGN: u64 = 0x8000_0000_0000_0000;

/// The pattern without its sign bit.
pub open spec fn f32_magnitude(bits: u32) -> int {
    if bits >= 0x8000_0000 {
        bits - 0x8000_0000
    } else {
        bits as int
    }
}

/// True when the sign bit is set.
pub open spec fn f32_negative(bits: u32) -> bool {
    bits >= 0x8000_0000
}

/// Neither an infinity nor a NaN.
pub open spec fn f32_is_finite(bits: u32) -> bool {
    f32_magnitude(bits) < 0x7f80_0000
}

/// The order key of a pattern.
pub open spec fn f32_key(bits: u32) -> int {
    if f32_negative(bits) {
        -f32_magnitude(bits)
    } else {
        f32_magnitude(bits)
    }
}

/// The pattern without its sign bit.
pub open spec fn f64_magnitude(bits: u64) -> int {
    if bits >= 0x8000_0000_0000_0000 {
        bits - 0x8000_0000_0000_0000
    } else {
        bits as int
    }
}

/// True when the sign bit is set.
pub open spec fn f64_negative(bits: u64) -> bool {
    bits >= 0x8000_0000_0000_0000
}

/// Neither an infinity nor a NaN.
pub open spec fn f64_is_finite(bits: u64) -> bool {
    f64_magnitude(bits) < 0x7ff0_0000_0000_0000
}

/// The order key of a pattern.
pub open spec fn f64_key(bits: u64) -> int {
    if f64_negative(bits) {
        -f64_magnitude(bits)
    } else {
        f64_magnitude(bits)
    }
}

/// Strips the sign bit of a single-precision pattern.
pub fn f32_abs(bits: u32) -> (r: u32)
    ensures
        r == f32_magnitude(bits),
{
    if bits >= F32_SIGN {
        bits - F32_SIGN
    } else {
        bits
    }
}

/// Tells whether a single-precision pattern is a finite value.
pub fn f32_finite(bits: u32) -> (r: bool)
    ensures
        r == f32_is_finite(bits),
{
    f32_abs(bits) < F32_INFINITY
}

/// Strips the sign bit of a double-precision pattern.
pub fn f64_abs(bits: u64) -> (r: u64)
    ensures
        r == f64_magnitude(bits),
{
    if bits >= F64_SIGN {
        bits - F64_SIGN
    } else {
        bits
    }
}

/// Tells whether a double-precision pattern is a finite value.
pub fn f64_finite(bits: u64) -> (r: bool)
    ensures
        r == f64_is_finite(bits),
{
    f64_abs(bits) < F64_INFINITY
}

/// Two to the power `n`, for `n` below 64.
pub fn pow2_u64(n: u32) -> (p: u64)
    requires
        n < 64,
    ensures
        p == pow2(n as nat),
        p >= 1,
{
    let mut p: u64 = 1;
    let mut i: u32 = 0;
    proof {
        lemma2_to64();
    }
    while i < n
        invariant
            i <= n,
            n < 64,
            p == pow2(i as nat),
            p >= 1,
        decreases n - i,
    {
        proof {
            lemma_pow2_unfold((i + 1) as nat);
            lemma_pow2_strictly_increases((i + 1) as nat, 64);
            lemma2_to64_rest();
        }
        p = p * 2;
        i = i + 1;
    }
    p
}

/// The value of a finite single-precision magnitude, in units of 2^-149: every
/// finite single-precision value is a whole number of these units.
pub open spec fn f32_units_of_magnitude(magnitude: int) -> int {
    let e = magnitude / 0x80_0000;
    let f = magnitude % 0x80_0000;
    if e == 0 {
        f
    } else {
        (0x80_0000 + f) * pow2((e - 1) as nat)
    }
}

/// The value of the finite single-precision pattern with order key `key`, in
/// units of 2^-149.
pub open spec fn f32_units(key: int) -> int {
    if key < 0 {
        -f32_units_of_magnitude(-key)
    } else {
        f32_units_of_magnitude(key)
    }
}

/// The order key of a single-precision pattern.
pub fn f32_order_key(bits: u32) -> (k: i64)
    ensures
        k == f32_key(bits),
{
    if bits >= F32_SIGN {
        -((bits - F32_SIGN) as i64)
    } else {
        bits as i64
    }
}

/// A non-negative integer `high * 2^64 + low`.
pub struct Wide {
    pub high: u128,
    pub low: u64,
}

impl Wide {
    /// The integer that the two limbs stand for.
    pub open spec fn value(self) -> int {
        self.high * 0x1_0000_0000_0000_0000 + self.low
    }
}

/// The magnitudes whose value in units of 2^-149 `f32_units_wide` computes lie
/// below this one, the pattern of 2^30.
pub const F32_WIDE_LIMIT: u32 = 0x4e80_0000;

/// The value of a single-precision magnitude in units of 2^-149, as two limbs.
pub fn f32_units_wide(magnitude: u32) -> (w: Wide)
    requires
        magnitude < F32_WIDE_LIMIT,
    ensures
        w.value() == f32_units_of_magnitude(magnitude as int),
        w.high < 0x100_0000_0000_0000_0000_0000_0000_0000u128,
{
    let e: u32 = magnitude / 0x80_0000;
    let f: u32 = magnitude % 0x80_0000;
    if e == 0 {
        return Wide { high: 0, low: f as u64 };
    }
    let m: u128 = (0x80_0000 + f) as u128;
    let shift: u32 = e - 1;
    let q: u32 = shift / 64;
    let r: u32 = shift % 64;
    let p: u128 = pow2_u64(r) as u128;
    proof {
        lemma2_to64();
        lemma2_to64_rest();
        lemma_pow2_adds(r as nat, (64 * q) as nat);
        lemma_pow2_adds(64, 64);
        if r <= 27 {
            lemma_pow2_strictly_increases(r as nat, 28);
        }
        lemma_pow2_strictly_increases(r as nat, 64);
        assert(m * p <= 0x100_0000 * p) by (nonlinear_arith)
            requires
                m <= 0x100_0000,
                p >= 0,
        ;
    }
    assert(shift <= 155);
    let t: u128 = m * p;
    if q == 0 {
        Wide { high: t / 0x1_0000_0000_0000_0000, low: (t % 0x1_0000_0000_0000_0000) as u64 }
    } else if q == 1 {
        proof {
            assert(pow2(shift as nat) == p * 0x1_0000_0000_0000_0000);
            assert(m * (p * 0x1_0000_0000_0000_0000) == (m * p) * 0x1_0000_0000_0000_0000)
                by (nonlinear_arith);
        }
        Wide { high: t, low: 0 }
    } else {
        proof {
            assert(q == 2);
            assert(r <= 27);
            assert(p < 0x1000_0000);
            assert(pow2(128) == 0x1_0000_0000_0000_0000 * 0x1_0000_0000_0000_0000);
            assert(pow2(shift as nat) == p * (0x1_0000_0000_0000_0000
                * 0x1_0000_0000_0000_0000));
            assert(m * (p * (0x1_0000_0000_0000_0000 * 0x1_0000_0000_0000_0000)) == ((m * p)
                * 0x1_0000_0000_0000_0000) * 0x1_0000_0000_0000_0000) by (nonlinear_arith);
            assert(m * p < 0x100_0000 * 0x1000_0000) by (nonlinear_arith)
                requires
                    m < 0x100_0000,
                    p < 0x1000_0000,
                    p >= 1,
            ;
        }
        Wide { high: t * 0x1_0000_0000_0000_0000, low: 0 }
    }
}

/// True when the value with key `upper` exceeds the value with key `lower` by
/// less than one millionth.
pub open spec fn f32_gap_below_millionth(upper: int, lower: int) -> bool {
    (f32_units(upper) - f32_units(lower)) * 1_000_000 < pow2(149)
}

/// `a + b` on two-limb integers.
fn wide_sum(a: &Wide, b: &Wide) -> (w: Wide)
    requires
        a.high < 0x100_0000_0000_0000_0000_0000_0000_0000u128,
        b.high < 0x100_0000_0000_0000_0000_0000_0000_0000u128,
    ensures
        w.value() == a.value() + b.value(),
{
    let low: u128 = a.low as u128 + b.low as u128;
    let carry: u128 = low / 0x1_0000_0000_0000_0000;
    Wide { high: a.high + b.high + carry, low: (low % 0x1_0000_0000_0000_0000) as u64 }
}

/// `a - b` on two-limb integers, or `None` when `a < b`.
fn wide_difference(a: &Wide, b: &Wide) -> (w: Option<Wide>)
    ensures
        w is None <==> a.value() < b.value(),
        w matches Some(d) ==> d.value() == a.value() - b.value(),
{
    if a.high < b.high || (a.high == b.high && a.low < b.low) {
        None
    } else if a.low >= b.low {
        Some(Wide { high: a.high - b.high, low: a.low - b.low })
    } else {
        let low: u128 = 0x1_0000_0000_0000_0000 + a.low as u128 - b.low as u128;
        Some(Wide { high: a.high - b.high - 1, low: low as u64 })
    }
}

/// Tells whether a two-limb count of units of 2^-149 is below one millionth.
fn wide_below_millionth(d: &Wide) -> (r: bool)
    ensures
        r == (d.value() * 1_000_000 < pow2(149)),
{
    proof {
        lemma2_to64();
        lemma_pow2_adds(64, 64);
        lemma_pow2_adds(128, 21);
    }
    d.high < 0x2_18de_f416_bdb1_a6d6 || (d.high == 0x2_18de_f416_bdb1_a6d6 && d.low
        <= 0x98fe_6927_0b06_c43f)
}

/// Tells whether the value with key `upper` exceeds the value with key `lower`
/// by less than one millionth, in exact arithmetic.
pub fn f32_gap_is_below_millionth(upper: i64, lower: i64) -> (r: bool)
    requires
        -F32_WIDE_LIMIT < upper < F32_WIDE_LIMIT,
        -F32_WIDE_LIMIT < lower < F32_WIDE_LIMIT,
    ensures
        r == f32_gap_below_millionth(upper as int, lower as int),
{
    let a_mag: u32 = if upper < 0 {
        (-upper) as u32
    } else {
        upper as u32
    };
    let b_mag: u32 = if lower < 0 {
        (-lower) as u32
    } else {
        lower as u32
    };
    let a = f32_units_wide(a_mag);
    let b = f32_units_wide(b_mag);
    proof {
        lemma_pow2_pos(149);
    }
    if upper >= 0 && lower < 0 {
        let d = wide_sum(&a, &b);
        wide_below_millionth(&d)
    } else if upper < 0 && lower >= 0 {
        proof {
            lemma_f32_units_nonnegative(a_mag as int);
            lemma_f32_units_nonnegative(b_mag as int);
            assert((f32_units(upper as int) - f32_units(lower as int)) * 1_000_000 <= 0)
                by (nonlinear_arith)
                requires
                    f32_units(upper as int) - f32_units(lower as int) <= 0,
            ;
        }
        true
    } else {
        let d = if upper >= 0 {
            wide_difference(&a, &b)
        } else {
            wide_difference(&b, &a)
        };
        match d {
            Some(d) => wide_below_millionth(&d),
            None => {
                proof {
                    assert((f32_units(upper as int) - f32_units(lower as int)) * 1_000_000 <= 0)
                        by (nonlinear_arith)
                        requires
                            f32_units(upper as int) - f32_units(lower as int) <= 0,
                    ;
                }
                true
            },
        }
    }
}

/// The value of a magnitude is never negative.
pub proof fn lemma_f32_units_nonnegative(magnitude: int)
    requires
        0 <= magnitude,
    ensures
        f32_units_of_magnitude(magnitude) >= 0,
{
    let e = magnitude / 0x80_0000;
    let f = magnitude % 0x80_0000;
    if e != 0 {
        lemma_pow2_pos((e - 1) as nat);
        assert((0x80_0000 + f) * pow2((e - 1) as nat) >= 0) by (nonlinear_arith)
            requires
                f >= 0,
                pow2((e - 1) as nat) > 0,
        ;
    }
}

/// Larger magnitude bits stand for a larger value: the bit patterns of finite
/// values are ordered as the values are.
pub proof fn lemma_f32_units_increase(a: int, b: int)
    requires
        0 <= a < b < 0x7f80_0000,
    ensures
        0 <= f32_units_of_magnitude(a) < f32_units_of_magnitude(b),
{
    let ea = a / 0x80_0000;
    let fa = a % 0x80_0000;
    let eb = b / 0x80_0000;
    let fb = b % 0x80_0000;
    lemma_f32_units_nonnegative(a);
    if ea == eb {
        if ea != 0 {
            lemma_pow2_pos((ea - 1) as nat);
            assert((0x80_0000 + fa) * pow2((ea - 1) as nat) < (0x80_0000 + fb) * pow2(
                (ea - 1) as nat,
            )) by (nonlinear_arith)
                requires
                    fa < fb,
                    pow2((ea - 1) as nat) > 0,
            ;
        }
    } else {
        let pb = pow2((eb - 1) as nat);
        lemma_pow2_pos((eb - 1) as nat);
        assert(0x80_0000 * pb <= (0x80_0000 + fb) * pb) by (nonlinear_arith)
            requires
                fb >= 0,
                pb > 0,
        ;
        if ea == 0 {
            assert(0x80_0000 * 1 <= 0x80_0000 * pb) by (nonlinear_arith)
                requires
                    pb >= 1,
            ;
        } else {
            let pa = pow2((ea - 1) as nat);
            lemma_pow2_pos((ea - 1) as nat);
            lemma_pow2_unfold(ea as nat);
            if ea < eb - 1 {
                lemma_pow2_strictly_increases(ea as nat, (eb - 1) as nat);
            }
            assert(pow2(ea as nat) <= pb);
            assert((0x80_0000 + fa) * pa < 0x100_0000 * pa) by (nonlinear_arith)
                requires
                    fa < 0x80_0000,
                    pa > 0,
            ;
            assert(0x100_0000 * pa == 0x80_0000 * (2 * pa)) by (nonlinear_arith);
            assert(0x80_0000 * (2 * pa) <= 0x80_0000 * pb) by (nonlinear_arith)
                requires
                    2 * pa <= pb,
            ;
        }
    }
}

/// Magnitude bits compare as the values that they stand for.
pub proof fn lemma_f32_units_compare(a: int, b: int)
    requires
        0 <= a < 0x7f80_0000,
        0 <= b < 0x7f80_0000,
    ensures
        a <= b <==> f32_units_of_magnitude(a) <= f32_units_of_magnitude(b),
        a < b <==> f32_units_of_magnitude(a) < f32_units_of_magnitude(b),
{
    if a < b {
        lemma_f32_units_increase(a, b);
    } else if b < a {
        lemma_f32_units_increase(b, a);
    }
}

/// Order keys order finite patterns as their values are ordered.
pub proof fn lemma_f32_key_order(lower: int, upper: int)
    requires
        -0x7f80_0000 < lower <= upper < 0x7f80_0000,
    ensures
        f32_units(lower) <= f32_units(upper),
{
    if lower >= 0 {
        lemma_f32_units_compare(lower, upper);
    } else if upper < 0 {
        lemma_f32_units_compare(-upper, -lower);
    } else {
        lemma_f32_units_nonnegative(-lower);
        lemma_f32_units_nonnegative(upper);
    }
}

/// The value of a finite double-precision pattern in units of 2^-1074: every
/// finite double-precision value is a whole number of these units.
pub open spec fn f64_units(bits: u64) -> int {
    if f64_negative(bits) {
        -f64_units_of_magnitude(f64_magnitude(bits))
    } else {
        f64_units_of_magnitude(f64_magnitude(bits))
    }
}

/// The value of a finite double-precision magnitude in units of 2^-1074.
pub open spec fn f64_units_of_magnitude(magnitude: int) -> int {
    let e = magnitude / 0x10_0000_0000_0000;
    let f = magnitude % 0x10_0000_0000_0000;
    if e == 0 {
        f
    } else {
        (0x10_0000_0000_0000 + f) * pow2((e - 1) as nat)
    }
}

/// Larger magnitude bits stand for a larger value: the bit patterns of finite
/// values are ordered as the values are.
pub proof fn lemma_f64_units_increase(a: int, b: int)
    requires
        0 <= a < b < 0x7ff0_0000_0000_0000,
    ensures
        0 <= f64_units_of_magnitude(a) < f64_units_of_magnitude(b),
{
    let ea = a / 0x10_0000_0000_0000;
    let fa = a % 0x10_0000_0000_0000;
    let eb = b / 0x10_0000_0000_0000;
    let fb = b % 0x10_0000_0000_0000;
    if ea != 0 {
        lemma_pow2_pos((ea - 1) as nat);
        assert((0x10_0000_0000_0000 + fa) * pow2((ea - 1) as nat) >= 0) by (nonlinear_arith)
            requires
                fa >= 0,
                pow2((ea - 1) as nat) > 0,
        ;
    }
    if ea == eb {
        if ea != 0 {
            assert((0x10_0000_0000_0000 + fa) * pow2((ea - 1) as nat) < (0x10_0000_0000_0000 + fb)
                * pow2((ea - 1) as nat)) by (nonlinear_arith)
                requires
                    fa < fb,
                    pow2((ea - 1) as nat) > 0,
            ;
        }
    } else {
        let pb = pow2((eb - 1) as nat);
        lemma_pow2_pos((eb - 1) as nat);
        assert(0x10_0000_0000_0000 * pb <= (0x10_0000_0000_0000 + fb) * pb) by (nonlinear_arith)
            requires
                fb >= 0,
                pb > 0,
        ;
        if ea == 0 {
            assert(0x10_0000_0000_0000 * 1 <= 0x10_0000_0000_0000 * pb) by (nonlinear_arith)
                requires
                    pb >= 1,
            ;
        } else {
            let pa = pow2((ea - 1) as nat);
            lemma_pow2_unfold(ea as nat);
            if ea < eb - 1 {
                lemma_pow2_strictly_increases(ea as nat, (eb - 1) as nat);
            }
            assert((0x10_0000_0000_0000 + fa) * pa < 0x20_0000_0000_0000 * pa)
                by (nonlinear_arith)
                requires
                    fa < 0x10_0000_0000_0000,
                    pa > 0,
            ;
            assert(0x20_0000_0000_0000 * pa == 0x10_0000_0000_0000 * (2 * pa))
                by (nonlinear_arith);
            assert(0x10_0000_0000_0000 * (2 * pa) <= 0x10_0000_0000_0000 * pb)
                by (nonlinear_arith)
                requires
                    2 * pa <= pb,
            ;
        }
    }
}

/// Magnitude bits compare as the values that they stand for.
pub proof fn lemma_f64_units_compare(a: int, b: int)
    requires
        0 <= a < 0x7ff0_0000_0000_0000,
        0 <= b < 0x7ff0_0000_0000_0000,
    ensures
        a <= b <==> f64_units_of_magnitude(a) <= f64_units_of_magnitude(b),
        a < b <==> f64_units_of_magnitude(a) < f64_units_of_magnitude(b),
        f64_units_of_magnitude(a) >= 0,
        a == 0 <==> f64_units_of_magnitude(a) == 0,
{
    if a < b {
        lemma_f64_units_increase(a, b);
    } else if b < a {
        lemma_f64_units_increase(b, a);
    }
    if 0 < a {
        lemma_f64_units_increase(0, a);
    }
}

/// Index of the highest bit of a positive number `n`: the `k` with
/// `2^k <= n < 2^(k + 1)`.
pub open spec fn top_bit(n: int) -> nat
    decreases n,
{
    if n < 2 {
        0
    } else {
        1 + top_bit(n / 2)
    }
}

/// The highest bit of a number between two powers of two.
pub proof fn lemma_top_bit(n: int, k: nat)
    requires
        pow2(k) <= n < pow2(k + 1),
    ensures
        top_bit(n) == k,
    decreases k,
{
    lemma2_to64();
    lemma_pow2_unfold(k + 1);
    if k == 0 {
    } else {
        lemma_pow2_unfold(k);
        lemma_top_bit(n / 2, (k - 1) as nat);
    }
}

/// The double-precision pattern of the value of a single-precision pattern:
/// of the same number where the value is finite, of the infinity of the same
/// sign where it is infinite, and of a quiet NaN with the same payload where
/// it is a NaN.
pub open spec fn f32_widened(bits: u32) -> u64 {
    let magnitude = f32_magnitude(bits);
    let e = magnitude / 0x80_0000;
    let f = magnitude % 0x80_0000;
    let wide: int = if e == 255 {
        if f == 0 {
            0x7ff0_0000_0000_0000
        } else if f >= 0x40_0000 {
            0x7ff0_0000_0000_0000 + f * 0x2000_0000
        } else {
            0x7ff8_0000_0000_0000 + f * 0x2000_0000
        }
    } else if e > 0 {
        (e + 896) * 0x10_0000_0000_0000 + f * 0x2000_0000
    } else if f == 0 {
        0
    } else {
        (top_bit(f) + 874) * 0x10_0000_0000_0000 + (f - pow2(top_bit(f))) * pow2(
            (52 - top_bit(f)) as nat,
        )
    };
    if f32_negative(bits) {
        (wide + 0x8000_0000_0000_0000) as u64
    } else {
        wide as u64
    }
}

/// Widens a single-precision pattern to the double-precision pattern of the
/// same value.
pub fn f32_widen(bits: u32) -> (r: u64)
    ensures
        r == f32_widened(bits),
{
    let sign: u64 = if bits >= F32_SIGN {
        F64_SIGN
    } else {
        0
    };
    let magnitude: u32 = f32_abs(bits);
    let e: u64 = (magnitude / 0x80_0000) as u64;
    let f: u64 = (magnitude % 0x80_0000) as u64;
    let wide: u64 = if e == 255 {
        if f == 0 {
            0x7ff0_0000_0000_0000
        } else if f >= 0x40_0000 {
            0x7ff0_0000_0000_0000 + f * 0x2000_0000
        } else {
            0x7ff8_0000_0000_0000 + f * 0x2000_0000
        }
    } else if e > 0 {
        (e + 896) * 0x10_0000_0000_0000 + f * 0x2000_0000
    } else if f == 0 {
        0
    } else {
        let mut p: u64 = 1;
        let mut k: u32 = 0;
        proof {
            lemma2_to64();
        }
        while p * 2 <= f
            invariant
                p == pow2(k as nat),
                1 <= p <= f < 0x80_0000,
                k <= 22,
            decreases f - p,
        {
            proof {
                lemma2_to64();
                lemma_pow2_unfold((k + 1) as nat);
                if k + 1 > 23 {
                    lemma_pow2_strictly_increases(23, (k + 1) as nat);
                }
            }
            p = p * 2;
            k = k + 1;
        }
        proof {
            lemma_pow2_unfold((k + 1) as nat);
            lemma_top_bit(f as int, k as nat);
        }
        let scale: u64 = pow2_u64(52 - k);
        proof {
            lemma_pow2_adds(k as nat, (52 - k) as nat);
            lemma2_to64_rest();
            assert((f - p) * scale < p * scale) by (nonlinear_arith)
                requires
                    f - p < p,
                    scale > 0,
            ;
            assert(0 <= (f - p) * scale) by (nonlinear_arith)
                requires
                    f - p >= 0,
                    scale > 0,
            ;
        }
        (k as u64 + 874) * 0x10_0000_0000_0000 + (f - p) * scale
    };
    sign + wide
}

/// Widening keeps the value: a finite single-precision pattern is widened to
/// a finite double-precision pattern of the same sign that stands for the same
/// number, `2^925` units of 2^-1074 for every unit of 2^-149.
pub proof fn lemma_widening_is_exact(bits: u32)
    requires
        f32_is_finite(bits),
    ensures
        f64_is_finite(f32_widened(bits)),
        f64_negative(f32_widened(bits)) == f32_negative(bits),
        f64_units_of_magnitude(f64_magnitude(f32_widened(bits))) == f32_units_of_magnitude(
            f32_magnitude(bits),
        ) * pow2(925),
{
    let magnitude = f32_magnitude(bits);
    let e = magnitude / 0x80_0000;
    let f = magnitude % 0x80_0000;
    lemma2_to64();
    lemma2_to64_rest();
    if e > 0 {
        let wide = (e + 896) * 0x10_0000_0000_0000 + f * 0x2000_0000;
        assert(wide / 0x10_0000_0000_0000 == e + 896);
        assert(wide % 0x10_0000_0000_0000 == f * 0x2000_0000);
        assert(f64_magnitude(f32_widened(bits)) == wide);
        lemma_pow2_adds((e - 1) as nat, 925);
        lemma_pow2_adds(29, (e + 895) as nat);
        assert((0x10_0000_0000_0000 + f * 0x2000_0000) * pow2((e + 895) as nat) == ((0x80_0000 + f)
            * pow2((e - 1) as nat)) * pow2(925)) by (nonlinear_arith)
            requires
                pow2((e - 1) as nat) * pow2(925) == pow2((e + 924) as nat),
                0x2000_0000 * pow2((e + 895) as nat) == pow2((e + 924) as nat),
        ;
    } else if f == 0 {
        assert(f64_magnitude(f32_widened(bits)) == 0);
    } else {
        let k = top_bit(f);
        lemma_top_bit_bounds(f);
        assert(k <= 22) by {
            if k > 23 {
                lemma_pow2_strictly_increases(23, k);
            }
        }
        let scale = pow2((52 - k) as nat) as int;
        let rest = f - pow2(k);
        lemma_pow2_adds(k, (52 - k) as nat);
        lemma_pow2_pos((52 - k) as nat);
        assert(0 <= rest * scale < 0x10_0000_0000_0000) by (nonlinear_arith)
            requires
                0 <= rest < pow2(k),
                scale > 0,
                pow2(k) * scale == 0x10_0000_0000_0000,
        ;
        let wide = (k + 874) * 0x10_0000_0000_0000 + rest * scale;
        assert(wide / 0x10_0000_0000_0000 == k + 874);
        assert(wide % 0x10_0000_0000_0000 == rest * scale);
        assert(f64_magnitude(f32_widened(bits)) == wide);
        lemma_pow2_adds((52 - k) as nat, (k + 873) as nat);
        assert((0x10_0000_0000_0000 + rest * scale) * pow2((k + 873) as nat) == f * pow2(925))
            by (nonlinear_arith)
            requires
                pow2(k) * scale == 0x10_0000_0000_0000,
                rest == f - pow2(k),
                scale * pow2((k + 873) as nat) == pow2(925),
        ;
    }
}

/// A positive number lies between the power of two of its highest bit and the
/// next.
pub proof fn lemma_top_bit_bounds(n: int)
    requires
        n >= 1,
    ensures
        pow2(top_bit(n)) <= n < pow2(top_bit(n) + 1),
    decreases n,
{
    lemma2_to64();
    if n >= 2 {
        lemma_top_bit_bounds(n / 2);
        lemma_pow2_unfold(top_bit(n));
        lemma_pow2_unfold(top_bit(n) + 1);
    }
}

} // verus!
