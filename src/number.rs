//! IEEE-754 binary64 values carried as their bit patterns.
//!
//! The inference engine keeps every observed number as the bits of a double,
//! so that ordering, finiteness and integrality are plain integer arithmetic.
use vstd::arithmetic::power2::{lemma_pow2_unfold, lemma_pow2_adds, lemma_pow2_pos, lemma_pow2_strictly_increases, pow2};
use vstd::prelude::*;

verus! {

/// The sign bit of a double.
pub const SIGN_BIT: u64 = 0x8000_0000_0000_0000;

/// One unit of the exponent field (the width of the fraction field).
pub const FRACTION_SPAN: u64 = 0x0010_0000_0000_0000;

/// The exponent field of infinities and NaNs.
pub const EXPONENT_SPECIAL: u64 = 2047;

/// Exponent field of 2^0 plus the width of the fraction field.
pub const EXPONENT_UNIT_SHIFT: u64 = 1075;

pub open spec fn sign_of(b: u64) -> bool {
    b >= SIGN_BIT
}

pub open spec fn exponent_of(b: u64) -> int {
    ((b % SIGN_BIT) / FRACTION_SPAN) as int
}

pub open spec fn fraction_of(b: u64) -> int {
    (b % FRACTION_SPAN) as int
}

pub open spec fn is_nan_bits(b: u64) -> bool {
    exponent_of(b) == EXPONENT_SPECIAL && fraction_of(b) != 0
}

pub open spec fn is_finite_bits(b: u64) -> bool {
    exponent_of(b) != EXPONENT_SPECIAL
}

/// Position of a double in IEEE-754 `totalOrder`: injective, and increasing
/// with the real value on every non-NaN double (with -0 just below +0).
pub open spec fn order_key(b: u64) -> int {
    if sign_of(b) {
        (u64::MAX - b) as int
    } else {
        b + SIGN_BIT
    }
}

/// The significand of a normal double, hidden bit included.
pub open spec fn significand_of(b: u64) -> int {
    FRACTION_SPAN + fraction_of(b)
}

/// A finite double whose value has no fractional part.
pub open spec fn is_integral_bits(b: u64) -> bool {
    let e = exponent_of(b);
    if e == EXPONENT_SPECIAL {
        false
    } else if e == 0 {
        fraction_of(b) == 0
    } else if e >= EXPONENT_UNIT_SHIFT {
        true
    } else {
        significand_of(b) % (pow2((EXPONENT_UNIT_SHIFT - e) as nat) as int) == 0
    }
}

/// The absolute value of an integral double.
pub open spec fn integral_magnitude(b: u64) -> int {
    let e = exponent_of(b);
    if e == 0 {
        0
    } else if e >= EXPONENT_UNIT_SHIFT {
        significand_of(b) * pow2((e - EXPONENT_UNIT_SHIFT) as nat)
    } else {
        significand_of(b) / (pow2((EXPONENT_UNIT_SHIFT - e) as nat) as int)
    }
}

/// The value of an integral double.
pub open spec fn integral_value(b: u64) -> int {
    if sign_of(b) {
        -integral_magnitude(b)
    } else {
        integral_magnitude(b)
    }
}

/// What a cast of a value to `i64` gives: the value, clamped to the range.
pub open spec fn saturate_i64(x: int) -> i64 {
    if x < i64::MIN {
        i64::MIN
    } else if x > i64::MAX {
        i64::MAX
    } else {
        x as i64
    }
}

/// Index of the highest set bit (0 for 0 and 1).
pub open spec fn top_bit_of(n: nat) -> nat
    decreases n,
{
    if n < 2 {
        0
    } else {
        1 + top_bit_of(n / 2)
    }
}

/// `n / 2^k` rounded to the nearest integer, ties to even.
pub open spec fn round_shift(n: nat, k: nat) -> int {
    let d = pow2(k) as int;
    let q = n as int / d;
    let r = n as int % d;
    if 2 * r > d || (2 * r == d && q % 2 == 1) {
        q + 1
    } else {
        q
    }
}

/// The bits of the double nearest to `n` (ties to even); `n` below 2^64.
/// A carry out of the significand bumps the exponent field by itself.
pub open spec fn nat_double_bits(n: nat) -> int {
    if n == 0 {
        0
    } else {
        let p = top_bit_of(n);
        if p <= 52 {
            (p + 1023) * FRACTION_SPAN + n * pow2((52 - p) as nat) - FRACTION_SPAN
        } else {
            (p + 1023) * FRACTION_SPAN + round_shift(n, (p - 52) as nat) - FRACTION_SPAN
        }
    }
}

/// The bits of the double nearest to the integer `x`.
pub open spec fn int_double_bits(x: int) -> int {
    if x < 0 {
        SIGN_BIT + nat_double_bits((-x) as nat)
    } else {
        nat_double_bits(x as nat)
    }
}

proof fn lemma_top_bit_bounds(n: nat)
    requires
        n >= 1,
    ensures
        pow2(top_bit_of(n)) <= n < pow2(top_bit_of(n) + 1),
    decreases n,
{
    reveal_with_fuel(top_bit_of, 2);
    lemma_pow2_unfold(top_bit_of(n) + 1);
    if n >= 2 {
        lemma_top_bit_bounds(n / 2);
        lemma_pow2_unfold(top_bit_of(n));
    } else {
        vstd::arithmetic::power2::lemma2_to64();
    }
}

proof fn lemma_pow2_64()
    ensures
        pow2(52) == FRACTION_SPAN,
        pow2(53) == 2 * FRACTION_SPAN,
        pow2(63) == SIGN_BIT,
        pow2(64) == 0x1_0000_0000_0000_0000,
{
    vstd::arithmetic::power2::lemma2_to64();
    vstd::arithmetic::power2::lemma2_to64_rest();
}

fn pow2_u64(k: u64) -> (r: u64)
    requires
        k < 64,
    ensures
        r as nat == pow2(k as nat),
{
    let mut r: u64 = 1;
    let mut i: u64 = 0;
    proof {
        vstd::arithmetic::power2::lemma2_to64();
    }
    while i < k
        invariant
            i <= k < 64,
            r as nat == pow2(i as nat),
        decreases k - i,
    {
        proof {
            lemma_pow2_unfold((i + 1) as nat);
            lemma_pow2_strictly_increases((i + 1) as nat, 64);
            lemma_pow2_64();
        }
        r = r * 2;
        i = i + 1;
    }
    r
}

pub fn is_finite(b: u64) -> (r: bool)
    ensures
        r == is_finite_bits(b),
{
    (b % SIGN_BIT) / FRACTION_SPAN != EXPONENT_SPECIAL
}

pub fn is_nan(b: u64) -> (r: bool)
    ensures
        r == is_nan_bits(b),
{
    (b % SIGN_BIT) / FRACTION_SPAN == EXPONENT_SPECIAL && b % FRACTION_SPAN != 0
}

/// The `totalOrder` key of a double, as an unsigned integer.
pub fn total_order_key(b: u64) -> (r: u64)
    ensures
        r as int == order_key(b),
{
    if b >= SIGN_BIT {
        u64::MAX - b
    } else {
        b + SIGN_BIT
    }
}

/// The smaller of two doubles in `totalOrder`.
pub fn min_double(a: u64, b: u64) -> (r: u64)
    ensures
        r == (if order_key(a) <= order_key(b) { a } else { b }),
{
    if total_order_key(a) <= total_order_key(b) {
        a
    } else {
        b
    }
}

/// The larger of two doubles in `totalOrder`.
pub fn max_double(a: u64, b: u64) -> (r: u64)
    ensures
        r == (if order_key(a) >= order_key(b) { a } else { b }),
{
    if total_order_key(a) >= total_order_key(b) {
        a
    } else {
        b
    }
}

proof fn lemma_shift_too_far(s: int, k: nat)
    requires
        0 < s < 2 * FRACTION_SPAN,
        k > 53,
    ensures
        s % (pow2(k) as int) == s,
        s / (pow2(k) as int) == 0,
{
    lemma_pow2_64();
    lemma_pow2_strictly_increases(53, k);
    vstd::arithmetic::div_mod::lemma_small_mod(s as nat, pow2(k));
    vstd::arithmetic::div_mod::lemma_basic_div(s, pow2(k) as int);
}

/// Whether a double is finite with no fractional part.
pub fn is_integral(b: u64) -> (r: bool)
    ensures
        r == is_integral_bits(b),
{
    let e = (b % SIGN_BIT) / FRACTION_SPAN;
    let f = b % FRACTION_SPAN;
    if e == EXPONENT_SPECIAL {
        false
    } else if e == 0 {
        f == 0
    } else if e >= EXPONENT_UNIT_SHIFT {
        true
    } else {
        let shift = EXPONENT_UNIT_SHIFT - e;
        if shift > 53 {
            proof {
                lemma_shift_too_far(FRACTION_SPAN + f, shift as nat);
            }
            false
        } else {
            let d = pow2_u64(shift);
            proof {
                lemma_pow2_pos(shift as nat);
            }
            (FRACTION_SPAN + f) % d == 0
        }
    }
}

/// Cast of an integral double to `i64`, saturating as `as` does.
pub fn integral_to_i64(b: u64) -> (r: i64)
    requires
        is_integral_bits(b),
    ensures
        r == saturate_i64(integral_value(b)),
{
    let e = (b % SIGN_BIT) / FRACTION_SPAN;
    let s = FRACTION_SPAN + b % FRACTION_SPAN;
    let neg = b >= SIGN_BIT;
    proof {
        lemma_pow2_64();
    }
    if e == 0 {
        0
    } else if e >= EXPONENT_UNIT_SHIFT {
        let k = e - EXPONENT_UNIT_SHIFT;
        if k >= 11 {
            proof {
                lemma_pow2_adds(11, (k - 11) as nat);
                lemma_pow2_pos((k - 11) as nat);
                assert(pow2(11) == 2048) by {
                    vstd::arithmetic::power2::lemma2_to64();
                }
                let m = pow2((k - 11) as nat) as int;
                assert(s * pow2(k as nat) >= SIGN_BIT) by (nonlinear_arith)
                    requires
                        pow2(k as nat) == 2048 * m,
                        m >= 1,
                        s >= FRACTION_SPAN,
                ;
            }
            if neg {
                i64::MIN
            } else {
                i64::MAX
            }
        } else {
            let d = pow2_u64(k);
            proof {
                if k < 10 {
                    lemma_pow2_strictly_increases(k as nat, 10);
                }
                vstd::arithmetic::power2::lemma2_to64();
                assert(d <= 1024);
                assert(s < 2 * FRACTION_SPAN);
                assert(s * d < SIGN_BIT) by (nonlinear_arith)
                    requires
                        d <= 1024,
                        s < 2 * FRACTION_SPAN,
                ;
            }
            let m = (s * d) as i64;
            if neg {
                -m
            } else {
                m
            }
        }
    } else {
        let shift = EXPONENT_UNIT_SHIFT - e;
        if shift > 53 {
            proof {
                lemma_shift_too_far(s as int, shift as nat);
            }
            0
        } else {
            let d = pow2_u64(shift);
            proof {
                lemma_pow2_pos(shift as nat);
            }
            let m = (s / d) as i64;
            if neg {
                -m
            } else {
                m
            }
        }
    }
}

/// The bits of the double nearest to `n`, ties to even.
pub fn nat_to_double(n: u64) -> (r: u64)
    ensures
        r as int == nat_double_bits(n as nat),
        r < SIGN_BIT,
{
    if n == 0 {
        return 0;
    }
    let mut p: u64 = 0;
    let mut t: u64 = n;
    proof {
        vstd::arithmetic::power2::lemma2_to64();
    }
    while t >= 2
        invariant
            t >= 1,
            top_bit_of(n as nat) == p + top_bit_of(t as nat),
            p <= 64,
            t as nat * pow2(p as nat) <= n,
        decreases t,
    {
        proof {
            reveal_with_fuel(top_bit_of, 2);
            lemma_pow2_unfold((p + 1) as nat);
            let tt = t as int;
            let pp = pow2(p as nat) as int;
            assert((tt / 2) * (2 * pp) <= tt * pp) by (nonlinear_arith)
                requires
                    tt >= 0,
                    pp >= 0,
            ;
            lemma_top_bit_bounds(n as nat);
            lemma_pow2_64();
            lemma_pow2_pos(p as nat);
            if p + 1 > 64 {
                lemma_pow2_strictly_increases(64, (p + 1) as nat);
                assert(false) by (nonlinear_arith)
                    requires
                        tt >= 2,
                        tt * pp <= n,
                        2 * pp > 0x1_0000_0000_0000_0000,
                        n < 0x1_0000_0000_0000_0000,
                ;
            }
        }
        t = t / 2;
        p = p + 1;
    }
    proof {
        assert(top_bit_of(t as nat) == 0);
        lemma_top_bit_bounds(n as nat);
        lemma_pow2_64();
        if p > 64 {
            lemma_pow2_strictly_increases(64, p as nat);
        }
        assert(p < 64);
    }
    if p <= 52 {
        let d = pow2_u64(52 - p);
        proof {
            lemma_pow2_adds(p as nat, (52 - p) as nat);
            lemma_pow2_adds((p + 1) as nat, (52 - p) as nat);
            let nn = n as int;
            assert(nn * d < 2 * FRACTION_SPAN && nn * d >= FRACTION_SPAN) by (nonlinear_arith)
                requires
                    pow2(p as nat) <= nn < pow2((p + 1) as nat),
                    pow2(p as nat) * d == FRACTION_SPAN,
                    pow2((p + 1) as nat) * d == 2 * FRACTION_SPAN,
                    d >= 0,
            ;
        }
        (p + 1023) * FRACTION_SPAN + n * d - FRACTION_SPAN
    } else {
        let k = p - 52;
        let d = pow2_u64(k);
        proof {
            lemma_pow2_pos(k as nat);
        }
        let q = n / d;
        let rem = n % d;
        proof {
            lemma_pow2_adds(k as nat, 52);
            lemma_pow2_adds(k as nat, 53);
            assert(p + 1 == k + 53);
            let nn = n as int;
            let dd = d as int;
            assert(q < 2 * FRACTION_SPAN) by (nonlinear_arith)
                requires
                    nn < dd * (2 * FRACTION_SPAN),
                    q == nn / dd,
                    dd > 0,
            ;
            assert(q >= FRACTION_SPAN) by (nonlinear_arith)
                requires
                    nn >= dd * FRACTION_SPAN,
                    q == nn / dd,
                    dd > 0,
            ;
        }
        let up = 2 * (rem as u128) > d as u128 || (2 * (rem as u128) == d as u128 && q % 2 == 1);
        let q2 = if up {
            q + 1
        } else {
            q
        };
        (p + 1023) * FRACTION_SPAN + q2 - FRACTION_SPAN
    }
}

/// The bits of the double nearest to `x`, ties to even.
pub fn i64_to_double(x: i64) -> (r: u64)
    ensures
        r as int == int_double_bits(x as int),
{
    if x >= 0 {
        nat_to_double(x as u64)
    } else {
        let m: u64 = if x == i64::MIN {
            SIGN_BIT
        } else {
            (-x) as u64
        };
        SIGN_BIT + nat_to_double(m)
    }
}

/// An integral double whose value lies in the range of `i64`.
pub open spec fn integral_fits_i64_spec(b: u64) -> bool {
    is_integral_bits(b) && i64::MIN <= integral_value(b) <= i64::MAX
}

/// Whether an integral double's value lies in the range of `i64`.
pub fn integral_fits_i64(b: u64) -> (r: bool)
    requires
        is_integral_bits(b),
    ensures
        r == integral_fits_i64_spec(b),
{
    let e = (b % SIGN_BIT) / FRACTION_SPAN;
    let f = b % FRACTION_SPAN;
    let s = FRACTION_SPAN + f;
    let neg = b >= SIGN_BIT;
    proof {
        lemma_pow2_64();
        vstd::arithmetic::power2::lemma2_to64();
    }
    if e < EXPONENT_UNIT_SHIFT {
        proof {
            if e > 0 {
                let shift = (EXPONENT_UNIT_SHIFT - e) as nat;
                lemma_pow2_pos(shift);
                let d = pow2(shift) as int;
                assert(s as int / d <= s) by (nonlinear_arith)
                    requires
                        d >= 1,
                        s >= 0,
                ;
            }
        }
        true
    } else {
        let k = e - EXPONENT_UNIT_SHIFT;
        proof {
            lemma_pow2_pos(k as nat);
        }
        if k <= 10 {
            proof {
                if k < 10 {
                    lemma_pow2_strictly_increases(k as nat, 10);
                }
                let d = pow2(k as nat) as int;
                assert(s * d < SIGN_BIT) by (nonlinear_arith)
                    requires
                        d <= 1024,
                        s < 2 * FRACTION_SPAN,
                ;
            }
            true
        } else if k == 11 {
            proof {
                assert(pow2(11) == 2048);
                if f == 0 {
                    assert(s * 2048 == SIGN_BIT);
                } else {
                    assert(s * 2048 > SIGN_BIT) by (nonlinear_arith)
                        requires
                            s > FRACTION_SPAN,
                    ;
                }
            }
            neg && f == 0
        } else {
            proof {
                lemma_pow2_adds(12, (k - 12) as nat);
                lemma_pow2_pos((k - 12) as nat);
                assert(pow2(12) == 4096);
                let m = pow2((k - 12) as nat) as int;
                assert(s * pow2(k as nat) >= 2 * SIGN_BIT) by (nonlinear_arith)
                    requires
                        pow2(k as nat) == 4096 * m,
                        m >= 1,
                        s >= FRACTION_SPAN,
                ;
            }
            false
        }
    }
}

} // verus!
