//! IEEE-754 binary64 numbers, held as their 64-bit patterns.
//!
//! The machine never rounds: sums, products, quotients and powers are the
//! host's work. What can be read off a bit pattern exactly is decided here:
//! classification, order, negation, and the conversions between integers and
//! binary64 numbers.

use vstd::prelude::*;
use vstd::arithmetic::power2::{
    lemma2_to64, lemma2_to64_rest, lemma_pow2_adds, lemma_pow2_pos, lemma_pow2_strictly_increases,
    lemma_pow2_unfold, pow2,
};
use vstd::arithmetic::div_mod::{lemma_basic_div, lemma_small_mod};

verus! {

/// The sign bit of a pattern.
pub const SIGN: u64 = 0x8000_0000_0000_0000;

/// The pattern of positive infinity; every larger magnitude is a NaN.
pub const INFINITY: u64 = 0x7ff0_0000_0000_0000;

/// How two numbers stand to each other. Two numbers are `Unordered` exactly
/// when one of them is a NaN.
#[derive(Clone, Copy, Debug, PartialEq, Eq, Structural)]
pub enum Order {
    Less,
    Equal,
    Greater,
    Unordered,
}

/// Whether the sign bit is set.
pub open spec fn negative(bits: u64) -> bool {
    bits >= SIGN
}

/// The pattern without its sign bit.
pub open spec fn magnitude(bits: u64) -> u64 {
    if bits >= SIGN {
        (bits - SIGN) as u64
    } else {
        bits
    }
}

/// Whether the pattern encodes no number.
pub open spec fn is_nan(bits: u64) -> bool {
    magnitude(bits) > INFINITY
}

/// Whether the pattern encodes a number that is not infinite.
pub open spec fn is_finite(bits: u64) -> bool {
    magnitude(bits) < INFINITY
}

/// Both zeros, `+0.0` and `-0.0`.
pub open spec fn is_zero(bits: u64) -> bool {
    magnitude(bits) == 0
}

/// The place of a number that is no NaN in the order of all such numbers:
/// the magnitudes of binary64 patterns grow with the magnitudes of the
/// numbers they encode, and the two zeros share place 0.
pub open spec fn rank(bits: u64) -> int {
    if negative(bits) {
        -(magnitude(bits) as int)
    } else {
        magnitude(bits) as int
    }
}

/// The IEEE-754 comparison of two patterns.
pub open spec fn order(a: u64, b: u64) -> Order {
    if is_nan(a) || is_nan(b) {
        Order::Unordered
    } else if rank(a) < rank(b) {
        Order::Less
    } else if rank(a) > rank(b) {
        Order::Greater
    } else {
        Order::Equal
    }
}

/// The pattern of `-x` for the number `x` that `bits` encodes.
pub open spec fn negated(bits: u64) -> u64 {
    if bits >= SIGN {
        (bits - SIGN) as u64
    } else {
        (bits + SIGN) as u64
    }
}

/// Whether the pattern encodes no number.
pub fn float_is_nan(bits: u64) -> (r: bool)
    ensures
        r == is_nan(bits),
{
    let mag: u64 = if bits >= SIGN { bits - SIGN } else { bits };
    mag > INFINITY
}

/// Whether the number is zero, of either sign.
pub fn float_is_zero(bits: u64) -> (r: bool)
    ensures
        r == is_zero(bits),
{
    bits == 0 || bits == SIGN
}

/// Whether the number is greater than zero (false for a NaN).
pub fn float_is_positive(bits: u64) -> (r: bool)
    ensures
        r == (order(bits, 0) == Order::Greater),
{
    0 < bits && bits <= INFINITY
}

/// Compares two binary64 numbers.
pub fn float_order(a: u64, b: u64) -> (r: Order)
    ensures
        r == order(a, b),
{
    if float_is_nan(a) || float_is_nan(b) {
        return Order::Unordered;
    }
    let ra: i64 = signed_rank(a);
    let rb: i64 = signed_rank(b);
    if ra < rb {
        Order::Less
    } else if ra > rb {
        Order::Greater
    } else {
        Order::Equal
    }
}

fn signed_rank(bits: u64) -> (r: i64)
    ensures
        r == rank(bits),
{
    if bits >= SIGN {
        let mag: u64 = bits - SIGN;
        -(mag as i64)
    } else {
        bits as i64
    }
}

/// Negates a binary64 number.
pub fn float_negate(bits: u64) -> (r: u64)
    ensures
        r == negated(bits),
{
    if bits >= SIGN {
        bits - SIGN
    } else {
        bits + SIGN
    }
}

/// Two to the power 52: the weight of a significand's leading bit.
pub const HIDDEN: u64 = 0x10_0000_0000_0000;

/// The biased exponent, the eleven bits below the sign.
pub open spec fn exponent_field(bits: u64) -> nat {
    (magnitude(bits) / HIDDEN) as nat
}

/// The low 52 bits.
pub open spec fn fraction(bits: u64) -> nat {
    (magnitude(bits) % HIDDEN) as nat
}

/// The integer `m` in `|x| = m * 2^e`, where `e` is [`exponent`].
pub open spec fn significand(bits: u64) -> nat {
    if exponent_field(bits) == 0 {
        fraction(bits)
    } else {
        (HIDDEN + fraction(bits)) as nat
    }
}

/// The integer `e` in `|x| = m * 2^e`, where `m` is [`significand`].
pub open spec fn exponent(bits: u64) -> int {
    if exponent_field(bits) == 0 {
        -1074
    } else {
        exponent_field(bits) - 1075
    }
}

/// The largest integer that is not above `|x|`, for a finite `x`.
pub open spec fn whole_part(bits: u64) -> nat {
    if exponent(bits) >= 0 {
        significand(bits) * pow2(exponent(bits) as nat)
    } else {
        significand(bits) / pow2((-exponent(bits)) as nat)
    }
}

/// Whether a finite `x` is an integer.
pub open spec fn is_whole(bits: u64) -> bool {
    exponent(bits) >= 0 || significand(bits) % pow2((-exponent(bits)) as nat) == 0
}

/// The largest integer that is not above `x`, for a finite `x`.
pub open spec fn floor_of(bits: u64) -> int {
    if !negative(bits) {
        whole_part(bits) as int
    } else if is_whole(bits) {
        -(whole_part(bits) as int)
    } else {
        -(whole_part(bits) as int) - 1
    }
}

/// The smallest integer that is not below `x`, for a finite `x`.
pub open spec fn ceil_of(bits: u64) -> int {
    if negative(bits) {
        -(whole_part(bits) as int)
    } else if is_whole(bits) {
        whole_part(bits) as int
    } else {
        whole_part(bits) as int + 1
    }
}

/// The 64-bit integer nearest to `x`.
pub open spec fn clamp(x: int) -> i64 {
    if x < i64::MIN {
        i64::MIN
    } else if x > i64::MAX {
        i64::MAX
    } else {
        x as i64
    }
}

/// What converting a number to a 64-bit integer gives once the number has
/// been rounded to an integer `rounded`: a NaN becomes 0, and what lies
/// outside the 64-bit range becomes the nearest end of the range.
pub open spec fn saturated(bits: u64, rounded: int) -> i64 {
    if is_nan(bits) {
        0
    } else if !is_finite(bits) {
        if negative(bits) {
            i64::MIN
        } else {
            i64::MAX
        }
    } else {
        clamp(rounded)
    }
}

/// `floor(x)` as a 64-bit integer, saturating.
pub open spec fn floor_to_int(bits: u64) -> i64 {
    saturated(bits, floor_of(bits))
}

/// `ceil(x)` as a 64-bit integer, saturating.
pub open spec fn ceil_to_int(bits: u64) -> i64 {
    saturated(bits, ceil_of(bits))
}

/// The integer that `x` is, if `x` is an integer of the 64-bit range.
pub open spec fn exact_int(bits: u64) -> Option<i64> {
    if is_finite(bits) && is_whole(bits) && i64::MIN <= floor_of(bits) <= i64::MAX {
        Some(floor_of(bits) as i64)
    } else {
        None
    }
}

fn power_of_two(k: u64) -> (p: u64)
    requires
        k < 64,
    ensures
        p == pow2(k as nat),
{
    let mut p: u64 = 1;
    let mut i: u64 = 0;
    proof {
        lemma2_to64();
    }
    while i < k
        invariant
            i <= k < 64,
            p == pow2(i as nat),
        decreases k - i,
    {
        proof {
            lemma_pow2_unfold((i + 1) as nat);
            lemma_pow2_strictly_increases((i + 1) as nat, 64);
            lemma2_to64();
        }
        p = p * 2;
        i = i + 1;
    }
    p
}

/// `whole_part`, cut off just above two to the power 63, and `is_whole`.
fn split(bits: u64) -> (r: (u64, bool))
    requires
        is_finite(bits),
    ensures
        r.0 == if whole_part(bits) > SIGN { (SIGN + 1) as nat } else { whole_part(bits) },
        r.1 == is_whole(bits),
        !r.1 ==> r.0 < 2 * HIDDEN,
{
    let mag: u64 = if bits >= SIGN { bits - SIGN } else { bits };
    let field: u64 = mag / HIDDEN;
    let frac: u64 = mag % HIDDEN;
    if field == 0 {
        proof {
            lemma_pow2_strictly_increases(52, 1074);
            lemma2_to64_rest();
            lemma_basic_div(frac as int, pow2(1074) as int);
            lemma_small_mod(frac as nat, pow2(1074));
        }
        (0, frac == 0)
    } else if field >= 1075 {
        let k: u64 = field - 1075;
        let m: u64 = HIDDEN + frac;
        if k == 11 && frac == 0 {
            proof {
                lemma2_to64();
                assert(m * pow2(k as nat) == 0x8000_0000_0000_0000) by (nonlinear_arith)
                    requires
                        m == 0x10_0000_0000_0000,
                        pow2(k as nat) == 2048,
                ;
            }
            (SIGN, true)
        } else if k >= 11 {
            proof {
                lemma2_to64();
                if k > 11 {
                    lemma_pow2_strictly_increases(11, k as nat);
                }
                let p = pow2(k as nat) as int;
                assert(m * p > SIGN) by (nonlinear_arith)
                    requires
                        m >= HIDDEN,
                        p >= 2048,
                        m > HIDDEN || p > 2048,
                ;
            }
            (SIGN + 1, true)
        } else {
            let p: u64 = power_of_two(k);
            proof {
                lemma2_to64();
                if k < 10 {
                    lemma_pow2_strictly_increases(k as nat, 10);
                }
                assert(m * p < SIGN) by (nonlinear_arith)
                    requires
                        m < 2 * HIDDEN,
                        p <= 1024,
                ;
            }
            (m * p, true)
        }
    } else {
        let k: u64 = 1075 - field;
        let m: u64 = HIDDEN + frac;
        if k >= 54 {
            proof {
                lemma2_to64_rest();
                if k > 54 {
                    lemma_pow2_strictly_increases(54, k as nat);
                }
                lemma_basic_div(m as int, pow2(k as nat) as int);
                lemma_small_mod(m as nat, pow2(k as nat));
            }
            (0, false)
        } else {
            let p: u64 = power_of_two(k);
            proof {
                lemma_pow2_pos(k as nat);
                assert(m / p <= m) by (nonlinear_arith)
                    requires
                        p >= 1,
                ;
            }
            (m / p, m % p == 0)
        }
    }
}

/// Rounds a binary64 number down to a 64-bit integer, saturating.
pub fn float_floor(bits: u64) -> (r: i64)
    ensures
        r == floor_to_int(bits),
{
    let mag: u64 = if bits >= SIGN { bits - SIGN } else { bits };
    if mag > INFINITY {
        0
    } else if mag == INFINITY {
        if bits >= SIGN { i64::MIN } else { i64::MAX }
    } else {
        let (whole, exact) = split(bits);
        if bits >= SIGN {
            if whole >= SIGN {
                i64::MIN
            } else if exact {
                -(whole as i64)
            } else {
                -(whole as i64) - 1
            }
        } else if whole >= SIGN {
            i64::MAX
        } else {
            whole as i64
        }
    }
}

/// Rounds a binary64 number up to a 64-bit integer, saturating.
pub fn float_ceil(bits: u64) -> (r: i64)
    ensures
        r == ceil_to_int(bits),
{
    let mag: u64 = if bits >= SIGN { bits - SIGN } else { bits };
    if mag > INFINITY {
        0
    } else if mag == INFINITY {
        if bits >= SIGN { i64::MIN } else { i64::MAX }
    } else {
        let (whole, exact) = split(bits);
        if bits >= SIGN {
            if whole >= SIGN {
                i64::MIN
            } else {
                -(whole as i64)
            }
        } else if whole >= SIGN {
            i64::MAX
        } else if exact {
            whole as i64
        } else {
            whole as i64 + 1
        }
    }
}

/// The integer that a binary64 number is, if it is one of the 64-bit
/// range.
pub fn float_to_int(bits: u64) -> (r: Option<i64>)
    ensures
        r == exact_int(bits),
{
    let mag: u64 = if bits >= SIGN { bits - SIGN } else { bits };
    if mag >= INFINITY {
        return None;
    }
    let (whole, exact) = split(bits);
    if !exact {
        None
    } else if bits >= SIGN {
        if whole > SIGN {
            None
        } else if whole == SIGN {
            Some(i64::MIN)
        } else {
            Some(-(whole as i64))
        }
    } else if whole >= SIGN {
        None
    } else {
        Some(whole as i64)
    }
}

/// The place of the highest set bit of a positive integer, counted from 0.
pub open spec fn top_bit(m: nat) -> nat
    decreases m,
{
    if m < 2 {
        0
    } else {
        1 + top_bit(m / 2)
    }
}

/// The significand of the binary64 number nearest to the positive integer
/// `m`, with the leading bit at place 52. Where `m` has more than 53 bits
/// the bits below are rounded off to nearest, ties to even; rounding up may
/// carry into place 53.
pub open spec fn rounded_significand(m: nat) -> nat {
    let e = top_bit(m);
    if e <= 52 {
        m * pow2((52 - e) as nat)
    } else {
        let p = pow2((e - 52) as nat);
        let q = m / p;
        let r = m % p;
        if 2 * r > p || (2 * r == p && q % 2 == 1) {
            q + 1
        } else {
            q
        }
    }
}

/// The pattern of the binary64 number nearest to the integer `i`, ties to
/// even. A carry out of the significand lands in the exponent field, which
/// is where it belongs.
pub open spec fn from_int(i: i64) -> u64 {
    if i == 0 {
        0
    } else {
        let m = (if i < 0 { -i } else { i as int }) as nat;
        let sign = if i < 0 { SIGN } else { 0u64 };
        (sign + (top_bit(m) + 1022) * HIDDEN + rounded_significand(m)) as u64
    }
}

proof fn lemma_top_bit(m: nat, e: nat)
    requires
        pow2(e) <= m < pow2(e + 1),
    ensures
        top_bit(m) == e,
    decreases e,
{
    lemma2_to64();
    if e == 0 {
    } else {
        lemma_pow2_unfold(e);
        lemma_pow2_unfold(e + 1);
        lemma_pow2_pos((e - 1) as nat);
        lemma_top_bit(m / 2, (e - 1) as nat);
    }
}

/// The binary64 number nearest to an integer.
pub fn int_to_float(i: i64) -> (r: u64)
    ensures
        r == from_int(i),
{
    if i == 0 {
        return 0;
    }
    let m: u64 = if i == i64::MIN {
        SIGN
    } else if i < 0 {
        (-i) as u64
    } else {
        i as u64
    };
    let sign: u64 = if i < 0 { SIGN } else { 0 };
    let mut e: u64 = 0;
    let mut p: u64 = 1;
    proof {
        lemma2_to64();
    }
    while e < 63 && p <= m / 2
        invariant
            e <= 63,
            p == pow2(e as nat),
            p <= m <= SIGN,
        decreases 63 - e,
    {
        proof {
            lemma_pow2_unfold((e + 1) as nat);
        }
        p = p * 2;
        e = e + 1;
    }
    proof {
        lemma_pow2_unfold((e + 1) as nat);
        lemma2_to64_rest();
        lemma_top_bit(m as nat, e as nat);
    }
    let sig: u64 = if e <= 52 {
        let k: u64 = 52 - e;
        let f: u64 = power_of_two(k);
        proof {
            lemma_pow2_adds(e as nat, k as nat);
            lemma2_to64_rest();
            assert(m * f < 2 * (p * f)) by (nonlinear_arith)
                requires
                    m < 2 * p,
                    f > 0,
            ;
        }
        m * f
    } else {
        let k: u64 = e - 52;
        let d: u64 = power_of_two(k);
        proof {
            lemma_pow2_pos(k as nat);
            lemma_pow2_adds(k as nat, 53);
            lemma2_to64_rest();
            assert(m / d < 0x20_0000_0000_0000) by (nonlinear_arith)
                requires
                    m < d * 0x20_0000_0000_0000,
                    d > 0,
            ;
        }
        let q: u64 = m / d;
        let rem: u64 = m % d;
        if rem > d - rem || (rem == d - rem && q % 2 == 1) {
            q + 1
        } else {
            q
        }
    };
    sign + (e + 1022) * HIDDEN + sig
}

} // verus!
