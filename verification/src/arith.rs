//! The three kernels of binary arithmetic.
//!
//! Integer results are computed here. A result that is a binary64 number is
//! the host's to compute: the kernels say which operation on which two
//! numbers it is.

use vstd::prelude::*;
use crate::binary64::{from_int, exact_int, int_to_float, float_to_int};
use crate::error::VmError;
use crate::value::{Value, Val};

verus! {

/// The operators of the first kernel: integer on integers, binary64 as soon
/// as one operand is a binary64 number.
#[derive(Clone, Copy, Debug, PartialEq, Eq, Structural)]
pub enum ArithOp {
    Add,
    Sub,
    Mul,
    /// Modulo: the result has the sign of the divisor.
    Mod,
    /// Floor division.
    Idiv,
}

/// The operators of the second kernel, whose result is always a binary64
/// number.
#[derive(Clone, Copy, Debug, PartialEq, Eq, Structural)]
pub enum RealOp {
    Div,
    Pow,
}

/// The operators of the third kernel, which works on integers only.
#[derive(Clone, Copy, Debug, PartialEq, Eq, Structural)]
pub enum BitOp {
    And,
    Or,
    Xor,
    ShiftL,
    ShiftR,
}

/// An operation on two binary64 numbers, which the host performs.
#[derive(Clone, Copy, Debug, PartialEq, Eq, Structural)]
pub enum FloatOp {
    Add,
    Sub,
    Mul,
    /// Modulo: the result has the sign of the divisor.
    Mod,
    /// The quotient, rounded down to a whole number.
    Idiv,
    Div,
    Pow,
}

/// What a kernel hands back: an integer, or the operation on two binary64
/// patterns whose result the host is to compute.
#[derive(Clone, Copy, Debug, PartialEq, Eq, Structural)]
pub enum Number {
    Integer(i64),
    Float(FloatOp, u64, u64),
}

impl ArithOp {
    /// The operation on binary64 numbers that the operator stands for.
    pub open spec fn on_floats(self) -> FloatOp {
        match self {
            ArithOp::Add => FloatOp::Add,
            ArithOp::Sub => FloatOp::Sub,
            ArithOp::Mul => FloatOp::Mul,
            ArithOp::Mod => FloatOp::Mod,
            ArithOp::Idiv => FloatOp::Idiv,
        }
    }

    /// The operation on binary64 numbers that the operator stands for.
    pub fn float_op(self) -> (r: FloatOp)
        ensures
            r == self.on_floats(),
    {
        match self {
            ArithOp::Add => FloatOp::Add,
            ArithOp::Sub => FloatOp::Sub,
            ArithOp::Mul => FloatOp::Mul,
            ArithOp::Mod => FloatOp::Mod,
            ArithOp::Idiv => FloatOp::Idiv,
        }
    }
}

impl RealOp {
    /// The operation on binary64 numbers that the operator stands for.
    pub open spec fn on_floats(self) -> FloatOp {
        match self {
            RealOp::Div => FloatOp::Div,
            RealOp::Pow => FloatOp::Pow,
        }
    }

    /// The operation on binary64 numbers that the operator stands for.
    pub fn float_op(self) -> (r: FloatOp)
        ensures
            r == self.on_floats(),
    {
        match self {
            RealOp::Div => FloatOp::Div,
            RealOp::Pow => FloatOp::Pow,
        }
    }
}

/// The 64-bit integer that is congruent to `x` modulo two to the power 64.
pub open spec fn wrap(x: int) -> i64 {
    let low = x % 0x1_0000_0000_0000_0000;
    if low > i64::MAX {
        (low - 0x1_0000_0000_0000_0000) as i64
    } else {
        low as i64
    }
}

/// The largest integer that is not above `a / b`.
pub open spec fn floor_div(a: int, b: int) -> int
    recommends
        b != 0,
{
    if b > 0 {
        a / b
    } else {
        (-a) / (-b)
    }
}

/// `a - b * floor_div(a, b)`: zero, or of the sign of `b`.
pub open spec fn floor_mod(a: int, b: int) -> int
    recommends
        b != 0,
{
    if b > 0 {
        a % b
    } else {
        -((-a) % (-b))
    }
}

/// The integer with every bit flipped.
pub open spec fn complement(a: i64) -> i64 {
    !a
}

/// How far a shift moves: the count modulo 64.
pub open spec fn shift_count(b: i64) -> u32 {
    (b as int % 64) as u32
}

/// The first kernel on two integers. Sums, differences, products and
/// quotients wrap around; a zero divisor is an error.
pub open spec fn int_arith(op: ArithOp, a: i64, b: i64) -> Result<i64, VmError> {
    match op {
        ArithOp::Add => Ok(wrap(a + b)),
        ArithOp::Sub => Ok(wrap(a - b)),
        ArithOp::Mul => Ok(wrap(a * b)),
        ArithOp::Mod => if b == 0 {
            Err(VmError::Range)
        } else {
            Ok(floor_mod(a as int, b as int) as i64)
        },
        ArithOp::Idiv => if b == 0 {
            Err(VmError::Range)
        } else {
            Ok(wrap(floor_div(a as int, b as int)))
        },
    }
}

/// The third kernel on two integers. A shift moves by the count modulo 64;
/// a shift to the right keeps the sign.
pub open spec fn int_bits(op: BitOp, a: i64, b: i64) -> i64 {
    match op {
        BitOp::And => a & b,
        BitOp::Or => a | b,
        BitOp::Xor => a ^ b,
        BitOp::ShiftL => a << shift_count(b),
        BitOp::ShiftR => a >> shift_count(b),
    }
}

/// The first kernel.
pub open spec fn arith(op: ArithOp, a: Val, b: Val) -> Result<Number, VmError> {
    match (a, b) {
        (Val::Integer(x), Val::Integer(y)) => match int_arith(op, x, y) {
            Ok(i) => Ok(Number::Integer(i)),
            Err(e) => Err(e),
        },
        (Val::Integer(x), Val::Float(y)) => Ok(Number::Float(op.on_floats(), from_int(x), y)),
        (Val::Float(x), Val::Float(y)) => Ok(Number::Float(op.on_floats(), x, y)),
        (Val::Float(x), Val::Integer(y)) => Ok(Number::Float(op.on_floats(), x, from_int(y))),
        _ => Err(VmError::Type),
    }
}

/// The second kernel.
pub open spec fn arith_f(op: RealOp, a: Val, b: Val) -> Result<Number, VmError> {
    match (a, b) {
        (Val::Integer(x), Val::Integer(y)) => Ok(
            Number::Float(op.on_floats(), from_int(x), from_int(y)),
        ),
        (Val::Integer(x), Val::Float(y)) => Ok(Number::Float(op.on_floats(), from_int(x), y)),
        (Val::Float(x), Val::Float(y)) => Ok(Number::Float(op.on_floats(), x, y)),
        (Val::Float(x), Val::Integer(y)) => Ok(Number::Float(op.on_floats(), x, from_int(y))),
        _ => Err(VmError::Type),
    }
}

/// The integer that an operand of the third kernel is: an integer itself,
/// or a binary64 number that is an integer of the 64-bit range.
pub open spec fn as_integer(v: Val) -> Result<i64, VmError> {
    match v {
        Val::Integer(i) => Ok(i),
        Val::Float(f) => match exact_int(f) {
            Some(i) => Ok(i),
            None => Err(VmError::Type),
        },
        _ => Err(VmError::Type),
    }
}

/// The third kernel.
pub open spec fn arith_bit(op: BitOp, a: Val, b: Val) -> Result<Number, VmError> {
    match (as_integer(a), as_integer(b)) {
        (Ok(x), Ok(y)) => Ok(Number::Integer(int_bits(op, x, y))),
        _ => Err(VmError::Type),
    }
}

fn magnitude_of(a: i64) -> (r: u64)
    ensures
        r == if a < 0 { -(a as int) } else { a as int },
{
    if a == i64::MIN {
        0x8000_0000_0000_0000
    } else if a < 0 {
        (-a) as u64
    } else {
        a as u64
    }
}

fn floor_quotient(a: i64, b: i64) -> (r: i64)
    requires
        b != 0,
    ensures
        r == wrap(floor_div(a as int, b as int)),
{
    let ma: u64 = magnitude_of(a);
    let mb: u64 = magnitude_of(b);
    let q: u64 = ma / mb;
    let rem: u64 = ma % mb;
    proof {
        lemma_floor_parts(a as int, b as int);
    }
    if (a < 0) == (b < 0) {
        if q > 0x7fff_ffff_ffff_ffff {
            i64::MIN
        } else {
            q as i64
        }
    } else if rem == 0 {
        if q > 0x7fff_ffff_ffff_ffff {
            i64::MIN
        } else {
            -(q as i64)
        }
    } else {
        -(q as i64) - 1
    }
}

fn floor_remainder(a: i64, b: i64) -> (r: i64)
    requires
        b != 0,
    ensures
        r == floor_mod(a as int, b as int),
{
    let ma: u64 = magnitude_of(a);
    let mb: u64 = magnitude_of(b);
    let rem: u64 = ma % mb;
    proof {
        lemma_floor_parts(a as int, b as int);
    }
    if rem == 0 {
        0
    } else if (a < 0) == (b < 0) {
        if b < 0 {
            -(rem as i64)
        } else {
            rem as i64
        }
    } else {
        let other: u64 = mb - rem;
        if b < 0 {
            -(other as i64)
        } else {
            other as i64
        }
    }
}

/// Floor division and modulo, told by the quotient and remainder of the
/// magnitudes.
proof fn lemma_floor_parts(a: int, b: int)
    requires
        b != 0,
    ensures
        ({
            let ma = if a < 0 { -a } else { a };
            let mb = if b < 0 { -b } else { b };
            let q = ma / mb;
            let r = ma % mb;
            &&& 0 <= r < mb
            &&& q >= 0
            &&& q <= ma
            &&& r != 0 ==> 2 * q <= ma
            &&& (a < 0) == (b < 0) ==> floor_div(a, b) == q
            &&& (a < 0) != (b < 0) && r == 0 ==> floor_div(a, b) == -q
            &&& (a < 0) != (b < 0) && r != 0 ==> floor_div(a, b) == -q - 1
            &&& r == 0 ==> floor_mod(a, b) == 0
            &&& (a < 0) == (b < 0) && r != 0 ==> floor_mod(a, b) == if b < 0 { -r } else { r }
            &&& (a < 0) != (b < 0) && r != 0 ==> floor_mod(a, b) == if b < 0 { -(mb - r) } else { mb - r }
        }),
{
    let ma = if a < 0 { -a } else { a };
    let mb = if b < 0 { -b } else { b };
    let q = ma / mb;
    let r = ma % mb;
    vstd::arithmetic::div_mod::lemma_fundamental_div_mod(ma, mb);
    vstd::arithmetic::div_mod::lemma_mod_bound(ma, mb);
    vstd::arithmetic::div_mod::lemma_div_pos_is_pos(ma, mb);
    assert(q <= ma) by (nonlinear_arith)
        requires
            ma == mb * q + r,
            mb >= 1,
            q >= 0,
            r >= 0,
    ;
    if r != 0 {
        assert(2 * q <= ma) by (nonlinear_arith)
            requires
                ma == mb * q + r,
                mb >= 2,
                q >= 0,
                r >= 0,
        ;
    }
    // the numerator as floor division sees it: a if b > 0, -a otherwise
    let n = if b > 0 { a } else { -a };
    if n >= 0 {
        assert(n == ma);
    } else {
        assert(n == -ma);
        if r == 0 {
            assert(n == (-q) * mb + 0) by (nonlinear_arith)
                requires
                    n == -ma,
                    ma == mb * q + r,
                    r == 0,
            ;
            vstd::arithmetic::div_mod::lemma_fundamental_div_mod_converse(n, mb, -q, 0);
        } else {
            assert(n == (-q - 1) * mb + (mb - r)) by (nonlinear_arith)
                requires
                    n == -ma,
                    ma == mb * q + r,
            ;
            vstd::arithmetic::div_mod::lemma_fundamental_div_mod_converse(n, mb, -q - 1, mb - r);
        }
    }
}

/// The first kernel on two integers.
pub fn exe_int_arith(op: ArithOp, a: i64, b: i64) -> (r: Result<i64, VmError>)
    ensures
        r == int_arith(op, a, b),
{
    match op {
        ArithOp::Add => Ok(a.wrapping_add(b)),
        ArithOp::Sub => Ok(a.wrapping_sub(b)),
        ArithOp::Mul => Ok(a.wrapping_mul(b)),
        ArithOp::Mod => if b == 0 {
            Err(VmError::Range)
        } else {
            Ok(floor_remainder(a, b))
        },
        ArithOp::Idiv => if b == 0 {
            Err(VmError::Range)
        } else {
            Ok(floor_quotient(a, b))
        },
    }
}

fn count_of(b: i64) -> (r: u32)
    ensures
        r == shift_count(b),
        r < 64,
{
    let low: u64 = if b >= 0 {
        (b as u64) % 64
    } else {
        let m: u64 = magnitude_of(b) % 64;
        if m == 0 { 0 } else { 64 - m }
    };
    low as u32
}

/// The third kernel on two integers.
pub fn exe_int_bits(op: BitOp, a: i64, b: i64) -> (r: i64)
    ensures
        r == int_bits(op, a, b),
{
    match op {
        BitOp::And => a & b,
        BitOp::Or => a | b,
        BitOp::Xor => a ^ b,
        BitOp::ShiftL => a.wrapping_shl(count_of(b)),
        BitOp::ShiftR => a.wrapping_shr(count_of(b)),
    }
}

/// The first kernel on two values.
pub fn exe_binop(v1: &Value, v2: &Value, op: ArithOp) -> (r: Result<Number, VmError>)
    ensures
        r == arith(op, v1@, v2@),
{
    match (v1, v2) {
        (Value::Integer(i1), Value::Integer(i2)) => match exe_int_arith(op, *i1, *i2) {
            Ok(i) => Ok(Number::Integer(i)),
            Err(e) => Err(e),
        },
        (Value::Integer(i1), Value::Float(f2)) => Ok(
            Number::Float(op.float_op(), int_to_float(*i1), *f2),
        ),
        (Value::Float(f1), Value::Float(f2)) => Ok(Number::Float(op.float_op(), *f1, *f2)),
        (Value::Float(f1), Value::Integer(i2)) => Ok(
            Number::Float(op.float_op(), *f1, int_to_float(*i2)),
        ),
        _ => Err(VmError::Type),
    }
}

/// The first kernel on a value and an immediate.
pub fn exe_binop_int(v1: &Value, i2: u8, op: ArithOp) -> (r: Result<Number, VmError>)
    ensures
        r == arith(op, v1@, Val::Integer(i2 as i64)),
{
    exe_binop(v1, &Value::Integer(i2 as i64), op)
}

/// The second kernel on two values.
pub fn exe_binop_f(v1: &Value, v2: &Value, op: RealOp) -> (r: Result<Number, VmError>)
    ensures
        r == arith_f(op, v1@, v2@),
{
    let (f1, f2) = match (v1, v2) {
        (Value::Integer(i1), Value::Integer(i2)) => (int_to_float(*i1), int_to_float(*i2)),
        (Value::Integer(i1), Value::Float(f2)) => (int_to_float(*i1), *f2),
        (Value::Float(f1), Value::Float(f2)) => (*f1, *f2),
        (Value::Float(f1), Value::Integer(i2)) => (*f1, int_to_float(*i2)),
        _ => {
            return Err(VmError::Type);
        },
    };
    Ok(Number::Float(op.float_op(), f1, f2))
}

/// The second kernel on a value and an immediate.
pub fn exe_binop_int_f(v1: &Value, i2: u8, op: RealOp) -> (r: Result<Number, VmError>)
    ensures
        r == arith_f(op, v1@, Val::Integer(i2 as i64)),
{
    exe_binop_f(v1, &Value::Integer(i2 as i64), op)
}

fn integer_of(v: &Value) -> (r: Result<i64, VmError>)
    ensures
        r == as_integer(v@),
{
    match v {
        Value::Integer(i) => Ok(*i),
        Value::Float(f) => match float_to_int(*f) {
            Some(i) => Ok(i),
            None => Err(VmError::Type),
        },
        _ => Err(VmError::Type),
    }
}

/// The third kernel on two values.
pub fn exe_binop_i(v1: &Value, v2: &Value, op: BitOp) -> (r: Result<Number, VmError>)
    ensures
        r == arith_bit(op, v1@, v2@),
{
    match (integer_of(v1), integer_of(v2)) {
        (Ok(i1), Ok(i2)) => Ok(Number::Integer(exe_int_bits(op, i1, i2))),
        _ => Err(VmError::Type),
    }
}

/// The third kernel on a value and an immediate.
pub fn exe_binop_int_i(v1: &Value, i2: u8, op: BitOp) -> (r: Result<Number, VmError>)
    ensures
        r == arith_bit(op, v1@, Val::Integer(i2 as i64)),
{
    exe_binop_i(v1, &Value::Integer(i2 as i64), op)
}

} // verus!
