//! The numeric `for` loop: its check, the integer bound that stands for a
//! binary64 limit, and what preparing and advancing a loop amount to.

use vstd::prelude::*;
use crate::arith::wrap;
use crate::binary64::{
    Order, order, from_int, floor_to_int, ceil_to_int, is_zero, float_order, int_to_float,
    float_floor, float_ceil, float_is_zero, float_is_positive,
};
use crate::error::VmError;
use crate::value::{Value, Val};

verus! {

/// Whether a counter is still within its limit, the limit included: not
/// above it when the step is positive, not below it otherwise.
pub open spec fn within(i: i64, limit: i64, is_step_positive: bool) -> bool {
    if is_step_positive {
        i <= limit
    } else {
        i >= limit
    }
}

/// The same for binary64 numbers; a NaN is within nothing.
pub open spec fn within_float(i: u64, limit: u64, is_step_positive: bool) -> bool {
    if is_step_positive {
        order(i, limit) == Order::Less || order(i, limit) == Order::Equal
    } else {
        order(i, limit) == Order::Greater || order(i, limit) == Order::Equal
    }
}

/// The integer bound for a binary64 limit of an integer loop, and the
/// counter to check against it.
///
/// For a positive step the bound is the floor of the limit, for a negative
/// step its ceiling, each cut off at the ends of the 64-bit range. A limit
/// below every 64-bit integer (above, for a negative step) admits no
/// counter at all: the bound -1 with the counter 0 (1 with the counter 0)
/// says so without an addition that could overflow.
pub open spec fn int_limit(limit: u64, is_step_positive: bool, i: i64) -> (i64, i64) {
    if is_step_positive {
        if order(limit, from_int(i64::MIN)) == Order::Less {
            (-1i64, 0i64)
        } else {
            (floor_to_int(limit), i)
        }
    } else {
        if order(limit, from_int(i64::MAX)) == Order::Greater {
            (1i64, 0i64)
        } else {
            (ceil_to_int(limit), i)
        }
    }
}

/// A loop that has been prepared.
#[derive(Clone, Copy, Debug, PartialEq, Eq, Structural)]
pub enum Prepared {
    /// An integer loop with its integer limit, and whether it runs at all.
    Integer(i64, bool),
    /// A binary64 loop with its counter, limit and step, and whether it
    /// runs at all.
    Float(u64, u64, u64, bool),
}

/// The binary64 number that a counter, limit or step of a binary64 loop is.
pub open spec fn as_float(v: Val) -> Result<u64, VmError> {
    match v {
        Val::Float(f) => Ok(f),
        Val::Integer(i) => Ok(from_int(i)),
        _ => Err(VmError::Type),
    }
}

/// Prepares a loop from its counter, limit and step.
///
/// With an integer counter and an integer step the loop is an integer
/// loop; its limit is an integer or a binary64 number, which gets an
/// integer bound. Otherwise all three become binary64 numbers. A step of
/// zero is an error.
pub open spec fn prepare(i: Val, limit: Val, step: Val) -> Result<Prepared, VmError> {
    match (i, step) {
        (Val::Integer(i), Val::Integer(step)) => {
            if step == 0 {
                Err(VmError::Range)
            } else {
                match limit {
                    Val::Integer(l) => Ok(Prepared::Integer(l, within(i, l, step > 0))),
                    Val::Float(f) => {
                        let (l, first) = int_limit(f, step > 0, i);
                        Ok(Prepared::Integer(l, within(first, l, step > 0)))
                    },
                    _ => Err(VmError::Type),
                }
            }
        },
        _ => match (as_float(i), as_float(limit), as_float(step)) {
            (Ok(i), Ok(l), Ok(s)) => {
                if is_zero(s) {
                    Err(VmError::Range)
                } else {
                    Ok(Prepared::Float(i, l, s, within_float(i, l, order(s, 0) == Order::Greater)))
                }
            },
            _ => Err(VmError::Type),
        },
    }
}

/// One more round of a loop.
#[derive(Clone, Copy, Debug, PartialEq, Eq, Structural)]
pub enum Advance {
    /// The next counter of an integer loop, and whether the loop goes on.
    Integer(i64, bool),
    /// A binary64 loop: the host is to add the step to the counter. Kept
    /// are the counter, the limit and the step.
    Float(u64, u64, u64),
}

/// Advances a loop by its step. An integer counter wraps around.
pub open spec fn advance(i: Val, limit: Val, step: Val) -> Result<Advance, VmError> {
    match i {
        Val::Integer(i) => match (limit, step) {
            (Val::Integer(l), Val::Integer(s)) => Ok(
                Advance::Integer(wrap(i + s), within(wrap(i + s), l, s > 0)),
            ),
            _ => Err(VmError::Type),
        },
        Val::Float(f) => match (limit, step) {
            (Val::Float(l), Val::Float(s)) => Ok(Advance::Float(f, l, s)),
            _ => Err(VmError::Type),
        },
        _ => Err(VmError::Type),
    }
}

/// Whether the counter `i` is still within `limit`.
pub fn for_check(i: i64, limit: i64, is_step_positive: bool) -> (r: bool)
    ensures
        r == within(i, limit, is_step_positive),
{
    if is_step_positive {
        i <= limit
    } else {
        i >= limit
    }
}

/// Whether the binary64 counter `i` is still within `limit`.
pub fn for_check_float(i: u64, limit: u64, is_step_positive: bool) -> (r: bool)
    ensures
        r == within_float(i, limit, is_step_positive),
{
    let o = float_order(i, limit);
    if is_step_positive {
        o == Order::Less || o == Order::Equal
    } else {
        o == Order::Greater || o == Order::Equal
    }
}

/// The integer bound for the binary64 limit of an integer loop. Where no
/// counter can be within the limit, `i` is set to 0.
pub fn for_int_limit(limit: u64, is_step_positive: bool, i: &mut i64) -> (r: i64)
    ensures
        (r, *final(i)) == int_limit(limit, is_step_positive, *old(i)),
{
    if is_step_positive {
        if float_order(limit, int_to_float(i64::MIN)) == Order::Less {
            *i = 0;
            -1
        } else {
            float_floor(limit)
        }
    } else {
        if float_order(limit, int_to_float(i64::MAX)) == Order::Greater {
            *i = 0;
            1
        } else {
            float_ceil(limit)
        }
    }
}

fn make_float(v: &Value) -> (r: Result<u64, VmError>)
    ensures
        r == as_float(v@),
{
    match v {
        Value::Float(f) => Ok(*f),
        Value::Integer(i) => Ok(int_to_float(*i)),
        _ => Err(VmError::Type),
    }
}

/// Prepares a loop.
pub fn for_prepare(i: &Value, limit: &Value, step: &Value) -> (r: Result<Prepared, VmError>)
    ensures
        r == prepare(i@, limit@, step@),
{
    match (i, step) {
        (Value::Integer(i), Value::Integer(step)) => {
            if *step == 0 {
                return Err(VmError::Range);
            }
            let mut first: i64 = *i;
            let l: i64 = match limit {
                Value::Integer(l) => *l,
                Value::Float(f) => for_int_limit(*f, *step > 0, &mut first),
                _ => {
                    return Err(VmError::Type);
                },
            };
            Ok(Prepared::Integer(l, for_check(first, l, *step > 0)))
        },
        _ => match (make_float(i), make_float(limit), make_float(step)) {
            (Ok(i), Ok(l), Ok(s)) => {
                if float_is_zero(s) {
                    Err(VmError::Range)
                } else {
                    Ok(Prepared::Float(i, l, s, for_check_float(i, l, float_is_positive(s))))
                }
            },
            _ => Err(VmError::Type),
        },
    }
}

/// Advances a loop.
pub fn for_advance(i: &Value, limit: &Value, step: &Value) -> (r: Result<Advance, VmError>)
    ensures
        r == advance(i@, limit@, step@),
{
    match i {
        Value::Integer(i) => match (limit, step) {
            (Value::Integer(l), Value::Integer(s)) => {
                let next: i64 = i.wrapping_add(*s);
                Ok(Advance::Integer(next, for_check(next, *l, *s > 0)))
            },
            _ => Err(VmError::Type),
        },
        Value::Float(f) => match (limit, step) {
            (Value::Float(l), Value::Float(s)) => Ok(Advance::Float(*f, *l, *s)),
            _ => Err(VmError::Type),
        },
        _ => Err(VmError::Type),
    }
}

} // verus!
