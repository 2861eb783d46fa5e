use luavm::error::VmError;
use luavm::forloop::{
    for_advance, for_check, for_check_float, for_int_limit, for_prepare, Advance, Prepared,
};
use luavm::value::Value;

fn float(f: f64) -> Value {
    Value::Float(f.to_bits())
}

#[test]
fn the_check_includes_the_limit() {
    assert!(for_check(1, 3, true));
    assert!(for_check(3, 3, true));
    assert!(!for_check(4, 3, true));
    assert!(for_check(5, 3, false));
    assert!(for_check(3, 3, false));
    assert!(!for_check(2, 3, false));
    assert!(!for_check(0, -1, true));
}

#[test]
fn the_float_check_follows_the_direction() {
    let b = |f: f64| f.to_bits();
    assert!(for_check_float(b(1.0), b(1.0), true));
    assert!(for_check_float(b(0.5), b(1.0), true));
    assert!(!for_check_float(b(1.5), b(1.0), true));
    assert!(for_check_float(b(1.5), b(1.0), false));
    assert!(!for_check_float(b(0.5), b(1.0), false));
    assert!(!for_check_float(b(f64::NAN), b(1.0), true));
    assert!(!for_check_float(b(1.0), b(f64::NAN), false));
}

#[test]
fn a_float_limit_becomes_an_integer_bound() {
    let bound = |limit: f64, positive: bool, first: i64| {
        let mut i = first;
        let l = for_int_limit(limit.to_bits(), positive, &mut i);
        (l, i)
    };
    assert_eq!(bound(3.7, true, 1), (3, 1));
    assert_eq!(bound(-3.7, true, 1), (-4, 1));
    assert_eq!(bound(3.2, false, 9), (4, 9));
    assert_eq!(bound(-3.2, false, 9), (-3, 9));
    assert_eq!(bound(1e100, true, 1), (i64::MAX, 1));
    assert_eq!(bound(-1e100, false, 1), (i64::MIN, 1));
    assert_eq!(bound(-1e100, true, i64::MIN), (-1, 0));
    assert_eq!(bound(1e100, false, i64::MAX), (1, 0));
    assert_eq!(bound(-9223372036854775808.0, true, i64::MIN), (i64::MIN, i64::MIN));
    assert_eq!(bound(-9223372036854777856.0, true, i64::MIN), (-1, 0));
    assert_eq!(bound(9223372036854775808.0, false, 5), (i64::MAX, 5));
    assert_eq!(bound(9223372036854777856.0, false, 5), (1, 0));
    assert_eq!(bound(f64::NEG_INFINITY, true, 7), (-1, 0));
    assert_eq!(bound(f64::INFINITY, false, 7), (1, 0));
    assert_eq!(bound(f64::NAN, true, 7), (0, 7));
    assert_eq!(bound(f64::NAN, false, 7), (0, 7));
}

#[test]
fn preparing_a_loop() {
    let i = Value::Integer;
    assert_eq!(for_prepare(&i(1), &i(3), &i(1)), Ok(Prepared::Integer(3, true)));
    assert_eq!(for_prepare(&i(4), &i(3), &i(1)), Ok(Prepared::Integer(3, false)));
    assert_eq!(for_prepare(&i(4), &i(3), &i(-1)), Ok(Prepared::Integer(3, true)));
    assert_eq!(for_prepare(&i(1), &float(2.5), &i(1)), Ok(Prepared::Integer(2, true)));
    assert_eq!(for_prepare(&i(i64::MIN), &float(-1e300), &i(1)), Ok(Prepared::Integer(-1, false)));
    assert_eq!(for_prepare(&i(1), &i(3), &i(0)), Err(VmError::Range));
    assert_eq!(for_prepare(&i(1), &Value::Nil, &i(1)), Err(VmError::Type));
    let b = |f: f64| f.to_bits();
    assert_eq!(
        for_prepare(&i(1), &i(3), &float(0.5)),
        Ok(Prepared::Float(b(1.0), b(3.0), b(0.5), true))
    );
    assert_eq!(
        for_prepare(&float(4.0), &i(3), &i(1)),
        Ok(Prepared::Float(b(4.0), b(3.0), b(1.0), false))
    );
    assert_eq!(
        for_prepare(&float(4.0), &float(3.0), &float(-1.0)),
        Ok(Prepared::Float(b(4.0), b(3.0), b(-1.0), true))
    );
    assert_eq!(for_prepare(&float(1.0), &i(3), &float(0.0)), Err(VmError::Range));
    assert_eq!(for_prepare(&float(1.0), &Value::Nil, &i(1)), Err(VmError::Type));
    assert_eq!(for_prepare(&Value::Nil, &i(3), &i(1)), Err(VmError::Type));
    assert_eq!(for_prepare(&i(1), &i(3), &Value::Boolean(true)), Err(VmError::Type));
}

#[test]
fn advancing_a_loop() {
    let i = Value::Integer;
    assert_eq!(for_advance(&i(1), &i(3), &i(1)), Ok(Advance::Integer(2, true)));
    assert_eq!(for_advance(&i(3), &i(3), &i(1)), Ok(Advance::Integer(4, false)));
    assert_eq!(for_advance(&i(4), &i(1), &i(-3)), Ok(Advance::Integer(1, true)));
    assert_eq!(for_advance(&i(i64::MAX), &i(0), &i(1)), Ok(Advance::Integer(i64::MIN, true)));
    assert_eq!(for_advance(&i(1), &float(3.0), &i(1)), Err(VmError::Type));
    assert_eq!(for_advance(&i(1), &i(3), &float(1.0)), Err(VmError::Type));
    let b = |f: f64| f.to_bits();
    assert_eq!(
        for_advance(&float(1.0), &float(3.0), &float(0.5)),
        Ok(Advance::Float(b(1.0), b(3.0), b(0.5)))
    );
    assert_eq!(for_advance(&float(1.0), &i(3), &float(0.5)), Err(VmError::Type));
    assert_eq!(for_advance(&Value::Nil, &i(3), &i(1)), Err(VmError::Type));
}
