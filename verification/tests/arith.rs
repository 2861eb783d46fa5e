use luavm::arith::{
    exe_binop, exe_binop_f, exe_binop_i, exe_binop_int, exe_binop_int_f, exe_binop_int_i,
    exe_int_arith, exe_int_bits, ArithOp, BitOp, FloatOp, Number, RealOp,
};
use luavm::error::VmError;
use luavm::value::Value;

fn float(f: f64) -> Value {
    Value::Float(f.to_bits())
}

#[test]
fn integer_sums_wrap_around() {
    assert_eq!(exe_int_arith(ArithOp::Add, 2, 3), Ok(5));
    assert_eq!(exe_int_arith(ArithOp::Add, i64::MAX, 1), Ok(i64::MIN));
    assert_eq!(exe_int_arith(ArithOp::Sub, i64::MIN, 1), Ok(i64::MAX));
    assert_eq!(exe_int_arith(ArithOp::Mul, i64::MAX, 2), Ok(-2));
    assert_eq!(exe_int_arith(ArithOp::Mul, -7, 6), Ok(-42));
}

#[test]
fn adding_then_subtracting_gives_the_first_number_back() {
    let cases = [(0, 0), (1, 2), (i64::MAX, i64::MAX), (i64::MIN, -1), (i64::MIN, i64::MAX), (-5, 17)];
    for (a, b) in cases {
        let sum = exe_int_arith(ArithOp::Add, a, b).unwrap();
        assert_eq!(exe_int_arith(ArithOp::Sub, sum, b), Ok(a));
    }
}

#[test]
fn modulo_has_the_sign_of_the_divisor() {
    assert_eq!(exe_int_arith(ArithOp::Mod, 7, 3), Ok(1));
    assert_eq!(exe_int_arith(ArithOp::Mod, -7, 3), Ok(2));
    assert_eq!(exe_int_arith(ArithOp::Mod, 7, -3), Ok(-2));
    assert_eq!(exe_int_arith(ArithOp::Mod, -7, -3), Ok(-1));
    assert_eq!(exe_int_arith(ArithOp::Mod, 6, 3), Ok(0));
    assert_eq!(exe_int_arith(ArithOp::Mod, -6, 3), Ok(0));
    assert_eq!(exe_int_arith(ArithOp::Mod, i64::MIN, -1), Ok(0));
    assert_eq!(exe_int_arith(ArithOp::Mod, i64::MIN, i64::MAX), Ok(i64::MAX - 1));
    assert_eq!(exe_int_arith(ArithOp::Mod, 5, 0), Err(VmError::Range));
}

#[test]
fn integer_division_rounds_down() {
    assert_eq!(exe_int_arith(ArithOp::Idiv, 7, 2), Ok(3));
    assert_eq!(exe_int_arith(ArithOp::Idiv, -7, 2), Ok(-4));
    assert_eq!(exe_int_arith(ArithOp::Idiv, 7, -2), Ok(-4));
    assert_eq!(exe_int_arith(ArithOp::Idiv, -7, -2), Ok(3));
    assert_eq!(exe_int_arith(ArithOp::Idiv, -6, 2), Ok(-3));
    assert_eq!(exe_int_arith(ArithOp::Idiv, i64::MIN, -1), Ok(i64::MIN));
    assert_eq!(exe_int_arith(ArithOp::Idiv, i64::MIN, 1), Ok(i64::MIN));
    assert_eq!(exe_int_arith(ArithOp::Idiv, 1, 0), Err(VmError::Range));
}

#[test]
fn floor_division_and_modulo_agree_with_euclid() {
    let values = [-9, -8, -7, -3, -2, -1, 0, 1, 2, 3, 7, 8, 9, i64::MAX, i64::MIN + 1];
    for a in values {
        for b in values {
            if b == 0 {
                continue;
            }
            let q = (a as i128).div_euclid(b as i128);
            let r = (a as i128).rem_euclid(b as i128);
            let (fq, fr) = if b > 0 || r == 0 { (q, r) } else { (q - 1, r + b as i128) };
            assert_eq!(exe_int_arith(ArithOp::Idiv, a, b), Ok(fq as i64), "{} {}", a, b);
            assert_eq!(exe_int_arith(ArithOp::Mod, a, b), Ok(fr as i64), "{} {}", a, b);
        }
    }
}

#[test]
fn bitwise_operators() {
    assert_eq!(exe_int_bits(BitOp::And, 0b1100, 0b1010), 0b1000);
    assert_eq!(exe_int_bits(BitOp::Or, 0b1100, 0b1010), 0b1110);
    assert_eq!(exe_int_bits(BitOp::Xor, 0b1100, 0b1010), 0b0110);
    assert_eq!(exe_int_bits(BitOp::And, -1, 5), 5);
}

#[test]
fn shifts_move_by_the_count_modulo_64() {
    assert_eq!(exe_int_bits(BitOp::ShiftL, 1, 4), 16);
    assert_eq!(exe_int_bits(BitOp::ShiftL, 1, 63), i64::MIN);
    assert_eq!(exe_int_bits(BitOp::ShiftL, 1, 64), 1);
    assert_eq!(exe_int_bits(BitOp::ShiftL, 3, 65), 6);
    assert_eq!(exe_int_bits(BitOp::ShiftL, 1, -1), i64::MIN);
    assert_eq!(exe_int_bits(BitOp::ShiftR, 16, 4), 1);
    assert_eq!(exe_int_bits(BitOp::ShiftR, -16, 2), -4);
    assert_eq!(exe_int_bits(BitOp::ShiftR, -1, 63), -1);
    assert_eq!(exe_int_bits(BitOp::ShiftR, 16, 68), 1);
    for b in [-130i64, -64, -63, -1, 0, 1, 5, 63, 64, 65, 1000, i64::MAX, i64::MIN] {
        for a in [0i64, 1, -1, 12345, i64::MAX, i64::MIN] {
            assert_eq!(exe_int_bits(BitOp::ShiftL, a, b), a.wrapping_shl(b as u32));
            assert_eq!(exe_int_bits(BitOp::ShiftR, a, b), a.wrapping_shr(b as u32));
        }
    }
}

#[test]
fn first_kernel_stays_integer_on_integers() {
    let r = exe_binop(&Value::Integer(4), &Value::Integer(5), ArithOp::Add);
    assert_eq!(r, Ok(Number::Integer(9)));
    let r = exe_binop_int(&Value::Integer(4), 5, ArithOp::Mul);
    assert_eq!(r, Ok(Number::Integer(20)));
}

#[test]
fn mixed_operands_are_promoted_to_binary64() {
    let mixed = exe_binop(&Value::Integer(2), &float(0.5), ArithOp::Add);
    let floats = exe_binop(&float(2.0), &float(0.5), ArithOp::Add);
    assert_eq!(mixed, Ok(Number::Float(FloatOp::Add, 2.0f64.to_bits(), 0.5f64.to_bits())));
    assert_eq!(mixed, floats);
    let mixed = exe_binop(&float(0.5), &Value::Integer(-3), ArithOp::Mod);
    assert_eq!(mixed, Ok(Number::Float(FloatOp::Mod, 0.5f64.to_bits(), (-3.0f64).to_bits())));
    let imm = exe_binop_int(&float(1.5), 200, ArithOp::Sub);
    assert_eq!(imm, Ok(Number::Float(FloatOp::Sub, 1.5f64.to_bits(), 200.0f64.to_bits())));
}

#[test]
fn second_kernel_always_asks_for_a_binary64_result() {
    let r = exe_binop_f(&Value::Integer(7), &Value::Integer(2), RealOp::Div);
    assert_eq!(r, Ok(Number::Float(FloatOp::Div, 7.0f64.to_bits(), 2.0f64.to_bits())));
    let r = exe_binop_f(&float(2.0), &Value::Integer(10), RealOp::Pow);
    assert_eq!(r, Ok(Number::Float(FloatOp::Pow, 2.0f64.to_bits(), 10.0f64.to_bits())));
    let r = exe_binop_int_f(&Value::Integer(1), 4, RealOp::Div);
    assert_eq!(r, Ok(Number::Float(FloatOp::Div, 1.0f64.to_bits(), 4.0f64.to_bits())));
}

#[test]
fn third_kernel_takes_whole_floats_only() {
    assert_eq!(exe_binop_i(&Value::Integer(6), &float(3.0), BitOp::And), Ok(Number::Integer(2)));
    assert_eq!(exe_binop_i(&float(6.0), &float(3.0), BitOp::Or), Ok(Number::Integer(7)));
    assert_eq!(exe_binop_i(&float(6.5), &Value::Integer(3), BitOp::Or), Err(VmError::Type));
    assert_eq!(exe_binop_i(&Value::Integer(1), &float(1e300), BitOp::Xor), Err(VmError::Type));
    assert_eq!(exe_binop_int_i(&Value::Integer(1), 3, BitOp::ShiftL), Ok(Number::Integer(8)));
    assert_eq!(exe_binop_int_i(&float(0.5), 3, BitOp::ShiftL), Err(VmError::Type));
}

#[test]
fn what_is_no_number_is_a_type_error() {
    let s = Value::from_bytes(b"10".to_vec());
    assert_eq!(exe_binop(&s, &Value::Integer(1), ArithOp::Add), Err(VmError::Type));
    assert_eq!(exe_binop(&Value::Integer(1), &Value::Nil, ArithOp::Add), Err(VmError::Type));
    assert_eq!(exe_binop_f(&Value::Boolean(true), &Value::Integer(1), RealOp::Div), Err(VmError::Type));
    assert_eq!(exe_binop_i(&Value::Table(0), &Value::Integer(1), BitOp::And), Err(VmError::Type));
    assert_eq!(exe_binop_int(&Value::Nil, 1, ArithOp::Add), Err(VmError::Type));
}
