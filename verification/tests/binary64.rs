use luavm::binary64::{
    float_ceil, float_floor, float_is_nan, float_is_positive, float_is_zero, float_negate,
    float_order, float_to_int, int_to_float, Order,
};

fn samples() -> Vec<f64> {
    let mut v = vec![
        0.0,
        -0.0,
        1.0,
        -1.0,
        0.5,
        -0.5,
        1.5,
        -1.5,
        2.5,
        -2.5,
        3.0,
        1e100,
        -1e100,
        1e-100,
        -1e-100,
        5e-324,
        -5e-324,
        f64::MAX,
        f64::MIN,
        f64::MIN_POSITIVE,
        f64::INFINITY,
        f64::NEG_INFINITY,
        f64::NAN,
        9007199254740992.0,
        9007199254740993.0,
        4503599627370495.5,
        -4503599627370495.5,
        9223372036854775807.0,
        9223372036854775808.0,
        -9223372036854775808.0,
        -9223372036854777856.0,
        9223372036854774784.0,
        18446744073709551616.0,
        123456.789,
        -123456.789,
    ];
    let mut x: u64 = 0x9e37_79b9_7f4a_7c15;
    for _ in 0..2000 {
        x ^= x << 13;
        x ^= x >> 7;
        x ^= x << 17;
        v.push(f64::from_bits(x));
    }
    v
}

fn integers() -> Vec<i64> {
    let mut v = vec![
        0,
        1,
        -1,
        2,
        3,
        -3,
        255,
        i64::MAX,
        i64::MIN,
        i64::MAX - 1,
        i64::MIN + 1,
        (1 << 53) - 1,
        1 << 53,
        (1 << 53) + 1,
        (1 << 53) + 2,
        (1 << 53) + 3,
        (1 << 54) + 2,
        (1 << 54) + 6,
        -(1 << 53) - 1,
        -(1 << 53) - 3,
        (1 << 62) + (1 << 8),
        (1 << 62) + (1 << 9),
        (1 << 62) + (1 << 9) + 1,
        i64::MAX - 511,
        i64::MAX - 512,
        i64::MAX - 513,
    ];
    let mut x: u64 = 0x2545_f491_4f6c_dd1d;
    for i in 0..4000 {
        x ^= x << 13;
        x ^= x >> 7;
        x ^= x << 17;
        v.push((x >> (i % 64)) as i64);
        v.push(-((x >> (i % 63 + 1)) as i64));
    }
    v
}

#[test]
fn integers_convert_as_the_hardware_does() {
    for i in integers() {
        assert_eq!(int_to_float(i), (i as f64).to_bits(), "{}", i);
    }
}

#[test]
fn ties_go_to_the_even_significand() {
    assert_eq!(f64::from_bits(int_to_float((1 << 53) + 1)), 9007199254740992.0);
    assert_eq!(f64::from_bits(int_to_float((1 << 53) + 3)), 9007199254740996.0);
    assert_eq!(f64::from_bits(int_to_float(i64::MAX)), 9223372036854775808.0);
    assert_eq!(int_to_float(0), 0);
    assert_eq!(int_to_float(1), 0x3ff0_0000_0000_0000);
    assert_eq!(int_to_float(-2), 0xc000_0000_0000_0000);
}

#[test]
fn floor_and_ceil_saturate_as_casts_do() {
    for f in samples() {
        assert_eq!(float_floor(f.to_bits()), f.floor() as i64, "{:?}", f);
        assert_eq!(float_ceil(f.to_bits()), f.ceil() as i64, "{:?}", f);
    }
}

#[test]
fn floor_and_ceil_of_chosen_numbers() {
    assert_eq!(float_floor(2.5f64.to_bits()), 2);
    assert_eq!(float_floor((-2.5f64).to_bits()), -3);
    assert_eq!(float_ceil(2.5f64.to_bits()), 3);
    assert_eq!(float_ceil((-2.5f64).to_bits()), -2);
    assert_eq!(float_floor(1e100f64.to_bits()), i64::MAX);
    assert_eq!(float_floor((-1e100f64).to_bits()), i64::MIN);
    assert_eq!(float_floor(f64::NAN.to_bits()), 0);
    assert_eq!(float_ceil(f64::INFINITY.to_bits()), i64::MAX);
    assert_eq!(float_ceil(5e-324f64.to_bits()), 1);
    assert_eq!(float_floor((-5e-324f64).to_bits()), -1);
}

#[test]
fn only_integers_of_the_range_convert_exactly() {
    for f in samples() {
        let expected = if f.is_finite() && f.fract() == 0.0 && f >= -9223372036854775808.0
            && f < 9223372036854775808.0
        {
            Some(f as i64)
        } else {
            None
        };
        assert_eq!(float_to_int(f.to_bits()), expected, "{:?}", f);
    }
    assert_eq!(float_to_int(3.0f64.to_bits()), Some(3));
    assert_eq!(float_to_int((-0.0f64).to_bits()), Some(0));
    assert_eq!(float_to_int(3.5f64.to_bits()), None);
    assert_eq!(float_to_int(9223372036854775808.0f64.to_bits()), None);
    assert_eq!(float_to_int((-9223372036854775808.0f64).to_bits()), Some(i64::MIN));
    assert_eq!(float_to_int(f64::NAN.to_bits()), None);
    assert_eq!(float_to_int(f64::INFINITY.to_bits()), None);
}

#[test]
fn exact_conversion_undoes_promotion_of_small_integers() {
    for i in integers() {
        if i.abs() < (1 << 53) && i != i64::MIN {
            assert_eq!(float_to_int(int_to_float(i)), Some(i));
        }
    }
}

#[test]
fn order_is_that_of_the_hardware() {
    let all = samples();
    for (k, a) in all.iter().enumerate() {
        for b in all.iter().skip(k % 7).step_by(11) {
            let expected = match a.partial_cmp(b) {
                Some(std::cmp::Ordering::Less) => Order::Less,
                Some(std::cmp::Ordering::Equal) => Order::Equal,
                Some(std::cmp::Ordering::Greater) => Order::Greater,
                None => Order::Unordered,
            };
            assert_eq!(float_order(a.to_bits(), b.to_bits()), expected, "{:?} {:?}", a, b);
        }
    }
}

#[test]
fn zeros_are_equal_and_nan_is_unordered() {
    assert_eq!(float_order(0.0f64.to_bits(), (-0.0f64).to_bits()), Order::Equal);
    assert_eq!(float_order(f64::NAN.to_bits(), f64::NAN.to_bits()), Order::Unordered);
    assert_eq!(float_order(f64::NAN.to_bits(), 1.0f64.to_bits()), Order::Unordered);
    assert_eq!(float_order((-1.0f64).to_bits(), 1.0f64.to_bits()), Order::Less);
    assert_eq!(float_order(f64::INFINITY.to_bits(), f64::MAX.to_bits()), Order::Greater);
}

#[test]
fn classification_and_negation() {
    for f in samples() {
        assert_eq!(float_is_nan(f.to_bits()), f.is_nan());
        assert_eq!(float_is_zero(f.to_bits()), f == 0.0);
        assert_eq!(float_is_positive(f.to_bits()), f > 0.0);
        assert_eq!(float_negate(f.to_bits()), (-f).to_bits());
    }
}
