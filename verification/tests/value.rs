use luavm::binary64::Order;
use luavm::bytecode::ByteCode;
use luavm::value::{same, same_proto, FuncProto, Value};
use std::rc::Rc;

fn text(s: &str) -> Value {
    Value::from_bytes(s.as_bytes().to_vec())
}

fn float(f: f64) -> Value {
    Value::Float(f.to_bits())
}

fn short(s: &[u8]) -> Value {
    let mut buf = [0u8; 14];
    buf[..s.len()].copy_from_slice(s);
    Value::ShortStr(s.len() as u8, buf)
}

fn mid(s: &[u8]) -> Value {
    let mut buf = [0u8; 47];
    buf[..s.len()].copy_from_slice(s);
    Value::MidStr(Rc::new((s.len() as u8, buf)))
}

fn long(s: &[u8]) -> Value {
    Value::LongStr(Rc::new(s.to_vec()))
}

#[test]
fn strings_are_stored_by_length() {
    assert!(matches!(text(""), Value::ShortStr(0, _)));
    assert!(matches!(text("12345678901234"), Value::ShortStr(14, _)));
    assert!(matches!(text("123456789012345"), Value::MidStr(_)));
    assert!(matches!(Value::from_bytes(vec![b'a'; 47]), Value::MidStr(_)));
    assert!(matches!(Value::from_bytes(vec![b'a'; 48]), Value::LongStr(_)));
    for n in [0usize, 1, 13, 14, 15, 46, 47, 48, 300] {
        let bytes: Vec<u8> = (0..n).map(|i| (i % 251) as u8).collect();
        let v = Value::from_bytes(bytes.clone());
        assert_eq!(v.as_bytes(), Some(bytes.as_slice()));
    }
}

#[test]
fn a_length_beyond_the_buffer_means_the_whole_buffer() {
    let v = Value::ShortStr(200, [b'z'; 14]);
    assert_eq!(v.as_bytes(), Some(&[b'z'; 14][..]));
    let v = Value::MidStr(Rc::new((48, [b'y'; 47])));
    assert_eq!(v.as_bytes(), Some(&[b'y'; 47][..]));
}

#[test]
fn what_is_no_string_has_no_bytes() {
    assert_eq!(Value::Nil.as_bytes(), None);
    assert_eq!(Value::Integer(1).as_bytes(), None);
    assert_eq!(Value::Table(0).as_bytes(), None);
}

#[test]
fn strings_are_equal_across_representations() {
    let all = [short(b"abc"), mid(b"abc"), long(b"abc"), text("abc")];
    for a in &all {
        for b in &all {
            assert!(a.equals(b));
            assert!(same(a, b));
            assert_eq!(a.compare(b), Some(Order::Equal));
        }
        assert!(!a.equals(&long(b"abd")));
        assert!(!a.equals(&short(b"ab")));
        assert!(!a.equals(&Value::Integer(0)));
    }
}

#[test]
fn integer_three_equals_float_three() {
    assert!(Value::Integer(3).equals(&float(3.0)));
    assert!(float(3.0).equals(&Value::Integer(3)));
    assert!(!Value::Integer(3).equals(&float(3.5)));
    assert!(!same(&Value::Integer(3), &float(3.0)));
    assert!(float(0.0).equals(&float(-0.0)));
    assert!(!float(f64::NAN).equals(&float(f64::NAN)));
    assert!(!Value::Integer(3).equals(&text("3")));
}

#[test]
fn equality_of_the_other_kinds() {
    assert!(Value::Nil.equals(&Value::Nil));
    assert!(!Value::Nil.equals(&Value::Boolean(false)));
    assert!(Value::Boolean(true).equals(&Value::Boolean(true)));
    assert!(!Value::Boolean(true).equals(&Value::Boolean(false)));
    assert!(Value::Table(4).equals(&Value::Table(4)));
    assert!(!Value::Table(4).equals(&Value::Table(5)));
    assert!(Value::NativeFunction(0).equals(&Value::NativeFunction(0)));
    assert!(!Value::NativeFunction(0).equals(&Value::Table(0)));
}

#[test]
fn functions_are_equal_if_their_prototypes_are() {
    let make = |n: i16| FuncProto {
        byte_codes: vec![ByteCode::LoadInt(0, n), ByteCode::Return(0, 1)],
        constants: vec![text("k"), float(1.5)],
        nparam: 1,
        has_varargs: false,
    };
    let f = Rc::new(make(1));
    let a = Value::BytecodeFunction(f.clone());
    let b = Value::BytecodeFunction(f);
    let c = Value::BytecodeFunction(Rc::new(make(1)));
    let d = Value::BytecodeFunction(Rc::new(make(2)));
    assert!(a.equals(&b));
    assert!(a.equals(&c));
    assert!(!a.equals(&d));
    assert!(same_proto(&make(3), &make(3)));
    let mut other = make(3);
    other.has_varargs = true;
    assert!(!same_proto(&make(3), &other));
    let mut other = make(3);
    other.constants[0] = text("j");
    assert!(!same_proto(&make(3), &other));
    let mut other = make(3);
    other.constants.pop();
    assert!(!same_proto(&make(3), &other));
}

#[test]
fn only_nil_and_false_are_false() {
    assert!(!Value::Nil.is_truthy());
    assert!(!Value::Boolean(false).is_truthy());
    assert!(Value::Boolean(true).is_truthy());
    assert!(Value::Integer(0).is_truthy());
    assert!(float(0.0).is_truthy());
    assert!(float(f64::NAN).is_truthy());
    assert!(text("").is_truthy());
    assert!(Value::Table(0).is_truthy());
    assert!(Value::NativeFunction(0).is_truthy());
    assert!(!bool::from(&Value::Nil));
    assert!(bool::from(&Value::Integer(0)));
}

#[test]
fn numbers_are_ordered_among_themselves() {
    assert_eq!(Value::Integer(1).compare(&Value::Integer(2)), Some(Order::Less));
    assert_eq!(Value::Integer(2).compare(&Value::Integer(2)), Some(Order::Equal));
    assert_eq!(Value::Integer(3).compare(&Value::Integer(2)), Some(Order::Greater));
    assert_eq!(Value::Integer(1).compare(&float(1.5)), Some(Order::Less));
    assert_eq!(float(2.5).compare(&Value::Integer(2)), Some(Order::Greater));
    assert_eq!(float(2.0).compare(&Value::Integer(2)), Some(Order::Equal));
    assert_eq!(float(f64::NAN).compare(&Value::Integer(2)), Some(Order::Unordered));
    assert_eq!(float(-1.0).compare(&float(f64::INFINITY)), Some(Order::Less));
}

#[test]
fn strings_are_ordered_byte_by_byte() {
    assert_eq!(text("abc").compare(&text("abd")), Some(Order::Less));
    assert_eq!(text("abc").compare(&text("ab")), Some(Order::Greater));
    assert_eq!(text("").compare(&text("a")), Some(Order::Less));
    assert_eq!(text("b").compare(&text("abc")), Some(Order::Greater));
    assert_eq!(long(b"Z").compare(&mid(b"a")), Some(Order::Less));
    assert_eq!(short(&[200]).compare(&short(&[100, 1])), Some(Order::Greater));
}

#[test]
fn values_of_two_kinds_have_no_order() {
    assert_eq!(Value::Integer(1).compare(&text("1")), None);
    assert_eq!(Value::Nil.compare(&Value::Nil), None);
    assert_eq!(Value::Boolean(true).compare(&Value::Boolean(false)), None);
    assert_eq!(Value::Table(1).compare(&Value::Table(1)), None);
}

#[test]
fn a_copy_stands_for_the_same_thing() {
    let bytes: Vec<u8> = (0..100u8).collect();
    let values = [
        Value::Nil,
        Value::Boolean(true),
        Value::Integer(-7),
        float(2.5),
        text("short"),
        text("a string of middle length, more than fourteen"),
        Value::from_bytes(bytes.clone()),
        Value::Table(3),
        Value::NativeFunction(1),
    ];
    for v in &values {
        assert!(same(v, &v.clone()));
    }
    let long = Value::from_bytes(bytes.clone());
    assert_eq!(long.clone().as_bytes(), Some(bytes.as_slice()));
    if let (Value::LongStr(a), Value::LongStr(b)) = (&long, &long.clone()) {
        assert!(Rc::ptr_eq(a, b));
    } else {
        panic!("a long string was expected");
    }
}

#[test]
fn the_equality_operator_is_that_of_the_language() {
    assert_eq!(Value::Integer(3), float(3.0));
    assert_eq!(short(b"abc"), long(b"abc"));
    assert_eq!(mid(b"abc"), text("abc"));
    assert_ne!(float(f64::NAN), float(f64::NAN));
    assert_ne!(Value::Integer(3), text("3"));
    assert_ne!(Value::Nil, Value::Boolean(false));
    assert!(Value::Table(1) == Value::Table(1));
    assert!(Value::Table(1) != Value::Table(2));
}
