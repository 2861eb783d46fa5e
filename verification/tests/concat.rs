use luavm::concat::{exe_concat, join, piece, Concat, Piece};
use luavm::error::VmError;
use luavm::text::int_to_text;
use luavm::value::Value;

fn text(s: &str) -> Value {
    Value::from_bytes(s.as_bytes().to_vec())
}

fn done(c: Result<Concat, VmError>) -> Vec<u8> {
    match c {
        Ok(Concat::Done(v)) => v.as_bytes().unwrap().to_vec(),
        other => panic!("a result was expected, not {:?}", other),
    }
}

#[test]
fn strings_are_joined() {
    assert_eq!(done(exe_concat(&text("ab"), &text("cd"))), b"abcd".to_vec());
    assert_eq!(done(exe_concat(&text(""), &text(""))), b"".to_vec());
    let long = "x".repeat(40);
    let joined = done(exe_concat(&text(&long), &text(&long)));
    assert_eq!(joined, "x".repeat(80).into_bytes());
}

#[test]
fn an_integer_counts_as_its_decimal_text() {
    for i in [0i64, 5, -17, i64::MAX, i64::MIN] {
        for other in [text("s"), Value::Integer(3), text("")] {
            let as_number = done(exe_concat(&Value::Integer(i), &other));
            let as_text = done(exe_concat(&Value::from_bytes(int_to_text(i)), &other));
            assert_eq!(as_number, as_text);
            let as_number = done(exe_concat(&other, &Value::Integer(i)));
            let as_text = done(exe_concat(&other, &Value::from_bytes(int_to_text(i))));
            assert_eq!(as_number, as_text);
        }
    }
    assert_eq!(done(exe_concat(&Value::Integer(-1), &Value::Integer(2))), b"-12".to_vec());
}

#[test]
fn a_float_waits_for_its_text() {
    let f = 2.5f64.to_bits();
    match exe_concat(&Value::Float(f), &text("s")) {
        Ok(Concat::AskLeft(bits, Piece::Text(right))) => {
            assert_eq!(bits, f);
            assert_eq!(right, b"s".to_vec());
            let with_text = join(Piece::Text(b"2.5".to_vec()), Piece::Text(right));
            assert_eq!(done(Ok(with_text)), done(exe_concat(&text("2.5"), &text("s"))));
        },
        other => panic!("the left text should be asked for, not {:?}", other),
    }
    match exe_concat(&Value::Integer(1), &Value::Float(f)) {
        Ok(Concat::AskRight(left, bits)) => {
            assert_eq!(left, b"1".to_vec());
            assert_eq!(bits, f);
        },
        other => panic!("the right text should be asked for, not {:?}", other),
    }
    match exe_concat(&Value::Float(f), &Value::Float(1.0f64.to_bits())) {
        Ok(Concat::AskLeft(bits, Piece::Float(right))) => {
            assert_eq!(bits, f);
            assert_eq!(right, 1.0f64.to_bits());
        },
        other => panic!("the left text should be asked for first, not {:?}", other),
    }
}

#[test]
fn other_kinds_cannot_be_concatenated() {
    for bad in [Value::Nil, Value::Boolean(true), Value::Table(0), Value::NativeFunction(0)] {
        assert!(matches!(exe_concat(&bad, &text("s")), Err(VmError::Type)));
        assert!(matches!(exe_concat(&text("s"), &bad), Err(VmError::Type)));
        assert!(matches!(exe_concat(&Value::Float(0), &bad), Err(VmError::Type)));
        assert!(matches!(piece(&bad), Err(VmError::Type)));
    }
}
