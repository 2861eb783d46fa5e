use luavm::arith::FloatOp;
use luavm::bytecode::{ByteCode, MULTRET};
use luavm::error::VmError;
use luavm::machine::Action;
use luavm::value::{FuncProto, Value};
use luavm::vm::{Event, ExeState};
use std::rc::Rc;

fn text(s: &str) -> Value {
    Value::from_bytes(s.as_bytes().to_vec())
}

fn float(f: f64) -> Value {
    Value::Float(f.to_bits())
}

fn chunk(byte_codes: Vec<ByteCode>, constants: Vec<Value>) -> FuncProto {
    FuncProto { byte_codes, constants, nparam: 0, has_varargs: false }
}

fn compute(op: FloatOp, a: u64, b: u64) -> u64 {
    let (a, b) = (f64::from_bits(a), f64::from_bits(b));
    let r = match op {
        FloatOp::Add => a + b,
        FloatOp::Sub => a - b,
        FloatOp::Mul => a * b,
        FloatOp::Div => a / b,
        FloatOp::Pow => a.powf(b),
        FloatOp::Idiv => (a / b).floor(),
        FloatOp::Mod => a - (a / b).floor() * b,
    };
    r.to_bits()
}

fn show(v: &Value) -> String {
    match v {
        Value::Nil => "nil".to_string(),
        Value::Boolean(b) => format!("{}", b),
        Value::Integer(i) => format!("{}", i),
        Value::Float(f) => format!("{:?}", f64::from_bits(*f)),
        Value::Table(h) => format!("table: {}", h),
        Value::NativeFunction(n) => format!("function: native {}", n),
        Value::BytecodeFunction(_) => "function".to_string(),
        _ => String::from_utf8_lossy(v.as_bytes().unwrap()).to_string(),
    }
}

fn drive(state: &mut ExeState) -> Result<(String, usize), VmError> {
    let mut out = String::new();
    let mut event = Event::Next;
    for _ in 0..100_000 {
        event = match state.execute(event)? {
            Action::Continue => Event::Next,
            Action::Compute(op, a, b) => Event::Float(compute(op, a, b)),
            Action::Format(f) => Event::Text(format!("{}", f64::from_bits(f)).into_bytes()),
            Action::CallNative(id) => {
                assert_eq!(id, 0);
                let mut parts = Vec::new();
                for i in 1..=state.get_top() {
                    parts.push(show(state.get_value(i)));
                }
                out.push_str(&parts.join("\t"));
                out.push('\n');
                Event::Returned(0)
            },
            Action::Finished(n) => return Ok((out, n)),
        };
    }
    panic!("the program does not end");
}

fn run(proto: FuncProto) -> Result<(String, usize), VmError> {
    let mut state = ExeState::new();
    state.start(Rc::new(proto))?;
    drive(&mut state)
}

fn counting_loop(first: Value, limit: Value, step: Value) -> FuncProto {
    chunk(
        vec![
            ByteCode::LoadConst(0, 1),
            ByteCode::LoadConst(1, 2),
            ByteCode::LoadConst(2, 3),
            ByteCode::ForPrepare(0, 4),
            ByteCode::GetGlobal(3, 0),
            ByteCode::Move(4, 0),
            ByteCode::Call(3, 1, 0),
            ByteCode::ForLoop(0, 4),
            ByteCode::Return(0, 0),
        ],
        vec![text("print"), first, limit, step],
    )
}

#[test]
fn for_loop_counts_up() {
    let p = counting_loop(Value::Integer(1), Value::Integer(3), Value::Integer(1));
    assert_eq!(run(p), Ok(("1\n2\n3\n".to_string(), 0)));
}

#[test]
fn for_loop_counts_down_by_three() {
    let p = counting_loop(Value::Integer(10), Value::Integer(1), Value::Integer(-3));
    assert_eq!(run(p), Ok(("10\n7\n4\n1\n".to_string(), 0)));
}

#[test]
fn for_loop_with_a_huge_float_limit_gets_an_integer_bound() {
    let p = chunk(
        vec![
            ByteCode::LoadInt(0, 1),
            ByteCode::LoadConst(1, 0),
            ByteCode::LoadInt(2, 1),
            ByteCode::ForPrepare(0, 2),
            ByteCode::Move(3, 0),
            ByteCode::Return(3, 1),
            ByteCode::ForLoop(0, 3),
            ByteCode::Return(0, 0),
        ],
        vec![float(1e100)],
    );
    let mut state = ExeState::new();
    state.start(Rc::new(p)).unwrap();
    assert_eq!(drive(&mut state), Ok((String::new(), 1)));
    assert_eq!(show(state.get_value(1)), "1");
    assert_eq!(show(state.get_value(2)), "9223372036854775807");
    assert_eq!(show(state.get_value(state.get_top())), "1");
}

#[test]
fn for_loop_with_a_float_limit_runs_to_its_floor() {
    let p = counting_loop(Value::Integer(1), float(3.7), Value::Integer(1));
    assert_eq!(run(p), Ok(("1\n2\n3\n".to_string(), 0)));
    let p = counting_loop(Value::Integer(3), float(0.5), Value::Integer(-1));
    assert_eq!(run(p), Ok(("3\n2\n1\n".to_string(), 0)));
}

#[test]
fn for_loop_below_every_integer_does_not_run() {
    let p = counting_loop(Value::Integer(i64::MIN), float(-1e100), Value::Integer(1));
    assert_eq!(run(p), Ok((String::new(), 0)));
    let p = counting_loop(Value::Integer(i64::MAX), float(1e100), Value::Integer(-1));
    assert_eq!(run(p), Ok((String::new(), 0)));
}

#[test]
fn for_loop_from_zero_to_minus_one_does_not_run() {
    let p = chunk(
        vec![
            ByteCode::LoadInt(0, 0),
            ByteCode::LoadInt(1, -1),
            ByteCode::LoadInt(2, 1),
            ByteCode::ForPrepare(0, 4),
            ByteCode::GetGlobal(3, 0),
            ByteCode::LoadConst(4, 1),
            ByteCode::Call(3, 1, 0),
            ByteCode::ForLoop(0, 4),
            ByteCode::Return(0, 0),
        ],
        vec![text("print"), text("x")],
    );
    assert_eq!(run(p), Ok((String::new(), 0)));
}

#[test]
fn for_loop_over_floats() {
    let p = counting_loop(float(1.0), float(2.0), float(0.5));
    assert_eq!(run(p), Ok(("1.0\n1.5\n2.0\n".to_string(), 0)));
    let p = counting_loop(Value::Integer(1), Value::Integer(2), float(0.5));
    assert_eq!(run(p), Ok(("1.0\n1.5\n2.0\n".to_string(), 0)));
    let p = counting_loop(float(1.0), float(f64::NAN), float(1.0));
    assert_eq!(run(p), Ok((String::new(), 0)));
}

#[test]
fn for_loop_with_step_zero_is_a_range_error() {
    let p = counting_loop(Value::Integer(1), Value::Integer(3), Value::Integer(0));
    assert_eq!(run(p), Err(VmError::Range));
    let p = counting_loop(float(1.0), Value::Integer(3), float(0.0));
    assert_eq!(run(p), Err(VmError::Range));
    let p = counting_loop(float(1.0), Value::Integer(3), float(-0.0));
    assert_eq!(run(p), Err(VmError::Range));
}

#[test]
fn for_loop_over_strings_is_a_type_error() {
    let p = counting_loop(Value::Integer(1), text("3"), Value::Integer(1));
    assert_eq!(run(p), Err(VmError::Type));
    let p = counting_loop(text("1"), Value::Integer(3), Value::Integer(1));
    assert_eq!(run(p), Err(VmError::Type));
}

#[test]
fn table_constructor_and_integer_reads() {
    let p = chunk(
        vec![
            ByteCode::NewTable(0, 3, 0),
            ByteCode::LoadInt(1, 10),
            ByteCode::LoadInt(2, 20),
            ByteCode::LoadInt(3, 30),
            ByteCode::SetList(0, 3),
            ByteCode::GetGlobal(1, 0),
            ByteCode::GetInt(2, 0, 1),
            ByteCode::GetInt(3, 0, 3),
            ByteCode::GetInt(4, 0, 4),
            ByteCode::Call(1, 3, 0),
            ByteCode::Return(0, 0),
        ],
        vec![text("print")],
    );
    assert_eq!(run(p), Ok(("10\t30\tnil\n".to_string(), 0)));
}

#[test]
fn varargs_are_returned_and_expanded_at_the_tail() {
    let f = FuncProto {
        byte_codes: vec![
            ByteCode::Add(2, 0, 1),
            ByteCode::VarArgs(3, MULTRET),
            ByteCode::Return(2, MULTRET),
        ],
        constants: vec![],
        nparam: 2,
        has_varargs: true,
    };
    let p = chunk(
        vec![
            ByteCode::GetGlobal(0, 0),
            ByteCode::LoadConst(1, 1),
            ByteCode::LoadInt(2, 1),
            ByteCode::LoadInt(3, 2),
            ByteCode::LoadInt(4, 3),
            ByteCode::LoadInt(5, 4),
            ByteCode::Call(1, 4, MULTRET),
            ByteCode::Call(0, MULTRET, 0),
            ByteCode::Return(0, 0),
        ],
        vec![text("print"), Value::BytecodeFunction(Rc::new(f))],
    );
    assert_eq!(run(p), Ok(("3\t3\t4\n".to_string(), 0)));
}

#[test]
fn concatenation_writes_numbers_as_text() {
    let p = chunk(
        vec![
            ByteCode::GetGlobal(0, 0),
            ByteCode::LoadConst(1, 1),
            ByteCode::LoadInt(2, 2),
            ByteCode::LoadConst(3, 2),
            ByteCode::Concat(2, 2, 3),
            ByteCode::Concat(1, 1, 2),
            ByteCode::Call(0, 1, 0),
            ByteCode::Return(0, 0),
        ],
        vec![text("print"), text("hi"), float(3.5)],
    );
    assert_eq!(run(p), Ok(("hi23.5\n".to_string(), 0)));
}

#[test]
fn concatenation_of_two_floats_asks_for_both_texts() {
    let p = chunk(
        vec![
            ByteCode::GetGlobal(0, 0),
            ByteCode::LoadConst(1, 1),
            ByteCode::ConcatConst(1, 1, 2),
            ByteCode::ConcatInt(1, 1, 7),
            ByteCode::Call(0, 1, 0),
            ByteCode::Return(0, 0),
        ],
        vec![text("print"), float(1.5), float(2.0)],
    );
    assert_eq!(run(p), Ok(("1.527\n".to_string(), 0)));
}

#[test]
fn field_is_read_and_written_by_name() {
    let p = chunk(
        vec![
            ByteCode::NewTable(0, 0, 0),
            ByteCode::LoadInt(1, 1),
            ByteCode::SetField(0, 0, 1),
            ByteCode::GetField(1, 0, 0),
            ByteCode::AddInt(1, 1, 1),
            ByteCode::SetField(0, 0, 1),
            ByteCode::GetGlobal(1, 1),
            ByteCode::GetField(2, 0, 0),
            ByteCode::Call(1, 1, 0),
            ByteCode::Return(0, 0),
        ],
        vec![text("x"), text("print")],
    );
    assert_eq!(run(p), Ok(("2\n".to_string(), 0)));
}
