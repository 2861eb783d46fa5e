//! Tagged values and function prototypes, and what they stand for.
//!
//! A [`Value`] is what a stack slot, a table cell, a global or a constant
//! holds. Its view, a [`Val`], forgets how a string is stored and keeps the
//! bytes: contracts speak of views.

use vstd::prelude::*;
use vstd::array::array_as_slice;
use vstd::slice::slice_subrange;
use std::rc::Rc;
use crate::binary64::{Order, order, from_int, float_order, int_to_float};
use crate::bytecode::ByteCode;

verus! {

/// The longest string that is stored inline.
pub const SHORT_STR_MAX: usize = 14;

/// The longest string that is stored in a shared buffer of fixed size.
pub const MID_STR_MAX: usize = 47;

/// A runtime value.
#[derive(Debug)]
pub enum Value {
    Nil,
    Boolean(bool),
    Integer(i64),
    /// A binary64 number, as its bit pattern.
    Float(u64),
    /// A string of at most `SHORT_STR_MAX` bytes: its length and a buffer
    /// whose first bytes are the string.
    ShortStr(u8, [u8; 14]),
    /// A string of at most `MID_STR_MAX` bytes, in a shared buffer.
    MidStr(Rc<(u8, [u8; 47])>),
    /// A string of any length, shared.
    LongStr(Rc<Vec<u8>>),
    /// A table, by its handle in the machine's table store: every copy of
    /// the value names the same table.
    Table(usize),
    /// A routine of the host, by its number.
    NativeFunction(usize),
    /// A compiled function.
    BytecodeFunction(Rc<FuncProto>),
}

/// A compiled function: its instructions and the constants they refer to.
#[derive(Debug)]
pub struct FuncProto {
    pub byte_codes: Vec<ByteCode>,
    pub constants: Vec<Value>,
    /// The number of declared parameters.
    pub nparam: usize,
    /// Whether arguments beyond the declared ones are kept for `VarArgs`.
    pub has_varargs: bool,
}

/// What a [`Value`] stands for.
pub ghost enum Val {
    Nil,
    Boolean(bool),
    Integer(i64),
    Float(u64),
    Str(Seq<u8>),
    Table(usize),
    Native(usize),
    Function(Proto),
}

/// What a [`FuncProto`] stands for.
pub ghost struct Proto {
    pub byte_codes: Seq<ByteCode>,
    pub constants: Seq<Val>,
    pub nparam: nat,
    pub has_varargs: bool,
}

/// The first `len` bytes of a buffer, or all of it if it has fewer.
pub open spec fn prefix(buf: Seq<u8>, len: u8) -> Seq<u8> {
    if len as int <= buf.len() {
        buf.subrange(0, len as int)
    } else {
        buf
    }
}

/// What a value stands for: a string its bytes, however it is stored, and
/// a function its prototype.
pub open spec fn value_model(v: Value) -> Val
    decreases v,
{
    match v {
        Value::Nil => Val::Nil,
        Value::Boolean(b) => Val::Boolean(b),
        Value::Integer(i) => Val::Integer(i),
        Value::Float(f) => Val::Float(f),
        Value::ShortStr(len, buf) => Val::Str(prefix(buf@, len)),
        Value::MidStr(s) => Val::Str(prefix(s.1@, s.0)),
        Value::LongStr(s) => Val::Str(s@),
        Value::Table(h) => Val::Table(h),
        Value::NativeFunction(n) => Val::Native(n),
        Value::BytecodeFunction(p) => Val::Function(proto_model(*p)),
    }
}

/// What a prototype stands for.
pub open spec fn proto_model(p: FuncProto) -> Proto
    decreases p,
{
    Proto {
        byte_codes: p.byte_codes@,
        constants: Seq::new(
            p.constants.len() as nat,
            |i: int|
                if 0 <= i < p.constants.len() {
                    value_model(p.constants[i])
                } else {
                    Val::Nil
                },
        ),
        nparam: p.nparam as nat,
        has_varargs: p.has_varargs,
    }
}

impl View for Value {
    type V = Val;

    open spec fn view(&self) -> Val {
        value_model(*self)
    }
}

impl View for FuncProto {
    type V = Proto;

    open spec fn view(&self) -> Proto {
        proto_model(*self)
    }
}

/// The views of a sequence of values.
pub open spec fn models(s: Seq<Value>) -> Seq<Val> {
    Seq::new(s.len(), |i: int| s[i]@)
}

/// `Rc::clone`: one more handle to the same allocation, so what it points
/// to is what the given handle points to.
#[verifier::external_body]
pub(crate) fn share<T>(rc: &Rc<T>) -> (r: Rc<T>)
    ensures
        r == *rc,
{
    Rc::clone(rc)
}

impl Clone for Value {
    /// A copy of the value. Strings and functions are shared, not copied,
    /// and a copy of a table value names the same table.
    fn clone(&self) -> (r: Self)
        ensures
            r == *self,
    {
        match self {
            Value::Nil => Value::Nil,
            Value::Boolean(b) => Value::Boolean(*b),
            Value::Integer(i) => Value::Integer(*i),
            Value::Float(f) => Value::Float(*f),
            Value::ShortStr(len, buf) => Value::ShortStr(*len, *buf),
            Value::MidStr(s) => Value::MidStr(share(s)),
            Value::LongStr(s) => Value::LongStr(share(s)),
            Value::Table(h) => Value::Table(*h),
            Value::NativeFunction(n) => Value::NativeFunction(*n),
            Value::BytecodeFunction(p) => Value::BytecodeFunction(share(p)),
        }
    }
}

impl Val {
    /// Everything is true but `nil` and `false`.
    pub open spec fn truthy(self) -> bool {
        self != Val::Nil && self != Val::Boolean(false)
    }

    /// Whether the value is an integer or a binary64 number.
    pub open spec fn is_number(self) -> bool {
        self is Integer || self is Float
    }
}

impl Value {
    /// The string with the given bytes, stored inline if it is short, in a
    /// fixed buffer if it is of middle length, and on the heap otherwise.
    pub fn from_bytes(bytes: Vec<u8>) -> (r: Value)
        ensures
            r@ == Val::Str(bytes@),
            bytes@.len() <= SHORT_STR_MAX ==> r is ShortStr,
            SHORT_STR_MAX < bytes@.len() <= MID_STR_MAX ==> r is MidStr,
            MID_STR_MAX < bytes@.len() ==> r is LongStr,
    {
        let n = bytes.len();
        if n <= SHORT_STR_MAX {
            let mut buf = [0u8; 14];
            let mut i: usize = 0;
            while i < n
                invariant
                    i <= n == bytes@.len(),
                    n <= 14,
                    forall|j: int| 0 <= j < i ==> buf@[j] == bytes@[j],
                decreases n - i,
            {
                buf[i] = bytes[i];
                i += 1;
            }
            assert(prefix(buf@, n as u8) =~= bytes@);
            Value::ShortStr(n as u8, buf)
        } else if n <= MID_STR_MAX {
            let mut buf = [0u8; 47];
            let mut i: usize = 0;
            while i < n
                invariant
                    i <= n == bytes@.len(),
                    n <= 47,
                    forall|j: int| 0 <= j < i ==> buf@[j] == bytes@[j],
                decreases n - i,
            {
                buf[i] = bytes[i];
                i += 1;
            }
            assert(prefix(buf@, n as u8) =~= bytes@);
            Value::MidStr(Rc::new((n as u8, buf)))
        } else {
            Value::LongStr(Rc::new(bytes))
        }
    }

    /// The bytes of a string, whichever way it is stored; `None` for what
    /// is no string.
    pub fn as_bytes(&self) -> (r: Option<&[u8]>)
        ensures
            match r {
                Some(s) => self@ == Val::Str(s@),
                None => !(self@ is Str),
            },
    {
        match self {
            Value::ShortStr(len, buf) => {
                let n: usize = if (*len as usize) <= 14 { *len as usize } else { 14 };
                let bytes = slice_subrange(array_as_slice(buf), 0, n);
                assert(bytes@ =~= prefix(buf@, *len));
                Some(bytes)
            },
            Value::MidStr(s) => {
                let n: usize = if (s.0 as usize) <= 47 { s.0 as usize } else { 47 };
                let bytes = slice_subrange(array_as_slice(&s.1), 0, n);
                assert(bytes@ =~= prefix(s.1@, s.0));
                Some(bytes)
            },
            Value::LongStr(s) => Some(s.as_slice()),
            _ => None,
        }
    }

    /// Whether the value counts as true in a condition.
    pub fn is_truthy(&self) -> (r: bool)
        ensures
            r == self@.truthy(),
            r == !(self@ == Val::Nil || self@ == Val::Boolean(false)),
    {
        match self {
            Value::Nil => false,
            Value::Boolean(b) => *b,
            _ => true,
        }
    }
}

impl<'a> From<&'a Value> for bool {
    /// The truth of a value: everything is true but `nil` and `false`.
    fn from(v: &'a Value) -> (r: bool) {
        v.is_truthy()
    }
}

impl<'a> vstd::std_specs::convert::FromSpecImpl<&'a Value> for bool {
    open spec fn obeys_from_spec() -> bool {
        true
    }

    open spec fn from_spec(v: &'a Value) -> bool {
        v@.truthy()
    }
}

/// The order of two byte strings: the first byte in which they differ
/// decides, and a proper prefix comes before the longer string.
pub open spec fn lex_order(a: Seq<u8>, b: Seq<u8>) -> Order
    decreases a.len(),
{
    if a.len() == 0 {
        if b.len() == 0 {
            Order::Equal
        } else {
            Order::Less
        }
    } else if b.len() == 0 {
        Order::Greater
    } else if a[0] < b[0] {
        Order::Less
    } else if a[0] > b[0] {
        Order::Greater
    } else {
        lex_order(a.drop_first(), b.drop_first())
    }
}

/// The order of two integers.
pub open spec fn int_order(x: i64, y: i64) -> Order {
    if x < y {
        Order::Less
    } else if x > y {
        Order::Greater
    } else {
        Order::Equal
    }
}

/// Equality of values. An integer and a binary64 number are compared as
/// binary64 numbers; two binary64 numbers by IEEE-754, so a NaN equals
/// nothing; strings by their bytes, however they are stored; tables and
/// native routines by handle; everything else by what it is.
pub open spec fn values_equal(a: Val, b: Val) -> bool {
    match (a, b) {
        (Val::Integer(x), Val::Float(y)) => order(from_int(x), y) == Order::Equal,
        (Val::Float(x), Val::Integer(y)) => order(x, from_int(y)) == Order::Equal,
        (Val::Float(x), Val::Float(y)) => order(x, y) == Order::Equal,
        _ => a == b,
    }
}

/// The order of two values: numbers among themselves, an integer beside a
/// binary64 number as a binary64 number, and strings by their bytes. Values
/// of other kinds, or of two different kinds, have no order.
pub open spec fn values_order(a: Val, b: Val) -> Option<Order> {
    match (a, b) {
        (Val::Integer(x), Val::Integer(y)) => Some(int_order(x, y)),
        (Val::Integer(x), Val::Float(y)) => Some(order(from_int(x), y)),
        (Val::Float(x), Val::Integer(y)) => Some(order(x, from_int(y))),
        (Val::Float(x), Val::Float(y)) => Some(order(x, y)),
        (Val::Str(x), Val::Str(y)) => Some(lex_order(x, y)),
        _ => None,
    }
}

fn bytes_equal(a: &[u8], b: &[u8]) -> (r: bool)
    ensures
        r == (a@ == b@),
{
    if a.len() != b.len() {
        return false;
    }
    let mut i: usize = 0;
    while i < a.len()
        invariant
            a@.len() == b@.len(),
            i <= a@.len(),
            forall|j: int| 0 <= j < i ==> a@[j] == b@[j],
        decreases a@.len() - i,
    {
        if a[i] != b[i] {
            return false;
        }
        i += 1;
    }
    assert(a@ =~= b@);
    true
}

proof fn lemma_lex_order_skip(a: Seq<u8>, b: Seq<u8>, i: int)
    requires
        0 <= i <= a.len(),
        i <= b.len(),
        forall|j: int| 0 <= j < i ==> a[j] == b[j],
    ensures
        lex_order(a, b) == lex_order(a.skip(i), b.skip(i)),
    decreases i,
{
    if i > 0 {
        lemma_lex_order_skip(a, b, i - 1);
        assert(a.skip(i - 1).drop_first() =~= a.skip(i));
        assert(b.skip(i - 1).drop_first() =~= b.skip(i));
        assert(a.skip(i - 1)[0] == b.skip(i - 1)[0]);
    } else {
        assert(a.skip(0) =~= a);
        assert(b.skip(0) =~= b);
    }
}

fn bytes_order(a: &[u8], b: &[u8]) -> (r: Order)
    ensures
        r == lex_order(a@, b@),
{
    let mut i: usize = 0;
    while i < a.len() && i < b.len()
        invariant
            i <= a@.len(),
            i <= b@.len(),
            forall|j: int| 0 <= j < i ==> a@[j] == b@[j],
        decreases a@.len() - i,
    {
        proof {
            lemma_lex_order_skip(a@, b@, i as int);
        }
        if a[i] < b[i] {
            return Order::Less;
        }
        if a[i] > b[i] {
            return Order::Greater;
        }
        i += 1;
    }
    proof {
        lemma_lex_order_skip(a@, b@, i as int);
    }
    if i < b.len() {
        Order::Less
    } else if i < a.len() {
        Order::Greater
    } else {
        Order::Equal
    }
}

impl PartialEq for Value {
    /// Equality as the language has it: see [`values_equal`].
    fn eq(&self, other: &Value) -> (r: bool) {
        self.equals(other)
    }
}

impl vstd::std_specs::cmp::PartialEqSpecImpl for Value {
    open spec fn obeys_eq_spec() -> bool {
        true
    }

    open spec fn eq_spec(&self, other: &Value) -> bool {
        values_equal(self@, other@)
    }
}

/// Whether two values stand for the same thing.
pub fn same(a: &Value, b: &Value) -> (r: bool)
    ensures
        r == (a@ == b@),
    decreases a,
{
    match (a, b) {
        (Value::Nil, Value::Nil) => true,
        (Value::Boolean(x), Value::Boolean(y)) => *x == *y,
        (Value::Integer(x), Value::Integer(y)) => *x == *y,
        (Value::Float(x), Value::Float(y)) => *x == *y,
        (Value::Table(x), Value::Table(y)) => *x == *y,
        (Value::NativeFunction(x), Value::NativeFunction(y)) => *x == *y,
        (Value::BytecodeFunction(p), Value::BytecodeFunction(q)) => same_proto(p, q),
        _ => match (a.as_bytes(), b.as_bytes()) {
            (Some(x), Some(y)) => bytes_equal(x, y),
            _ => false,
        },
    }
}

/// Whether two prototypes stand for the same thing: the same instructions,
/// the same constants, the same parameters.
pub fn same_proto(p: &FuncProto, q: &FuncProto) -> (r: bool)
    ensures
        r == (p@ == q@),
    decreases p,
{
    if p.nparam != q.nparam || p.has_varargs != q.has_varargs {
        return false;
    }
    if p.byte_codes.len() != q.byte_codes.len() || p.constants.len() != q.constants.len() {
        assert(p@.constants.len() != q@.constants.len() || p@.byte_codes.len()
            != q@.byte_codes.len());
        return false;
    }
    let mut i: usize = 0;
    while i < p.byte_codes.len()
        invariant
            p.byte_codes.len() == q.byte_codes.len(),
            i <= p.byte_codes.len(),
            forall|j: int| 0 <= j < i ==> p.byte_codes@[j] == q.byte_codes@[j],
        decreases p.byte_codes.len() - i,
    {
        if p.byte_codes[i] != q.byte_codes[i] {
            return false;
        }
        i += 1;
    }
    assert(p@.byte_codes =~= q@.byte_codes);
    let mut k: usize = 0;
    while k < p.constants.len()
        invariant
            p.constants.len() == q.constants.len(),
            k <= p.constants.len(),
            forall|j: int| 0 <= j < k ==> p@.constants[j] == q@.constants[j],
        decreases p.constants.len() - k,
    {
        if !same(&p.constants[k], &q.constants[k]) {
            assert(p@.constants[k as int] != q@.constants[k as int]);
            return false;
        }
        k += 1;
    }
    assert(p@.constants =~= q@.constants);
    true
}

impl Value {
    /// Equality as the language has it.
    pub fn equals(&self, other: &Value) -> (r: bool)
        ensures
            r == values_equal(self@, other@),
    {
        match (self, other) {
            (Value::Integer(x), Value::Float(y)) => float_order(int_to_float(*x), *y)
                == Order::Equal,
            (Value::Float(x), Value::Integer(y)) => float_order(*x, int_to_float(*y))
                == Order::Equal,
            (Value::Float(x), Value::Float(y)) => float_order(*x, *y) == Order::Equal,
            _ => same(self, other),
        }
    }

    /// The order of two values, or `None` where they have none.
    pub fn compare(&self, other: &Value) -> (r: Option<Order>)
        ensures
            r == values_order(self@, other@),
    {
        match (self, other) {
            (Value::Integer(x), Value::Integer(y)) => Some(
                if *x < *y {
                    Order::Less
                } else if *x > *y {
                    Order::Greater
                } else {
                    Order::Equal
                },
            ),
            (Value::Integer(x), Value::Float(y)) => Some(float_order(int_to_float(*x), *y)),
            (Value::Float(x), Value::Integer(y)) => Some(float_order(*x, int_to_float(*y))),
            (Value::Float(x), Value::Float(y)) => Some(float_order(*x, *y)),
            _ => match (self.as_bytes(), other.as_bytes()) {
                (Some(x), Some(y)) => Some(bytes_order(x, y)),
                _ => None,
            },
        }
    }
}

} // verus!
