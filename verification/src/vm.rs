//! The machine itself.
//!
//! [`ExeState`] holds a [`Machine`] and moves it on by
//! [`ExeState::execute`], one event at a time. The host runs the loop: it
//! hands in an event, does what the action asks, and hands in the answer.

use vstd::prelude::*;
use vstd::std_specs::convert::FromSpec;
use std::rc::Rc;
use crate::arith::{exe_binop, exe_binop_f, exe_binop_i, ArithOp, BitOp, FloatOp, Number, RealOp};
use crate::binary64::{float_is_positive, float_negate, Order};
use crate::bytecode::{ByteCode, MULTRET};
use crate::concat::{exe_concat, join, Concat, Piece};
use crate::error::VmError;
use crate::forloop::{for_advance, for_check_float, for_prepare, Advance, Prepared};
use crate::machine::{
    holds, initial_globals, outcome, Action, EventModel, FrameModel, Link, Machine, Relation,
    UnaryOp, Waiting, NATIVE_PRINT, STACK_LIMIT,
};
use crate::slots::{copy_to, fill, set_vec, take_range};
use crate::table::{Table, TableModel};
use crate::value::{models, share, FuncProto, Val, Value};

verus! {

/// What the host hands to the machine.
#[derive(Debug)]
pub enum Event {
    /// Nothing to report: run the next instruction.
    Next,
    /// The result of the computation asked for, as a bit pattern.
    Float(u64),
    /// The text asked for.
    Text(Vec<u8>),
    /// The count that the native routine returned.
    Returned(i32),
}

impl View for Event {
    type V = EventModel;

    open spec fn view(&self) -> EventModel {
        match self {
            Event::Next => EventModel::Next,
            Event::Float(f) => EventModel::Float(*f),
            Event::Text(t) => EventModel::Text(t@),
            Event::Returned(n) => EventModel::Returned(*n),
        }
    }
}

/// A call in progress: its function, the place of its next instruction,
/// the arguments it keeps, and where it came from.
struct Frame {
    proto: Rc<FuncProto>,
    pc: usize,
    varargs: Vec<Value>,
    link: Link,
}

/// What the machine is waiting for.
enum Pending {
    Nothing,
    Store(u8),
    ForStep(u8, u64, u64, u16),
    ConcatLeft(u8, Piece),
    ConcatRight(u8, Vec<u8>),
    Native(Link),
}

/// The parts of the state. In the middle of an instruction they need not
/// fit together, which is why they are kept apart from [`ExeState`], whose
/// every value is well-formed.
struct Core {
    globals: Table,
    stack: Vec<Value>,
    base: usize,
    tables: Vec<Table>,
    frames: Vec<Frame>,
    pending: Pending,
}

/// The state of an execution: globals, the evaluation stack with its frame
/// base, the tables, and the calls in progress. Its view is a
/// [`Machine`], and every state is well-formed ([`Machine::wf`]).
pub struct ExeState {
    core: Core,
}

spec fn frame_model(f: Frame) -> FrameModel {
    FrameModel { proto: (*f.proto)@, pc: f.pc as nat, varargs: models(f.varargs@), link: f.link }
}

spec fn frame_models(s: Seq<Frame>) -> Seq<FrameModel> {
    Seq::new(s.len(), |i: int| frame_model(s[i]))
}

spec fn table_models(s: Seq<Table>) -> Seq<TableModel> {
    Seq::new(s.len(), |i: int| s[i]@)
}

spec fn pending_model(p: Pending) -> Waiting {
    match p {
        Pending::Nothing => Waiting::Nothing,
        Pending::Store(dst) => Waiting::Store(dst),
        Pending::ForStep(dst, limit, step, jmp) => Waiting::ForStep(dst, limit, step, jmp),
        Pending::ConcatLeft(dst, right) => Waiting::ConcatLeft(dst, right@),
        Pending::ConcatRight(dst, left) => Waiting::ConcatRight(dst, left@),
        Pending::Native(link) => Waiting::Native(link),
    }
}

/// A state is well-formed if its frames have the links, and keep as many
/// arguments, as those of a well-formed state with a running call, if it
/// has the same base and its stack reaches the base, as long as neither
/// state waits for a native routine.
proof fn lemma_wf_kept(a: Machine, b: Machine)
    requires
        b.wf(),
        b.frames.len() > 0,
        a.frames.len() == b.frames.len(),
        forall|k: int|
            0 <= k < a.frames.len() ==> a.frames[k].link == b.frames[k].link
                && a.frames[k].varargs.len() == b.frames[k].varargs.len(),
        a.base == b.base,
        a.base <= a.stack.len(),
        !(a.waiting is Native),
        !(b.waiting is Native),
    ensures
        a.wf(),
{
    assert forall|k: int| 0 <= k < a.frames.len() implies a.link_fits(k) by {
        assert(b.link_fits(k));
    }
}

/// The instructions that compute with operators.
spec fn is_operator(code: ByteCode) -> bool {
    is_calculation(code) || is_bitwise(code) || is_comparison(code)
}

/// The unary operators and the operators of the first two kernels.
spec fn is_calculation(code: ByteCode) -> bool {
    code is Neg
        || code is Not
        || code is BitNot
        || code is Len
        || code is Add
        || code is AddConst
        || code is AddInt
        || code is Sub
        || code is SubConst
        || code is SubInt
        || code is Mul
        || code is MulConst
        || code is MulInt
        || code is Mod
        || code is ModConst
        || code is ModInt
        || code is Idiv
        || code is IdivConst
        || code is IdivInt
        || code is Div
        || code is DivConst
        || code is DivInt
        || code is Pow
        || code is PowConst
        || code is PowInt
}

/// The operators of the third kernel, and concatenation.
spec fn is_bitwise(code: ByteCode) -> bool {
    code is BitAnd
        || code is BitAndConst
        || code is BitAndInt
        || code is BitOr
        || code is BitOrConst
        || code is BitOrInt
        || code is BitXor
        || code is BitXorConst
        || code is BitXorInt
        || code is ShiftL
        || code is ShiftLConst
        || code is ShiftLInt
        || code is ShiftR
        || code is ShiftRConst
        || code is ShiftRInt
        || code is SetFalseSkip
        || code is Concat
        || code is ConcatConst
        || code is ConcatInt
}

/// The comparisons.
spec fn is_comparison(code: ByteCode) -> bool {
    code is Equal
        || code is EqualConst
        || code is EqualInt
        || code is NotEq
        || code is NotEqConst
        || code is NotEqInt
        || code is LesEq
        || code is LesEqConst
        || code is LesEqInt
        || code is GreEq
        || code is GreEqConst
        || code is GreEqInt
        || code is Less
        || code is LessConst
        || code is LessInt
        || code is Greater
        || code is GreaterConst
        || code is GreaterInt
}

/// The view of a value that may be missing.
spec fn view_of(v: Option<Value>) -> Option<Val> {
    match v {
        Some(x) => Some(x@),
        None => None,
    }
}

/// The length `n` as a value.
fn length_value(n: usize) -> (r: Value)
    ensures
        r@ == Val::Integer(n as i64),
{
    Value::Integer(#[verifier::truncate] (n as i64))
}

/// Decides whether a relation holds between two values.
fn exe_holds(rel: Relation, a: &Value, b: &Value) -> (r: Result<bool, VmError>)
    ensures
        r == holds(rel, a@, b@),
{
    match rel {
        Relation::Equal => Ok(a.equals(b)),
        Relation::NotEq => Ok(!a.equals(b)),
        _ => match a.compare(b) {
            None => Err(VmError::Type),
            Some(o) => Ok(
                match rel {
                    Relation::LesEq => o == Order::Less || o == Order::Equal,
                    Relation::GreEq => o == Order::Greater || o == Order::Equal,
                    Relation::Less => o == Order::Less,
                    _ => o == Order::Greater,
                },
            ),
        },
    }
}

impl Core {
    spec fn model(self) -> Machine {
        Machine {
            globals: self.globals@,
            stack: models(self.stack@),
            base: self.base as nat,
            tables: table_models(self.tables@),
            frames: frame_models(self.frames@),
            waiting: pending_model(self.pending),
        }
    }

    /// A call is running and the base is within the limit.
    spec fn live(self) -> bool {
        &&& self.model().wf()
        &&& self.frames@.len() > 0
        &&& self.base <= self.stack@.len()
        &&& self.base <= STACK_LIMIT
    }

    /// Reads register `r`, if it lies below the top of the stack.
    fn get_stack(&self, r: usize) -> (v: Option<Value>)
        requires
            self.base <= STACK_LIMIT,
            r <= 1000,
        ensures
            view_of(v) == self.model().reg(r as int),
    {
        let at = self.base + r;
        if at < self.stack.len() {
            Some(self.stack[at].clone())
        } else {
            None
        }
    }

    /// Writes `v` to register `r`.
    fn set_stack(&mut self, r: usize, v: Value)
        requires
            old(self).live(),
            r <= 1000,
        ensures
            final(self).live(),
            final(self).pending == old(self).pending,
            final(self).model() == old(self).model().write(r as int, v@),
    {
        set_vec(&mut self.stack, self.base + r, v);
        proof {
            let a = self.model();
            let b = old(self).model();
            assert(a.stack.len() == self.stack@.len());
            assert(b.stack.len() == old(self).stack@.len());
            assert(forall|k: int| 0 <= k < a.frames.len() ==> a.link_fits(k) == b.link_fits(k));
        }
    }

    /// Moves the running call to instruction `pc`.
    fn goto(&mut self, pc: usize)
        requires
            old(self).live(),
        ensures
            final(self).live(),
            final(self).pending == old(self).pending,
            final(self).model() == old(self).model().at_pc(pc as int),
    {
        let n = self.frames.len();
        self.frames[n - 1].pc = pc;
        proof {
            let a = self.model();
            let b = old(self).model();
            assert(a.frames =~= b.at_pc(pc as int).frames);
            assert(forall|k: int| 0 <= k < a.frames.len() ==> a.link_fits(k) == b.link_fits(k));
        }
    }

    /// An instruction of the running call is being done.
    spec fn fetching(self) -> bool {
        &&& self.live()
        &&& self.pending is Nothing
        &&& self.frames@.last().pc < usize::MAX
    }

    /// The place of the running call's next instruction.
    fn pc(&self) -> (r: usize)
        requires
            self.frames@.len() > 0,
        ensures
            r == self.model().frame().pc,
            r == self.frames@.last().pc,
    {
        self.frames[self.frames.len() - 1].pc
    }

    /// Reads the constant at place `k` of a pool.
    fn constant(proto: &FuncProto, k: usize) -> (v: Option<Value>)
        ensures
            match v {
                Some(x) => 0 <= k < proto@.constants.len() && proto@.constants[k as int] == x@,
                None => k >= proto@.constants.len(),
            },
    {
        if k < proto.constants.len() {
            Some(proto.constants[k].clone())
        } else {
            None
        }
    }

    /// Where a jump by `delta` leads, if it leads anywhere.
    fn target(&self, delta: i64) -> (r: Result<usize, VmError>)
        requires
            self.frames@.len() > 0,
            -100000 <= delta <= 100000,
        ensures
            match r {
                Ok(t) => self.model().target(delta as int) == Ok::<int, VmError>(t as int),
                Err(e) => self.model().target(delta as int) == Err::<int, VmError>(e),
            },
    {
        let pc = self.pc();
        let t: i128 = pc as i128 + 1 + delta as i128;
        if 0 <= t && t <= usize::MAX as i128 {
            Ok(t as usize)
        } else {
            Err(VmError::Malformed)
        }
    }

    /// Moves the running call to its next instruction.
    fn advance(&mut self)
        requires
            old(self).live(),
            old(self).frames@.last().pc < usize::MAX,
        ensures
            final(self).live(),
            final(self).pending == old(self).pending,
            final(self).model() == old(self).model().next(),
    {
        let pc = self.pc();
        self.goto(pc + 1);
    }

    /// Writes `v` to register `dst` and goes on.
    fn stored(&mut self, dst: u8, v: Value) -> (r: Result<Action, VmError>)
        requires
            old(self).fetching(),
        ensures
            final(self).model().wf(),
            outcome(old(self).model(), final(self).model(), r, old(self).model().stored(dst, v@)),
    {
        proof {
            reveal(Machine::stored);
        }
        self.set_stack(dst as usize, v);
        self.advance();
        Ok(Action::Continue)
    }

    /// Jumps by `delta`.
    fn jumped(&mut self, delta: i64) -> (r: Result<Action, VmError>)
        requires
            old(self).fetching(),
            -100000 <= delta <= 100000,
        ensures
            final(self).model().wf(),
            outcome(
                old(self).model(),
                final(self).model(),
                r,
                old(self).model().jumped(delta as int),
            ),
    {
        proof {
            reveal(Machine::jumped);
        }
        match self.target(delta) {
            Ok(t) => {
                self.goto(t);
                Ok(Action::Continue)
            },
            Err(e) => Err(e),
        }
    }

    /// Writes `v` to register `dst` and jumps by `delta`.
    fn stored_jumped(&mut self, dst: u8, v: Value, delta: i64) -> (r: Result<Action, VmError>)
        requires
            old(self).live(),
            -100000 <= delta <= 100000,
        ensures
            final(self).live(),
            final(self).pending == old(self).pending,
            outcome(
                old(self).model(),
                final(self).model(),
                r,
                old(self).model().stored_jumped(dst, v@, delta as int),
            ),
    {
        proof {
            reveal(Machine::stored_jumped);
        }
        match self.target(delta) {
            Ok(t) => {
                self.set_stack(dst as usize, v);
                self.goto(t);
                Ok(Action::Continue)
            },
            Err(e) => Err(e),
        }
    }

    /// Goes on to the next instruction and waits for the host.
    fn ask(&mut self, pending: Pending)
        requires
            old(self).fetching(),
            !(pending is Native),
        ensures
            final(self).model().wf(),
            final(self).model() == (Machine {
                waiting: pending_model(pending),
                ..old(self).model()
            }).next(),
    {
        self.advance();
        self.pending = pending;
        proof {
            let a = self.model();
            let b = old(self).model().next();
            assert(forall|k: int| 0 <= k < a.frames.len() ==> a.link_fits(k) == b.link_fits(k));
        }
    }

    /// Takes what a kernel computed to register `dst`.
    fn numbered(&mut self, dst: u8, n: Result<Number, VmError>) -> (r: Result<Action, VmError>)
        requires
            old(self).fetching(),
        ensures
            final(self).model().wf(),
            outcome(old(self).model(), final(self).model(), r, old(self).model().numbered(dst, n)),
    {
        proof {
            reveal(Machine::numbered);
        }
        match n {
            Ok(Number::Integer(i)) => self.stored(dst, Value::Integer(i)),
            Ok(Number::Float(op, a, b)) => {
                self.ask(Pending::Store(dst));
                Ok(Action::Compute(op, a, b))
            },
            Err(e) => Err(e),
        }
    }

    /// A binary operator of the first kernel.
    fn arith_on(&mut self, dst: u8, a: Option<Value>, b: Option<Value>, op: ArithOp) -> (r: Result<
        Action,
        VmError,
    >)
        requires
            old(self).fetching(),
        ensures
            final(self).model().wf(),
            outcome(
                old(self).model(),
                final(self).model(),
                r,
                old(self).model().arith_on(dst, view_of(a), view_of(b), op),
            ),
    {
        proof {
            reveal(Machine::arith_on);
        }
        match (a, b) {
            (Some(x), Some(y)) => {
                let n = exe_binop(&x, &y, op);
                self.numbered(dst, n)
            },
            _ => Err(VmError::Malformed),
        }
    }

    /// A binary operator of the second kernel.
    fn real_on(&mut self, dst: u8, a: Option<Value>, b: Option<Value>, op: RealOp) -> (r: Result<
        Action,
        VmError,
    >)
        requires
            old(self).fetching(),
        ensures
            final(self).model().wf(),
            outcome(
                old(self).model(),
                final(self).model(),
                r,
                old(self).model().real_on(dst, view_of(a), view_of(b), op),
            ),
    {
        proof {
            reveal(Machine::real_on);
        }
        match (a, b) {
            (Some(x), Some(y)) => {
                let n = exe_binop_f(&x, &y, op);
                self.numbered(dst, n)
            },
            _ => Err(VmError::Malformed),
        }
    }

    /// A binary operator of the third kernel.
    fn bits_on(&mut self, dst: u8, a: Option<Value>, b: Option<Value>, op: BitOp) -> (r: Result<
        Action,
        VmError,
    >)
        requires
            old(self).fetching(),
        ensures
            final(self).model().wf(),
            outcome(
                old(self).model(),
                final(self).model(),
                r,
                old(self).model().bits_on(dst, view_of(a), view_of(b), op),
            ),
    {
        proof {
            reveal(Machine::bits_on);
        }
        match (a, b) {
            (Some(x), Some(y)) => {
                let n = exe_binop_i(&x, &y, op);
                self.numbered(dst, n)
            },
            _ => Err(VmError::Malformed),
        }
    }

    /// What a unary operator makes of a value.
    fn unary(&self, op: UnaryOp, v: &Value) -> (r: Result<Value, VmError>)
        ensures
            match r {
                Ok(x) => self.model().unary(op, v@) == Ok::<Val, VmError>(x@),
                Err(e) => self.model().unary(op, v@) == Err::<Val, VmError>(e),
            },
    {
        match op {
            UnaryOp::Neg => match v {
                Value::Integer(i) => Ok(Value::Integer(0i64.wrapping_sub(*i))),
                Value::Float(f) => Ok(Value::Float(float_negate(*f))),
                _ => Err(VmError::Type),
            },
            UnaryOp::Not => Ok(Value::Boolean(!v.is_truthy())),
            UnaryOp::BitNot => match v {
                Value::Integer(i) => Ok(Value::Integer(!*i)),
                _ => Err(VmError::Type),
            },
            UnaryOp::Len => match v {
                Value::Table(h) => if *h < self.tables.len() {
                    Ok(length_value(self.tables[*h].len()))
                } else {
                    Err(VmError::Malformed)
                },
                _ => match v.as_bytes() {
                    Some(s) => Ok(length_value(s.len())),
                    None => Err(VmError::Type),
                },
            },
        }
    }

    /// A unary operator.
    fn unary_on(&mut self, dst: u8, src: u8, op: UnaryOp) -> (r: Result<Action, VmError>)
        requires
            old(self).fetching(),
        ensures
            final(self).model().wf(),
            outcome(
                old(self).model(),
                final(self).model(),
                r,
                old(self).model().unary_on(dst, src, op),
            ),
    {
        proof {
            reveal(Machine::unary_on);
        }
        match self.get_stack(src as usize) {
            Some(v) => match self.unary(op, &v) {
                Ok(x) => self.stored(dst, x),
                Err(e) => Err(e),
            },
            None => Err(VmError::Malformed),
        }
    }

    /// A comparison, which may skip the next instruction.
    fn compared(&mut self, a: Option<Value>, b: Option<Value>, rel: Relation, want: bool) -> (r:
        Result<Action, VmError>)
        requires
            old(self).fetching(),
        ensures
            final(self).model().wf(),
            outcome(
                old(self).model(),
                final(self).model(),
                r,
                old(self).model().compared(view_of(a), view_of(b), rel, want),
            ),
    {
        proof {
            reveal(Machine::compared);
        }
        match (a, b) {
            (Some(x), Some(y)) => match exe_holds(rel, &x, &y) {
                Ok(h) => if h == want {
                    self.jumped(1)
                } else {
                    self.advance();
                    Ok(Action::Continue)
                },
                Err(e) => Err(e),
            },
            _ => Err(VmError::Malformed),
        }
    }

    /// A conditional jump.
    fn tested(&mut self, r: u8, when: bool, delta: i64) -> (res: Result<Action, VmError>)
        requires
            old(self).fetching(),
            -100000 <= delta <= 100000,
        ensures
            final(self).model().wf(),
            outcome(
                old(self).model(),
                final(self).model(),
                res,
                old(self).model().tested(r, when, delta as int),
            ),
    {
        proof {
            reveal(Machine::tested);
        }
        match self.get_stack(r as usize) {
            Some(v) => if v.is_truthy() == when {
                self.jumped(delta)
            } else {
                self.advance();
                Ok(Action::Continue)
            },
            None => Err(VmError::Malformed),
        }
    }

    /// A conditional jump that copies the tested value when taken.
    fn tested_set(&mut self, dst: u8, r: u8, when: bool, delta: i64) -> (res: Result<
        Action,
        VmError,
    >)
        requires
            old(self).fetching(),
            -100000 <= delta <= 100000,
        ensures
            final(self).model().wf(),
            outcome(
                old(self).model(),
                final(self).model(),
                res,
                old(self).model().tested_set(dst, r, when, delta as int),
            ),
    {
        proof {
            reveal(Machine::tested_set);
        }
        match self.get_stack(r as usize) {
            Some(v) => if v.is_truthy() == when {
                self.stored_jumped(dst, v, delta)
            } else {
                self.advance();
                Ok(Action::Continue)
            },
            None => Err(VmError::Malformed),
        }
    }

    /// The handle of the table in register `t`.
    fn table_in(&self, t: u8) -> (r: Result<usize, VmError>)
        requires
            self.base <= STACK_LIMIT,
        ensures
            r == self.model().table_in(t),
            r matches Ok(h) ==> h < self.tables@.len(),
    {
        match self.get_stack(t as usize) {
            Some(Value::Table(h)) => if h < self.tables.len() {
                Ok(h)
            } else {
                Err(VmError::Malformed)
            },
            _ => Err(VmError::Malformed),
        }
    }

    /// Reads `key` from the table in register `t` into register `dst`.
    fn table_get(&mut self, dst: u8, t: u8, key: Option<Value>) -> (r: Result<Action, VmError>)
        requires
            old(self).fetching(),
        ensures
            final(self).model().wf(),
            outcome(
                old(self).model(),
                final(self).model(),
                r,
                old(self).model().table_get(dst, t, view_of(key)),
            ),
    {
        proof {
            reveal(Machine::table_get);
        }
        match (self.table_in(t), key) {
            (Ok(h), Some(k)) => {
                let v = self.tables[h].get(&k);
                self.stored(dst, v)
            },
            _ => Err(VmError::Malformed),
        }
    }

    /// Writes `value` under `key` to the table in register `t`.
    fn table_set(&mut self, t: u8, key: Option<Value>, value: Option<Value>) -> (r: Result<
        Action,
        VmError,
    >)
        requires
            old(self).fetching(),
        ensures
            final(self).model().wf(),
            outcome(
                old(self).model(),
                final(self).model(),
                r,
                old(self).model().table_set(t, view_of(key), view_of(value)),
            ),
    {
        proof {
            reveal(Machine::table_set);
        }
        match (self.table_in(t), key, value) {
            (Ok(h), Some(k), Some(v)) => {
                if let Value::Nil = k {
                    return Err(VmError::Type);
                }
                let _ = self.tables[h].set(k, v);
                proof {
                    let a = self.model();
                    let b = old(self).model();
                    assert(a.tables =~= b.tables.update(h as int, b.tables[h as int].set(k@, v@)));
                    assert(forall|k: int|
                        0 <= k < a.frames.len() ==> a.link_fits(k) == b.link_fits(k));
                }
                self.advance();
                Ok(Action::Continue)
            },
            _ => Err(VmError::Malformed),
        }
    }

    /// Moves the `n` values above register `t` into the table in it.
    fn list_set(&mut self, t: u8, n: u8) -> (r: Result<Action, VmError>)
        requires
            old(self).fetching(),
        ensures
            final(self).model().wf(),
            outcome(old(self).model(), final(self).model(), r, old(self).model().list_set(t, n)),
    {
        proof {
            reveal(Machine::list_set);
        }
        match self.table_in(t) {
            Ok(h) => {
                let begin: usize = self.base + t as usize + 1;
                let end: usize = begin + n as usize;
                if end <= self.stack.len() {
                    let values = take_range(&mut self.stack, begin, end);
                    self.tables[h].append(values);
                    proof {
                        let a = self.model();
                        let b = old(self).model();
                        assert(a.tables =~= b.tables.update(
                            h as int,
                            b.tables[h as int].append(b.stack.subrange(begin as int, end as int)),
                        ));
                        assert(a.stack.len() == self.stack@.len());
                        assert(b.stack.len() == old(self).stack@.len());
                        assert(forall|k: int|
                            0 <= k < a.frames.len() ==> a.link_fits(k) == b.link_fits(k));
                    }
                    self.advance();
                    Ok(Action::Continue)
                } else {
                    Err(VmError::Malformed)
                }
            },
            Err(e) => Err(e),
        }
    }

    /// Reads a global into register `dst`.
    fn global_get(&mut self, dst: u8, name: Option<Value>) -> (r: Result<Action, VmError>)
        requires
            old(self).fetching(),
        ensures
            final(self).model().wf(),
            outcome(
                old(self).model(),
                final(self).model(),
                r,
                old(self).model().global_get(dst, view_of(name)),
            ),
    {
        proof {
            reveal(Machine::global_get);
        }
        match name {
            Some(k) => match k.as_bytes() {
                Some(_) => {
                    let v = self.globals.get(&k);
                    self.stored(dst, v)
                },
                None => Err(VmError::Type),
            },
            None => Err(VmError::Malformed),
        }
    }

    /// Writes a global.
    fn global_set(&mut self, name: Option<Value>, value: Option<Value>) -> (r: Result<
        Action,
        VmError,
    >)
        requires
            old(self).fetching(),
        ensures
            final(self).model().wf(),
            outcome(
                old(self).model(),
                final(self).model(),
                r,
                old(self).model().global_set(view_of(name), view_of(value)),
            ),
    {
        proof {
            reveal(Machine::global_set);
        }
        match (name, value) {
            (Some(k), Some(v)) => {
                if k.as_bytes().is_none() {
                    return Err(VmError::Type);
                }
                let _ = self.globals.set(k, v);
                proof {
                    let a = self.model();
                    let b = old(self).model();
                    assert(forall|k: int|
                        0 <= k < a.frames.len() ==> a.link_fits(k) == b.link_fits(k));
                }
                self.advance();
                Ok(Action::Continue)
            },
            _ => Err(VmError::Malformed),
        }
    }

    /// Takes a concatenation as far as it has come.
    fn pieced(&mut self, dst: u8, c: Concat) -> (r: Action)
        requires
            old(self).live(),
            !(old(self).pending is Native),
        ensures
            final(self).model().wf(),
            (final(self).model(), r) == old(self).model().pieced(dst, c@),
    {
        match c {
            Concat::Done(v) => {
                self.pending = Pending::Nothing;
                proof {
                    let a = self.model();
                    let b = old(self).model();
                    assert(forall|k: int|
                        0 <= k < a.frames.len() ==> a.link_fits(k) == b.link_fits(k));
                }
                self.set_stack(dst as usize, v);
                Action::Continue
            },
            Concat::AskLeft(f, p) => {
                self.pending = Pending::ConcatLeft(dst, p);
                proof {
                    let a = self.model();
                    let b = old(self).model();
                    assert(forall|k: int|
                        0 <= k < a.frames.len() ==> a.link_fits(k) == b.link_fits(k));
                }
                Action::Format(f)
            },
            Concat::AskRight(t, g) => {
                self.pending = Pending::ConcatRight(dst, t);
                proof {
                    let a = self.model();
                    let b = old(self).model();
                    assert(forall|k: int|
                        0 <= k < a.frames.len() ==> a.link_fits(k) == b.link_fits(k));
                }
                Action::Format(g)
            },
        }
    }

    /// A concatenation into register `dst`.
    fn concat_on(&mut self, dst: u8, a: Option<Value>, b: Option<Value>) -> (r: Result<
        Action,
        VmError,
    >)
        requires
            old(self).fetching(),
        ensures
            final(self).model().wf(),
            outcome(
                old(self).model(),
                final(self).model(),
                r,
                old(self).model().concat_on(dst, view_of(a), view_of(b)),
            ),
    {
        proof {
            reveal(Machine::concat_on);
        }
        match (a, b) {
            (Some(x), Some(y)) => match exe_concat(&x, &y) {
                Ok(c) => {
                    self.advance();
                    Ok(self.pieced(dst, c))
                },
                Err(e) => Err(e),
            },
            _ => Err(VmError::Malformed),
        }
    }

    /// Reads a constant of the running call.
    fn konst(&self, proto: &FuncProto, k: usize) -> (v: Option<Value>)
        requires
            proto@ == self.model().frame().proto,
        ensures
            view_of(v) == self.model().constant(k as int),
    {
        Core::constant(proto, k)
    }

    /// Writes nil to the `n` registers from `dst` on.
    fn fill_stack(&mut self, dst: u8, n: u8) -> (r: Result<Action, VmError>)
        requires
            old(self).fetching(),
        ensures
            final(self).model().wf(),
            outcome(
                old(self).model(),
                final(self).model(),
                r,
                old(self).model().step(ByteCode::LoadNil(dst, n)),
            ),
    {
        fill(&mut self.stack, self.base + dst as usize, n as usize);
        proof {
            let a = self.model();
            let b = old(self).model();
            assert(a.stack.len() == self.stack@.len());
            assert(b.stack.len() == old(self).stack@.len());
            assert(forall|k: int| 0 <= k < a.frames.len() ==> a.link_fits(k) == b.link_fits(k));
        }
        self.advance();
        Ok(Action::Continue)
    }

    /// Makes a table and writes it to register `dst`.
    fn table_made(&mut self, dst: u8, narray: u8, nmap: u8) -> (r: Result<Action, VmError>)
        requires
            old(self).fetching(),
        ensures
            final(self).model().wf(),
            outcome(
                old(self).model(),
                final(self).model(),
                r,
                old(self).model().step(ByteCode::NewTable(dst, narray, nmap)),
            ),
    {
        proof {
            reveal(Machine::stored);
        }
        let h = self.tables.len();
        self.tables.push(Table::new(narray as usize, nmap as usize));
        proof {
            let a = self.model();
            let b = old(self).model();
            assert(a.tables =~= b.tables.push(
                TableModel { array: Seq::empty(), capacity: narray as nat, entries: Seq::empty() },
            ));
            assert(forall|k: int| 0 <= k < a.frames.len() ==> a.link_fits(k) == b.link_fits(k));
        }
        self.stored(dst, Value::Table(h))
    }

    /// Prepares a loop.
    fn for_prepared(&mut self, dst: u8, jmp: u16) -> (r: Result<Action, VmError>)
        requires
            old(self).fetching(),
        ensures
            final(self).model().wf(),
            outcome(
                old(self).model(),
                final(self).model(),
                r,
                old(self).model().for_prepared(dst, jmp),
            ),
    {
        proof {
            reveal(Machine::for_prepared);
        }
        let at = dst as usize;
        match (self.get_stack(at), self.get_stack(at + 1), self.get_stack(at + 2)) {
            (Some(i), Some(l), Some(s)) => match for_prepare(&i, &l, &s) {
                Ok(p) => {
                    let run = match p {
                        Prepared::Integer(_, run) => run,
                        Prepared::Float(_, _, _, run) => run,
                    };
                    let delta: i64 = if run { 0 } else { jmp as i64 };
                    match self.target(delta) {
                        Ok(t) => {
                            match p {
                                Prepared::Integer(limit, _) => {
                                    self.set_stack(at + 1, Value::Integer(limit));
                                },
                                Prepared::Float(first, limit, step, _) => {
                                    self.set_stack(at, Value::Float(first));
                                    self.set_stack(at + 1, Value::Float(limit));
                                    self.set_stack(at + 2, Value::Float(step));
                                },
                            }
                            self.goto(t);
                            Ok(Action::Continue)
                        },
                        Err(e) => Err(e),
                    }
                },
                Err(e) => Err(e),
            },
            _ => Err(VmError::Malformed),
        }
    }

    /// Advances a loop.
    fn for_looped(&mut self, dst: u8, jmp: u16) -> (r: Result<Action, VmError>)
        requires
            old(self).fetching(),
        ensures
            final(self).model().wf(),
            outcome(
                old(self).model(),
                final(self).model(),
                r,
                old(self).model().for_looped(dst, jmp),
            ),
    {
        proof {
            reveal(Machine::for_looped);
        }
        let at = dst as usize;
        match (self.get_stack(at), self.get_stack(at + 1), self.get_stack(at + 2)) {
            (Some(i), Some(l), Some(s)) => match for_advance(&i, &l, &s) {
                Ok(Advance::Integer(next, again)) => if again {
                    self.stored_jumped(dst, Value::Integer(next), -(jmp as i64))
                } else {
                    self.advance();
                    Ok(Action::Continue)
                },
                Ok(Advance::Float(f, limit, step)) => {
                    self.ask(Pending::ForStep(dst, limit, step, jmp));
                    Ok(Action::Compute(FloatOp::Add, f, step))
                },
                Err(e) => Err(e),
            },
            _ => Err(VmError::Malformed),
        }
    }

    /// Takes the next counter of a binary64 loop from the host.
    fn for_resumed(&mut self, dst: u8, limit: u64, step: u64, jmp: u16, next: u64) -> (r: Result<
        Action,
        VmError,
    >)
        requires
            old(self).live(),
            old(self).pending == Pending::ForStep(dst, limit, step, jmp),
        ensures
            final(self).model().wf(),
            outcome(
                old(self).model(),
                final(self).model(),
                r,
                old(self).model().for_resumed(dst, limit, step, jmp, next),
            ),
    {
        proof {
            reveal(Machine::stored_jumped);
        }
        if for_check_float(next, limit, float_is_positive(step)) {
            match self.stored_jumped(dst, Value::Float(next), -(jmp as i64) - 1) {
                Ok(a) => {
                    self.pending = Pending::Nothing;
                    proof {
                        assert(self.model().stack.len() == self.stack@.len());
                        lemma_wf_kept(self.model(), old(self).model());
                    }
                    Ok(a)
                },
                Err(e) => Err(e),
            }
        } else {
            self.pending = Pending::Nothing;
            proof {
                assert(self.model().stack.len() == self.stack@.len());
                lemma_wf_kept(self.model(), old(self).model());
            }
            Ok(Action::Continue)
        }
    }

    /// Does one instruction: loads, globals, tables, jumps, loops and calls
    /// here, the operators further down.
    fn step(&mut self, proto: &FuncProto, code: ByteCode) -> (r: Result<Action, VmError>)
        requires
            old(self).fetching(),
            old(self).stack@.len() <= STACK_LIMIT,
            proto@ == old(self).model().frame().proto,
        ensures
            final(self).model().wf(),
            outcome(old(self).model(), final(self).model(), r, old(self).model().step(code)),
    {
        match code {
            ByteCode::LoadConst(dst, k) => {
                match self.konst(proto, k as usize) {
                    Some(v) => self.stored(dst, v),
                    None => Err(VmError::Malformed),
                }
            },
            ByteCode::LoadNil(dst, n) => {
                self.fill_stack(dst, n)
            },
            ByteCode::LoadBool(dst, b) => {
                self.stored(dst, Value::Boolean(b))
            },
            ByteCode::LoadInt(dst, i) => {
                self.stored(dst, Value::Integer(i as i64))
            },
            ByteCode::Move(dst, src) => {
                match self.get_stack(src as usize) {
                    Some(v) => self.stored(dst, v),
                    None => Err(VmError::Malformed),
                }
            },
            ByteCode::GetGlobal(dst, name) => {
                let k = self.konst(proto, name as usize);
                self.global_get(dst, k)
            },
            ByteCode::SetGlobal(name, src) => {
                let k = self.konst(proto, name as usize);
                let v = self.get_stack(src as usize);
                self.global_set(k, v)
            },
            ByteCode::SetGlobalConst(name, src) => {
                let k = self.konst(proto, name as usize);
                let v = self.konst(proto, src as usize);
                self.global_set(k, v)
            },
            ByteCode::NewTable(dst, narray, nmap) => {
                self.table_made(dst, narray, nmap)
            },
            ByteCode::SetInt(t, i, v) => {
                let v = self.get_stack(v as usize);
                self.table_set(t, Some(Value::Integer(i as i64)), v)
            },
            ByteCode::SetIntConst(t, i, v) => {
                let v = self.konst(proto, v as usize);
                self.table_set(t, Some(Value::Integer(i as i64)), v)
            },
            ByteCode::SetField(t, k, v) => {
                let k = self.konst(proto, k as usize);
                let v = self.get_stack(v as usize);
                self.table_set(t, k, v)
            },
            ByteCode::SetFieldConst(t, k, v) => {
                let k = self.konst(proto, k as usize);
                let v = self.konst(proto, v as usize);
                self.table_set(t, k, v)
            },
            ByteCode::SetTable(t, k, v) => {
                let k = self.get_stack(k as usize);
                let v = self.get_stack(v as usize);
                self.table_set(t, k, v)
            },
            ByteCode::SetTableConst(t, k, v) => {
                let k = self.get_stack(k as usize);
                let v = self.konst(proto, v as usize);
                self.table_set(t, k, v)
            },
            ByteCode::SetList(t, n) => {
                self.list_set(t, n)
            },
            ByteCode::GetInt(dst, t, k) => {
                self.table_get(dst, t, Some(Value::Integer(k as i64)))
            },
            ByteCode::GetField(dst, t, k) => {
                let k = self.konst(proto, k as usize);
                self.table_get(dst, t, k)
            },
            ByteCode::GetTable(dst, t, k) => {
                let k = self.get_stack(k as usize);
                self.table_get(dst, t, k)
            },
            ByteCode::TestAndJump(r, delta) => {
                self.tested(r, true, delta as i64)
            },
            ByteCode::TestOrJump(r, delta) => {
                self.tested(r, false, delta as i64)
            },
            ByteCode::TestAndSetJump(dst, r, delta) => {
                self.tested_set(dst, r, true, delta as i64)
            },
            ByteCode::TestOrSetJump(dst, r, delta) => {
                self.tested_set(dst, r, false, delta as i64)
            },
            ByteCode::Jump(delta) => {
                self.jumped(delta as i64)
            },
            ByteCode::ForPrepare(dst, jmp) => {
                self.for_prepared(dst, jmp)
            },
            ByteCode::ForLoop(dst, jmp) => {
                self.for_looped(dst, jmp)
            },
            ByteCode::Call(func, narg, want) => {
                let saved = self.base;
                self.call_function(func, narg, Link::Call { saved, func, want })
            },
            ByteCode::CallSet(dst, func, narg) => {
                let saved = self.base;
                self.call_function(func, narg, Link::CallSet { saved, func, dst })
            },
            ByteCode::Return(iret, nret) => {
                self.returned(iret, nret)
            },
            ByteCode::VarArgs(dst, want) => {
                self.varargs_on(dst, want)
            },
            _ => self.step_operator(proto, code),
        }
    }

    /// The unary operators and the first two kernels.
    fn step_operator(&mut self, proto: &FuncProto, code: ByteCode) -> (r: Result<Action, VmError>)
        requires
            old(self).fetching(),
            old(self).stack@.len() <= STACK_LIMIT,
            proto@ == old(self).model().frame().proto,
            is_operator(code),
        ensures
            final(self).model().wf(),
            outcome(old(self).model(), final(self).model(), r, old(self).model().step(code)),
    {
        match code {
            ByteCode::Neg(dst, src) => {
                self.unary_on(dst, src, UnaryOp::Neg)
            },
            ByteCode::Not(dst, src) => {
                self.unary_on(dst, src, UnaryOp::Not)
            },
            ByteCode::BitNot(dst, src) => {
                self.unary_on(dst, src, UnaryOp::BitNot)
            },
            ByteCode::Len(dst, src) => {
                self.unary_on(dst, src, UnaryOp::Len)
            },
            ByteCode::Add(dst, a, b) => {
                let x = self.get_stack(a as usize);
                let y = self.get_stack(b as usize);
                self.arith_on(dst, x, y, ArithOp::Add)
            },
            ByteCode::AddConst(dst, a, b) => {
                let x = self.get_stack(a as usize);
                let y = self.konst(proto, b as usize);
                self.arith_on(dst, x, y, ArithOp::Add)
            },
            ByteCode::AddInt(dst, a, i) => {
                let x = self.get_stack(a as usize);
                self.arith_on(dst, x, Some(Value::Integer(i as i64)), ArithOp::Add)
            },
            ByteCode::Sub(dst, a, b) => {
                let x = self.get_stack(a as usize);
                let y = self.get_stack(b as usize);
                self.arith_on(dst, x, y, ArithOp::Sub)
            },
            ByteCode::SubConst(dst, a, b) => {
                let x = self.get_stack(a as usize);
                let y = self.konst(proto, b as usize);
                self.arith_on(dst, x, y, ArithOp::Sub)
            },
            ByteCode::SubInt(dst, a, i) => {
                let x = self.get_stack(a as usize);
                self.arith_on(dst, x, Some(Value::Integer(i as i64)), ArithOp::Sub)
            },
            ByteCode::Mul(dst, a, b) => {
                let x = self.get_stack(a as usize);
                let y = self.get_stack(b as usize);
                self.arith_on(dst, x, y, ArithOp::Mul)
            },
            ByteCode::MulConst(dst, a, b) => {
                let x = self.get_stack(a as usize);
                let y = self.konst(proto, b as usize);
                self.arith_on(dst, x, y, ArithOp::Mul)
            },
            ByteCode::MulInt(dst, a, i) => {
                let x = self.get_stack(a as usize);
                self.arith_on(dst, x, Some(Value::Integer(i as i64)), ArithOp::Mul)
            },
            ByteCode::Mod(dst, a, b) => {
                let x = self.get_stack(a as usize);
                let y = self.get_stack(b as usize);
                self.arith_on(dst, x, y, ArithOp::Mod)
            },
            ByteCode::ModConst(dst, a, b) => {
                let x = self.get_stack(a as usize);
                let y = self.konst(proto, b as usize);
                self.arith_on(dst, x, y, ArithOp::Mod)
            },
            ByteCode::ModInt(dst, a, i) => {
                let x = self.get_stack(a as usize);
                self.arith_on(dst, x, Some(Value::Integer(i as i64)), ArithOp::Mod)
            },
            ByteCode::Idiv(dst, a, b) => {
                let x = self.get_stack(a as usize);
                let y = self.get_stack(b as usize);
                self.arith_on(dst, x, y, ArithOp::Idiv)
            },
            ByteCode::IdivConst(dst, a, b) => {
                let x = self.get_stack(a as usize);
                let y = self.konst(proto, b as usize);
                self.arith_on(dst, x, y, ArithOp::Idiv)
            },
            ByteCode::IdivInt(dst, a, i) => {
                let x = self.get_stack(a as usize);
                self.arith_on(dst, x, Some(Value::Integer(i as i64)), ArithOp::Idiv)
            },
            ByteCode::Div(dst, a, b) => {
                let x = self.get_stack(a as usize);
                let y = self.get_stack(b as usize);
                self.real_on(dst, x, y, RealOp::Div)
            },
            ByteCode::DivConst(dst, a, b) => {
                let x = self.get_stack(a as usize);
                let y = self.konst(proto, b as usize);
                self.real_on(dst, x, y, RealOp::Div)
            },
            ByteCode::DivInt(dst, a, i) => {
                let x = self.get_stack(a as usize);
                self.real_on(dst, x, Some(Value::Integer(i as i64)), RealOp::Div)
            },
            ByteCode::Pow(dst, a, b) => {
                let x = self.get_stack(a as usize);
                let y = self.get_stack(b as usize);
                self.real_on(dst, x, y, RealOp::Pow)
            },
            ByteCode::PowConst(dst, a, b) => {
                let x = self.get_stack(a as usize);
                let y = self.konst(proto, b as usize);
                self.real_on(dst, x, y, RealOp::Pow)
            },
            ByteCode::PowInt(dst, a, i) => {
                let x = self.get_stack(a as usize);
                self.real_on(dst, x, Some(Value::Integer(i as i64)), RealOp::Pow)
            },
            _ => self.step_bitwise(proto, code),
        }
    }

    /// The third kernel and concatenation.
    fn step_bitwise(&mut self, proto: &FuncProto, code: ByteCode) -> (r: Result<Action, VmError>)
        requires
            old(self).fetching(),
            old(self).stack@.len() <= STACK_LIMIT,
            proto@ == old(self).model().frame().proto,
            is_bitwise(code) || is_comparison(code),
        ensures
            final(self).model().wf(),
            outcome(old(self).model(), final(self).model(), r, old(self).model().step(code)),
    {
        match code {
            ByteCode::BitAnd(dst, a, b) => {
                let x = self.get_stack(a as usize);
                let y = self.get_stack(b as usize);
                self.bits_on(dst, x, y, BitOp::And)
            },
            ByteCode::BitAndConst(dst, a, b) => {
                let x = self.get_stack(a as usize);
                let y = self.konst(proto, b as usize);
                self.bits_on(dst, x, y, BitOp::And)
            },
            ByteCode::BitAndInt(dst, a, i) => {
                let x = self.get_stack(a as usize);
                self.bits_on(dst, x, Some(Value::Integer(i as i64)), BitOp::And)
            },
            ByteCode::BitOr(dst, a, b) => {
                let x = self.get_stack(a as usize);
                let y = self.get_stack(b as usize);
                self.bits_on(dst, x, y, BitOp::Or)
            },
            ByteCode::BitOrConst(dst, a, b) => {
                let x = self.get_stack(a as usize);
                let y = self.konst(proto, b as usize);
                self.bits_on(dst, x, y, BitOp::Or)
            },
            ByteCode::BitOrInt(dst, a, i) => {
                let x = self.get_stack(a as usize);
                self.bits_on(dst, x, Some(Value::Integer(i as i64)), BitOp::Or)
            },
            ByteCode::BitXor(dst, a, b) => {
                let x = self.get_stack(a as usize);
                let y = self.get_stack(b as usize);
                self.bits_on(dst, x, y, BitOp::Xor)
            },
            ByteCode::BitXorConst(dst, a, b) => {
                let x = self.get_stack(a as usize);
                let y = self.konst(proto, b as usize);
                self.bits_on(dst, x, y, BitOp::Xor)
            },
            ByteCode::BitXorInt(dst, a, i) => {
                let x = self.get_stack(a as usize);
                self.bits_on(dst, x, Some(Value::Integer(i as i64)), BitOp::Xor)
            },
            ByteCode::ShiftL(dst, a, b) => {
                let x = self.get_stack(a as usize);
                let y = self.get_stack(b as usize);
                self.bits_on(dst, x, y, BitOp::ShiftL)
            },
            ByteCode::ShiftLConst(dst, a, b) => {
                let x = self.get_stack(a as usize);
                let y = self.konst(proto, b as usize);
                self.bits_on(dst, x, y, BitOp::ShiftL)
            },
            ByteCode::ShiftLInt(dst, a, i) => {
                let x = self.get_stack(a as usize);
                self.bits_on(dst, x, Some(Value::Integer(i as i64)), BitOp::ShiftL)
            },
            ByteCode::ShiftR(dst, a, b) => {
                let x = self.get_stack(a as usize);
                let y = self.get_stack(b as usize);
                self.bits_on(dst, x, y, BitOp::ShiftR)
            },
            ByteCode::ShiftRConst(dst, a, b) => {
                let x = self.get_stack(a as usize);
                let y = self.konst(proto, b as usize);
                self.bits_on(dst, x, y, BitOp::ShiftR)
            },
            ByteCode::ShiftRInt(dst, a, i) => {
                let x = self.get_stack(a as usize);
                self.bits_on(dst, x, Some(Value::Integer(i as i64)), BitOp::ShiftR)
            },
            ByteCode::SetFalseSkip(dst) => {
                self.stored_jumped(dst, Value::Boolean(false), 1)
            },
            ByteCode::Concat(dst, a, b) => {
                let x = self.get_stack(a as usize);
                let y = self.get_stack(b as usize);
                self.concat_on(dst, x, y)
            },
            ByteCode::ConcatConst(dst, a, b) => {
                let x = self.get_stack(a as usize);
                let y = self.konst(proto, b as usize);
                self.concat_on(dst, x, y)
            },
            ByteCode::ConcatInt(dst, a, i) => {
                let x = self.get_stack(a as usize);
                self.concat_on(dst, x, Some(Value::Integer(i as i64)))
            },
            _ => self.step_comparison(proto, code),
        }
    }

    /// The comparisons.
    fn step_comparison(&mut self, proto: &FuncProto, code: ByteCode) -> (r: Result<
        Action,
        VmError,
    >)
        requires
            old(self).fetching(),
            old(self).stack@.len() <= STACK_LIMIT,
            proto@ == old(self).model().frame().proto,
            is_comparison(code),
        ensures
            final(self).model().wf(),
            outcome(old(self).model(), final(self).model(), r, old(self).model().step(code)),
    {
        match code {
            ByteCode::Equal(a, b, r) => {
                let x = self.get_stack(a as usize);
                let y = self.get_stack(b as usize);
                self.compared(x, y, Relation::Equal, r)
            },
            ByteCode::EqualConst(a, b, r) => {
                let x = self.get_stack(a as usize);
                let y = self.konst(proto, b as usize);
                self.compared(x, y, Relation::Equal, r)
            },
            ByteCode::EqualInt(a, i, r) => {
                let x = self.get_stack(a as usize);
                self.compared(x, Some(Value::Integer(i as i64)), Relation::Equal, r)
            },
            ByteCode::NotEq(a, b, r) => {
                let x = self.get_stack(a as usize);
                let y = self.get_stack(b as usize);
                self.compared(x, y, Relation::NotEq, r)
            },
            ByteCode::NotEqConst(a, b, r) => {
                let x = self.get_stack(a as usize);
                let y = self.konst(proto, b as usize);
                self.compared(x, y, Relation::NotEq, r)
            },
            ByteCode::NotEqInt(a, i, r) => {
                let x = self.get_stack(a as usize);
                self.compared(x, Some(Value::Integer(i as i64)), Relation::NotEq, r)
            },
            ByteCode::LesEq(a, b, r) => {
                let x = self.get_stack(a as usize);
                let y = self.get_stack(b as usize);
                self.compared(x, y, Relation::LesEq, r)
            },
            ByteCode::LesEqConst(a, b, r) => {
                let x = self.get_stack(a as usize);
                let y = self.konst(proto, b as usize);
                self.compared(x, y, Relation::LesEq, r)
            },
            ByteCode::LesEqInt(a, i, r) => {
                let x = self.get_stack(a as usize);
                self.compared(x, Some(Value::Integer(i as i64)), Relation::LesEq, r)
            },
            ByteCode::GreEq(a, b, r) => {
                let x = self.get_stack(a as usize);
                let y = self.get_stack(b as usize);
                self.compared(x, y, Relation::GreEq, r)
            },
            ByteCode::GreEqConst(a, b, r) => {
                let x = self.get_stack(a as usize);
                let y = self.konst(proto, b as usize);
                self.compared(x, y, Relation::GreEq, r)
            },
            ByteCode::GreEqInt(a, i, r) => {
                let x = self.get_stack(a as usize);
                self.compared(x, Some(Value::Integer(i as i64)), Relation::GreEq, r)
            },
            ByteCode::Less(a, b, r) => {
                let x = self.get_stack(a as usize);
                let y = self.get_stack(b as usize);
                self.compared(x, y, Relation::Less, r)
            },
            ByteCode::LessConst(a, b, r) => {
                let x = self.get_stack(a as usize);
                let y = self.konst(proto, b as usize);
                self.compared(x, y, Relation::Less, r)
            },
            ByteCode::LessInt(a, i, r) => {
                let x = self.get_stack(a as usize);
                self.compared(x, Some(Value::Integer(i as i64)), Relation::Less, r)
            },
            ByteCode::Greater(a, b, r) => {
                let x = self.get_stack(a as usize);
                let y = self.get_stack(b as usize);
                self.compared(x, y, Relation::Greater, r)
            },
            ByteCode::GreaterConst(a, b, r) => {
                let x = self.get_stack(a as usize);
                let y = self.konst(proto, b as usize);
                self.compared(x, y, Relation::Greater, r)
            },
            ByteCode::GreaterInt(a, i, r) => {
                let x = self.get_stack(a as usize);
                self.compared(x, Some(Value::Integer(i as i64)), Relation::Greater, r)
            },
            _ => unreached(),
        }
    }

    /// What of a link has to hold at the base of the call it belongs to.
    spec fn link_ok(link: Link, base: usize) -> bool {
        match link {
            Link::Entry => base == 1,
            Link::Call { saved, func, want } => saved >= 1 && base == saved + func + 1,
            Link::CallSet { saved, func, dst } => saved >= 1 && base == saved + func + 1,
        }
    }

    /// Fills the parameters, keeps the arguments beyond them, and adds the
    /// frame of a call.
    fn enter(&mut self, proto: Rc<FuncProto>, narg: usize, link: Link)
        requires
            old(self).base <= old(self).stack@.len(),
            old(self).base <= STACK_LIMIT + 256,
            old(self).stack@.len() <= STACK_LIMIT,
            narg <= STACK_LIMIT,
            old(self).model().entered((*proto)@, narg as int, link) is Ok,
        ensures
            Ok::<Machine, VmError>(final(self).model()) == old(self).model().entered(
                (*proto)@,
                narg as int,
                link,
            ),
            final(self).base == old(self).base,
            final(self).pending == old(self).pending,
            final(self).base <= final(self).stack@.len(),
            final(self).frames@.len() == old(self).frames@.len() + 1,
            forall|k: int|
                0 <= k < old(self).frames@.len() ==> final(self).frames@[k] == old(self).frames@[k],
            final(self).frames@.last().link == link,
            final(self).frames@.last().varargs@.len() <= STACK_LIMIT,
    {
        let nparam = proto.nparam;
        if narg < nparam {
            fill(&mut self.stack, self.base + narg, nparam - narg);
        }
        let ghost filled = self.stack@;
        assert(models(filled).len() == filled.len());
        assert(models(old(self).stack@).len() == old(self).stack@.len());
        let varargs = if proto.has_varargs {
            let rest = self.stack.split_off(self.base + nparam);
            assert(models(self.stack@) =~= models(filled).subrange(0, self.base + nparam));
            assert(models(rest@) =~= models(filled).subrange(
                self.base + nparam,
                filled.len() as int,
            ));
            rest
        } else {
            let none: Vec<Value> = Vec::new();
            assert(models(none@) =~= Seq::<Val>::empty());
            none
        };
        self.frames.push(Frame { proto, pc: 0, varargs, link });
        proof {
            let a = self.model();
            let b = old(self).model().entered((*proto)@, narg as int, link)->Ok_0;
            assert(a.frames =~= b.frames);
        }
    }

    /// A link made by the call in register `func` of this state.
    spec fn link_here(self, link: Link, func: u8) -> bool {
        match link {
            Link::Entry => false,
            Link::Call { saved, func: f, want } => saved == self.base && f == func,
            Link::CallSet { saved, func: f, dst } => saved == self.base && f == func,
        }
    }

    /// Calls a native routine: the stack is cut to its arguments, and the
    /// host is asked to run it.
    fn call_native(&mut self, id: usize, func: u8, narg: u8, link: Link) -> (r: Action)
        requires
            old(self).fetching(),
            old(self).stack@.len() <= STACK_LIMIT,
            old(self).link_here(link, func),
            old(self).model().reg(func as int) == Some(Val::Native(id)),
        ensures
            final(self).model().wf(),
            old(self).model().called(func, narg, link) == Ok::<(Machine, Action), VmError>(
                (final(self).model(), r),
            ),
    {
        proof {
            reveal(Machine::called);
        }
        assert(models(self.stack@).len() == self.stack@.len());
        let base: usize = self.base + func as usize + 1;
        let n: usize = if narg == MULTRET {
            self.stack.len() - base
        } else {
            narg as usize
        };
        self.advance();
        if base + n <= self.stack.len() {
            self.stack.truncate(base + n);
            assert(models(self.stack@) =~= models(old(self).stack@).subrange(0, base + n));
        }
        self.base = base;
        self.pending = Pending::Native(link);
        proof {
            let a = self.model();
            let b = old(self).model();
            assert(a.stack.len() == self.stack@.len());
            assert forall|k: int| 0 <= k < a.frames.len() implies a.link_fits(k) by {
                assert(b.link_fits(k));
            }
        }
        Action::CallNative(id)
    }

    /// Calls a compiled function.
    fn call_bytecode(&mut self, proto: Rc<FuncProto>, func: u8, narg: u8, link: Link) -> (r:
        Result<Action, VmError>)
        requires
            old(self).fetching(),
            old(self).stack@.len() <= STACK_LIMIT,
            old(self).link_here(link, func),
            old(self).model().reg(func as int) == Some(Val::Function((*proto)@)),
        ensures
            final(self).model().wf(),
            outcome(
                old(self).model(),
                final(self).model(),
                r,
                old(self).model().called(func, narg, link),
            ),
    {
        proof {
            reveal(Machine::called);
        }
        assert(models(self.stack@).len() == self.stack@.len());
        let base: usize = self.base + func as usize + 1;
        let n: usize = if narg == MULTRET {
            self.stack.len() - base
        } else {
            narg as usize
        };
        if proto.nparam > STACK_LIMIT {
            return Err(VmError::StackOverflow);
        }
        if proto.has_varargs && n >= proto.nparam && base + proto.nparam > self.stack.len() {
            return Err(VmError::Malformed);
        }
        self.advance();
        self.base = base;
        let ghost mid = *self;
        assert(mid.model() == (Machine { base: base as nat, ..old(self).model().next() }));
        self.enter(proto, n, link);
        proof {
            let a = self.model();
            let b = old(self).model();
            assert(a.stack.len() == self.stack@.len());
            assert forall|k: int| 0 <= k < a.frames.len() implies a.link_fits(k) by {
                if k < b.frames.len() {
                    assert(b.link_fits(k));
                    assert(self.frames@[k] == mid.frames@[k]);
                }
            }
        }
        Ok(Action::Continue)
    }

    /// Calls what register `func` holds.
    fn call_function(&mut self, func: u8, narg: u8, link: Link) -> (r: Result<Action, VmError>)
        requires
            old(self).fetching(),
            old(self).stack@.len() <= STACK_LIMIT,
            old(self).link_here(link, func),
        ensures
            final(self).model().wf(),
            outcome(
                old(self).model(),
                final(self).model(),
                r,
                old(self).model().called(func, narg, link),
            ),
    {
        match self.get_stack(func as usize) {
            Some(Value::NativeFunction(id)) => Ok(self.call_native(id, func, narg, link)),
            Some(Value::BytecodeFunction(proto)) => self.call_bytecode(proto, func, narg, link),
            _ => {
                proof {
                    reveal(Machine::called);
                }
                Err(VmError::Malformed)
            },
        }
    }

    /// Hands the last `count` values of the stack to where `link` says.
    fn delivered(&mut self, link: Link, count: usize) -> (r: Action)
        requires
            old(self).base + count <= old(self).stack@.len(),
            old(self).base <= STACK_LIMIT + 256,
            Core::link_ok(link, old(self).base),
        ensures
            (final(self).model(), r) == old(self).model().delivered(link, count as int),
            final(self).frames == old(self).frames,
            final(self).pending == old(self).pending,
            final(self).base >= 1,
            final(self).base <= final(self).stack@.len(),
            match link {
                Link::Entry => final(self).base == old(self).base,
                Link::Call { saved, func, want } => final(self).base == saved,
                Link::CallSet { saved, func, dst } => final(self).base == saved,
            },
    {
        let len = self.stack.len();
        assert(models(self.stack@).len() == len);
        match link {
            Link::Entry => Action::Finished(count),
            Link::Call { saved, func, want } => {
                let at: usize = saved + func as usize;
                let _ = take_range(&mut self.stack, at, len - count);
                assert(models(self.stack@).len() == self.stack@.len());
                if want != MULTRET && count < want as usize {
                    fill(&mut self.stack, at + count, want as usize - count);
                }
                assert(models(self.stack@).len() == self.stack@.len());
                self.base = saved;
                Action::Continue
            },
            Link::CallSet { saved, func, dst } => {
                if count == 0 {
                    set_vec(&mut self.stack, saved + dst as usize, Value::Nil);
                } else {
                    let v = self.stack[len - count].clone();
                    self.stack.truncate(len - count);
                    assert(models(self.stack@) =~= models(old(self).stack@).subrange(
                        0,
                        len - count,
                    ));
                    set_vec(&mut self.stack, saved + dst as usize, v);
                }
                assert(models(self.stack@).len() == self.stack@.len());
                self.base = saved;
                Action::Continue
            },
        }
    }

    /// Returns from the running call.
    fn returned(&mut self, iret: u8, nret: u8) -> (r: Result<Action, VmError>)
        requires
            old(self).fetching(),
        ensures
            final(self).model().wf(),
            outcome(
                old(self).model(),
                final(self).model(),
                r,
                old(self).model().returned(iret, nret),
            ),
    {
        proof {
            reveal(Machine::returned);
        }
        let first: usize = self.base + iret as usize;
        let len = self.stack.len();
        assert(models(self.stack@).len() == len);
        if first > len {
            return Err(VmError::Malformed);
        }
        let count: usize = if nret == MULTRET {
            len - first
        } else {
            nret as usize
        };
        if count > len - first {
            return Err(VmError::Malformed);
        }
        proof {
            let b = old(self).model();
            assert(b.link_fits(b.frames.len() - 1));
        }
        self.stack.truncate(first + count);
        assert(models(self.stack@) =~= models(old(self).stack@).subrange(0, first + count));
        let frame = match self.frames.pop() {
            Some(f) => f,
            None => {
                return Err(VmError::Malformed);
            },
        };
        proof {
            assert(frame_models(self.frames@) =~= old(self).model().frames.drop_last());
            assert(frame.link == old(self).model().frame().link);
        }
        let action = self.delivered(frame.link, count);
        proof {
            let a = self.model();
            let b = old(self).model();
            assert(a.stack.len() == self.stack@.len());
            assert forall|k: int| 0 <= k < a.frames.len() implies a.link_fits(k) by {
                assert(b.link_fits(k));
                assert(b.link_fits(k + 1));
            }
            if a.frames.len() == 0 {
                assert(b.link_fits(0));
            }
        }
        Ok(action)
    }

    /// Takes the return of a native routine.
    fn native_returned(&mut self, link: Link, n: i32) -> (r: Result<Action, VmError>)
        requires
            old(self).model().wf(),
            old(self).pending == Pending::Native(link),
            old(self).stack@.len() <= STACK_LIMIT,
        ensures
            final(self).model().wf(),
            outcome(
                old(self).model(),
                final(self).model(),
                r,
                old(self).model().transition(EventModel::Returned(n)),
            ),
    {
        assert(models(self.stack@).len() == self.stack@.len());
        if n < 0 || n as usize > self.stack.len() - self.base {
            return Err(VmError::Malformed);
        }
        self.pending = Pending::Nothing;
        let action = self.delivered(link, n as usize);
        proof {
            let a = self.model();
            let b = old(self).model();
            assert(a.stack.len() == self.stack@.len());
            assert forall|k: int| 0 <= k < a.frames.len() implies a.link_fits(k) by {
                assert(b.link_fits(k));
            }
        }
        Ok(action)
    }

    /// Copies the variable arguments to the registers from `dst` on.
    fn varargs_on(&mut self, dst: u8, want: u8) -> (r: Result<Action, VmError>)
        requires
            old(self).fetching(),
        ensures
            final(self).model().wf(),
            outcome(
                old(self).model(),
                final(self).model(),
                r,
                old(self).model().varargs_on(dst, want),
            ),
    {
        proof {
            reveal(Machine::varargs_on);
        }
        let n = self.frames.len();
        proof {
            let b = old(self).model();
            assert(b.link_fits(n - 1));
            assert(b.frame().varargs.len() == self.frames@[n - 1].varargs@.len());
        }
        let given: usize = self.frames[n - 1].varargs.len();
        let ncopy: usize = if want == MULTRET || want as usize > given {
            given
        } else {
            want as usize
        };
        let at: usize = self.base + dst as usize;
        copy_to(&mut self.stack, at, &self.frames[n - 1].varargs, ncopy);
        if want != MULTRET && want as usize > given {
            fill(&mut self.stack, at + ncopy, want as usize - ncopy);
        }
        proof {
            let a = self.model();
            let b = old(self).model();
            assert(a.stack.len() == self.stack@.len());
            assert(b.stack.len() == old(self).stack@.len());
            assert(forall|k: int| 0 <= k < a.frames.len() ==> a.link_fits(k) == b.link_fits(k));
        }
        self.advance();
        Ok(Action::Continue)
    }

    /// Moves on by one event.
    fn execute(&mut self, event: Event) -> (r: Result<Action, VmError>)
        requires
            old(self).model().wf(),
        ensures
            final(self).model().wf(),
            outcome(
                old(self).model(),
                final(self).model(),
                r,
                old(self).model().transition(event@),
            ),
    {
        assert(models(self.stack@).len() == self.stack@.len());
        if self.stack.len() > STACK_LIMIT {
            return Err(VmError::StackOverflow);
        }
        if let Pending::Native(link) = self.pending {
            return match event {
                Event::Returned(n) => self.native_returned(link, n),
                _ => Err(VmError::Unexpected),
            };
        }
        let mut pending = Pending::Nothing;
        core::mem::swap(&mut self.pending, &mut pending);
        proof {
            if old(self).frames@.len() > 0 {
                lemma_wf_kept(self.model(), old(self).model());
            }
        }
        match (pending, event) {
            (Pending::Nothing, Event::Next) => {
                let n = self.frames.len();
                if n == 0 {
                    return Err(VmError::Unexpected);
                }
                let proto = share(&self.frames[n - 1].proto);
                let pc = self.frames[n - 1].pc;
                if pc >= proto.byte_codes.len() {
                    return Err(VmError::Malformed);
                }
                let code = proto.byte_codes[pc];
                self.step(&proto, code)
            },
            (Pending::Store(dst), Event::Float(bits)) => {
                self.set_stack(dst as usize, Value::Float(bits));
                Ok(Action::Continue)
            },
            (Pending::ForStep(dst, limit, step, jmp), Event::Float(bits)) => {
                self.pending = Pending::ForStep(dst, limit, step, jmp);
                self.for_resumed(dst, limit, step, jmp, bits)
            },
            (Pending::ConcatLeft(dst, right), Event::Text(t)) => {
                let c = join(Piece::Text(t), right);
                Ok(self.pieced(dst, c))
            },
            (Pending::ConcatRight(dst, left), Event::Text(t)) => {
                let mut left = left;
                let mut t = t;
                left.append(&mut t);
                Ok(self.pieced(dst, Concat::Done(Value::from_bytes(left))))
            },
            (p, _) => {
                self.pending = p;
                Err(VmError::Unexpected)
            },
        }
    }

    /// The parts of a state on which nothing has run and which knows no
    /// global.
    fn blank() -> (r: Core)
        ensures
            r.model() == (Machine {
                globals: TableModel { array: Seq::empty(), capacity: 0, entries: Seq::empty() },
                stack: Seq::empty(),
                base: 1,
                tables: Seq::empty(),
                frames: Seq::empty(),
                waiting: Waiting::Nothing,
            }),
            r.model().wf(),
    {
        let r = Core {
            globals: Table::new(0, 0),
            stack: Vec::new(),
            base: 1,
            tables: Vec::new(),
            frames: Vec::new(),
            pending: Pending::Nothing,
        };
        assert(r.model().stack =~= Seq::empty());
        assert(r.model().tables =~= Seq::empty());
        assert(r.model().frames =~= Seq::empty());
        r
    }

    /// Sets up a top-level call.
    fn start(&mut self, proto: Rc<FuncProto>) -> (r: Result<(), VmError>)
        requires
            old(self).model().wf(),
        ensures
            final(self).model().wf(),
            match r {
                Ok(_) => old(self).model().started((*proto)@) == Ok::<Machine, VmError>(
                    final(self).model(),
                ),
                Err(e) => old(self).model().started((*proto)@) == Err::<Machine, VmError>(e)
                    && final(self).model() == old(self).model(),
            },
    {
        if proto.nparam > STACK_LIMIT {
            return Err(VmError::StackOverflow);
        }
        self.stack.clear();
        self.stack.push(Value::BytecodeFunction(share(&proto)));
        self.base = 1;
        self.frames.clear();
        self.pending = Pending::Nothing;
        proof {
            assert(self.model().stack =~= seq![Val::Function((*proto)@)]);
            assert(self.model().frames =~= Seq::empty());
        }
        self.enter(proto, 0, Link::Entry);
        proof {
            let a = self.model();
            assert(a.stack.len() == self.stack@.len());
            assert forall|k: int| 0 <= k < a.frames.len() implies a.link_fits(k) by {}
        }
        Ok(())
    }
}

impl View for ExeState {
    type V = Machine;

    closed spec fn view(&self) -> Machine {
        self.core.model()
    }
}

impl ExeState {
    #[verifier::type_invariant]
    spec fn inv(self) -> bool {
        self.core.model().wf()
    }

    /// A machine on which nothing has run: an empty stack, base 1, and the
    /// global `print`.
    pub fn new() -> (r: Self)
        ensures
            r@ == (Machine {
                globals: initial_globals(),
                stack: Seq::empty(),
                base: 1,
                tables: Seq::empty(),
                frames: Seq::empty(),
                waiting: Waiting::Nothing,
            }),
            r@.wf(),
    {
        let mut core = Core::blank();
        let mut name: Vec<u8> = Vec::new();
        name.push(112);
        name.push(114);
        name.push(105);
        name.push(110);
        name.push(116);
        let key = Value::from_bytes(name);
        let _ = core.globals.set(key, Value::NativeFunction(NATIVE_PRINT));
        proof {
            assert(name@ =~= seq![112u8, 114u8, 105u8, 110u8, 116u8]);
            assert(core.model().globals.entries =~= initial_globals().entries);
        }
        ExeState { core }
    }

    /// Sets up a top-level call of `proto`: whatever was on the stack goes,
    /// the function is pushed at slot 0, the base is 1, and the function's
    /// frame is entered with no arguments. Globals and tables stay.
    pub fn start(&mut self, proto: Rc<FuncProto>) -> (r: Result<(), VmError>)
        ensures
            old(self)@.wf(),
            final(self)@.wf(),
            match r {
                Ok(_) => old(self)@.started((*proto)@) == Ok::<Machine, VmError>(final(self)@),
                Err(e) => old(self)@.started((*proto)@) == Err::<Machine, VmError>(e)
                    && final(self)@ == old(self)@,
            },
    {
        proof {
            use_type_invariant(&*self);
        }
        let mut core = Core::blank();
        core::mem::swap(&mut self.core, &mut core);
        let r = core.start(proto);
        core::mem::swap(&mut self.core, &mut core);
        r
    }

    /// Moves the machine on by one event: the next instruction, or the
    /// host's answer to what the machine asked for last.
    pub fn execute(&mut self, event: Event) -> (r: Result<Action, VmError>)
        ensures
            old(self)@.wf(),
            final(self)@.wf(),
            outcome(old(self)@, final(self)@, r, old(self)@.transition(event@)),
    {
        proof {
            use_type_invariant(&*self);
        }
        let mut core = Core::blank();
        core::mem::swap(&mut self.core, &mut core);
        let r = core.execute(event);
        core::mem::swap(&mut self.core, &mut core);
        r
    }

    /// The value in slot `i` of the stack.
    pub closed spec fn slot(&self, i: int) -> Value {
        self.core.stack@[i]
    }

    /// The number of values above the base: for a native routine, the
    /// number of its arguments.
    pub fn get_top(&self) -> (r: usize)
        requires
            !self@.fresh(),
        ensures
            self@.wf(),
            r == self@.top(),
    {
        proof {
            use_type_invariant(self);
        }
        assert(models(self.core.stack@).len() == self.core.stack@.len());
        self.core.stack.len() - self.core.base
    }

    /// The `i`-th value above the base, counted from 1: for a native
    /// routine, its `i`-th argument.
    pub fn get_value(&self, i: usize) -> (r: &Value)
        requires
            1 <= i <= self@.top(),
        ensures
            *r == self.slot(self@.base + i - 1),
            r@ == self@.stack[self@.base + i - 1],
    {
        let len = self.core.stack.len();
        assert(self@.stack.len() == len);
        &self.core.stack[self.core.base + (i - 1)]
    }

    /// The `i`-th value above the base, counted from 1, as a `T`.
    pub fn get<'a, T: From<&'a Value>>(&'a self, i: usize) -> (r: T)
        requires
            1 <= i <= self@.top(),
        ensures
            T::obeys_from_spec() ==> r == T::from_spec(&self.slot(self@.base + i - 1)),
    {
        T::from(self.get_value(i))
    }

    /// The table with handle `h`, if there is one.
    pub fn table(&self, h: usize) -> (r: Option<&Table>)
        ensures
            match r {
                Some(t) => h < self@.tables.len() && t@ == self@.tables[h as int],
                None => h >= self@.tables.len(),
            },
    {
        if h < self.core.tables.len() {
            Some(&self.core.tables[h])
        } else {
            None
        }
    }

    /// What the global of this name is; `nil` if there is none.
    pub fn global(&self, name: &Value) -> (r: Value)
        ensures
            r@ == self@.globals.get(name@),
    {
        self.core.globals.get(name)
    }
}

} // verus!
