//! What the machine is and what one step of it does, as mathematics.
//!
//! A [`Machine`] is the state of an execution: the evaluation stack with
//! its frame base, the globals, the tables, the frames of the calls in
//! progress, and what the machine is waiting for. [`Machine::transition`]
//! says, for every state and every event, what the next state is and what
//! the host is asked to do.

use vstd::prelude::*;
use crate::arith::{
    arith, arith_bit, arith_f, complement, wrap, ArithOp, BitOp, FloatOp, Number, RealOp,
};
use crate::binary64::{negated, order, Order};
use crate::bytecode::{ByteCode, MULTRET};
use crate::concat::{concat, joined, ConcatModel, PieceModel};
use crate::error::VmError;
use crate::forloop::{advance, prepare, within_float, Advance, Prepared};
use crate::slots::{cleared, put, spread, without};
use crate::table::{lookup, store, TableModel};
use crate::value::{values_equal, values_order, Proto, Val};

verus! {

/// The tallest stack that an instruction starts on.
pub const STACK_LIMIT: usize = 1_000_000;

/// The number under which the host's `print` routine is known.
pub const NATIVE_PRINT: usize = 0;

/// Where a call came from, and so where what it returns goes.
#[derive(Clone, Copy, Debug, PartialEq, Eq, Structural)]
pub enum Link {
    /// The top-level call: what it returns is the result of the run.
    Entry,
    /// A `Call`: the caller's base, the register of the callable, and the
    /// number of values wanted.
    Call { saved: usize, func: u8, want: u8 },
    /// A `CallSet`: the caller's base, the register of the callable, and
    /// the register that takes the first value.
    CallSet { saved: usize, func: u8, dst: u8 },
}

/// What the machine asks of its host.
#[derive(Clone, Copy, Debug, PartialEq, Eq, Structural)]
pub enum Action {
    /// Nothing: hand in [`Event::Next`](crate::vm::Event) to go on.
    Continue,
    /// Perform the operation on the two binary64 numbers and hand in the
    /// result.
    Compute(FloatOp, u64, u64),
    /// Write the binary64 number as text and hand in the text.
    Format(u64),
    /// Run the native routine of this number and hand in the count it
    /// returns.
    CallNative(usize),
    /// The run is over: the top-level call has returned this many values,
    /// which are the last on the stack.
    Finished(usize),
}

/// What the host hands in.
pub ghost enum EventModel {
    Next,
    Float(u64),
    Text(Seq<u8>),
    Returned(i32),
}

/// A call in progress.
pub ghost struct FrameModel {
    pub proto: Proto,
    /// The place of the next instruction.
    pub pc: nat,
    /// The arguments beyond the declared parameters.
    pub varargs: Seq<Val>,
    pub link: Link,
}

/// What the machine is waiting for.
pub ghost enum Waiting {
    /// Nothing: the next instruction can run.
    Nothing,
    /// A binary64 number for this register.
    Store(u8),
    /// The next counter of a binary64 loop: its register, limit and step,
    /// and how far back the loop jumps.
    ForStep(u8, u64, u64, u16),
    /// The text of the left operand of a concatenation; kept are the
    /// register of the result and the right operand.
    ConcatLeft(u8, PieceModel),
    /// The text of the right operand of a concatenation; kept are the
    /// register of the result and the left text.
    ConcatRight(u8, Seq<u8>),
    /// The return of a native routine.
    Native(Link),
}

/// The comparisons.
#[derive(Clone, Copy, Debug, PartialEq, Eq, Structural)]
pub enum Relation {
    Equal,
    NotEq,
    LesEq,
    GreEq,
    Less,
    Greater,
}

/// The unary operators.
#[derive(Clone, Copy, Debug, PartialEq, Eq, Structural)]
pub enum UnaryOp {
    Neg,
    Not,
    BitNot,
    Len,
}

/// The state of an execution.
pub ghost struct Machine {
    /// The globals, by name.
    pub globals: TableModel,
    /// The evaluation stack. Register `r` of the running call is the slot
    /// `base + r`.
    pub stack: Seq<Val>,
    /// The slot of register 0; the callable of the running call sits just
    /// below it.
    pub base: nat,
    /// The tables, by handle.
    pub tables: Seq<TableModel>,
    /// The calls in progress, the running one last.
    pub frames: Seq<FrameModel>,
    pub waiting: Waiting,
}

/// Whether a call of the machine did what [`Machine::transition`] says: on
/// success the state and the action are the ones it gives, on failure the
/// error is the one it gives and the state is as it was.
pub open spec fn outcome(
    before: Machine,
    after: Machine,
    r: Result<Action, VmError>,
    expected: Result<(Machine, Action), VmError>,
) -> bool {
    match r {
        Ok(a) => expected == Ok::<(Machine, Action), VmError>((after, a)),
        Err(e) => expected == Err::<(Machine, Action), VmError>(e) && after == before,
    }
}

/// The table of globals that a new machine starts with: `print`.
pub open spec fn initial_globals() -> TableModel {
    TableModel {
        array: Seq::empty(),
        capacity: 0,
        entries: seq![(Val::Str(seq![112u8, 114u8, 105u8, 110u8, 116u8]), Val::Native(NATIVE_PRINT))],
    }
}

/// Whether a relation holds between two values. Values that have no order
/// cannot be compared for it.
pub open spec fn holds(rel: Relation, a: Val, b: Val) -> Result<bool, VmError> {
    match rel {
        Relation::Equal => Ok(values_equal(a, b)),
        Relation::NotEq => Ok(!values_equal(a, b)),
        _ => match values_order(a, b) {
            None => Err(VmError::Type),
            Some(o) => Ok(
                match rel {
                    Relation::LesEq => o == Order::Less || o == Order::Equal,
                    Relation::GreEq => o == Order::Greater || o == Order::Equal,
                    Relation::Less => o == Order::Less,
                    _ => o == Order::Greater,
                },
            ),
        },
    }
}

impl Machine {
    /// The state that nothing has run on yet.
    pub open spec fn fresh(self) -> bool {
        self.stack.len() == 0 && self.frames.len() == 0 && self.waiting is Nothing
    }

    /// Whether the frame at place `k` and its link fit the bases around
    /// it: the top-level call runs at base 1, and every other call runs
    /// just above its callable. The arguments that a frame keeps are no
    /// more than a stack holds.
    pub open spec fn link_fits(self, k: int) -> bool {
        let own = if k + 1 < self.frames.len() {
            match self.frames[k + 1].link {
                Link::Entry => 0,
                Link::Call { saved, func, want } => saved as int,
                Link::CallSet { saved, func, dst } => saved as int,
            }
        } else {
            match self.waiting {
                Waiting::Native(Link::Call { saved, func, want }) => saved as int,
                Waiting::Native(Link::CallSet { saved, func, dst }) => saved as int,
                _ => self.base as int,
            }
        };
        &&& self.frames[k].varargs.len() <= STACK_LIMIT
        &&& match self.frames[k].link {
            Link::Entry => k == 0 && own == 1,
            Link::Call { saved, func, want } => k > 0 && saved >= 1 && own == saved + func + 1,
            Link::CallSet { saved, func, dst } => k > 0 && saved >= 1 && own == saved + func + 1,
        }
    }

    /// What holds of every state: the base is at least 1; the stack
    /// reaches the base, unless nothing has run yet; and the frames fit the
    /// bases.
    pub open spec fn wf(self) -> bool {
        &&& self.base >= 1
        &&& if self.fresh() { self.base == 1 } else { self.base <= self.stack.len() }
        &&& forall|k: int| 0 <= k < self.frames.len() ==> self.link_fits(k)
        &&& match self.waiting {
            Waiting::Native(Link::Call { saved, func, want }) => self.frames.len() > 0 && saved
                >= 1 && self.base == saved + func + 1,
            Waiting::Native(Link::CallSet { saved, func, dst }) => self.frames.len() > 0
                && saved >= 1 && self.base == saved + func + 1,
            Waiting::Native(Link::Entry) => false,
            Waiting::Nothing => true,
            _ => self.frames.len() > 0,
        }
    }

    /// The running call.
    pub open spec fn frame(self) -> FrameModel {
        self.frames.last()
    }

    /// The number of values above the base.
    pub open spec fn top(self) -> int {
        self.stack.len() - self.base
    }

    /// What register `r` holds; nothing is read above the top of the
    /// stack.
    pub open spec fn reg(self, r: int) -> Option<Val> {
        if 0 <= self.base + r < self.stack.len() {
            Some(self.stack[self.base + r])
        } else {
            None
        }
    }

    /// The constant at place `k` of the running call's pool.
    pub open spec fn constant(self, k: int) -> Option<Val> {
        if 0 <= k < self.frame().proto.constants.len() {
            Some(self.frame().proto.constants[k])
        } else {
            None
        }
    }

    /// The state with the running call at instruction `pc`.
    pub open spec fn at_pc(self, pc: int) -> Machine {
        Machine {
            frames: self.frames.update(
                self.frames.len() - 1,
                FrameModel { pc: pc as nat, ..self.frame() },
            ),
            ..self
        }
    }

    /// The state with the running call at its next instruction.
    pub open spec fn next(self) -> Machine {
        self.at_pc(self.frame().pc as int + 1)
    }

    /// The state with `v` written to register `r`; the stack grows if the
    /// register lies above its top.
    pub open spec fn write(self, r: int, v: Val) -> Machine {
        Machine { stack: put(self.stack, self.base + r, v), ..self }
    }

    /// Writes `v` to register `dst` and goes on.
    #[verifier::opaque]
    pub open spec fn stored(self, dst: u8, v: Val) -> Result<(Machine, Action), VmError> {
        Ok((self.write(dst as int, v).next(), Action::Continue))
    }

    /// Where a jump by `delta`, counted from the instruction after this
    /// one, leads.
    pub open spec fn target(self, delta: int) -> Result<int, VmError> {
        let t = self.frame().pc + 1 + delta;
        if 0 <= t <= usize::MAX {
            Ok(t)
        } else {
            Err(VmError::Malformed)
        }
    }

    /// Jumps by `delta`, counted from the instruction after this one.
    #[verifier::opaque]
    pub open spec fn jumped(self, delta: int) -> Result<(Machine, Action), VmError> {
        match self.target(delta) {
            Ok(t) => Ok((self.at_pc(t), Action::Continue)),
            Err(e) => Err(e),
        }
    }

    /// Writes `v` to register `dst` and jumps by `delta`.
    #[verifier::opaque]
    pub open spec fn stored_jumped(self, dst: u8, v: Val, delta: int) -> Result<
        (Machine, Action),
        VmError,
    > {
        match self.target(delta) {
            Ok(t) => Ok((self.write(dst as int, v).at_pc(t), Action::Continue)),
            Err(e) => Err(e),
        }
    }

    /// Takes what a kernel computed to register `dst`: an integer is
    /// written, a binary64 result is asked of the host.
    #[verifier::opaque]
    pub open spec fn numbered(self, dst: u8, n: Result<Number, VmError>) -> Result<
        (Machine, Action),
        VmError,
    > {
        match n {
            Ok(Number::Integer(i)) => self.stored(dst, Val::Integer(i)),
            Ok(Number::Float(op, a, b)) => Ok(
                (Machine { waiting: Waiting::Store(dst), ..self }.next(), Action::Compute(op, a, b)),
            ),
            Err(e) => Err(e),
        }
    }

    /// A binary operator of the first kernel.
    #[verifier::opaque]
    pub open spec fn arith_on(self, dst: u8, a: Option<Val>, b: Option<Val>, op: ArithOp) -> Result<
        (Machine, Action),
        VmError,
    > {
        match (a, b) {
            (Some(x), Some(y)) => self.numbered(dst, arith(op, x, y)),
            _ => Err(VmError::Malformed),
        }
    }

    /// A binary operator of the second kernel.
    #[verifier::opaque]
    pub open spec fn real_on(self, dst: u8, a: Option<Val>, b: Option<Val>, op: RealOp) -> Result<
        (Machine, Action),
        VmError,
    > {
        match (a, b) {
            (Some(x), Some(y)) => self.numbered(dst, arith_f(op, x, y)),
            _ => Err(VmError::Malformed),
        }
    }

    /// A binary operator of the third kernel.
    #[verifier::opaque]
    pub open spec fn bits_on(self, dst: u8, a: Option<Val>, b: Option<Val>, op: BitOp) -> Result<
        (Machine, Action),
        VmError,
    > {
        match (a, b) {
            (Some(x), Some(y)) => self.numbered(dst, arith_bit(op, x, y)),
            _ => Err(VmError::Malformed),
        }
    }

    /// What a unary operator makes of a value.
    pub open spec fn unary(self, op: UnaryOp, v: Val) -> Result<Val, VmError> {
        match op {
            UnaryOp::Neg => match v {
                Val::Integer(i) => Ok(Val::Integer(wrap(-i))),
                Val::Float(f) => Ok(Val::Float(negated(f))),
                _ => Err(VmError::Type),
            },
            UnaryOp::Not => Ok(Val::Boolean(!v.truthy())),
            UnaryOp::BitNot => match v {
                Val::Integer(i) => Ok(Val::Integer(complement(i))),
                _ => Err(VmError::Type),
            },
            UnaryOp::Len => match v {
                Val::Str(s) => Ok(Val::Integer(s.len() as i64)),
                Val::Table(h) => if h < self.tables.len() {
                    Ok(Val::Integer(self.tables[h as int].array.len() as i64))
                } else {
                    Err(VmError::Malformed)
                },
                _ => Err(VmError::Type),
            },
        }
    }

    /// A unary operator.
    #[verifier::opaque]
    pub open spec fn unary_on(self, dst: u8, src: u8, op: UnaryOp) -> Result<
        (Machine, Action),
        VmError,
    > {
        match self.reg(src as int) {
            Some(v) => match self.unary(op, v) {
                Ok(r) => self.stored(dst, r),
                Err(e) => Err(e),
            },
            None => Err(VmError::Malformed),
        }
    }

    /// A comparison: the next instruction is skipped if the relation
    /// holds exactly when `r` says so.
    #[verifier::opaque]
    pub open spec fn compared(self, a: Option<Val>, b: Option<Val>, rel: Relation, r: bool) -> Result<
        (Machine, Action),
        VmError,
    > {
        match (a, b) {
            (Some(x), Some(y)) => match holds(rel, x, y) {
                Ok(h) => if h == r {
                    self.jumped(1)
                } else {
                    Ok((self.next(), Action::Continue))
                },
                Err(e) => Err(e),
            },
            _ => Err(VmError::Malformed),
        }
    }

    /// A conditional jump: taken if the register's truth is `when`.
    #[verifier::opaque]
    pub open spec fn tested(self, r: u8, when: bool, delta: int) -> Result<
        (Machine, Action),
        VmError,
    > {
        match self.reg(r as int) {
            Some(v) => if v.truthy() == when {
                self.jumped(delta)
            } else {
                Ok((self.next(), Action::Continue))
            },
            None => Err(VmError::Malformed),
        }
    }

    /// A conditional jump that, when taken, copies the tested value to
    /// `dst`.
    #[verifier::opaque]
    pub open spec fn tested_set(self, dst: u8, r: u8, when: bool, delta: int) -> Result<
        (Machine, Action),
        VmError,
    > {
        match self.reg(r as int) {
            Some(v) => if v.truthy() == when {
                self.stored_jumped(dst, v, delta)
            } else {
                Ok((self.next(), Action::Continue))
            },
            None => Err(VmError::Malformed),
        }
    }

    /// The handle of the table in register `t`.
    pub open spec fn table_in(self, t: u8) -> Result<usize, VmError> {
        match self.reg(t as int) {
            Some(Val::Table(h)) => if h < self.tables.len() {
                Ok(h)
            } else {
                Err(VmError::Malformed)
            },
            _ => Err(VmError::Malformed),
        }
    }

    /// Reads `key` from the table in register `t` into register `dst`.
    #[verifier::opaque]
    pub open spec fn table_get(self, dst: u8, t: u8, key: Option<Val>) -> Result<
        (Machine, Action),
        VmError,
    > {
        match (self.table_in(t), key) {
            (Ok(h), Some(k)) => self.stored(dst, self.tables[h as int].get(k)),
            _ => Err(VmError::Malformed),
        }
    }

    /// Writes `value` under `key` to the table in register `t`.
    #[verifier::opaque]
    pub open spec fn table_set(self, t: u8, key: Option<Val>, value: Option<Val>) -> Result<
        (Machine, Action),
        VmError,
    > {
        match (self.table_in(t), key, value) {
            (Ok(h), Some(k), Some(v)) => if k is Nil {
                Err(VmError::Type)
            } else {
                Ok(
                    (
                        Machine {
                            tables: self.tables.update(h as int, self.tables[h as int].set(k, v)),
                            ..self
                        }.next(),
                        Action::Continue,
                    ),
                )
            },
            _ => Err(VmError::Malformed),
        }
    }

    /// Moves the `n` values above register `t` into the array part of the
    /// table in register `t`.
    #[verifier::opaque]
    pub open spec fn list_set(self, t: u8, n: u8) -> Result<(Machine, Action), VmError> {
        let begin = self.base + t + 1;
        match self.table_in(t) {
            Ok(h) => if begin + n <= self.stack.len() {
                Ok(
                    (
                        Machine {
                            stack: without(self.stack, begin, begin + n),
                            tables: self.tables.update(
                                h as int,
                                self.tables[h as int].append(self.stack.subrange(begin, begin + n)),
                            ),
                            ..self
                        }.next(),
                        Action::Continue,
                    ),
                )
            } else {
                Err(VmError::Malformed)
            },
            Err(e) => Err(e),
        }
    }

    /// Reads the global named by a constant into register `dst`.
    #[verifier::opaque]
    pub open spec fn global_get(self, dst: u8, name: Option<Val>) -> Result<
        (Machine, Action),
        VmError,
    > {
        match name {
            Some(Val::Str(s)) => self.stored(dst, lookup(self.globals.entries, Val::Str(s))),
            Some(_) => Err(VmError::Type),
            None => Err(VmError::Malformed),
        }
    }

    /// Writes `value` to the global named by a constant.
    #[verifier::opaque]
    pub open spec fn global_set(self, name: Option<Val>, value: Option<Val>) -> Result<
        (Machine, Action),
        VmError,
    > {
        match (name, value) {
            (Some(Val::Str(s)), Some(v)) => Ok(
                (
                    Machine {
                        globals: TableModel {
                            entries: store(self.globals.entries, Val::Str(s), v),
                            ..self.globals
                        },
                        ..self
                    }.next(),
                    Action::Continue,
                ),
            ),
            (Some(_), Some(_)) => Err(VmError::Type),
            _ => Err(VmError::Malformed),
        }
    }

    /// A concatenation into register `dst`.
    #[verifier::opaque]
    pub open spec fn concat_on(self, dst: u8, a: Option<Val>, b: Option<Val>) -> Result<
        (Machine, Action),
        VmError,
    > {
        match (a, b) {
            (Some(x), Some(y)) => match concat(x, y) {
                Ok(c) => Ok(self.next().pieced(dst, c)),
                Err(e) => Err(e),
            },
            _ => Err(VmError::Malformed),
        }
    }

    /// Takes a concatenation as far as it has come: the result is
    /// written, or the host is asked for the text that is missing.
    pub open spec fn pieced(self, dst: u8, c: ConcatModel) -> (Machine, Action) {
        match c {
            ConcatModel::Done(v) => (
                Machine { waiting: Waiting::Nothing, ..self }.write(dst as int, v),
                Action::Continue,
            ),
            ConcatModel::AskLeft(f, p) => (
                Machine { waiting: Waiting::ConcatLeft(dst, p), ..self },
                Action::Format(f),
            ),
            ConcatModel::AskRight(t, g) => (
                Machine { waiting: Waiting::ConcatRight(dst, t), ..self },
                Action::Format(g),
            ),
        }
    }

    /// Prepares the loop whose counter, limit and step are in the
    /// registers from `dst` on, and jumps by `jmp` if it does not run.
    #[verifier::opaque]
    pub open spec fn for_prepared(self, dst: u8, jmp: u16) -> Result<(Machine, Action), VmError> {
        match (self.reg(dst as int), self.reg(dst + 1), self.reg(dst + 2)) {
            (Some(i), Some(l), Some(s)) => match prepare(i, l, s) {
                Ok(p) => {
                    let delta = match p {
                        Prepared::Integer(_, run) => if run { 0int } else { jmp as int },
                        Prepared::Float(_, _, _, run) => if run { 0int } else { jmp as int },
                    };
                    let m = match p {
                        Prepared::Integer(limit, _) => self.write(dst + 1, Val::Integer(limit)),
                        Prepared::Float(first, limit, step, _) => self.write(
                            dst as int,
                            Val::Float(first),
                        ).write(dst + 1, Val::Float(limit)).write(dst + 2, Val::Float(step)),
                    };
                    match self.target(delta) {
                        Ok(t) => Ok((m.at_pc(t), Action::Continue)),
                        Err(e) => Err(e),
                    }
                },
                Err(e) => Err(e),
            },
            _ => Err(VmError::Malformed),
        }
    }

    /// Advances the loop whose counter, limit and step are in the
    /// registers from `dst` on, and jumps back by `jmp` if it goes on.
    #[verifier::opaque]
    pub open spec fn for_looped(self, dst: u8, jmp: u16) -> Result<(Machine, Action), VmError> {
        match (self.reg(dst as int), self.reg(dst + 1), self.reg(dst + 2)) {
            (Some(i), Some(l), Some(s)) => match advance(i, l, s) {
                Ok(Advance::Integer(next, again)) => if again {
                    self.stored_jumped(dst, Val::Integer(next), -(jmp as int))
                } else {
                    Ok((self.next(), Action::Continue))
                },
                Ok(Advance::Float(f, limit, step)) => Ok(
                    (
                        Machine { waiting: Waiting::ForStep(dst, limit, step, jmp), ..self }.next(),
                        Action::Compute(FloatOp::Add, f, step),
                    ),
                ),
                Err(e) => Err(e),
            },
            _ => Err(VmError::Malformed),
        }
    }

    /// Takes the next counter of a binary64 loop from the host. The
    /// running call already stands behind the `ForLoop`.
    pub open spec fn for_resumed(self, dst: u8, limit: u64, step: u64, jmp: u16, next: u64) -> Result<
        (Machine, Action),
        VmError,
    > {
        let m = Machine { waiting: Waiting::Nothing, ..self };
        if within_float(next, limit, order(step, 0) == Order::Greater) {
            m.stored_jumped(dst, Val::Float(next), -(jmp as int) - 1)
        } else {
            Ok((m, Action::Continue))
        }
    }

    /// Makes the stack ready for a call of `proto` with `narg` arguments
    /// above the base, and adds its frame: missing parameters are filled
    /// with nil, and arguments beyond the parameters are taken off the
    /// stack and kept, if the function wants them.
    pub open spec fn entered(self, proto: Proto, narg: int, link: Link) -> Result<Machine, VmError> {
        let filled = if narg < proto.nparam {
            cleared(self.stack, self.base + narg, self.base as int + proto.nparam)
        } else {
            self.stack
        };
        let first = self.base as int + proto.nparam;
        if proto.nparam > STACK_LIMIT {
            Err(VmError::StackOverflow)
        } else if proto.has_varargs && first > filled.len() {
            Err(VmError::Malformed)
        } else {
            Ok(
                Machine {
                    stack: if proto.has_varargs {
                        filled.subrange(0, first)
                    } else {
                        filled
                    },
                    frames: self.frames.push(
                        FrameModel {
                            proto,
                            pc: 0,
                            varargs: if proto.has_varargs {
                                filled.subrange(first, filled.len() as int)
                            } else {
                                Seq::empty()
                            },
                            link,
                        },
                    ),
                    ..self
                },
            )
        }
    }

    /// Calls what register `func` holds with the `narg` values above it,
    /// or with all values above it if `narg` is `MULTRET`. The base moves
    /// just above the callable. A compiled function gets a frame; a native
    /// routine is asked of the host, with exactly its arguments above the
    /// base.
    #[verifier::opaque]
    pub open spec fn called(self, func: u8, narg: u8, link: Link) -> Result<
        (Machine, Action),
        VmError,
    > {
        let base = self.base + func + 1;
        let n = if narg == MULTRET {
            self.stack.len() - base
        } else {
            narg as int
        };
        match self.reg(func as int) {
            Some(Val::Native(id)) => Ok(
                (
                    Machine {
                        stack: if base + n <= self.stack.len() {
                            self.stack.subrange(0, base + n)
                        } else {
                            self.stack
                        },
                        base: base as nat,
                        waiting: Waiting::Native(link),
                        ..self.next()
                    },
                    Action::CallNative(id),
                ),
            ),
            Some(Val::Function(proto)) => match (Machine { base: base as nat, ..self.next() }).entered(
                proto,
                n,
                link,
            ) {
                Ok(m) => Ok((m, Action::Continue)),
                Err(e) => Err(e),
            },
            _ => Err(VmError::Malformed),
        }
    }

    /// Hands the last `count` values of the stack to where `link` says:
    /// the base goes back to what it was before the call; after a `Call`
    /// the values take the place of the callable and what lay above it,
    /// filled up with nil to the number wanted; after a `CallSet` the
    /// first of them, or nil, is written to the register named and the
    /// others are dropped.
    pub open spec fn delivered(self, link: Link, count: int) -> (Machine, Action) {
        let len = self.stack.len() as int;
        match link {
            Link::Entry => (self, Action::Finished(count as usize)),
            Link::Call { saved, func, want } => {
                let at = saved + func;
                let moved = without(self.stack, at, len - count);
                (
                    Machine {
                        stack: if want != MULTRET && count < want {
                            cleared(moved, at + count, at + want)
                        } else {
                            moved
                        },
                        base: saved as nat,
                        ..self
                    },
                    Action::Continue,
                )
            },
            Link::CallSet { saved, func, dst } => (
                Machine {
                    stack: if count == 0 {
                        put(self.stack, saved + dst, Val::Nil)
                    } else {
                        put(self.stack.subrange(0, len - count), saved + dst, self.stack[len - count])
                    },
                    base: saved as nat,
                    ..self
                },
                Action::Continue,
            ),
        }
    }

    /// Returns the `nret` values from register `iret` on, or all values
    /// from there to the top if `nret` is `MULTRET`.
    #[verifier::opaque]
    pub open spec fn returned(self, iret: u8, nret: u8) -> Result<(Machine, Action), VmError> {
        let first = self.base + iret;
        let count = if nret == MULTRET {
            self.stack.len() - first
        } else {
            nret as int
        };
        if count < 0 || first + count > self.stack.len() {
            Err(VmError::Malformed)
        } else {
            Ok(
                Machine {
                    stack: self.stack.subrange(0, first + count),
                    frames: self.frames.drop_last(),
                    ..self
                }.delivered(self.frame().link, count),
            )
        }
    }

    /// Copies the variable arguments to the registers from `dst` on: all
    /// of them if `want` is `MULTRET`, else exactly `want` values, nil
    /// standing in for those that are missing.
    #[verifier::opaque]
    pub open spec fn varargs_on(self, dst: u8, want: u8) -> Result<(Machine, Action), VmError> {
        let given = self.frame().varargs;
        let ncopy = if want == MULTRET || want > given.len() {
            given.len() as int
        } else {
            want as int
        };
        let at = self.base + dst;
        let copied = spread(self.stack, at, given.subrange(0, ncopy));
        Ok(
            (
                Machine {
                    stack: if want != MULTRET && want > given.len() {
                        cleared(copied, at + ncopy, at + want)
                    } else {
                        copied
                    },
                    ..self
                }.next(),
                Action::Continue,
            ),
        )
    }

    /// What one instruction does.
    pub open spec fn step(self, code: ByteCode) -> Result<(Machine, Action), VmError> {
        match code {
            ByteCode::LoadConst(dst, k) => match self.constant(k as int) {
                Some(v) => self.stored(dst, v),
                None => Err(VmError::Malformed),
            },
            ByteCode::LoadNil(dst, n) => Ok(
                (
                    Machine {
                        stack: cleared(self.stack, self.base + dst, self.base + dst + n),
                        ..self
                    }.next(),
                    Action::Continue,
                ),
            ),
            ByteCode::LoadBool(dst, b) => self.stored(dst, Val::Boolean(b)),
            ByteCode::LoadInt(dst, i) => self.stored(dst, Val::Integer(i as i64)),
            ByteCode::Move(dst, src) => match self.reg(src as int) {
                Some(v) => self.stored(dst, v),
                None => Err(VmError::Malformed),
            },
            ByteCode::GetGlobal(dst, name) => self.global_get(dst, self.constant(name as int)),
            ByteCode::SetGlobal(name, src) => self.global_set(
                self.constant(name as int),
                self.reg(src as int),
            ),
            ByteCode::SetGlobalConst(name, k) => self.global_set(
                self.constant(name as int),
                self.constant(k as int),
            ),
            ByteCode::NewTable(dst, narray, nmap) => Machine {
                tables: self.tables.push(
                    TableModel { array: Seq::empty(), capacity: narray as nat, entries: Seq::empty() },
                ),
                ..self
            }.stored(dst, Val::Table(self.tables.len() as usize)),
            ByteCode::SetInt(t, i, v) => self.table_set(
                t,
                Some(Val::Integer(i as i64)),
                self.reg(v as int),
            ),
            ByteCode::SetIntConst(t, i, v) => self.table_set(
                t,
                Some(Val::Integer(i as i64)),
                self.constant(v as int),
            ),
            ByteCode::SetField(t, k, v) => self.table_set(
                t,
                self.constant(k as int),
                self.reg(v as int),
            ),
            ByteCode::SetFieldConst(t, k, v) => self.table_set(
                t,
                self.constant(k as int),
                self.constant(v as int),
            ),
            ByteCode::SetTable(t, k, v) => self.table_set(t, self.reg(k as int), self.reg(v as int)),
            ByteCode::SetTableConst(t, k, v) => self.table_set(
                t,
                self.reg(k as int),
                self.constant(v as int),
            ),
            ByteCode::SetList(t, n) => self.list_set(t, n),
            ByteCode::GetInt(dst, t, k) => self.table_get(dst, t, Some(Val::Integer(k as i64))),
            ByteCode::GetField(dst, t, k) => self.table_get(dst, t, self.constant(k as int)),
            ByteCode::GetTable(dst, t, k) => self.table_get(dst, t, self.reg(k as int)),
            ByteCode::TestAndJump(r, delta) => self.tested(r, true, delta as int),
            ByteCode::TestOrJump(r, delta) => self.tested(r, false, delta as int),
            ByteCode::TestAndSetJump(dst, r, delta) => self.tested_set(dst, r, true, delta as int),
            ByteCode::TestOrSetJump(dst, r, delta) => self.tested_set(dst, r, false, delta as int),
            ByteCode::Jump(delta) => self.jumped(delta as int),
            ByteCode::ForPrepare(dst, jmp) => self.for_prepared(dst, jmp),
            ByteCode::ForLoop(dst, jmp) => self.for_looped(dst, jmp),
            ByteCode::Call(func, narg, want) => self.called(
                func,
                narg,
                Link::Call { saved: self.base as usize, func, want },
            ),
            ByteCode::CallSet(dst, func, narg) => self.called(
                func,
                narg,
                Link::CallSet { saved: self.base as usize, func, dst },
            ),
            ByteCode::Return(iret, nret) => self.returned(iret, nret),
            ByteCode::VarArgs(dst, want) => self.varargs_on(dst, want),
            ByteCode::Neg(dst, src) => self.unary_on(dst, src, UnaryOp::Neg),
            ByteCode::Not(dst, src) => self.unary_on(dst, src, UnaryOp::Not),
            ByteCode::BitNot(dst, src) => self.unary_on(dst, src, UnaryOp::BitNot),
            ByteCode::Len(dst, src) => self.unary_on(dst, src, UnaryOp::Len),
            ByteCode::Add(dst, a, b) => self.arith_on(dst, self.reg(a as int), self.reg(b as int), ArithOp::Add),
            ByteCode::AddConst(dst, a, b) => self.arith_on(dst, self.reg(a as int), self.constant(b as int), ArithOp::Add),
            ByteCode::AddInt(dst, a, i) => self.arith_on(dst, self.reg(a as int), Some(Val::Integer(i as i64)), ArithOp::Add),
            ByteCode::Sub(dst, a, b) => self.arith_on(dst, self.reg(a as int), self.reg(b as int), ArithOp::Sub),
            ByteCode::SubConst(dst, a, b) => self.arith_on(dst, self.reg(a as int), self.constant(b as int), ArithOp::Sub),
            ByteCode::SubInt(dst, a, i) => self.arith_on(dst, self.reg(a as int), Some(Val::Integer(i as i64)), ArithOp::Sub),
            ByteCode::Mul(dst, a, b) => self.arith_on(dst, self.reg(a as int), self.reg(b as int), ArithOp::Mul),
            ByteCode::MulConst(dst, a, b) => self.arith_on(dst, self.reg(a as int), self.constant(b as int), ArithOp::Mul),
            ByteCode::MulInt(dst, a, i) => self.arith_on(dst, self.reg(a as int), Some(Val::Integer(i as i64)), ArithOp::Mul),
            ByteCode::Mod(dst, a, b) => self.arith_on(dst, self.reg(a as int), self.reg(b as int), ArithOp::Mod),
            ByteCode::ModConst(dst, a, b) => self.arith_on(dst, self.reg(a as int), self.constant(b as int), ArithOp::Mod),
            ByteCode::ModInt(dst, a, i) => self.arith_on(dst, self.reg(a as int), Some(Val::Integer(i as i64)), ArithOp::Mod),
            ByteCode::Idiv(dst, a, b) => self.arith_on(dst, self.reg(a as int), self.reg(b as int), ArithOp::Idiv),
            ByteCode::IdivConst(dst, a, b) => self.arith_on(dst, self.reg(a as int), self.constant(b as int), ArithOp::Idiv),
            ByteCode::IdivInt(dst, a, i) => self.arith_on(dst, self.reg(a as int), Some(Val::Integer(i as i64)), ArithOp::Idiv),
            ByteCode::Div(dst, a, b) => self.real_on(dst, self.reg(a as int), self.reg(b as int), RealOp::Div),
            ByteCode::DivConst(dst, a, b) => self.real_on(dst, self.reg(a as int), self.constant(b as int), RealOp::Div),
            ByteCode::DivInt(dst, a, i) => self.real_on(dst, self.reg(a as int), Some(Val::Integer(i as i64)), RealOp::Div),
            ByteCode::Pow(dst, a, b) => self.real_on(dst, self.reg(a as int), self.reg(b as int), RealOp::Pow),
            ByteCode::PowConst(dst, a, b) => self.real_on(dst, self.reg(a as int), self.constant(b as int), RealOp::Pow),
            ByteCode::PowInt(dst, a, i) => self.real_on(dst, self.reg(a as int), Some(Val::Integer(i as i64)), RealOp::Pow),
            ByteCode::BitAnd(dst, a, b) => self.bits_on(dst, self.reg(a as int), self.reg(b as int), BitOp::And),
            ByteCode::BitAndConst(dst, a, b) => self.bits_on(dst, self.reg(a as int), self.constant(b as int), BitOp::And),
            ByteCode::BitAndInt(dst, a, i) => self.bits_on(dst, self.reg(a as int), Some(Val::Integer(i as i64)), BitOp::And),
            ByteCode::BitOr(dst, a, b) => self.bits_on(dst, self.reg(a as int), self.reg(b as int), BitOp::Or),
            ByteCode::BitOrConst(dst, a, b) => self.bits_on(dst, self.reg(a as int), self.constant(b as int), BitOp::Or),
            ByteCode::BitOrInt(dst, a, i) => self.bits_on(dst, self.reg(a as int), Some(Val::Integer(i as i64)), BitOp::Or),
            ByteCode::BitXor(dst, a, b) => self.bits_on(dst, self.reg(a as int), self.reg(b as int), BitOp::Xor),
            ByteCode::BitXorConst(dst, a, b) => self.bits_on(dst, self.reg(a as int), self.constant(b as int), BitOp::Xor),
            ByteCode::BitXorInt(dst, a, i) => self.bits_on(dst, self.reg(a as int), Some(Val::Integer(i as i64)), BitOp::Xor),
            ByteCode::ShiftL(dst, a, b) => self.bits_on(dst, self.reg(a as int), self.reg(b as int), BitOp::ShiftL),
            ByteCode::ShiftLConst(dst, a, b) => self.bits_on(dst, self.reg(a as int), self.constant(b as int), BitOp::ShiftL),
            ByteCode::ShiftLInt(dst, a, i) => self.bits_on(dst, self.reg(a as int), Some(Val::Integer(i as i64)), BitOp::ShiftL),
            ByteCode::ShiftR(dst, a, b) => self.bits_on(dst, self.reg(a as int), self.reg(b as int), BitOp::ShiftR),
            ByteCode::ShiftRConst(dst, a, b) => self.bits_on(dst, self.reg(a as int), self.constant(b as int), BitOp::ShiftR),
            ByteCode::ShiftRInt(dst, a, i) => self.bits_on(dst, self.reg(a as int), Some(Val::Integer(i as i64)), BitOp::ShiftR),
            ByteCode::Equal(a, b, r) => self.compared(self.reg(a as int), self.reg(b as int), Relation::Equal, r),
            ByteCode::EqualConst(a, b, r) => self.compared(self.reg(a as int), self.constant(b as int), Relation::Equal, r),
            ByteCode::EqualInt(a, i, r) => self.compared(self.reg(a as int), Some(Val::Integer(i as i64)), Relation::Equal, r),
            ByteCode::NotEq(a, b, r) => self.compared(self.reg(a as int), self.reg(b as int), Relation::NotEq, r),
            ByteCode::NotEqConst(a, b, r) => self.compared(self.reg(a as int), self.constant(b as int), Relation::NotEq, r),
            ByteCode::NotEqInt(a, i, r) => self.compared(self.reg(a as int), Some(Val::Integer(i as i64)), Relation::NotEq, r),
            ByteCode::LesEq(a, b, r) => self.compared(self.reg(a as int), self.reg(b as int), Relation::LesEq, r),
            ByteCode::LesEqConst(a, b, r) => self.compared(self.reg(a as int), self.constant(b as int), Relation::LesEq, r),
            ByteCode::LesEqInt(a, i, r) => self.compared(self.reg(a as int), Some(Val::Integer(i as i64)), Relation::LesEq, r),
            ByteCode::GreEq(a, b, r) => self.compared(self.reg(a as int), self.reg(b as int), Relation::GreEq, r),
            ByteCode::GreEqConst(a, b, r) => self.compared(self.reg(a as int), self.constant(b as int), Relation::GreEq, r),
            ByteCode::GreEqInt(a, i, r) => self.compared(self.reg(a as int), Some(Val::Integer(i as i64)), Relation::GreEq, r),
            ByteCode::Less(a, b, r) => self.compared(self.reg(a as int), self.reg(b as int), Relation::Less, r),
            ByteCode::LessConst(a, b, r) => self.compared(self.reg(a as int), self.constant(b as int), Relation::Less, r),
            ByteCode::LessInt(a, i, r) => self.compared(self.reg(a as int), Some(Val::Integer(i as i64)), Relation::Less, r),
            ByteCode::Greater(a, b, r) => self.compared(self.reg(a as int), self.reg(b as int), Relation::Greater, r),
            ByteCode::GreaterConst(a, b, r) => self.compared(self.reg(a as int), self.constant(b as int), Relation::Greater, r),
            ByteCode::GreaterInt(a, i, r) => self.compared(self.reg(a as int), Some(Val::Integer(i as i64)), Relation::Greater, r),
            ByteCode::SetFalseSkip(dst) => self.stored_jumped(dst, Val::Boolean(false), 1),
            ByteCode::Concat(dst, a, b) => self.concat_on(dst, self.reg(a as int), self.reg(b as int)),
            ByteCode::ConcatConst(dst, a, b) => self.concat_on(dst, self.reg(a as int), self.constant(b as int)),
            ByteCode::ConcatInt(dst, a, i) => self.concat_on(dst, self.reg(a as int), Some(Val::Integer(i as i64))),
        }
    }

    /// The state after a top-level call of `proto` has been set up: the
    /// function is the only value on the stack, the base is 1, and the
    /// function's frame is the only one.
    pub open spec fn started(self, proto: Proto) -> Result<Machine, VmError> {
        Machine {
            stack: seq![Val::Function(proto)],
            base: 1,
            frames: Seq::empty(),
            waiting: Waiting::Nothing,
            ..self
        }.entered(proto, 0, Link::Entry)
    }

    /// What the machine does on an event: the next state, and what the
    /// host is asked to do.
    ///
    /// The event has to answer what the machine is waiting for. If it is
    /// waiting for nothing, the next instruction of the running call is
    /// fetched and done. A stack taller than `STACK_LIMIT` has overflowed,
    /// and nothing is done on it.
    pub open spec fn transition(self, event: EventModel) -> Result<(Machine, Action), VmError> {
        if self.stack.len() > STACK_LIMIT {
            Err(VmError::StackOverflow)
        } else {
            match (self.waiting, event) {
                (Waiting::Nothing, EventModel::Next) => if self.frames.len() == 0 {
                    Err(VmError::Unexpected)
                } else if self.frame().pc >= self.frame().proto.byte_codes.len() {
                    Err(VmError::Malformed)
                } else {
                    self.step(self.frame().proto.byte_codes[self.frame().pc as int])
                },
                (Waiting::Store(dst), EventModel::Float(bits)) => Ok(
                    (
                        Machine { waiting: Waiting::Nothing, ..self }.write(
                            dst as int,
                            Val::Float(bits),
                        ),
                        Action::Continue,
                    ),
                ),
                (Waiting::ForStep(dst, limit, step, jmp), EventModel::Float(bits)) => self.for_resumed(
                    dst,
                    limit,
                    step,
                    jmp,
                    bits,
                ),
                (Waiting::ConcatLeft(dst, right), EventModel::Text(t)) => Ok(
                    self.pieced(dst, joined(PieceModel::Text(t), right)),
                ),
                (Waiting::ConcatRight(dst, left), EventModel::Text(t)) => Ok(
                    self.pieced(dst, ConcatModel::Done(Val::Str(left + t))),
                ),
                (Waiting::Native(link), EventModel::Returned(n)) => if n < 0 || n > self.top() {
                    Err(VmError::Malformed)
                } else {
                    Ok(Machine { waiting: Waiting::Nothing, ..self }.delivered(link, n as int))
                },
                _ => Err(VmError::Unexpected),
            }
        }
    }
}

} // verus!
