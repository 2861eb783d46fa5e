//! What holds of the machine whatever it runs.

use vstd::prelude::*;
use crate::arith::{arith, arith_f, int_arith, wrap, ArithOp, BitOp, Number, RealOp};
use crate::binary64::from_int;
use crate::bytecode::ByteCode;
use crate::concat::{concat, joined, piece_of, ConcatModel, PieceModel};
use crate::error::VmError;
use crate::machine::{
    Action, EventModel, FrameModel, Link, Machine, Relation, UnaryOp, Waiting, STACK_LIMIT,
};
use crate::table::{find_from, TableModel};
use crate::text::decimal;
use crate::value::{values_equal, Proto, Val, Value};

verus! {

/// Whether an instruction enters or leaves a call.
pub open spec fn moves_base(code: ByteCode) -> bool {
    code is Call || code is CallSet || code is Return
}

/// Whether `after` is `m` but for what it holds in its stack, globals and
/// tables, for what it is waiting for, and for the place of the running
/// call's next instruction: the base is the same, and so are the frames.
pub open spec fn same_call(m: Machine, after: Machine) -> bool {
    &&& after.base == m.base
    &&& after.frames == m.frames.update(
        m.frames.len() - 1,
        FrameModel { pc: after.frame().pc, ..m.frame() },
    )
}

/// What the instructions that stay in the running call do to a state
/// with a running call: the call stays the same, the stack still reaches
/// the base, and no native routine is asked for.
spec fn stays(m: Machine, r: Result<(Machine, Action), VmError>) -> bool {
    m.frames.len() > 0 && m.base <= m.stack.len() && !(m.waiting is Native) ==> (r matches Ok(p)
        ==> same_call(m, p.0) && p.0.base <= p.0.stack.len() && !(p.0.waiting is Native))
}

/// A state in the same call as a well-formed state is well-formed, if its
/// stack reaches the base and neither state waits for a native routine.
proof fn lemma_same_call_well_formed(m: Machine, after: Machine)
    requires
        m.wf(),
        m.frames.len() > 0,
        same_call(m, after),
        after.base <= after.stack.len(),
        !(m.waiting is Native),
        !(after.waiting is Native),
    ensures
        after.wf(),
{
    assert forall|k: int| 0 <= k < after.frames.len() implies after.link_fits(k) by {
        assert(m.link_fits(k));
    }
}

proof fn lemma_stored_stays()
    ensures
        forall|m: Machine, dst: u8, v: Val| stays(m, #[trigger] m.stored(dst, v)),
{
    assert forall|m: Machine, dst: u8, v: Val| stays(m, #[trigger] m.stored(dst, v)) by {
        reveal(Machine::stored);
        if m.frames.len() > 0 && m.base <= m.stack.len() && !(m.waiting is Native) && m.stored(dst, v) is Ok {
            let after = m.stored(dst, v)->Ok_0.0;
            assert(after.frames =~= m.frames.update(
                m.frames.len() - 1,
                FrameModel { pc: after.frame().pc, ..m.frame() },
            ));
        }
    }
}

proof fn lemma_jumped_stays()
    ensures
        forall|m: Machine, delta: int| stays(m, #[trigger] m.jumped(delta)),
{
    assert forall|m: Machine, delta: int| stays(m, #[trigger] m.jumped(delta)) by {
        reveal(Machine::jumped);
        if m.frames.len() > 0 && m.base <= m.stack.len() && !(m.waiting is Native) && m.jumped(delta) is Ok {
            let after = m.jumped(delta)->Ok_0.0;
            assert(after.frames =~= m.frames.update(
                m.frames.len() - 1,
                FrameModel { pc: after.frame().pc, ..m.frame() },
            ));
        }
    }
}

proof fn lemma_stored_jumped_stays()
    ensures
        forall|m: Machine, dst: u8, v: Val, delta: int| stays(m, #[trigger] m.stored_jumped(dst, v, delta)),
{
    assert forall|m: Machine, dst: u8, v: Val, delta: int| stays(m, #[trigger] m.stored_jumped(dst, v, delta)) by {
        reveal(Machine::stored_jumped);
        if m.frames.len() > 0 && m.base <= m.stack.len() && !(m.waiting is Native) && m.stored_jumped(dst, v, delta) is Ok {
            let after = m.stored_jumped(dst, v, delta)->Ok_0.0;
            assert(after.frames =~= m.frames.update(
                m.frames.len() - 1,
                FrameModel { pc: after.frame().pc, ..m.frame() },
            ));
        }
    }
}

proof fn lemma_numbered_stays()
    ensures
        forall|m: Machine, dst: u8, n: Result<Number, VmError>| stays(m, #[trigger] m.numbered(dst, n)),
{
    lemma_stored_stays();
    assert forall|m: Machine, dst: u8, n: Result<Number, VmError>| stays(m, #[trigger] m.numbered(dst, n)) by {
        reveal(Machine::numbered);
        if m.frames.len() > 0 && m.base <= m.stack.len() && !(m.waiting is Native) && m.numbered(dst, n) is Ok {
            let after = m.numbered(dst, n)->Ok_0.0;
            assert(after.frames =~= m.frames.update(
                m.frames.len() - 1,
                FrameModel { pc: after.frame().pc, ..m.frame() },
            ));
        }
    }
}

proof fn lemma_arith_on_stays()
    ensures
        forall|m: Machine, dst: u8, a: Option<Val>, b: Option<Val>, op: ArithOp| stays(m, #[trigger] m.arith_on(dst, a, b, op)),
{
    lemma_numbered_stays();
    assert forall|m: Machine, dst: u8, a: Option<Val>, b: Option<Val>, op: ArithOp| stays(m, #[trigger] m.arith_on(dst, a, b, op)) by {
        reveal(Machine::arith_on);
        if m.frames.len() > 0 && m.base <= m.stack.len() && !(m.waiting is Native) && m.arith_on(dst, a, b, op) is Ok {
            let after = m.arith_on(dst, a, b, op)->Ok_0.0;
            assert(after.frames =~= m.frames.update(
                m.frames.len() - 1,
                FrameModel { pc: after.frame().pc, ..m.frame() },
            ));
        }
    }
}

proof fn lemma_real_on_stays()
    ensures
        forall|m: Machine, dst: u8, a: Option<Val>, b: Option<Val>, op: RealOp| stays(m, #[trigger] m.real_on(dst, a, b, op)),
{
    lemma_numbered_stays();
    assert forall|m: Machine, dst: u8, a: Option<Val>, b: Option<Val>, op: RealOp| stays(m, #[trigger] m.real_on(dst, a, b, op)) by {
        reveal(Machine::real_on);
        if m.frames.len() > 0 && m.base <= m.stack.len() && !(m.waiting is Native) && m.real_on(dst, a, b, op) is Ok {
            let after = m.real_on(dst, a, b, op)->Ok_0.0;
            assert(after.frames =~= m.frames.update(
                m.frames.len() - 1,
                FrameModel { pc: after.frame().pc, ..m.frame() },
            ));
        }
    }
}

proof fn lemma_bits_on_stays()
    ensures
        forall|m: Machine, dst: u8, a: Option<Val>, b: Option<Val>, op: BitOp| stays(m, #[trigger] m.bits_on(dst, a, b, op)),
{
    lemma_numbered_stays();
    assert forall|m: Machine, dst: u8, a: Option<Val>, b: Option<Val>, op: BitOp| stays(m, #[trigger] m.bits_on(dst, a, b, op)) by {
        reveal(Machine::bits_on);
        if m.frames.len() > 0 && m.base <= m.stack.len() && !(m.waiting is Native) && m.bits_on(dst, a, b, op) is Ok {
            let after = m.bits_on(dst, a, b, op)->Ok_0.0;
            assert(after.frames =~= m.frames.update(
                m.frames.len() - 1,
                FrameModel { pc: after.frame().pc, ..m.frame() },
            ));
        }
    }
}

proof fn lemma_unary_on_stays()
    ensures
        forall|m: Machine, dst: u8, src: u8, op: UnaryOp| stays(m, #[trigger] m.unary_on(dst, src, op)),
{
    lemma_stored_stays();
    assert forall|m: Machine, dst: u8, src: u8, op: UnaryOp| stays(m, #[trigger] m.unary_on(dst, src, op)) by {
        reveal(Machine::unary_on);
        if m.frames.len() > 0 && m.base <= m.stack.len() && !(m.waiting is Native) && m.unary_on(dst, src, op) is Ok {
            let after = m.unary_on(dst, src, op)->Ok_0.0;
            assert(after.frames =~= m.frames.update(
                m.frames.len() - 1,
                FrameModel { pc: after.frame().pc, ..m.frame() },
            ));
        }
    }
}

proof fn lemma_compared_stays()
    ensures
        forall|m: Machine, a: Option<Val>, b: Option<Val>, rel: Relation, r: bool| stays(m, #[trigger] m.compared(a, b, rel, r)),
{
    lemma_jumped_stays();
    assert forall|m: Machine, a: Option<Val>, b: Option<Val>, rel: Relation, r: bool| stays(m, #[trigger] m.compared(a, b, rel, r)) by {
        reveal(Machine::compared);
        if m.frames.len() > 0 && m.base <= m.stack.len() && !(m.waiting is Native) && m.compared(a, b, rel, r) is Ok {
            let after = m.compared(a, b, rel, r)->Ok_0.0;
            assert(after.frames =~= m.frames.update(
                m.frames.len() - 1,
                FrameModel { pc: after.frame().pc, ..m.frame() },
            ));
        }
    }
}

proof fn lemma_tested_stays()
    ensures
        forall|m: Machine, r: u8, when: bool, delta: int| stays(m, #[trigger] m.tested(r, when, delta)),
{
    lemma_jumped_stays();
    assert forall|m: Machine, r: u8, when: bool, delta: int| stays(m, #[trigger] m.tested(r, when, delta)) by {
        reveal(Machine::tested);
        if m.frames.len() > 0 && m.base <= m.stack.len() && !(m.waiting is Native) && m.tested(r, when, delta) is Ok {
            let after = m.tested(r, when, delta)->Ok_0.0;
            assert(after.frames =~= m.frames.update(
                m.frames.len() - 1,
                FrameModel { pc: after.frame().pc, ..m.frame() },
            ));
        }
    }
}

proof fn lemma_tested_set_stays()
    ensures
        forall|m: Machine, dst: u8, r: u8, when: bool, delta: int| stays(m, #[trigger] m.tested_set(dst, r, when, delta)),
{
    lemma_stored_jumped_stays();
    assert forall|m: Machine, dst: u8, r: u8, when: bool, delta: int| stays(m, #[trigger] m.tested_set(dst, r, when, delta)) by {
        reveal(Machine::tested_set);
        if m.frames.len() > 0 && m.base <= m.stack.len() && !(m.waiting is Native) && m.tested_set(dst, r, when, delta) is Ok {
            let after = m.tested_set(dst, r, when, delta)->Ok_0.0;
            assert(after.frames =~= m.frames.update(
                m.frames.len() - 1,
                FrameModel { pc: after.frame().pc, ..m.frame() },
            ));
        }
    }
}

proof fn lemma_table_get_stays()
    ensures
        forall|m: Machine, dst: u8, t: u8, key: Option<Val>| stays(m, #[trigger] m.table_get(dst, t, key)),
{
    lemma_stored_stays();
    assert forall|m: Machine, dst: u8, t: u8, key: Option<Val>| stays(m, #[trigger] m.table_get(dst, t, key)) by {
        reveal(Machine::table_get);
        if m.frames.len() > 0 && m.base <= m.stack.len() && !(m.waiting is Native) && m.table_get(dst, t, key) is Ok {
            let after = m.table_get(dst, t, key)->Ok_0.0;
            assert(after.frames =~= m.frames.update(
                m.frames.len() - 1,
                FrameModel { pc: after.frame().pc, ..m.frame() },
            ));
        }
    }
}

proof fn lemma_table_set_stays()
    ensures
        forall|m: Machine, t: u8, key: Option<Val>, value: Option<Val>| stays(m, #[trigger] m.table_set(t, key, value)),
{
    assert forall|m: Machine, t: u8, key: Option<Val>, value: Option<Val>| stays(m, #[trigger] m.table_set(t, key, value)) by {
        reveal(Machine::table_set);
        if m.frames.len() > 0 && m.base <= m.stack.len() && !(m.waiting is Native) && m.table_set(t, key, value) is Ok {
            let after = m.table_set(t, key, value)->Ok_0.0;
            assert(after.frames =~= m.frames.update(
                m.frames.len() - 1,
                FrameModel { pc: after.frame().pc, ..m.frame() },
            ));
        }
    }
}

proof fn lemma_list_set_stays()
    ensures
        forall|m: Machine, t: u8, n: u8| stays(m, #[trigger] m.list_set(t, n)),
{
    assert forall|m: Machine, t: u8, n: u8| stays(m, #[trigger] m.list_set(t, n)) by {
        reveal(Machine::list_set);
        if m.frames.len() > 0 && m.base <= m.stack.len() && !(m.waiting is Native) && m.list_set(t, n) is Ok {
            let after = m.list_set(t, n)->Ok_0.0;
            assert(after.frames =~= m.frames.update(
                m.frames.len() - 1,
                FrameModel { pc: after.frame().pc, ..m.frame() },
            ));
        }
    }
}

proof fn lemma_global_get_stays()
    ensures
        forall|m: Machine, dst: u8, name: Option<Val>| stays(m, #[trigger] m.global_get(dst, name)),
{
    lemma_stored_stays();
    assert forall|m: Machine, dst: u8, name: Option<Val>| stays(m, #[trigger] m.global_get(dst, name)) by {
        reveal(Machine::global_get);
        if m.frames.len() > 0 && m.base <= m.stack.len() && !(m.waiting is Native) && m.global_get(dst, name) is Ok {
            let after = m.global_get(dst, name)->Ok_0.0;
            assert(after.frames =~= m.frames.update(
                m.frames.len() - 1,
                FrameModel { pc: after.frame().pc, ..m.frame() },
            ));
        }
    }
}

proof fn lemma_global_set_stays()
    ensures
        forall|m: Machine, name: Option<Val>, value: Option<Val>| stays(m, #[trigger] m.global_set(name, value)),
{
    assert forall|m: Machine, name: Option<Val>, value: Option<Val>| stays(m, #[trigger] m.global_set(name, value)) by {
        reveal(Machine::global_set);
        if m.frames.len() > 0 && m.base <= m.stack.len() && !(m.waiting is Native) && m.global_set(name, value) is Ok {
            let after = m.global_set(name, value)->Ok_0.0;
            assert(after.frames =~= m.frames.update(
                m.frames.len() - 1,
                FrameModel { pc: after.frame().pc, ..m.frame() },
            ));
        }
    }
}

proof fn lemma_concat_on_stays()
    ensures
        forall|m: Machine, dst: u8, a: Option<Val>, b: Option<Val>| stays(m, #[trigger] m.concat_on(dst, a, b)),
{
    assert forall|m: Machine, dst: u8, a: Option<Val>, b: Option<Val>| stays(m, #[trigger] m.concat_on(dst, a, b)) by {
        reveal(Machine::concat_on);
        if m.frames.len() > 0 && m.base <= m.stack.len() && !(m.waiting is Native) && m.concat_on(dst, a, b) is Ok {
            let after = m.concat_on(dst, a, b)->Ok_0.0;
            assert(after.frames =~= m.frames.update(
                m.frames.len() - 1,
                FrameModel { pc: after.frame().pc, ..m.frame() },
            ));
        }
    }
}

proof fn lemma_for_prepared_stays()
    ensures
        forall|m: Machine, dst: u8, jmp: u16| stays(m, #[trigger] m.for_prepared(dst, jmp)),
{
    assert forall|m: Machine, dst: u8, jmp: u16| stays(m, #[trigger] m.for_prepared(dst, jmp)) by {
        reveal(Machine::for_prepared);
        if m.frames.len() > 0 && m.base <= m.stack.len() && !(m.waiting is Native) && m.for_prepared(dst, jmp) is Ok {
            let after = m.for_prepared(dst, jmp)->Ok_0.0;
            assert(after.frames =~= m.frames.update(
                m.frames.len() - 1,
                FrameModel { pc: after.frame().pc, ..m.frame() },
            ));
        }
    }
}

proof fn lemma_for_looped_stays()
    ensures
        forall|m: Machine, dst: u8, jmp: u16| stays(m, #[trigger] m.for_looped(dst, jmp)),
{
    lemma_stored_jumped_stays();
    assert forall|m: Machine, dst: u8, jmp: u16| stays(m, #[trigger] m.for_looped(dst, jmp)) by {
        reveal(Machine::for_looped);
        if m.frames.len() > 0 && m.base <= m.stack.len() && !(m.waiting is Native) && m.for_looped(dst, jmp) is Ok {
            let after = m.for_looped(dst, jmp)->Ok_0.0;
            assert(after.frames =~= m.frames.update(
                m.frames.len() - 1,
                FrameModel { pc: after.frame().pc, ..m.frame() },
            ));
        }
    }
}

proof fn lemma_varargs_on_stays()
    ensures
        forall|m: Machine, dst: u8, want: u8| stays(m, #[trigger] m.varargs_on(dst, want)),
{
    assert forall|m: Machine, dst: u8, want: u8| stays(m, #[trigger] m.varargs_on(dst, want)) by {
        reveal(Machine::varargs_on);
        if m.frames.len() > 0 && m.base <= m.stack.len() && !(m.waiting is Native) && m.varargs_on(dst, want) is Ok {
            let after = m.varargs_on(dst, want)->Ok_0.0;
            assert(after.frames =~= m.frames.update(
                m.frames.len() - 1,
                FrameModel { pc: after.frame().pc, ..m.frame() },
            ));
        }
    }
}

/// An instruction that is neither a call nor a return stays in the
/// running call: it moves neither the base nor any frame, but for the place
/// of the running call's next instruction. The stack still reaches the
/// base after it.
pub proof fn lemma_step_stays_in_call(m: Machine, code: ByteCode)
    requires
        m.frames.len() > 0,
        m.base <= m.stack.len(),
        m.waiting is Nothing,
        !moves_base(code),
        m.step(code) is Ok,
    ensures
        same_call(m, m.step(code)->Ok_0.0),
        m.step(code)->Ok_0.0.base <= m.step(code)->Ok_0.0.stack.len(),
        !(m.step(code)->Ok_0.0.waiting is Native),
{
    lemma_stored_stays();
    lemma_jumped_stays();
    lemma_stored_jumped_stays();
    lemma_numbered_stays();
    lemma_arith_on_stays();
    lemma_real_on_stays();
    lemma_bits_on_stays();
    lemma_unary_on_stays();
    lemma_compared_stays();
    lemma_tested_stays();
    lemma_tested_set_stays();
    lemma_table_get_stays();
    lemma_table_set_stays();
    lemma_list_set_stays();
    lemma_global_get_stays();
    lemma_global_set_stays();
    lemma_concat_on_stays();
    lemma_for_prepared_stays();
    lemma_for_looped_stays();
    lemma_varargs_on_stays();
    let after = m.step(code)->Ok_0.0;
    match code {
        ByteCode::LoadNil(dst, n) => {
            assert(after.frames =~= m.frames.update(
                m.frames.len() - 1,
                FrameModel { pc: after.frame().pc, ..m.frame() },
            ));
        },
        ByteCode::NewTable(dst, narray, nmap) => {
            let made = Machine {
                tables: m.tables.push(
                    TableModel { array: Seq::empty(), capacity: narray as nat, entries: Seq::empty() },
                ),
                ..m
            };
            assert(stays(made, made.stored(dst, Val::Table(m.tables.len() as usize))));
        },
        _ => {},
    }
}

/// Nor does an answer of the host to a computation or to a request for
/// text leave the running call.
pub proof fn lemma_answer_stays_in_call(m: Machine, event: EventModel)
    requires
        m.frames.len() > 0,
        m.base <= m.stack.len(),
        !(m.waiting is Nothing),
        !(m.waiting is Native),
        m.transition(event) is Ok,
    ensures
        same_call(m, m.transition(event)->Ok_0.0),
        m.transition(event)->Ok_0.0.base <= m.transition(event)->Ok_0.0.stack.len(),
        !(m.transition(event)->Ok_0.0.waiting is Native),
{
    reveal(Machine::stored_jumped);
    let after = m.transition(event)->Ok_0.0;
    assert(after.frames =~= m.frames.update(
        m.frames.len() - 1,
        FrameModel { pc: after.frame().pc, ..m.frame() },
    ));
}

/// A call of a native routine moves the base just above the callable, and
/// the routine's return moves it back to where it was before the call.
pub proof fn lemma_native_call_restores_base(m: Machine, code: ByteCode, id: usize, n: i32)
    requires
        code is Call || code is CallSet,
        m.stack.len() <= usize::MAX,
        m.step(code) is Ok,
        m.step(code)->Ok_0.1 == Action::CallNative(id),
        m.step(code)->Ok_0.0.transition(EventModel::Returned(n)) is Ok,
    ensures
        m.step(code)->Ok_0.0.transition(EventModel::Returned(n))->Ok_0.0.base == m.base,
{
    reveal(Machine::called);
}

/// A call of a compiled function moves the base just above the callable
/// and keeps the base it came from in the link of the new frame; the
/// frames below are those of the caller, which stands behind the call.
pub proof fn lemma_call_keeps_base_in_link(m: Machine, code: ByteCode)
    requires
        code is Call || code is CallSet,
        m.frames.len() > 0,
        m.base <= usize::MAX,
        m.step(code) is Ok,
        m.step(code)->Ok_0.1 == Action::Continue,
    ensures
        ({
            let after = m.step(code)->Ok_0.0;
            &&& after.frames.drop_last() == m.next().frames
            &&& match after.frame().link {
                Link::Entry => false,
                Link::Call { saved, func, want } => saved == m.base && after.base == m.base + func
                    + 1,
                Link::CallSet { saved, func, dst } => saved == m.base && after.base == m.base
                    + func + 1,
            }
        }),
{
    reveal(Machine::called);
    let after = m.step(code)->Ok_0.0;
    assert(after.frames.drop_last() =~= m.next().frames);
}

/// A return ends the running call and moves the base back to the one kept
/// in the link of its frame; the return of the top-level call leaves the
/// base alone.
pub proof fn lemma_return_restores_base(m: Machine, iret: u8, nret: u8)
    requires
        m.frames.len() > 0,
        m.returned(iret, nret) is Ok,
    ensures
        ({
            let after = m.returned(iret, nret)->Ok_0.0;
            &&& after.frames == m.frames.drop_last()
            &&& match m.frame().link {
                Link::Entry => after.base == m.base,
                Link::Call { saved, func, want } => after.base == saved,
                Link::CallSet { saved, func, dst } => after.base == saved,
            }
        }),
{
    reveal(Machine::returned);
}

/// A call leads from a well-formed state to a well-formed state.
proof fn lemma_call_well_formed(m: Machine, func: u8, narg: u8, link: Link)
    requires
        m.wf(),
        m.frames.len() > 0,
        m.waiting is Nothing,
        m.stack.len() <= STACK_LIMIT,
        match link {
            Link::Entry => false,
            Link::Call { saved, func: f, want } => saved == m.base && f == func,
            Link::CallSet { saved, func: f, dst } => saved == m.base && f == func,
        },
        m.called(func, narg, link) is Ok,
    ensures
        m.called(func, narg, link)->Ok_0.0.wf(),
{
    reveal(Machine::called);
    let after = m.called(func, narg, link)->Ok_0.0;
    assert forall|k: int| 0 <= k < after.frames.len() implies after.link_fits(k) by {
        if k < m.frames.len() {
            assert(m.link_fits(k));
        }
    }
}

/// Handing values back leads to a well-formed state, if the link fits the
/// base and the frames below are those of a well-formed state.
proof fn lemma_delivery_well_formed(m: Machine, before: Machine, link: Link, count: int)
    requires
        before.wf(),
        m.frames.len() + 1 == before.frames.len() || (m.frames == before.frames
            && before.waiting == Waiting::Native(link)),
        forall|k: int| 0 <= k < m.frames.len() ==> m.frames[k] == before.frames[k],
        m.frames.len() + 1 == before.frames.len() ==> before.frames.last().link == link
            && !(before.waiting is Native),
        m.base == before.base,
        m.waiting is Nothing,
        0 <= count,
        m.base + count <= m.stack.len(),
    ensures
        m.delivered(link, count).0.wf(),
{
    let after = m.delivered(link, count).0;
    if m.frames.len() + 1 == before.frames.len() {
        assert(before.link_fits(before.frames.len() - 1));
    }
    assert forall|k: int| 0 <= k < after.frames.len() implies after.link_fits(k) by {
        assert(before.link_fits(k));
    }
}

/// Every step leads from a well-formed state to a well-formed state: the
/// base stays at least 1, the stack keeps reaching the base, and the
/// frames keep fitting the bases.
pub proof fn lemma_transition_keeps_well_formed(m: Machine, event: EventModel)
    requires
        m.wf(),
        m.transition(event) is Ok,
    ensures
        m.transition(event)->Ok_0.0.wf(),
{
    let after = m.transition(event)->Ok_0.0;
    match (m.waiting, event) {
        (Waiting::Nothing, EventModel::Next) => {
            let code = m.frame().proto.byte_codes[m.frame().pc as int];
            match code {
                ByteCode::Call(func, narg, want) => {
                    lemma_call_well_formed(
                        m,
                        func,
                        narg,
                        Link::Call { saved: m.base as usize, func, want },
                    );
                },
                ByteCode::CallSet(dst, func, narg) => {
                    lemma_call_well_formed(
                        m,
                        func,
                        narg,
                        Link::CallSet { saved: m.base as usize, func, dst },
                    );
                },
                ByteCode::Return(iret, nret) => {
                    reveal(Machine::returned);
                    let first = m.base + iret;
                    let count = if nret == crate::bytecode::MULTRET {
                        m.stack.len() - first
                    } else {
                        nret as int
                    };
                    let cut = Machine {
                        stack: m.stack.subrange(0, first + count),
                        frames: m.frames.drop_last(),
                        ..m
                    };
                    lemma_delivery_well_formed(cut, m, m.frame().link, count);
                },
                _ => {
                    lemma_step_stays_in_call(m, code);
                    lemma_same_call_well_formed(m, after);
                },
            }
        },
        (Waiting::Native(link), EventModel::Returned(n)) => {
            lemma_delivery_well_formed(
                Machine { waiting: Waiting::Nothing, ..m },
                m,
                link,
                n as int,
            );
        },
        _ => {
            lemma_answer_stays_in_call(m, event);
            lemma_same_call_well_formed(m, after);
        },
    }
}

/// A step leaves every frame that is there before and after it its link.
pub proof fn lemma_links_stay(m: Machine, event: EventModel, k: int)
    requires
        m.wf(),
        m.transition(event) is Ok,
        0 <= k < m.frames.len(),
        k < m.transition(event)->Ok_0.0.frames.len(),
    ensures
        m.transition(event)->Ok_0.0.frames[k].link == m.frames[k].link,
{
    let after = m.transition(event)->Ok_0.0;
    match (m.waiting, event) {
        (Waiting::Nothing, EventModel::Next) => {
            let code = m.frame().proto.byte_codes[m.frame().pc as int];
            match code {
                ByteCode::Call(func, narg, want) => {
                    reveal(Machine::called);
                },
                ByteCode::CallSet(dst, func, narg) => {
                    reveal(Machine::called);
                },
                ByteCode::Return(iret, nret) => {
                    reveal(Machine::returned);
                },
                _ => {
                    lemma_step_stays_in_call(m, code);
                },
            }
        },
        (Waiting::Native(link), EventModel::Returned(n)) => {},
        _ => {
            lemma_answer_stays_in_call(m, event);
        },
    }
}

/// The state that a run of events leads to.
pub open spec fn run(m: Machine, events: Seq<EventModel>) -> Result<Machine, VmError>
    decreases events.len(),
{
    if events.len() == 0 {
        Ok(m)
    } else {
        match m.transition(events[0]) {
            Ok(p) => run(p.0, events.drop_first()),
            Err(e) => Err(e),
        }
    }
}

/// Every run leads from a well-formed state to a well-formed state. So of
/// every state that a machine gets into: the base is at least 1, and the
/// stack reaches the base as soon as anything has run.
pub proof fn lemma_run_well_formed(m: Machine, events: Seq<EventModel>)
    requires
        m.wf(),
        run(m, events) is Ok,
    ensures
        run(m, events)->Ok_0.wf(),
    decreases events.len(),
{
    if events.len() > 0 {
        lemma_transition_keeps_well_formed(m, events[0]);
        lemma_run_well_formed(m.transition(events[0])->Ok_0.0, events.drop_first());
    }
}

/// Whether every state along a run has at least `depth` calls in progress.
pub open spec fn stays_above(m: Machine, events: Seq<EventModel>, depth: int) -> bool
    decreases events.len(),
{
    &&& m.frames.len() >= depth
    &&& events.len() > 0 ==> match m.transition(events[0]) {
        Ok(p) => stays_above(p.0, events.drop_first(), depth),
        Err(e) => true,
    }
}

/// Along a run that never leaves the call at depth `depth`, the states stay
/// well-formed and that call keeps its link.
proof fn lemma_run_keeps_link(m: Machine, events: Seq<EventModel>, depth: int)
    requires
        m.wf(),
        0 < depth <= m.frames.len(),
        stays_above(m, events, depth),
        run(m, events) is Ok,
    ensures
        run(m, events)->Ok_0.wf(),
        run(m, events)->Ok_0.frames.len() >= depth,
        run(m, events)->Ok_0.frames[depth - 1].link == m.frames[depth - 1].link,
    decreases events.len(),
{
    if events.len() > 0 {
        let next = m.transition(events[0])->Ok_0.0;
        assert(stays_above(next, events.drop_first(), depth));
        assert(next.frames.len() >= depth);
        lemma_transition_keeps_well_formed(m, events[0]);
        lemma_links_stay(m, events[0], depth - 1);
        lemma_run_keeps_link(next, events.drop_first(), depth);
    }
}

/// Whatever happens in between, when the machine is back in a call, the
/// base is what it was in that call before: a call moves the base and its
/// return moves it back, however many calls and returns lie between them.
pub proof fn lemma_base_restored(m: Machine, events: Seq<EventModel>)
    requires
        m.wf(),
        m.frames.len() > 0,
        !(m.waiting is Native),
        stays_above(m, events, m.frames.len() as int),
        run(m, events) is Ok,
        run(m, events)->Ok_0.frames.len() == m.frames.len(),
        !(run(m, events)->Ok_0.waiting is Native),
    ensures
        run(m, events)->Ok_0.base == m.base,
{
    let after = run(m, events)->Ok_0;
    let top = m.frames.len() - 1;
    lemma_run_keeps_link(m, events, m.frames.len() as int);
    assert(m.link_fits(top));
    assert(after.link_fits(top));
}

/// Setting up a top-level call leads to a well-formed state, whatever the
/// state before.
pub proof fn lemma_start_well_formed(m: Machine, proto: Proto)
    requires
        m.started(proto) is Ok,
    ensures
        m.started(proto)->Ok_0.wf(),
{
    let after = m.started(proto)->Ok_0;
    assert forall|k: int| 0 <= k < after.frames.len() implies after.link_fits(k) by {}
}

/// In a well-formed state on which something has run, the base is at
/// least 1 and the stack reaches the base.
pub proof fn lemma_stack_reaches_base(m: Machine)
    requires
        m.wf(),
        !m.fresh(),
    ensures
        1 <= m.base <= m.stack.len(),
{
}

/// A register is read only if it lies below the top of the stack. A write
/// to a register can be read back, leaves every other slot as it was, and
/// makes the stack no shorter: it grows exactly as far as the register
/// lies above the top, nil filling the gap.
pub proof fn lemma_register_access(m: Machine, r: int, v: Val, other: int)
    requires
        0 <= r,
        0 <= other,
        other != m.base + r,
    ensures
        m.reg(r) is Some <==> m.base + r < m.stack.len(),
        m.reg(r) is Some ==> m.reg(r) == Some(m.stack[m.base + r]),
        m.write(r, v).reg(r) == Some(v),
        m.write(r, v).stack.len() == if m.base + r < m.stack.len() {
            m.stack.len()
        } else {
            (m.base + r + 1) as nat
        },
        m.write(r, v).base == m.base,
        other < m.stack.len() ==> m.write(r, v).stack[other] == m.stack[other],
        m.stack.len() <= other < m.write(r, v).stack.len() ==> m.write(r, v).stack[other]
            == Val::Nil,
{
}

/// Reading a key that is in neither part of a table gives nil.
pub proof fn lemma_absent_key_reads_nil(t: TableModel, key: Val)
    requires
        key matches Val::Integer(i) ==> !(1 <= i <= t.array.len()),
        forall|k: int| 0 <= k < t.entries.len() ==> !values_equal(#[trigger] t.entries[k].0, key),
    ensures
        t.get(key) == Val::Nil,
{
    lemma_find_misses(t.entries, key, 0);
}

proof fn lemma_find_misses(entries: Seq<(Val, Val)>, key: Val, from: int)
    requires
        0 <= from <= entries.len(),
        forall|k: int| 0 <= k < entries.len() ==> !values_equal(#[trigger] entries[k].0, key),
    ensures
        find_from(entries, key, from) == entries.len(),
    decreases entries.len() - from,
{
    if from < entries.len() {
        lemma_find_misses(entries, key, from + 1);
    }
}

/// A value counts as false exactly if it is `nil` or `false`.
pub proof fn lemma_truthiness(v: Val)
    ensures
        !v.truthy() <==> (v == Val::Nil || v == Val::Boolean(false)),
{
}

/// Adding an integer and taking it away again gives back where one
/// started, however the sum wrapped around.
pub proof fn lemma_add_then_sub(a: i64, b: i64)
    ensures
        int_arith(ArithOp::Add, a, b) == Ok::<i64, VmError>(wrap(a + b)),
        int_arith(ArithOp::Sub, wrap(a + b), b) == Ok::<i64, VmError>(a),
{
}

/// An integer beside a binary64 number is computed with as the binary64
/// number nearest to it: the result is a binary64 number, and it is the
/// result for that number in the integer's place.
pub proof fn lemma_mixed_arithmetic(op: ArithOp, n: i64, m: u64)
    ensures
        arith(op, Val::Integer(n), Val::Float(m)) == arith(op, Val::Float(from_int(n)), Val::Float(m)),
        arith(op, Val::Float(m), Val::Integer(n)) == arith(op, Val::Float(m), Val::Float(from_int(n))),
        arith(op, Val::Integer(n), Val::Float(m)) == Ok::<Number, VmError>(
            Number::Float(op.on_floats(), from_int(n), m),
        ),
{
}

/// The same for division and power, which give a binary64 number even of
/// two integers.
pub proof fn lemma_mixed_real_arithmetic(op: RealOp, n: i64, m: u64, k: i64)
    ensures
        arith_f(op, Val::Integer(n), Val::Float(m)) == arith_f(
            op,
            Val::Float(from_int(n)),
            Val::Float(m),
        ),
        arith_f(op, Val::Float(m), Val::Integer(n)) == arith_f(
            op,
            Val::Float(m),
            Val::Float(from_int(n)),
        ),
        arith_f(op, Val::Integer(n), Val::Integer(k)) == arith_f(
            op,
            Val::Float(from_int(n)),
            Val::Float(from_int(k)),
        ),
{
}

/// Two strings are equal exactly if their bytes are, whichever way each of
/// them is stored.
pub proof fn lemma_strings_equal_by_bytes(a: Value, b: Value)
    requires
        a@ is Str,
        b@ is Str,
    ensures
        values_equal(a@, b@) <==> a@->Str_0 == b@->Str_0,
{
}

/// Concatenating an integer with a value is concatenating its decimal text
/// with that value.
pub proof fn lemma_concat_integer(i: i64, b: Val)
    ensures
        concat(Val::Integer(i), b) == concat(Val::Str(decimal(i as int)), b),
{
}

/// Concatenating a binary64 number with a value asks for the number's
/// text; once the host has written it, the result is that of
/// concatenating the text with the value.
pub proof fn lemma_concat_float(f: u64, b: Val, text: Seq<u8>)
    requires
        concat(Val::Float(f), b) is Ok,
    ensures
        concat(Val::Float(f), b) == Ok::<ConcatModel, VmError>(
            ConcatModel::AskLeft(f, piece_of(b)->Ok_0),
        ),
        Ok::<ConcatModel, VmError>(joined(PieceModel::Text(text), piece_of(b)->Ok_0)) == concat(
            Val::Str(text),
            b,
        ),
{
}

} // verus!
