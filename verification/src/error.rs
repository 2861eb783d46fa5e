//! The ways in which running a program fails.

use vstd::prelude::*;

verus! {

/// Why the machine stopped. An error ends the whole chain of calls; the
/// machine is left as it was before the instruction that failed.
#[derive(Clone, Copy, Debug, PartialEq, Eq, Structural)]
pub enum VmError {
    /// An operand of a kind that the operation does not take: arithmetic on
    /// what is no number, a bitwise operation on a number that is no
    /// integer, an order between values of two kinds, concatenation or
    /// length of the wrong kind of value, `nil` as a table key.
    Type,
    /// A `for` loop with step zero, or an integer division or modulo by
    /// zero.
    Range,
    /// The state does not fit the instruction: indexing what is no table,
    /// calling what is no function, or bytecode that breaks the prototype's
    /// promises (a register above the top of the stack, a constant outside
    /// the pool, a jump out of the code).
    Malformed,
    /// The stack has grown beyond what the machine takes.
    StackOverflow,
    /// The host handed in an event that does not answer what the machine is
    /// waiting for.
    Unexpected,
}

} // verus!
