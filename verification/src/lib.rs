//! Execution core of a register-based bytecode virtual machine for a
//! dynamically typed scripting language of the Lua family.
//!
//! The machine works on a single evaluation stack of tagged values with a
//! movable frame base. It runs one instruction at a time, and what only a
//! host can do (arithmetic on binary64 numbers, writing them as text,
//! native routines) it asks of its host through a [`machine::Action`] and
//! takes back as a [`vm::Event`]. What a step does is written down once,
//! as mathematics, in [`machine::Machine::transition`]; [`vm::ExeState`]
//! is proved to do exactly that.

pub mod binary64;
pub mod text;
pub mod bytecode;
pub mod error;
pub mod value;
pub mod slots;
pub mod table;
pub mod arith;
pub mod concat;
pub mod forloop;
pub mod machine;
pub mod vm;
pub mod laws;
