//! The instruction set, its parser and the execution engine.

pub mod arith;
pub mod laws;
pub mod oper;
pub mod text;
pub mod virtual_machine;

pub use oper::Oper;
pub use virtual_machine::{ExecError, Outcome, VirtualMachine};
