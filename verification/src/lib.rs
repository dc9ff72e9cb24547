//! Kaiforth: the verified core of a Forth virtual machine with a trace-driven
//! optimizer and an x86_64 super-instruction emitter.
pub mod common;
pub mod compiler;
pub mod jit;
pub mod optimizer;
pub mod system;
pub mod vm;

use vstd::prelude::*;

verus! {

} // verus!
