pub mod runtime;
pub mod abi;
pub mod guard;
pub mod emit;
pub mod x86;
pub mod x86_stack;
