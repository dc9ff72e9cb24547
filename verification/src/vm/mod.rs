pub mod bytes;
pub mod memory;
pub mod state;
pub mod stack;
pub mod semantics;
pub mod execution;
pub mod laws;
