use vstd::prelude::*;

verus! {

/// What went wrong.
#[allow(inconsistent_fields)]
#[derive(Debug, Clone, Copy, PartialEq, Eq, Structural)]
pub enum ForthErrorKind {
    StackUnderflow,
    StackOverflow,
    InvalidOpcode,
    UnknownToken,
    WordNotFound,
    DivideByZero,
    MemoryOOB { addr: usize, limit: usize },
    FileError,
    Abort,
    InvalidWord,
    OptimizationFailed,
    ExecutionStateCorrupted,
    Exception,
    ReturnStackUnderflow,
    ReturnStackOverflow,
    // Faults reported by native super-instruction code.
    JitTrapOverflow,
    JitTrapUnderflow,
    JitTrapMemory { addr: u64, limit: u64 },
    JitTrapMagic,
    JitTrapAlignment,
    JitTrapDivZero,
    JitTrapContextNull,
    JitTrapJournalOverflow,
    JitTrapDifferentialFailure,
    JitTrapJumpOOB { target: u64 },
    JumpOutOfBounds { target: usize },
    LoopStackOverflow,
    AlignmentError { addr: usize, required: usize },
}

/// The stage of processing during which an error arose.
#[derive(Debug, Clone, Copy, PartialEq, Eq, Structural)]
pub enum ForthPhase {
    Parsing,
    Compilation,
    Optimization,
    Execution,
    Initialization,
}

/// An error together with the phase it arose in.
#[derive(Debug, Clone, Copy, PartialEq, Eq, Structural)]
pub struct ForthError {
    pub kind: ForthErrorKind,
    pub phase: ForthPhase,
}

impl ForthError {
    /// Builds an error of `kind` raised during `phase`.
    pub fn new(kind: ForthErrorKind, phase: ForthPhase) -> (r: Self)
        ensures
            r.kind == kind,
            r.phase == phase,
    {
        ForthError { kind, phase }
    }
}

/// Shorthand for an error raised while executing code.
pub open spec fn exec_err(kind: ForthErrorKind) -> ForthError {
    ForthError { kind, phase: ForthPhase::Execution }
}

pub type ForthResult<T> = Result<T, ForthError>;

} // verus!
