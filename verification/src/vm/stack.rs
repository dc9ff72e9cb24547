use crate::common::error::{ForthResult, ForthError, ForthErrorKind, ForthPhase};
use crate::vm::bytes::{mmap_bytes, mmap_read_i64, mmap_write_i64, le_i64, i64_le_bytes, lemma_le_roundtrip};
use crate::vm::state::{Vm, cell, D_CELLS_OFFSET, D_STACK_LIMIT, D_STACK_MAP_SIZE};
use vstd::prelude::*;

verus! {

/// The most values the return stack and the float stack hold.
pub const R_STACK_LIMIT: usize = 1024;

impl Vm {
    /// Pushes `val` on the data stack; a full stack (1022 values) is a
    /// `StackOverflow` error and changes nothing.
    pub fn d_push(&mut self, val: i64) -> (r: ForthResult<()>)
        requires
            old(self).wf(),
        ensures
            final(self).wf(),
            old(self).d_depth < D_STACK_LIMIT ==> r is Ok && final(self).data() == old(self).data().push(val),
            old(self).d_depth >= D_STACK_LIMIT ==> r == Err::<(), ForthError>(ForthError { kind: ForthErrorKind::StackOverflow, phase: ForthPhase::Execution })
                && final(self).data() == old(self).data(),
            final(self).stack_bytes().subrange(0, D_CELLS_OFFSET as int) == old(self).stack_bytes().subrange(0, D_CELLS_OFFSET as int),
            final(self).stack_bytes().subrange(D_CELLS_OFFSET + 8 * D_STACK_LIMIT, D_STACK_MAP_SIZE as int)
                == old(self).stack_bytes().subrange(D_CELLS_OFFSET + 8 * D_STACK_LIMIT, D_STACK_MAP_SIZE as int),
            final(self).f_stack == old(self).f_stack,
            final(self).r_stack == old(self).r_stack,
            final(self).c_stack == old(self).c_stack,
            final(self).loop_stack == old(self).loop_stack,
            final(self).exception_stack == old(self).exception_stack,
            final(self).path_trace == old(self).path_trace,
            final(self).nested == old(self).nested,
            final(self).ip == old(self).ip,
            final(self).in_tr == old(self).in_tr,
    {
        if self.d_depth >= D_STACK_LIMIT {
            return Err(ForthError::new(ForthErrorKind::StackOverflow, ForthPhase::Execution));
        }
        let ghost before = self.stack_bytes();
        let at = D_CELLS_OFFSET + 8 * self.d_depth;
        mmap_write_i64(&mut self.d_stack, at, val);
        self.d_depth = self.d_depth + 1;
        proof {
            let after = self.stack_bytes();
            lemma_le_roundtrip(val);
            assert forall|i: int| 0 <= i < self.d_depth implies #[trigger] cell(after, i) == old(self).data().push(val)[i] by {
                if i < self.d_depth - 1 {
                    assert(after.subrange(D_CELLS_OFFSET + 8 * i, D_CELLS_OFFSET + 8 * i + 8) =~= before.subrange(D_CELLS_OFFSET + 8 * i, D_CELLS_OFFSET + 8 * i + 8));
                } else {
                    assert(after.subrange(D_CELLS_OFFSET + 8 * i, D_CELLS_OFFSET + 8 * i + 8) =~= i64_le_bytes(val));
                }
            }
            assert(self.data() =~= old(self).data().push(val));
            assert(after.subrange(0, D_CELLS_OFFSET as int) =~= before.subrange(0, D_CELLS_OFFSET as int));
            assert(after.subrange(D_CELLS_OFFSET + 8 * D_STACK_LIMIT, D_STACK_MAP_SIZE as int) =~= before.subrange(D_CELLS_OFFSET + 8 * D_STACK_LIMIT, D_STACK_MAP_SIZE as int));
        }
        Ok(())
    }

    /// Pops the top of the data stack; an empty stack is a `StackUnderflow`
    /// error.
    pub fn d_pop(&mut self) -> (r: ForthResult<i64>)
        requires
            old(self).wf(),
        ensures
            final(self).wf(),
            final(self).d_stack == old(self).d_stack,
            old(self).d_depth > 0 ==> r == Ok::<i64, ForthError>(old(self).data().last()) && final(self).data() == old(self).data().drop_last(),
            old(self).d_depth == 0 ==> r == Err::<i64, ForthError>(ForthError { kind: ForthErrorKind::StackUnderflow, phase: ForthPhase::Execution })
                && final(self).data() == old(self).data(),
            final(self).f_stack == old(self).f_stack,
            final(self).r_stack == old(self).r_stack,
            final(self).c_stack == old(self).c_stack,
            final(self).loop_stack == old(self).loop_stack,
            final(self).exception_stack == old(self).exception_stack,
            final(self).path_trace == old(self).path_trace,
            final(self).nested == old(self).nested,
            final(self).ip == old(self).ip,
            final(self).in_tr == old(self).in_tr,
    {
        if self.d_depth == 0 {
            return Err(ForthError::new(ForthErrorKind::StackUnderflow, ForthPhase::Execution));
        }
        self.d_depth = self.d_depth - 1;
        let v = mmap_read_i64(&self.d_stack, D_CELLS_OFFSET + 8 * self.d_depth);
        assert(self.data() =~= old(self).data().drop_last());
        Ok(v)
    }

    /// Pushes `val` on the return stack; a full stack (1024 values) is a
    /// `ReturnStackOverflow` error and changes nothing.
    pub fn r_push(&mut self, val: i64) -> (r: ForthResult<()>)
        ensures
            *final(self) == (Vm { r_stack: final(self).r_stack, ..*old(self) }),
            old(self).r_stack@.len() < R_STACK_LIMIT ==> r is Ok && final(self).r_stack@ == old(self).r_stack@.push(val),
            old(self).r_stack@.len() >= R_STACK_LIMIT ==> r == Err::<(), ForthError>(ForthError { kind: ForthErrorKind::ReturnStackOverflow, phase: ForthPhase::Execution })
                && final(self).r_stack@ == old(self).r_stack@,
    {
        if self.r_stack.len() >= R_STACK_LIMIT {
            return Err(ForthError::new(ForthErrorKind::ReturnStackOverflow, ForthPhase::Execution));
        }
        self.r_stack.push(val);
        Ok(())
    }

    /// Pops the top of the return stack; an empty stack is a
    /// `ReturnStackUnderflow` error.
    pub fn r_pop(&mut self) -> (r: ForthResult<i64>)
        ensures
            *final(self) == (Vm { r_stack: final(self).r_stack, ..*old(self) }),
            old(self).r_stack@.len() > 0 ==> r == Ok::<i64, ForthError>(old(self).r_stack@.last()) && final(self).r_stack@ == old(self).r_stack@.drop_last(),
            old(self).r_stack@.len() == 0 ==> r == Err::<i64, ForthError>(ForthError { kind: ForthErrorKind::ReturnStackUnderflow, phase: ForthPhase::Execution })
                && final(self).r_stack@ == old(self).r_stack@,
    {
        match self.r_stack.pop() {
            Some(v) => Ok(v),
            None => Err(ForthError::new(ForthErrorKind::ReturnStackUnderflow, ForthPhase::Execution)),
        }
    }

    /// The top of the return stack; an empty stack is a
    /// `ReturnStackUnderflow` error.
    pub fn r_fetch(&mut self) -> (r: ForthResult<i64>)
        ensures
            *final(self) == *old(self),
            old(self).r_stack@.len() > 0 ==> r == Ok::<i64, ForthError>(old(self).r_stack@.last()),
            old(self).r_stack@.len() == 0 ==> r == Err::<i64, ForthError>(ForthError { kind: ForthErrorKind::ReturnStackUnderflow, phase: ForthPhase::Execution }),
    {
        let n = self.r_stack.len();
        if n == 0 {
            return Err(ForthError::new(ForthErrorKind::ReturnStackUnderflow, ForthPhase::Execution));
        }
        Ok(self.r_stack[n - 1])
    }

    /// Pushes a float, given by its bits, on the float stack; a full stack
    /// (1024 values) is a `StackOverflow` error and changes nothing.
    pub fn f_push_bits(&mut self, bits: u64) -> (r: ForthResult<()>)
        ensures
            *final(self) == (Vm { f_stack: final(self).f_stack, ..*old(self) }),
            old(self).f_stack@.len() < R_STACK_LIMIT ==> r is Ok && final(self).f_stack@ == old(self).f_stack@.push(bits),
            old(self).f_stack@.len() >= R_STACK_LIMIT ==> r == Err::<(), ForthError>(ForthError { kind: ForthErrorKind::StackOverflow, phase: ForthPhase::Execution })
                && final(self).f_stack@ == old(self).f_stack@,
    {
        if self.f_stack.len() >= R_STACK_LIMIT {
            return Err(ForthError::new(ForthErrorKind::StackOverflow, ForthPhase::Execution));
        }
        self.f_stack.push(bits);
        Ok(())
    }

    /// Pops the bits of the top float; an empty stack is a
    /// `StackUnderflow` error.
    pub fn f_pop_bits(&mut self) -> (r: ForthResult<u64>)
        ensures
            *final(self) == (Vm { f_stack: final(self).f_stack, ..*old(self) }),
            old(self).f_stack@.len() > 0 ==> r == Ok::<u64, ForthError>(old(self).f_stack@.last()) && final(self).f_stack@ == old(self).f_stack@.drop_last(),
            old(self).f_stack@.len() == 0 ==> r == Err::<u64, ForthError>(ForthError { kind: ForthErrorKind::StackUnderflow, phase: ForthPhase::Execution })
                && final(self).f_stack@ == old(self).f_stack@,
    {
        match self.f_stack.pop() {
            Some(v) => Ok(v),
            None => Err(ForthError::new(ForthErrorKind::StackUnderflow, ForthPhase::Execution)),
        }
    }
}

} // verus!
