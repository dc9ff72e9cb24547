use crate::common::error::{ForthResult, ForthError, ForthErrorKind, ForthPhase, exec_err};
use crate::common::types::{SemanticContract, ContractView};
use crate::vm::state::{Vm, CANARY_VALUE, D_STACK_LIMIT};
use vstd::prelude::*;

verus! {

/// The tag at the start of every context.
pub const JIT_MAGIC: u64 = 0x4B4149464F525448;
/// The layout version native code expects.
pub const JIT_ABI_VERSION: u64 = 1;
/// The size of the context in bytes: 33 eight-byte fields.
pub const JIT_CONTEXT_SIZE: u64 = 264;
/// The capacity of the return-stack shadow.
pub const R_SHADOW_LEN: usize = 256;
/// The capacity of the loop-stack shadow.
pub const L_SHADOW_LEN: usize = 128;
/// The most return-stack values handed to native code.
pub const R_SHADOW_USED: usize = 128;
/// The most loop-stack values handed to native code.
pub const L_SHADOW_USED: usize = 64;
/// The capacity of the write journal, in entries of two words.
pub const JOURNAL_CAP: u64 = 128;
/// The capacity of the path trace native code records.
pub const PATH_TRACE_CAP: u64 = 128;

/// The context a super-instruction runs against, field for field in the
/// order of the native layout. Addresses are given as integers; the
/// caller that makes the native call lays the context out in memory.
#[derive(Clone, Copy, Debug, PartialEq, Eq, Structural)]
pub struct JitContext {
    pub magic: u64,
    pub version: u64,
    pub struct_size: u64,
    pub d_stack_ptr: u64,
    pub d_stack_limit: u64,
    pub d_depth: u64,
    pub r_stack_ptr: u64,
    pub r_depth: u64,
    pub memory_ptr: u64,
    pub memory_limit: u64,
    pub journal_ptr: u64,
    pub journal_len: u64,
    pub journal_cap: u64,
    pub trap_ip: u64,
    pub trap_code: u64,
    pub writes_occurred: u64,
    pub trap_addr: u64,
    pub trap_target: u64,
    pub loop_stack_ptr: u64,
    pub loop_stack_depth: u64,
    pub d_canary: u64,
    pub r_canary: u64,
    pub l_canary: u64,
    pub path_trace_ptr: u64,
    pub path_trace_len: u64,
    pub path_trace_cap: u64,
    pub trap_instruction_idx: u64,
    pub r_stack_limit: u64,
    pub loop_stack_limit: u64,
    pub exception_stack_ptr: u64,
    pub exception_stack_depth: u64,
    pub r_stack_limit_real: u64,
    pub loop_stack_limit_real: u64,
}

/// Where the buffers of a native call live.
#[derive(Clone, Copy, Debug, PartialEq, Eq, Structural)]
pub struct JitBuffers {
    pub d_stack: u64,
    pub r_shadow: u64,
    pub memory: u64,
    pub memory_len: u64,
    pub journal: u64,
    pub l_shadow: u64,
    pub exception_stack: u64,
    pub path_trace: u64,
    pub r_capacity: u64,
    pub l_capacity: u64,
}

/// The context is intact: its tag and size are right and the data stack,
/// return stack and memory addresses are not null.
pub open spec fn ctx_valid(c: JitContext) -> bool {
    &&& c.magic == JIT_MAGIC
    &&& c.struct_size == JIT_CONTEXT_SIZE
    &&& c.d_stack_ptr != 0
    &&& c.r_stack_ptr != 0
    &&& c.memory_ptr != 0
}

/// The error a trap code stands for, by the trap table: 1 stack overflow,
/// 2 stack underflow, 3 a context whose tag, version or size is wrong,
/// 4 stack alignment, 6 division by zero, 7 a memory access out of range,
/// 8 a null context, 9 a jump out of the block, 10 a full journal; and
/// beyond the table 5 a differential failure and 11 a misaligned memory
/// address. Any other code stands for a corrupted state.
pub open spec fn trap_kind(c: JitContext) -> ForthErrorKind {
    if c.trap_code == 1 {
        ForthErrorKind::JitTrapOverflow
    } else if c.trap_code == 2 {
        ForthErrorKind::JitTrapUnderflow
    } else if c.trap_code == 3 {
        ForthErrorKind::JitTrapMagic
    } else if c.trap_code == 4 {
        ForthErrorKind::JitTrapAlignment
    } else if c.trap_code == 5 {
        ForthErrorKind::JitTrapDifferentialFailure
    } else if c.trap_code == 6 {
        ForthErrorKind::JitTrapDivZero
    } else if c.trap_code == 7 {
        ForthErrorKind::JitTrapMemory { addr: c.trap_addr, limit: c.memory_limit }
    } else if c.trap_code == 8 {
        ForthErrorKind::JitTrapContextNull
    } else if c.trap_code == 9 {
        ForthErrorKind::JitTrapJumpOOB { target: c.trap_target }
    } else if c.trap_code == 10 {
        ForthErrorKind::JitTrapJournalOverflow
    } else if c.trap_code == 11 {
        ForthErrorKind::AlignmentError { addr: c.trap_addr as usize, required: 8 }
    } else {
        ForthErrorKind::ExecutionStateCorrupted
    }
}

impl JitContext {
    /// The context for entering a block from machine `vm`, with the
    /// return and loop stacks as far as they fit in their shadows.
    pub fn for_entry(vm: &Vm, b: &JitBuffers) -> (c: JitContext)
        ensures
            ctx_valid(c) <==> (b.d_stack != 0 && b.r_shadow != 0 && b.memory != 0),
            c.magic == JIT_MAGIC,
            c.version == JIT_ABI_VERSION,
            c.struct_size == JIT_CONTEXT_SIZE,
            c.d_stack_ptr == b.d_stack,
            c.d_stack_limit == 1024,
            c.d_depth == vm.d_depth as u64,
            c.r_stack_ptr == b.r_shadow,
            c.r_depth == (if vm.r_stack@.len() < R_SHADOW_USED { vm.r_stack@.len() as int } else { R_SHADOW_USED as int }) as u64,
            c.r_stack_limit == 255,
            c.memory_ptr == b.memory,
            c.memory_limit == b.memory_len,
            c.journal_ptr == b.journal,
            c.journal_len == 0,
            c.journal_cap == JOURNAL_CAP,
            c.trap_ip == vm.ip as u64,
            c.trap_code == 0 && c.writes_occurred == 0 && c.trap_addr == 0 && c.trap_target == 0,
            c.loop_stack_ptr == b.l_shadow,
            c.loop_stack_depth == (if vm.loop_stack@.len() < L_SHADOW_USED { vm.loop_stack@.len() as int } else { L_SHADOW_USED as int }) as u64,
            c.loop_stack_limit == 127,
            c.exception_stack_ptr == b.exception_stack,
            c.exception_stack_depth == vm.exception_stack@.len() as u64,
            c.d_canary == CANARY_VALUE && c.r_canary == CANARY_VALUE && c.l_canary == CANARY_VALUE,
            c.path_trace_ptr == b.path_trace,
            c.path_trace_len == 0,
            c.path_trace_cap == PATH_TRACE_CAP,
            c.trap_instruction_idx == 0,
            c.r_stack_limit_real == b.r_capacity,
            c.loop_stack_limit_real == b.l_capacity,
    {
        let r_len = if vm.r_stack.len() < R_SHADOW_USED { vm.r_stack.len() } else { R_SHADOW_USED };
        let l_len = if vm.loop_stack.len() < L_SHADOW_USED { vm.loop_stack.len() } else { L_SHADOW_USED };
        JitContext {
            magic: JIT_MAGIC,
            version: JIT_ABI_VERSION,
            struct_size: JIT_CONTEXT_SIZE,
            d_stack_ptr: b.d_stack,
            d_stack_limit: 1024,
            d_depth: vm.d_depth as u64,
            r_stack_ptr: b.r_shadow,
            r_depth: r_len as u64,
            memory_ptr: b.memory,
            memory_limit: b.memory_len,
            journal_ptr: b.journal,
            journal_len: 0,
            journal_cap: JOURNAL_CAP,
            trap_ip: vm.ip as u64,
            trap_code: 0,
            writes_occurred: 0,
            trap_addr: 0,
            trap_target: 0,
            loop_stack_ptr: b.l_shadow,
            loop_stack_depth: l_len as u64,
            d_canary: CANARY_VALUE,
            r_canary: CANARY_VALUE,
            l_canary: CANARY_VALUE,
            path_trace_ptr: b.path_trace,
            path_trace_len: 0,
            path_trace_cap: PATH_TRACE_CAP,
            trap_instruction_idx: 0,
            r_stack_limit: 255,
            loop_stack_limit: 127,
            exception_stack_ptr: b.exception_stack,
            exception_stack_depth: vm.exception_stack.len() as u64,
            r_stack_limit_real: b.r_capacity,
            loop_stack_limit_real: b.l_capacity,
        }
    }

    /// Checks that the context is intact (see `ctx_valid`); a damaged one
    /// is `ExecutionStateCorrupted`.
    pub fn validate(&self) -> (r: ForthResult<()>)
        ensures
            r is Ok <==> ctx_valid(*self),
            r matches Err(e) ==> e == exec_err(ForthErrorKind::ExecutionStateCorrupted),
    {
        if self.magic != JIT_MAGIC || self.struct_size != JIT_CONTEXT_SIZE {
            return Err(ForthError::new(ForthErrorKind::ExecutionStateCorrupted, ForthPhase::Execution));
        }
        if self.d_stack_ptr == 0 || self.r_stack_ptr == 0 || self.memory_ptr == 0 {
            return Err(ForthError::new(ForthErrorKind::ExecutionStateCorrupted, ForthPhase::Execution));
        }
        Ok(())
    }
}

/// The return-stack shadow for a native call: the bottom of the return
/// stack (at most `R_SHADOW_USED` values), the canary right after it, and
/// zeros up to `R_SHADOW_LEN`.
pub open spec fn r_shadow_of(r: Seq<i64>) -> Seq<i64> {
    shadow_of(r, R_SHADOW_USED as nat, R_SHADOW_LEN as nat)
}

/// The loop-stack shadow for a native call, built as `r_shadow_of` with
/// `L_SHADOW_USED` and `L_SHADOW_LEN`.
pub open spec fn l_shadow_of(l: Seq<i64>) -> Seq<i64> {
    shadow_of(l, L_SHADOW_USED as nat, L_SHADOW_LEN as nat)
}

/// The first `used` values of `s` (or all of it), the canary, then zeros
/// up to length `len`.
pub open spec fn shadow_of(s: Seq<i64>, used: nat, len: nat) -> Seq<i64> {
    let n = if s.len() < used { s.len() } else { used };
    Seq::new(len, |i: int| if i < n { s[i] } else if i == n { CANARY_VALUE as i64 } else { 0 })
}

/// Whether machine code at address `addr` may be entered: a null or
/// misaligned (not on a 16-byte boundary) entry is refused with
/// `ExecutionStateCorrupted`.
pub fn check_entry(addr: usize) -> (r: ForthResult<()>)
    ensures
        r is Ok <==> (addr != 0 && addr % 16 == 0),
        r is Err ==> r == Err::<(), ForthError>(exec_err(ForthErrorKind::ExecutionStateCorrupted)),
{
    if addr == 0 || addr % 16 != 0 {
        return Err(ForthError::new(ForthErrorKind::ExecutionStateCorrupted, ForthPhase::Execution));
    }
    Ok(())
}

/// Builds a shadow (see `shadow_of`).
fn make_shadow(s: &Vec<i64>, used: usize, len: usize) -> (r: Vec<i64>)
    requires
        used < len,
    ensures
        r@ == shadow_of(s@, used as nat, len as nat),
{
    let n = if s.len() < used { s.len() } else { used };
    let mut r: Vec<i64> = Vec::new();
    let mut i: usize = 0;
    while i < len
        invariant
            i <= len,
            n <= used < len,
            n == (if s@.len() < used { s@.len() as int } else { used as int }),
            r@ == shadow_of(s@, used as nat, len as nat).take(i as int),
        decreases len - i,
    {
        let x = if i < n {
            s[i]
        } else if i == n {
            CANARY_VALUE as i64
        } else {
            0
        };
        r.push(x);
        assert(shadow_of(s@, used as nat, len as nat).take(i + 1) =~= shadow_of(s@, used as nat, len as nat).take(i as int).push(x));
        i = i + 1;
    }
    assert(shadow_of(s@, used as nat, len as nat).take(len as int) =~= shadow_of(s@, used as nat, len as nat));
    r
}

impl Vm {
    /// The return-stack and loop-stack shadows a native call works on.
    pub fn shadow_stacks(&self) -> (r: (Vec<i64>, Vec<i64>))
        ensures
            r.0@ == r_shadow_of(self.r_stack@),
            r.1@ == l_shadow_of(self.loop_stack@),
    {
        (make_shadow(&self.r_stack, R_SHADOW_USED, R_SHADOW_LEN), make_shadow(&self.loop_stack, L_SHADOW_USED, L_SHADOW_LEN))
    }

    /// The error a context's trap code stands for.
    pub fn map_trap(&self, ctx: &JitContext) -> (k: ForthErrorKind)
        ensures
            k == trap_kind(*ctx),
    {
        match ctx.trap_code {
            1 => ForthErrorKind::JitTrapOverflow,
            2 => ForthErrorKind::JitTrapUnderflow,
            3 => ForthErrorKind::JitTrapMagic,
            4 => ForthErrorKind::JitTrapAlignment,
            5 => ForthErrorKind::JitTrapDifferentialFailure,
            6 => ForthErrorKind::JitTrapDivZero,
            7 => ForthErrorKind::JitTrapMemory { addr: ctx.trap_addr, limit: ctx.memory_limit },
            8 => ForthErrorKind::JitTrapContextNull,
            9 => ForthErrorKind::JitTrapJumpOOB { target: ctx.trap_target },
            10 => ForthErrorKind::JitTrapJournalOverflow,
            11 => ForthErrorKind::AlignmentError { addr: ctx.trap_addr as usize, required: 8 },
            _ => ForthErrorKind::ExecutionStateCorrupted,
        }
    }
}

/// What a native call into a block with contract `k`, entered from machine
/// `v`, reports when it left context `c` and shadows `rs` and `ls`: a damaged
/// context, a trap, a write from a block whose contract says it is pure, a
/// damaged shadow canary or data stack canary, a data stack depth that does
/// not match what the contract takes and puts back, or a data stack deeper
/// than the machine's is an error; otherwise the call is committed.
pub open spec fn jit_result(c: JitContext, k: ContractView, v: Vm, rs: Seq<i64>, ls: Seq<i64>) -> ForthResult<()> {
    if !ctx_valid(c) {
        Err(exec_err(ForthErrorKind::ExecutionStateCorrupted))
    } else if c.trap_code != 0 {
        Err(exec_err(trap_kind(c)))
    } else if k.pure && c.writes_occurred != 0 {
        Err(exec_err(ForthErrorKind::Abort))
    } else if rs[c.r_depth as int] != CANARY_VALUE as i64 || ls[c.loop_stack_depth as int] != CANARY_VALUE as i64 {
        Err(exec_err(ForthErrorKind::ExecutionStateCorrupted))
    } else if !v.canaries_intact() {
        Err(exec_err(ForthErrorKind::ExecutionStateCorrupted))
    } else if c.d_depth + k.pop_d != v.d_depth + k.push_d {
        Err(exec_err(ForthErrorKind::JitTrapDifferentialFailure))
    } else if c.d_depth > D_STACK_LIMIT {
        Err(exec_err(ForthErrorKind::ExecutionStateCorrupted))
    } else {
        Ok(())
    }
}

impl Vm {
    /// Checks what a native call left (see `jit_result`: the context, the
    /// trap code, the contract's purity, the shadow and data stack canaries
    /// and the data stack depth against the contract) and, when it is
    /// sound, commits it:
    /// the data stack depth, address and path trace come from the context,
    /// and the return and loop stacks from their shadows (each only when
    /// its depth is within its limit, 255 and 127). On an error nothing
    /// changes. A data stack deeper than the machine's capacity is refused
    /// as `ExecutionStateCorrupted`.
    pub fn finish_jit_call(
        &mut self,
        ctx: &JitContext,
        contract: &SemanticContract,
        r_shadow: &Vec<i64>,
        l_shadow: &Vec<i64>,
        path_trace: &Vec<u64>,
    ) -> (r: ForthResult<()>)
        requires
            old(self).wf(),
            r_shadow@.len() == R_SHADOW_LEN,
            l_shadow@.len() == L_SHADOW_LEN,
            path_trace@.len() == PATH_TRACE_CAP,
            ctx.r_depth < R_SHADOW_LEN,
            ctx.loop_stack_depth < L_SHADOW_LEN,
            ctx.path_trace_len <= PATH_TRACE_CAP,
        ensures
            final(self).wf(),
            final(self).d_stack == old(self).d_stack,
            r == jit_result(*ctx, contract@, *old(self), r_shadow@, l_shadow@),
            r is Err ==> *final(self) == *old(self),
            r is Ok ==> {
                &&& final(self).d_depth == ctx.d_depth
                &&& final(self).ip == ctx.trap_ip as usize
                &&& final(self).path_trace@ == path_trace@.take(ctx.path_trace_len as int)
                &&& final(self).r_stack@ == if ctx.r_depth <= 255 {
                    r_shadow@.take(ctx.r_depth as int)
                } else {
                    old(self).r_stack@
                }
                &&& final(self).loop_stack@ == if ctx.loop_stack_depth <= 127 {
                    l_shadow@.take(ctx.loop_stack_depth as int)
                } else {
                    old(self).loop_stack@
                }
                &&& final(self).f_stack == old(self).f_stack
                &&& final(self).c_stack == old(self).c_stack
                &&& final(self).exception_stack == old(self).exception_stack
                &&& final(self).nested == old(self).nested
                &&& final(self).in_tr == old(self).in_tr
            },
    {
        if let Err(e) = ctx.validate() {
            return Err(e);
        }
        if ctx.trap_code != 0 {
            return Err(ForthError::new(self.map_trap(ctx), ForthPhase::Execution));
        }
        if contract.pure && ctx.writes_occurred != 0 {
            return Err(ForthError::new(ForthErrorKind::Abort, ForthPhase::Execution));
        }
        let rd = ctx.r_depth;
        let ld = ctx.loop_stack_depth;
        assert(rd < 0x1_0000_0000);
        assert(ld < 0x1_0000_0000);
        let final_r_len = rd as usize;
        let final_l_len = ld as usize;
        if r_shadow[final_r_len] != CANARY_VALUE as i64 || l_shadow[final_l_len] != CANARY_VALUE as i64 {
            return Err(ForthError::new(ForthErrorKind::ExecutionStateCorrupted, ForthPhase::Execution));
        }
        if self.verify_canaries().is_err() {
            return Err(ForthError::new(ForthErrorKind::ExecutionStateCorrupted, ForthPhase::Execution));
        }
        if (ctx.d_depth as u128) + (contract.pop_d as u128) != (self.d_depth as u128) + (contract.push_d as u128) {
            return Err(ForthError::new(ForthErrorKind::JitTrapDifferentialFailure, ForthPhase::Execution));
        }
        if ctx.d_depth > D_STACK_LIMIT as u64 {
            return Err(ForthError::new(ForthErrorKind::ExecutionStateCorrupted, ForthPhase::Execution));
        }
        self.d_depth = ctx.d_depth as usize;
        self.ip = ctx.trap_ip as usize;
        self.path_trace = copy_prefix(path_trace, ctx.path_trace_len as usize);
        if final_r_len <= 255 {
            self.r_stack = copy_prefix(r_shadow, final_r_len);
        }
        if final_l_len <= 127 {
            self.loop_stack = copy_prefix(l_shadow, final_l_len);
        }
        Ok(())
    }
}

/// The first `n` items of `v`.
fn copy_prefix<T: Copy>(v: &Vec<T>, n: usize) -> (r: Vec<T>)
    requires
        n <= v@.len(),
    ensures
        r@ == v@.take(n as int),
{
    let mut r: Vec<T> = Vec::new();
    let mut i: usize = 0;
    while i < n
        invariant
            i <= n <= v@.len(),
            r@ == v@.take(i as int),
        decreases n - i,
    {
        r.push(v[i]);
        assert(v@.take(i + 1) =~= v@.take(i as int).push(v@[i as int]));
        i = i + 1;
    }
    r
}

} // verus!
