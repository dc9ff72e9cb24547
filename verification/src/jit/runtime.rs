use std::collections::HashMap;
use crate::common::error::{ForthResult, ForthError, ForthErrorKind, ForthPhase};
use crate::common::types::{Op, SemanticContract};
use crate::jit::emit::{emit_super, emit_spec, block_jumps_fit};
use crate::optimizer::analysis::PatternContext;
use crate::vm::bytes::{map_anon, mmap_bytes, mmap_set};
use vstd::prelude::*;

verus! {

/// A read-only (here: executable) memory map.
#[verifier::external_type_specification]
#[verifier::external_body]
pub struct ExMmap(memmap2::Mmap);

/// The bytes an executable memory map holds.
pub uninterp spec fn exec_bytes(m: memmap2::Mmap) -> Seq<u8>;

/// Calls `MmapMut::make_exec`, which changes the map's protection to read
/// and execute and keeps its contents: on success the executable map holds
/// the bytes `m` held. The I/O error is dropped.
#[verifier::external_body]
fn make_exec(m: memmap2::MmapMut) -> (r: Option<memmap2::Mmap>)
    ensures
        r matches Some(x) ==> exec_bytes(x) == mmap_bytes(m),
{
    m.make_exec().ok()
}

/// The machine a super-instruction is compiled for.
#[derive(Clone, Copy, Debug, PartialEq, Eq, Structural)]
pub struct JitTarget {
    /// Native code can run: the host is x86_64.
    pub x86_64: bool,
    /// The host uses the Windows calling convention.
    pub windows: bool,
}

/// A compiled super-instruction.
///
/// `code` is the executable mapping that holds its machine code; times are
/// whole seconds on a monotonic clock chosen by the caller.
pub struct JitBlock {
    pub code: memmap2::Mmap,
    pub contract: SemanticContract,
    pub original_ops_len: usize,
    pub context: Option<PatternContext>,
    pub is_poisoned: bool,
    pub poison_reason: Option<String>,
    pub poison_count: u32,
    pub last_retry: u64,
}

/// How long a poisoned block waits, in seconds, before it is tried again.
pub const RETRY_AFTER_SECS: u64 = 30;
/// The most instructions a super-instruction may hold.
pub const MAX_BLOCK_OPS: usize = 256;
/// The capacity of the path trace a block records.
pub const MAX_PATH_TRACE: usize = 128;

/// The compiled super-instructions, by the address they start at.
pub struct JitEngine {
    pub blocks: HashMap<usize, JitBlock>,
}

/// The seconds from `since` to `now`, zero if `now` is earlier.
pub open spec fn elapsed(since: u64, now: u64) -> int {
    if now >= since {
        now - since
    } else {
        0
    }
}

/// `b1` is the block map `b0` with the block at `ip` (if there is one)
/// poisoned for `reason` at time `now` and its poisoning counted.
pub open spec fn poisoned(b0: Map<usize, JitBlock>, b1: Map<usize, JitBlock>, ip: usize, reason: String, now: u64) -> bool {
    if b0.contains_key(ip) {
        b1 =~= b0.insert(ip, (JitBlock {
            is_poisoned: true,
            poison_reason: Some(reason),
            poison_count: (b0[ip].poison_count + 1) as u32,
            last_retry: now,
            ..b0[ip]
        }))
    } else {
        b1 =~= b0
    }
}

/// The length of the bytecode a block stands for: the pattern's original
/// instructions when it has one (its compiled instructions may be folded),
/// otherwise the compiled instructions.
pub open spec fn segment_len(ops: Seq<(Op, u64)>, context: Option<PatternContext>) -> nat {
    match context {
        Some(c) => c.original_ops@.len(),
        None => ops.len(),
    }
}

impl JitEngine {
    /// An engine with no blocks.
    pub fn new() -> (r: Self)
        ensures
            r.blocks@ == Map::<usize, JitBlock>::empty(),
    {
        JitEngine { blocks: HashMap::new() }
    }

    /// Marks the block at `ip` (if there is one) poisoned for `reason` at
    /// time `now`, and counts the poisoning.
    pub fn poison_block(&mut self, ip: usize, reason: String, now: u64)
        requires
            old(self).blocks@.contains_key(ip) ==> old(self).blocks@[ip].poison_count < u32::MAX,
        ensures
            poisoned(old(self).blocks@, final(self).blocks@, ip, reason, now),
    {
        broadcast use vstd::std_specs::hash::group_hash_axioms;
        if let Some(mut block) = self.blocks.remove(&ip) {
            block.is_poisoned = true;
            block.poison_reason = Some(reason);
            block.poison_count = block.poison_count + 1;
            block.last_retry = now;
            self.blocks.insert(ip, block);
            assert(self.blocks@ =~= old(self).blocks@.insert(ip, block));
        }
    }

    /// The usable block at `ip` at time `now`: a poisoned block becomes
    /// usable again once more than `RETRY_AFTER_SECS` seconds have passed
    /// since it was poisoned.
    pub fn get_block(&mut self, ip: usize, now: u64) -> (r: Option<&JitBlock>)
        ensures
            ({
                let old_blocks = old(self).blocks@;
                let b = old_blocks[ip];
                let retry = old_blocks.contains_key(ip) && b.is_poisoned && elapsed(b.last_retry, now) > RETRY_AFTER_SECS;
                &&& final(self).blocks@ == if retry {
                    old_blocks.insert(ip, (JitBlock { is_poisoned: false, ..b }))
                } else {
                    old_blocks
                }
                &&& match r {
                    Some(blk) => old_blocks.contains_key(ip) && (!b.is_poisoned || retry) && *blk == final(self).blocks@[ip],
                    None => !old_blocks.contains_key(ip) || (b.is_poisoned && !retry),
                }
            }),
    {
        broadcast use vstd::std_specs::hash::group_hash_axioms;
        if let Some(mut block) = self.blocks.remove(&ip) {
            let waited = if now >= block.last_retry { now - block.last_retry } else { 0 };
            if block.is_poisoned && waited > RETRY_AFTER_SECS {
                block.is_poisoned = false;
            }
            let usable = !block.is_poisoned;
            self.blocks.insert(ip, block);
            assert(self.blocks@ =~= old(self).blocks@.remove(ip).insert(ip, block));
            if usable {
                return self.blocks.get(&ip);
            }
            return None;
        }
        None
    }

    /// Installs `block` as the super-instruction starting at `ip`,
    /// replacing any block there.
    pub fn install(&mut self, ip: usize, block: JitBlock)
        ensures
            final(self).blocks@ == old(self).blocks@.insert(ip, block),
    {
        broadcast use vstd::std_specs::hash::group_hash_axioms;
        self.blocks.insert(ip, block);
    }

    /// Compiles `ops`, the block that starts at address `super_idx`, into
    /// native code and installs it there, poisoned never, at time `now`.
    /// After a clean run the code goes on from the end of the bytecode the
    /// block stands for (`segment_len`), however far its instructions were
    /// folded.
    /// Fails, changing nothing, with `OptimizationFailed` on a host that is
    /// not x86_64, `Abort` for a block longer than `MAX_BLOCK_OPS`, the
    /// error `emit_spec` gives for a block that cannot be compiled, and
    /// `ExecutionStateCorrupted` when no executable map can be made; every
    /// error is of the compilation phase.
    pub fn compile_super(
        &mut self,
        super_idx: usize,
        ops: &[(Op, u64)],
        contract: &SemanticContract,
        context: Option<PatternContext>,
        target: JitTarget,
        now: u64,
    ) -> (r: ForthResult<()>)
        requires
            super_idx + ops@.len() <= usize::MAX,
            super_idx + segment_len(ops@, context) <= usize::MAX,
            ops@.len() <= MAX_BLOCK_OPS ==> block_jumps_fit(ops@),
        ensures
            r is Err ==> final(self).blocks@ == old(self).blocks@,
            forall|k: usize| k != super_idx ==> (#[trigger] final(self).blocks@.contains_key(k) == old(self).blocks@.contains_key(k)
                && (old(self).blocks@.contains_key(k) ==> final(self).blocks@[k] == old(self).blocks@[k])),
            !target.x86_64 ==> r == Err::<(), ForthError>(ForthError { kind: ForthErrorKind::OptimizationFailed, phase: ForthPhase::Compilation }),
            target.x86_64 && ops@.len() > MAX_BLOCK_OPS ==> r == Err::<(), ForthError>(ForthError { kind: ForthErrorKind::Abort, phase: ForthPhase::Compilation }),
            target.x86_64 && ops@.len() <= MAX_BLOCK_OPS ==> match emit_spec(super_idx, ops@, target.windows, (super_idx + segment_len(ops@, context)) as u64) {
                Err(k) => r == Err::<(), ForthError>(ForthError { kind: k, phase: ForthPhase::Compilation }),
                Ok(code) => match r {
                    Err(e) => e == (ForthError { kind: ForthErrorKind::ExecutionStateCorrupted, phase: ForthPhase::Compilation }),
                    Ok(_) => {
                        let b = final(self).blocks@[super_idx];
                        &&& final(self).blocks@ == old(self).blocks@.insert(super_idx, b)
                        &&& exec_bytes(b.code).take(code.len() as int) == code
                        &&& exec_bytes(b.code).len() == if code.len() < 4096 { 4096 } else { code.len() }
                        &&& b.contract@ == contract@
                        &&& b.original_ops_len == segment_len(ops@, context)
                        &&& b.context == context
                        &&& !b.is_poisoned
                        &&& b.poison_reason is None
                        &&& b.poison_count == 0
                        &&& b.last_retry == now
                    },
                },
            },
    {
        if !target.x86_64 {
            return Err(ForthError::new(ForthErrorKind::OptimizationFailed, ForthPhase::Compilation));
        }
        if ops.len() > MAX_BLOCK_OPS {
            return Err(ForthError::new(ForthErrorKind::Abort, ForthPhase::Compilation));
        }
        let seg_len = match &context {
            Some(c) => c.original_ops.len(),
            None => ops.len(),
        };
        let code = match emit_super(super_idx, ops, target.windows, (super_idx + seg_len) as u64) {
            Ok(c) => c,
            Err(k) => {
                return Err(ForthError::new(k, ForthPhase::Compilation));
            },
        };
        let size = if code.len() < 4096 { 4096 } else { code.len() };
        let mut map = match map_anon(size) {
            Some(m) => m,
            None => {
                return Err(ForthError::new(ForthErrorKind::ExecutionStateCorrupted, ForthPhase::Compilation));
            },
        };
        let mut i: usize = 0;
        while i < code.len()
            invariant
                i <= code@.len(),
                code@.len() <= size,
                mmap_bytes(map).len() == size,
                mmap_bytes(map).take(i as int) == code@.take(i as int),
            decreases code.len() - i,
        {
            mmap_set(&mut map, i, code[i]);
            assert(mmap_bytes(map).take(i + 1) =~= code@.take(i + 1));
            i = i + 1;
        }
        assert(code@.take(code@.len() as int) =~= code@);
        let exec = match make_exec(map) {
            Some(x) => x,
            None => {
                return Err(ForthError::new(ForthErrorKind::ExecutionStateCorrupted, ForthPhase::Compilation));
            },
        };
        let block = JitBlock {
            code: exec,
            contract: contract.duplicate(),
            original_ops_len: seg_len,
            context,
            is_poisoned: false,
            poison_reason: None,
            poison_count: 0,
            last_retry: now,
        };
        self.install(super_idx, block);
        Ok(())
    }
}

} // verus!
