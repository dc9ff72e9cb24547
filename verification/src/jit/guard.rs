use crate::common::error::{ForthResult, ForthErrorKind, ForthError};
use crate::common::types::ExecutionStatus;
use crate::optimizer::analysis::{PatternContext, can_penalize, penalized};
use crate::system::system::System;
use crate::jit::runtime::poisoned;
use crate::vm::execution::reached;
use crate::vm::semantics::{VmView, SysView, Env, tier1_spec, tier1_ok, resized};
use crate::vm::state::{Vm, Frame, CatchFrame, D_STACK_LIMIT, D_CELLS_OFFSET, D_STACK_MAP_SIZE, cell};
use crate::vm::bytes::{mmap_read_i64, mmap_write_i64, lemma_le_roundtrip, i64_le_bytes};
use crate::vm::memory::unjournal;
use vstd::prelude::*;

verus! {

/// Where a super-instruction's run and the interpreter's run of the same
/// code first disagree.
#[derive(Clone, Copy, Debug, PartialEq, Eq, Structural)]
pub enum Divergence {
    /// The native code trapped with this error.
    Trapped(ForthErrorKind),
    Ip { jit: usize, base: usize },
    Depth { jit: usize, base: usize },
    /// The first data stack value that differs.
    DataStack(usize),
    PathTrace,
    ReturnStack,
    LoopStack,
    FloatStack,
    ExceptionStack,
    CallDepth,
    /// The first call frame that differs.
    CallFrame(usize),
    /// The two memories differ in size.
    MemorySize,
    /// The first memory byte that differs.
    Memory(usize),
}

/// How a native run of a block ended: cleanly, with a trap, or differently
/// from the interpreter's run of the same code.
#[derive(Clone, Copy, Debug, PartialEq, Eq, Structural)]
pub enum JitOutcome {
    Clean,
    Trapped(ForthErrorKind),
    Diverged(Divergence),
}

/// Whether an outcome counts as a divergence: one the audit found, or a
/// trap in paranoid mode.
pub open spec fn diverges(outcome: JitOutcome, paranoid: bool) -> bool {
    outcome is Diverged || (outcome is Trapped && paranoid)
}

/// System `s1` is `s0` after a failed run was undone: the failure
/// counted and the memory writes its journal records undone.
pub open spec fn trap_undone(s0: System, s1: System, journal: Seq<u64>, journal_len: usize) -> bool {
    &&& s1.memory.bytes() == unjournal(s0.memory.bytes(), journal, (journal_len / 2) as nat)
    &&& s1.memory.here == s0.memory.here
    &&& s1 == (System { jit_poisoned: (s0.jit_poisoned + 1) as u64, memory: s1.memory, ..s0 })
}

/// System `s1` is `s0` after a divergent run was undone: the block at `ip`
/// poisoned for `reason` at `now`, its pattern (if any) penalized, the
/// poisoning counted and the journaled memory writes undone.
pub open spec fn divergence_undone(
    s0: System,
    s1: System,
    ip: usize,
    reason: String,
    pattern: Option<PatternContext>,
    now: u64,
    journal: Seq<u64>,
    journal_len: usize,
) -> bool {
    &&& poisoned(s0.jit.blocks@, s1.jit.blocks@, ip, reason, now)
    &&& match pattern {
        Some(p) => penalized(s0.optimizer, s1.optimizer, p@),
        None => s1.optimizer == s0.optimizer,
    }
    &&& s1.jit_poisoned == s0.jit_poisoned + 1
    &&& s1.memory.bytes() == unjournal(s0.memory.bytes(), journal, (journal_len / 2) as nat)
    &&& s1.memory.here == s0.memory.here
    &&& s1 == (System {
        jit: s1.jit,
        optimizer: s1.optimizer,
        memory: s1.memory,
        jit_poisoned: s1.jit_poisoned,
        ..s0
    })
}

/// Machine `v2` in system `s2` is `v1` in `s1` after one interpreter step
/// that reported what `r` holds; where that step would fault, nothing
/// changed and `r` is `None`.
pub open spec fn stepped_after(v1: Vm, s1: System, v2: Vm, s2: System, r: Option<ForthResult<ExecutionStatus>>) -> bool {
    if tier1_ok(v1@, s1.sv(), s1.env()) {
        &&& reached(v1, v2, s1, s2, tier1_spec(v1@, s1.sv(), s1.env()))
        &&& r == Some(tier1_spec(v1@, s1.sv(), s1.env()).res)
    } else {
        &&& v2 == v1
        &&& s2 == s1
        &&& r is None
    }
}

/// The registers, data stack values and stack lengths a failed
/// super-instruction is rolled back to.
#[derive(Clone, Debug)]
pub struct Snapshot {
    pub ip: usize,
    pub depth: usize,
    /// The data stack values, bottom first (`depth` of them).
    pub cells: Vec<i64>,
    pub loop_len: usize,
    pub r_len: usize,
    pub c_len: usize,
    pub f_len: usize,
    pub e_len: usize,
    pub in_tr: bool,
}

/// Machine `v1` is `v0` put back to `snap`: registers, depth and data
/// stack values from the snapshot, each other stack cut back to (or padded
/// with zeros to) its recorded length; the canaries and the rest of the data
/// stack mapping outside its cells, the path trace and nested runs
/// unchanged.
pub open spec fn rolled_back(v0: Vm, v1: Vm, snap: Snapshot) -> bool {
    &&& v1.wf()
    &&& v1.data() == snap.cells@
    &&& v1.stack_bytes().subrange(0, D_CELLS_OFFSET as int) == v0.stack_bytes().subrange(0, D_CELLS_OFFSET as int)
    &&& v1.stack_bytes().subrange(D_CELLS_OFFSET + 8 * D_STACK_LIMIT, D_STACK_MAP_SIZE as int)
        == v0.stack_bytes().subrange(D_CELLS_OFFSET + 8 * D_STACK_LIMIT, D_STACK_MAP_SIZE as int)
    &&& v1.d_depth == snap.depth
    &&& v1.ip == snap.ip
    &&& v1.in_tr == snap.in_tr
    &&& v1.loop_stack@ == resized(v0.loop_stack@, snap.loop_len as nat, 0i64)
    &&& v1.r_stack@ == resized(v0.r_stack@, snap.r_len as nat, 0i64)
    &&& v1.c_stack@ == resized(v0.c_stack@, snap.c_len as nat, Frame { ret_ip: 0, word_idx: 0, ret_in_tr: false })
    &&& v1.f_stack@ == resized(v0.f_stack@, snap.f_len as nat, 0u64)
    &&& v1.exception_stack@ == resized(
        v0.exception_stack@,
        snap.e_len as nat,
        CatchFrame { d_depth: 0, r_depth: 0, c_depth: 0, handler_ip: 0, in_tr: false },
    )
    &&& v1.path_trace == v0.path_trace
    &&& v1.nested == v0.nested
}

/// The interpreter's run of a block: from address `start`, steps are taken
/// while the machine is inside `start..end` and fuel is left, each address
/// recorded in `path` first; the run ends at the first step that does not
/// report `Done`. The flag says whether it ended at a step that would fault
/// (see `tier1_ok`).
pub open spec fn run_block(
    v: VmView,
    s: SysView,
    env: Env,
    path: Seq<u64>,
    start: usize,
    end: usize,
    fuel: nat,
) -> (VmView, SysView, Seq<u64>, bool)
    decreases fuel,
{
    if !(start <= v.ip && v.ip < end) || fuel == 0 {
        (v, s, path, false)
    } else {
        let path2 = path.push(v.ip as u64);
        if !tier1_ok(v, s, env) {
            (v, s, path2, true)
        } else {
            let o = tier1_spec(v, s, env);
            if o.res == Ok::<ExecutionStatus, crate::common::error::ForthError>(ExecutionStatus::Done) {
                run_block(o.vm, o.sys, env, path2, start, end, (fuel - 1) as nat)
            } else {
                (o.vm, o.sys, path2, false)
            }
        }
    }
}

/// Whether two `i64` sequences are equal.
fn same_i64s(a: &Vec<i64>, b: &Vec<i64>) -> (r: bool)
    ensures
        r == (a@ == b@),
{
    if a.len() != b.len() {
        return false;
    }
    let mut i: usize = 0;
    while i < a.len()
        invariant
            a@.len() == b@.len(),
            i <= a@.len(),
            forall|k: int| 0 <= k < i ==> a@[k] == b@[k],
        decreases a.len() - i,
    {
        if a[i] != b[i] {
            return false;
        }
        i = i + 1;
    }
    assert(a@ =~= b@);
    true
}

/// Whether two `u64` sequences are equal.
fn same_u64s(a: &Vec<u64>, b: &Vec<u64>) -> (r: bool)
    ensures
        r == (a@ == b@),
{
    if a.len() != b.len() {
        return false;
    }
    let mut i: usize = 0;
    while i < a.len()
        invariant
            a@.len() == b@.len(),
            i <= a@.len(),
            forall|k: int| 0 <= k < i ==> a@[k] == b@[k],
        decreases a.len() - i,
    {
        if a[i] != b[i] {
            return false;
        }
        i = i + 1;
    }
    assert(a@ =~= b@);
    true
}

/// Whether two handler stacks are equal.
fn same_catch_frames(a: &Vec<CatchFrame>, b: &Vec<CatchFrame>) -> (r: bool)
    ensures
        r == (a@ == b@),
{
    if a.len() != b.len() {
        return false;
    }
    let mut i: usize = 0;
    while i < a.len()
        invariant
            a@.len() == b@.len(),
            i <= a@.len(),
            forall|k: int| 0 <= k < i ==> a@[k] == b@[k],
        decreases a.len() - i,
    {
        if a[i] != b[i] {
            return false;
        }
        i = i + 1;
    }
    assert(a@ =~= b@);
    true
}

/// The first index at which two call stacks of one length differ.
/// Index `i` is where `a` and `b` first differ.
pub open spec fn first_mismatch<T>(a: Seq<T>, b: Seq<T>, i: int) -> bool {
    &&& 0 <= i < a.len()
    &&& i < b.len()
    &&& a[i] != b[i]
    &&& forall|k: int| 0 <= k < i ==> a[k] == b[k]
}

fn first_frame_diff(a: &Vec<Frame>, b: &Vec<Frame>) -> (r: Option<usize>)
    requires
        a@.len() == b@.len(),
    ensures
        r is None <==> a@ == b@,
        r matches Some(i) ==> first_mismatch(a@, b@, i as int),
{
    let mut i: usize = 0;
    while i < a.len()
        invariant
            a@.len() == b@.len(),
            i <= a@.len(),
            forall|k: int| 0 <= k < i ==> a@[k] == b@[k],
        decreases a.len() - i,
    {
        if a[i] != b[i] {
            return Some(i);
        }
        i = i + 1;
    }
    assert(a@ =~= b@);
    None
}

impl Vm {
    /// The state a failed super-instruction is rolled back to, data stack
    /// values included.
    pub fn snapshot(&self) -> (s: Snapshot)
        requires
            self.wf(),
        ensures
            s.ip == self.ip,
            s.depth == self.d_depth,
            s.cells@ == self.data(),
            s.loop_len == self.loop_stack@.len(),
            s.r_len == self.r_stack@.len(),
            s.c_len == self.c_stack@.len(),
            s.f_len == self.f_stack@.len(),
            s.e_len == self.exception_stack@.len(),
            s.in_tr == self.in_tr,
    {
        let mut cells: Vec<i64> = Vec::new();
        let mut i: usize = 0;
        while i < self.d_depth
            invariant
                self.wf(),
                i <= self.d_depth,
                cells@ == self.data().take(i as int),
            decreases self.d_depth - i,
        {
            let v = mmap_read_i64(&self.d_stack, D_CELLS_OFFSET + 8 * i);
            cells.push(v);
            assert(cells@ =~= self.data().take(i + 1));
            i = i + 1;
        }
        assert(self.data().take(self.d_depth as int) =~= self.data());
        Snapshot {
            ip: self.ip,
            depth: self.d_depth,
            cells,
            loop_len: self.loop_stack.len(),
            r_len: self.r_stack.len(),
            c_len: self.c_stack.len(),
            f_len: self.f_stack.len(),
            e_len: self.exception_stack.len(),
            in_tr: self.in_tr,
        }
    }

    /// Writes `cells` into the data stack cells from the bottom, the depth
    /// set to their number; the bytes outside those cells stay.
    fn write_cells(&mut self, cells: &Vec<i64>)
        requires
            old(self).wf(),
            cells@.len() <= D_STACK_LIMIT,
        ensures
            final(self).wf(),
            final(self).data() == cells@,
            final(self).stack_bytes().subrange(0, D_CELLS_OFFSET as int) == old(self).stack_bytes().subrange(0, D_CELLS_OFFSET as int),
            final(self).stack_bytes().subrange(D_CELLS_OFFSET + 8 * D_STACK_LIMIT, D_STACK_MAP_SIZE as int)
                == old(self).stack_bytes().subrange(D_CELLS_OFFSET + 8 * D_STACK_LIMIT, D_STACK_MAP_SIZE as int),
            *final(self) == (Vm { d_stack: final(self).d_stack, d_depth: final(self).d_depth, ..*old(self) }),
    {
        let n = cells.len();
        let ghost b0 = self.stack_bytes();
        self.d_depth = 0;
        let mut i: usize = 0;
        while i < n
            invariant
                n == cells@.len(),
                n <= D_STACK_LIMIT,
                i <= n,
                self.stack_bytes().len() == D_STACK_MAP_SIZE,
                self.d_depth == 0,
                forall|j: int| 0 <= j < i ==> #[trigger] cell(self.stack_bytes(), j) == cells@[j],
                forall|k: int| 0 <= k < D_STACK_MAP_SIZE && !(D_CELLS_OFFSET <= k < D_CELLS_OFFSET + 8 * D_STACK_LIMIT)
                    ==> #[trigger] self.stack_bytes()[k] == b0[k],
                *self == (Vm { d_stack: self.d_stack, d_depth: 0, ..*old(self) }),
            decreases n - i,
        {
            let ghost before = self.stack_bytes();
            let at = D_CELLS_OFFSET + 8 * i;
            mmap_write_i64(&mut self.d_stack, at, cells[i]);
            proof {
                let after = self.stack_bytes();
                lemma_le_roundtrip(cells@[i as int]);
                assert forall|j: int| 0 <= j < i + 1 implies #[trigger] cell(after, j) == cells@[j] by {
                    if j < i {
                        assert(cell(before, j) == cells@[j]);
                        assert(after.subrange(D_CELLS_OFFSET + 8 * j, D_CELLS_OFFSET + 8 * j + 8) =~= before.subrange(D_CELLS_OFFSET + 8 * j, D_CELLS_OFFSET + 8 * j + 8));
                    } else {
                        assert(j == i);
                        assert(after.subrange(D_CELLS_OFFSET + 8 * j, D_CELLS_OFFSET + 8 * j + 8) == i64_le_bytes(cells@[i as int]));
                    }
                }
            }
            i = i + 1;
        }
        self.d_depth = n;
        proof {
            let b1 = self.stack_bytes();
            assert(self.data() =~= cells@);
            assert(b1.subrange(0, D_CELLS_OFFSET as int) =~= b0.subrange(0, D_CELLS_OFFSET as int));
            assert(b1.subrange(D_CELLS_OFFSET + 8 * D_STACK_LIMIT, D_STACK_MAP_SIZE as int) =~= b0.subrange(D_CELLS_OFFSET + 8 * D_STACK_LIMIT, D_STACK_MAP_SIZE as int));
        }
    }

    /// Runs the interpreter over the block at `block_start`, `ops_len`
    /// instructions long, on this machine (a copy made for the audit), as
    /// `run_block` says, with `ops_len + 10` steps of fuel and the path
    /// trace started afresh. Returns whether the run stopped at a step
    /// that would fault.
    pub fn baseline_run(&mut self, sys: &mut System, block_start: usize, ops_len: usize) -> (faulted: bool)
        requires
            old(self).wf(),
            old(sys).code.wf(),
            block_start + ops_len <= usize::MAX,
            ops_len + 10 <= usize::MAX,
        ensures
            ({
                let (v, s, p, f) = run_block(
                    old(self)@,
                    old(sys).sv(),
                    old(sys).env(),
                    Seq::empty(),
                    block_start,
                    (block_start + ops_len) as usize,
                    (ops_len + 10) as nat,
                );
                &&& final(self).wf()
                &&& final(self)@ == v
                &&& final(sys).sv() == s
                &&& final(self).path_trace@ == p
                &&& faulted == f
                &&& final(self).guards_same(old(self))
                &&& final(sys).same_outside(old(sys))
                &&& final(sys).code.wf()
            }),
    {
        let ghost env = sys.env();
        let end = block_start + ops_len;
        self.path_trace.clear();
        let mut safety = ops_len + 10;
        let ghost target = run_block(self@, sys.sv(), env, Seq::empty(), block_start, end, safety as nat);
        while self.ip >= block_start && self.ip < end && safety > 0
            invariant
                self.wf(),
                sys.code.wf(),
                sys.env() == env,
                env == old(sys).env(),
                run_block(self@, sys.sv(), env, self.path_trace@, block_start, end, safety as nat) == target,
                target == run_block(old(self)@, old(sys).sv(), old(sys).env(), Seq::empty(), block_start, end, (ops_len + 10) as nat),
                end == block_start + ops_len,
                self.guards_same(old(self)),
                sys.same_outside(old(sys)),
            decreases safety,
        {
            let ghost fuel = safety as nat;
            safety = safety - 1;
            let ghost before = self@;
            let ghost sbefore = sys.sv();
            self.path_trace.push(self.ip as u64);
            if !self.can_step(sys) {
                return true;
            }
            let ghost s_old = *sys;
            let ghost m_old = *self;
            let r = self.step_tier1(sys);
            proof {
                assert(sys.same_outside(&s_old));
                assert(sys.dict == s_old.dict);
                assert(sys.env() == s_old.env());
            }
            match r {
                Ok(ExecutionStatus::Done) => {},
                _ => {
                    return false;
                },
            }
        }
        false
    }

    /// Which part of this machine and its system (after a
    /// super-instruction ran) first differs from `base` and `base_sys`
    /// (after the interpreter ran the same block), in the order: address,
    /// data stack depth, data stack values, path trace, return stack, loop
    /// stack, float stack (`floats_same` says whether the two float stacks
    /// compare equal as floats), handler stack, call depth, call frames,
    /// memory size, memory bytes.
    pub fn audit(&self, base: &Vm, sys: &System, base_sys: &System, floats_same: bool) -> (d: Option<Divergence>)
        requires
            self.wf(),
            base.wf(),
        ensures
            d == if self.ip != base.ip {
                Some(Divergence::Ip { jit: self.ip, base: base.ip })
            } else if self.d_depth != base.d_depth {
                Some(Divergence::Depth { jit: self.d_depth, base: base.d_depth })
            } else if self.data() != base.data() {
                d
            } else if self.path_trace@ != base.path_trace@ {
                Some(Divergence::PathTrace)
            } else if self.r_stack@ != base.r_stack@ {
                Some(Divergence::ReturnStack)
            } else if self.loop_stack@ != base.loop_stack@ {
                Some(Divergence::LoopStack)
            } else if !floats_same {
                Some(Divergence::FloatStack)
            } else if self.exception_stack@ != base.exception_stack@ {
                Some(Divergence::ExceptionStack)
            } else if self.c_stack@.len() != base.c_stack@.len() {
                Some(Divergence::CallDepth)
            } else if self.c_stack@ != base.c_stack@ {
                d
            } else if sys.memory.bytes().len() != base_sys.memory.bytes().len() {
                Some(Divergence::MemorySize)
            } else if sys.memory.bytes() != base_sys.memory.bytes() {
                d
            } else {
                None
            },
            (self.ip == base.ip && self.d_depth == base.d_depth && self.data() != base.data())
                ==> (d matches Some(Divergence::DataStack(i)) && first_mismatch(self.data(), base.data(), i as int)),
            (self.ip == base.ip && self.d_depth == base.d_depth && self.data() == base.data()
                && self.path_trace@ == base.path_trace@ && self.r_stack@ == base.r_stack@
                && self.loop_stack@ == base.loop_stack@ && floats_same
                && self.exception_stack@ == base.exception_stack@ && self.c_stack@.len() == base.c_stack@.len()
                && self.c_stack@ != base.c_stack@)
                ==> (d matches Some(Divergence::CallFrame(i)) && first_mismatch(self.c_stack@, base.c_stack@, i as int)),
            (self.ip == base.ip && self.d_depth == base.d_depth && self.data() == base.data()
                && self.path_trace@ == base.path_trace@ && self.r_stack@ == base.r_stack@
                && self.loop_stack@ == base.loop_stack@ && floats_same
                && self.exception_stack@ == base.exception_stack@ && self.c_stack@ == base.c_stack@
                && sys.memory.bytes().len() == base_sys.memory.bytes().len()
                && sys.memory.bytes() != base_sys.memory.bytes())
                ==> (d matches Some(Divergence::Memory(i)) && first_mismatch(sys.memory.bytes(), base_sys.memory.bytes(), i as int)),
    {
        if self.ip != base.ip {
            return Some(Divergence::Ip { jit: self.ip, base: base.ip });
        }
        if self.d_depth != base.d_depth {
            return Some(Divergence::Depth { jit: self.d_depth, base: base.d_depth });
        }
        let mut k: usize = 0;
        while k < self.d_depth
            invariant
                self.wf(),
                base.wf(),
                self.d_depth == base.d_depth,
                self.ip == base.ip,
                k <= self.d_depth,
                forall|j: int| 0 <= j < k ==> self.data()[j] == base.data()[j],
            decreases self.d_depth - k,
        {
            let a = mmap_read_i64(&self.d_stack, D_CELLS_OFFSET + 8 * k);
            let b = mmap_read_i64(&base.d_stack, D_CELLS_OFFSET + 8 * k);
            if a != b {
                assert(self.data()[k as int] == a && base.data()[k as int] == b);
                assert(self.data() != base.data());
                return Some(Divergence::DataStack(k));
            }
            k = k + 1;
        }
        assert(self.data() =~= base.data());
        if !same_u64s(&self.path_trace, &base.path_trace) {
            return Some(Divergence::PathTrace);
        }
        if !same_i64s(&self.r_stack, &base.r_stack) {
            return Some(Divergence::ReturnStack);
        }
        if !same_i64s(&self.loop_stack, &base.loop_stack) {
            return Some(Divergence::LoopStack);
        }
        if !floats_same {
            return Some(Divergence::FloatStack);
        }
        if !same_catch_frames(&self.exception_stack, &base.exception_stack) {
            return Some(Divergence::ExceptionStack);
        }
        if self.c_stack.len() != base.c_stack.len() {
            return Some(Divergence::CallDepth);
        }
        if let Some(i) = first_frame_diff(&self.c_stack, &base.c_stack) {
            return Some(Divergence::CallFrame(i));
        }
        let ma = sys.memory.get_raw_slice();
        let mb = base_sys.memory.get_raw_slice();
        if ma.len() != mb.len() {
            return Some(Divergence::MemorySize);
        }
        let mut m: usize = 0;
        while m < ma.len()
            invariant
                ma@ == sys.memory.bytes(),
                mb@ == base_sys.memory.bytes(),
                ma@.len() == mb@.len(),
                m <= ma@.len(),
                self.ip == base.ip,
                self.d_depth == base.d_depth,
                self.data() == base.data(),
                self.path_trace@ == base.path_trace@,
                self.r_stack@ == base.r_stack@,
                self.loop_stack@ == base.loop_stack@,
                floats_same,
                self.exception_stack@ == base.exception_stack@,
                self.c_stack@ == base.c_stack@,
                forall|j: int| 0 <= j < m ==> ma@[j] == mb@[j],
            decreases ma@.len() - m,
        {
            if ma[m] != mb[m] {
                assert(ma@ != mb@);
                return Some(Divergence::Memory(m));
            }
            m = m + 1;
        }
        assert(ma@ =~= mb@);
        None
    }

    /// Puts the machine back to `snap`, data stack values included (see
    /// `rolled_back`).
    pub fn restore(&mut self, snap: &Snapshot)
        requires
            old(self).wf(),
            snap.depth <= D_STACK_LIMIT,
            snap.cells@.len() == snap.depth,
        ensures
            rolled_back(*old(self), *final(self), *snap),
    {
        self.rollback_state_full(snap.ip, snap.depth, snap.loop_len, snap.r_len, snap.c_len, snap.f_len, snap.e_len, snap.in_tr);
        self.write_cells(&snap.cells);
    }

    /// After a super-instruction failed: counts the failure, undoes the
    /// memory writes its journal (`journal_len` words of `journal`) records
    /// and rolls the machine back to `snap`, so that the interpreter runs
    /// the code again.
    pub fn recover_from_trap(&mut self, sys: &mut System, snap: &Snapshot, journal: &[u64], journal_len: usize)
        requires
            old(self).wf(),
            snap.depth <= D_STACK_LIMIT,
            snap.cells@.len() == snap.depth,
            old(sys).jit_poisoned < u64::MAX,
            journal_len <= journal@.len(),
        ensures
            rolled_back(*old(self), *final(self), *snap),
            final(sys).memory.bytes() == unjournal(old(sys).memory.bytes(), journal@, (journal_len / 2) as nat),
            final(sys).memory.here == old(sys).memory.here,
            *final(sys) == (System { jit_poisoned: (old(sys).jit_poisoned + 1) as u64, memory: final(sys).memory, ..*old(sys) }),
    {
        sys.jit_poisoned = sys.jit_poisoned + 1;
        sys.memory.replay_journal(journal, journal_len);
        self.restore(snap);
    }

    /// After a super-instruction diverged from the interpreter in an audit:
    /// poisons the block at `snap.ip` for `reason` at time `now`, penalizes
    /// the pattern it was compiled from (if any), counts the poisoning,
    /// undoes the memory writes its journal records and rolls the machine
    /// back to `snap`.
    pub fn recover_from_divergence(
        &mut self,
        sys: &mut System,
        snap: &Snapshot,
        reason: String,
        pattern: Option<PatternContext>,
        now: u64,
        journal: &[u64],
        journal_len: usize,
    )
        requires
            journal_len <= journal@.len(),
            old(self).wf(),
            snap.depth <= D_STACK_LIMIT,
            snap.cells@.len() == snap.depth,
            old(sys).jit_poisoned < u64::MAX,
            old(sys).jit.blocks@.contains_key(snap.ip) ==> old(sys).jit.blocks@[snap.ip].poison_count < u32::MAX,
            pattern matches Some(p) ==> can_penalize(old(sys).optimizer, p@),
        ensures
            rolled_back(*old(self), *final(self), *snap),
            poisoned(old(sys).jit.blocks@, final(sys).jit.blocks@, snap.ip, reason, now),
            match pattern {
                Some(p) => penalized(old(sys).optimizer, final(sys).optimizer, p@),
                None => final(sys).optimizer == old(sys).optimizer,
            },
            final(sys).jit_poisoned == old(sys).jit_poisoned + 1,
            final(sys).memory.bytes() == unjournal(old(sys).memory.bytes(), journal@, (journal_len / 2) as nat),
            final(sys).memory.here == old(sys).memory.here,
            *final(sys) == (System {
                jit: final(sys).jit,
                optimizer: final(sys).optimizer,
                memory: final(sys).memory,
                jit_poisoned: final(sys).jit_poisoned,
                ..*old(sys)
            }),
    {
        sys.jit.poison_block(snap.ip, reason, now);
        if let Some(p) = pattern {
            sys.optimizer.penalize_pattern(&p);
        }
        sys.jit_poisoned = sys.jit_poisoned + 1;
        sys.memory.replay_journal(journal, journal_len);
        self.restore(snap);
    }
    /// Decides what follows a native run of the block at `snap.ip`, given
    /// how the run ended. A clean run counts a hit (the counter wraps) and
    /// the step is done. A trap outside paranoid mode is undone as a failed
    /// run (`recover_from_trap`); a trap in paranoid mode, or a divergence
    /// the audit found, poisons the block for `reason` and penalizes its
    /// pattern (`recover_from_divergence`). After either, the interpreter
    /// takes one step from the restored machine; where that step would
    /// fault (`can_step`), nothing more is done and `None` comes back.
    pub fn settle_jit_run(
        &mut self,
        sys: &mut System,
        snap: &Snapshot,
        outcome: JitOutcome,
        reason: String,
        journal: &[u64],
        journal_len: usize,
        pattern: Option<PatternContext>,
        now: u64,
    ) -> (r: Option<ForthResult<ExecutionStatus>>)
        requires
            old(self).wf(),
            old(sys).code.wf(),
            outcome !is Clean ==> {
                &&& journal_len <= journal@.len()
                &&& snap.depth <= D_STACK_LIMIT
                &&& snap.cells@.len() == snap.depth
                &&& old(sys).jit_poisoned < u64::MAX
            },
            diverges(outcome, old(sys).paranoid_mode) ==> {
                &&& (old(sys).jit.blocks@.contains_key(snap.ip) ==> old(sys).jit.blocks@[snap.ip].poison_count < u32::MAX)
                &&& (pattern matches Some(p) ==> can_penalize(old(sys).optimizer, p@))
            },
        ensures
            outcome is Clean ==> {
                &&& r == Some(Ok::<ExecutionStatus, ForthError>(ExecutionStatus::Done))
                &&& *final(self) == *old(self)
                &&& *final(sys) == (System {
                    jit_hits: if old(sys).jit_hits == u64::MAX { 0 } else { (old(sys).jit_hits + 1) as u64 },
                    ..*old(sys)
                })
            },
            outcome !is Clean && !diverges(outcome, old(sys).paranoid_mode) ==> exists|v1: Vm, s1: System|
                #![trigger stepped_after(v1, s1, *final(self), *final(sys), r)]
                rolled_back(*old(self), v1, *snap) && trap_undone(*old(sys), s1, journal@, journal_len)
                    && stepped_after(v1, s1, *final(self), *final(sys), r),
            diverges(outcome, old(sys).paranoid_mode) ==> exists|v1: Vm, s1: System|
                #![trigger stepped_after(v1, s1, *final(self), *final(sys), r)]
                rolled_back(*old(self), v1, *snap)
                    && divergence_undone(*old(sys), s1, snap.ip, reason, pattern, now, journal@, journal_len)
                    && stepped_after(v1, s1, *final(self), *final(sys), r),
    {
        match outcome {
            JitOutcome::Clean => {
                sys.jit_hits = if sys.jit_hits == u64::MAX { 0 } else { sys.jit_hits + 1 };
                return Some(Ok(ExecutionStatus::Done));
            },
            JitOutcome::Trapped(_) => {
                if !sys.paranoid_mode {
                    self.recover_from_trap(sys, snap, journal, journal_len);
                } else {
                    self.recover_from_divergence(sys, snap, reason, pattern, now, journal, journal_len);
                }
            },
            JitOutcome::Diverged(_) => {
                self.recover_from_divergence(sys, snap, reason, pattern, now, journal, journal_len);
            },
        }
        let ghost v1 = *self;
        let ghost s1 = *sys;
        let r = if self.can_step(sys) {
            Some(self.step_tier1(sys))
        } else {
            None
        };
        assert(stepped_after(v1, s1, *self, *sys, r));
        r
    }

}

} // verus!
