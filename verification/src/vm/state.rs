use crate::common::error::{ForthResult, ForthError, ForthErrorKind, ForthPhase};
use crate::vm::bytes::{
    map_anon, mmap_bytes, mmap_copy_range, mmap_read_i64, mmap_write_i64, le_i64,
    lemma_le_roundtrip,
};
use vstd::prelude::*;

verus! {

/// A call frame: where to return, and which word was called.
#[derive(Clone, Copy, Debug, PartialEq, Eq, Structural)]
pub struct Frame {
    pub ret_ip: usize,
    pub word_idx: usize,
    pub ret_in_tr: bool,
}

/// An exception handler: the depths to restore and where to resume.
#[derive(Debug, Clone, Copy, PartialEq, Eq, Structural)]
pub struct CatchFrame {
    pub d_depth: usize,
    pub r_depth: usize,
    pub c_depth: usize,
    pub handler_ip: usize,
    pub in_tr: bool,
}

/// A word executed by `EXECUTE` (or by the text interpreter) whose body is
/// still running: where to resume afterwards, and the call depth at which
/// its run ends.
#[derive(Debug, Clone, Copy, PartialEq, Eq, Structural)]
pub struct NestedRun {
    pub old_ip: usize,
    pub old_c_depth: usize,
}

/// Where the data stack region starts within its mapping (after the
/// leading guard page).
pub const D_STACK_START_OFFSET: usize = 4096;
/// The size of the data stack region in bytes.
pub const D_STACK_SIZE: usize = 8192;
/// The size of the whole data stack mapping: region and two guard pages.
pub const D_STACK_MAP_SIZE: usize = 16384;
/// Where cell 0 of the data stack lies (after the bottom canary).
pub const D_CELLS_OFFSET: usize = 4104;
/// Where the top canary lies.
pub const D_TOP_CANARY_OFFSET: usize = 12280;
/// The most values the data stack holds.
pub const D_STACK_LIMIT: usize = 1022;
/// The guard value at both ends of the data stack region.
pub const CANARY_VALUE: u64 = 0xDEADBEEFCAFEBABE;

/// The virtual machine's execution state.
///
/// The data stack lives in `d_stack`, a mapping of one guard page, the
/// stack region and another guard page; cell `i` is the little-endian
/// `i64` at byte `D_CELLS_OFFSET + 8 * i`, between two canaries. The float
/// stack holds the bit patterns of its values.
pub struct Vm {
    pub d_stack: memmap2::MmapMut,
    pub d_depth: usize,
    pub f_stack: Vec<u64>,
    pub r_stack: Vec<i64>,
    pub c_stack: Vec<Frame>,
    pub loop_stack: Vec<i64>,
    pub exception_stack: Vec<CatchFrame>,
    pub path_trace: Vec<u64>,
    pub ip: usize,
    pub in_tr: bool,
    pub nested: Vec<NestedRun>,
}

/// Cell `i` of a data stack mapping.
pub open spec fn cell(bytes: Seq<u8>, i: int) -> i64 {
    le_i64(bytes.subrange(D_CELLS_OFFSET + 8 * i, D_CELLS_OFFSET + 8 * i + 8))
}

impl Vm {
    pub open spec fn stack_bytes(&self) -> Seq<u8> {
        mmap_bytes(self.d_stack)
    }

    /// The data stack, bottom first.
    pub open spec fn data(&self) -> Seq<i64> {
        Seq::new(self.d_depth as nat, |i: int| cell(self.stack_bytes(), i))
    }

    /// The data stack mapping has its size and the depth is within bounds.
    pub open spec fn wf(&self) -> bool {
        &&& self.stack_bytes().len() == D_STACK_MAP_SIZE
        &&& self.d_depth <= D_STACK_LIMIT
    }

    /// Both canaries are intact.
    pub open spec fn canaries_intact(&self) -> bool {
        &&& le_i64(self.stack_bytes().subrange(D_STACK_START_OFFSET as int, D_STACK_START_OFFSET + 8)) == CANARY_VALUE as i64
        &&& le_i64(self.stack_bytes().subrange(D_TOP_CANARY_OFFSET as int, D_TOP_CANARY_OFFSET + 8)) == CANARY_VALUE as i64
    }

    /// A machine with empty stacks at address 0 and both canaries in
    /// place. Fails, with `ExecutionStateCorrupted` of the initialization
    /// phase, when the stack mapping cannot be made.
    pub fn new() -> (r: ForthResult<Self>)
        ensures
            r matches Ok(vm) ==> {
                &&& vm.wf()
                &&& vm.canaries_intact()
                &&& vm.data().len() == 0
                &&& vm.f_stack@.len() == 0
                &&& vm.r_stack@.len() == 0
                &&& vm.c_stack@.len() == 0
                &&& vm.loop_stack@.len() == 0
                &&& vm.exception_stack@.len() == 0
                &&& vm.path_trace@.len() == 0
                &&& vm.nested@.len() == 0
                &&& vm.ip == 0
                &&& !vm.in_tr
            },
            r matches Err(e) ==> e == (ForthError { kind: ForthErrorKind::ExecutionStateCorrupted, phase: ForthPhase::Initialization }),
    {
        let mut map = match map_anon(D_STACK_MAP_SIZE) {
            Some(m) => m,
            None => {
                return Err(ForthError::new(ForthErrorKind::ExecutionStateCorrupted, ForthPhase::Initialization));
            },
        };
        mmap_write_i64(&mut map, D_STACK_START_OFFSET, CANARY_VALUE as i64);
        let ghost after_first = mmap_bytes(map);
        mmap_write_i64(&mut map, D_TOP_CANARY_OFFSET, CANARY_VALUE as i64);
        proof {
            lemma_le_roundtrip(CANARY_VALUE as i64);
            assert(mmap_bytes(map).subrange(D_STACK_START_OFFSET as int, D_STACK_START_OFFSET + 8) =~= after_first.subrange(D_STACK_START_OFFSET as int, D_STACK_START_OFFSET + 8));
        }
        Ok(Vm {
            d_stack: map,
            d_depth: 0,
            f_stack: Vec::with_capacity(128),
            r_stack: Vec::with_capacity(128),
            c_stack: Vec::with_capacity(64),
            loop_stack: Vec::with_capacity(64),
            exception_stack: Vec::with_capacity(16),
            path_trace: Vec::with_capacity(256),
            ip: 0,
            in_tr: false,
            nested: Vec::new(),
        })
    }

    /// Checks both canaries; a damaged one is `ExecutionStateCorrupted`.
    pub fn verify_canaries(&self) -> (r: ForthResult<()>)
        requires
            self.wf(),
        ensures
            r is Ok <==> self.canaries_intact(),
            r matches Err(e) ==> e == (ForthError { kind: ForthErrorKind::ExecutionStateCorrupted, phase: ForthPhase::Execution }),
    {
        let base = mmap_read_i64(&self.d_stack, D_STACK_START_OFFSET);
        if base != CANARY_VALUE as i64 {
            return Err(ForthError::new(ForthErrorKind::ExecutionStateCorrupted, ForthPhase::Execution));
        }
        let top = mmap_read_i64(&self.d_stack, D_TOP_CANARY_OFFSET);
        if top != CANARY_VALUE as i64 {
            return Err(ForthError::new(ForthErrorKind::ExecutionStateCorrupted, ForthPhase::Execution));
        }
        Ok(())
    }

    /// An independent copy of the machine: the stack region (canaries and
    /// cells) and every other stack and register are copied.
    pub fn try_clone(&self) -> (r: ForthResult<Self>)
        requires
            self.wf(),
        ensures
            r matches Ok(vm) ==> {
                &&& vm.wf()
                &&& vm.stack_bytes().subrange(D_STACK_START_OFFSET as int, D_STACK_START_OFFSET + D_STACK_SIZE)
                    == self.stack_bytes().subrange(D_STACK_START_OFFSET as int, D_STACK_START_OFFSET + D_STACK_SIZE)
                &&& vm.data() == self.data()
                &&& vm.d_depth == self.d_depth
                &&& vm.f_stack@ == self.f_stack@
                &&& vm.r_stack@ == self.r_stack@
                &&& vm.c_stack@ == self.c_stack@
                &&& vm.loop_stack@ == self.loop_stack@
                &&& vm.exception_stack@ == self.exception_stack@
                &&& vm.path_trace@ == self.path_trace@
                &&& vm.nested@ == self.nested@
                &&& vm.ip == self.ip
                &&& vm.in_tr == self.in_tr
            },
            r matches Err(e) ==> e == (ForthError { kind: ForthErrorKind::ExecutionStateCorrupted, phase: ForthPhase::Initialization }),
    {
        let mut map = match map_anon(D_STACK_MAP_SIZE) {
            Some(m) => m,
            None => {
                return Err(ForthError::new(ForthErrorKind::ExecutionStateCorrupted, ForthPhase::Initialization));
            },
        };
        mmap_copy_range(&mut map, &self.d_stack, D_STACK_START_OFFSET, D_STACK_START_OFFSET + D_STACK_SIZE);
        let vm = Vm {
            d_stack: map,
            d_depth: self.d_depth,
            f_stack: copy_vec(&self.f_stack),
            r_stack: copy_vec(&self.r_stack),
            c_stack: copy_vec(&self.c_stack),
            loop_stack: copy_vec(&self.loop_stack),
            exception_stack: copy_vec(&self.exception_stack),
            path_trace: copy_vec(&self.path_trace),
            ip: self.ip,
            in_tr: self.in_tr,
            nested: copy_vec(&self.nested),
        };
        proof {
            let a = vm.stack_bytes();
            let b = self.stack_bytes();
            assert(a.subrange(D_STACK_START_OFFSET as int, D_STACK_START_OFFSET + D_STACK_SIZE) =~= b.subrange(D_STACK_START_OFFSET as int, D_STACK_START_OFFSET + D_STACK_SIZE));
            assert forall|i: int| 0 <= i < self.d_depth implies cell(a, i) == cell(b, i) by {
                assert(a.subrange(D_CELLS_OFFSET + 8 * i, D_CELLS_OFFSET + 8 * i + 8) =~= b.subrange(D_CELLS_OFFSET + 8 * i, D_CELLS_OFFSET + 8 * i + 8));
            }
            assert(vm.data() =~= self.data());
        }
        Ok(vm)
    }
}

/// Copies a vector of plain values.
pub fn copy_vec<T: Copy>(v: &Vec<T>) -> (r: Vec<T>)
    ensures
        r@ == v@,
{
    let mut r: Vec<T> = Vec::new();
    let mut i: usize = 0;
    while i < v.len()
        invariant
            i <= v.len(),
            r@ == v@.take(i as int),
        decreases v.len() - i,
    {
        r.push(v[i]);
        assert(v@.take(i + 1) =~= v@.take(i as int).push(v@[i as int]));
        i = i + 1;
    }
    assert(v@.take(i as int) =~= v@);
    r
}

} // verus!
