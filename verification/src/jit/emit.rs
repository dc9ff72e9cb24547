use crate::common::error::{ForthResult, ForthError, ForthErrorKind, ForthPhase};
use crate::common::types::{Op, SemanticContract};
use crate::jit::runtime::{JitEngine, JitBlock, MAX_BLOCK_OPS};
use crate::optimizer::analysis::PatternContext;
use crate::vm::bytes::{map_anon, mmap_bytes, mmap_set};
use vstd::prelude::*;

verus! {

/// Machine code being emitted: the bytes so far, the trap sites (where a
/// 32-bit displacement to a trap pad goes, the trap code, the instruction
/// index) and the jump sites (where a displacement goes, the target
/// instruction index).
#[verifier::ext_equal]
pub struct Emitted {
    pub code: Seq<u8>,
    pub traps: Seq<(usize, u8, u32)>,
    pub jumps: Seq<(usize, usize)>,
}

/// `b` appended.
pub open spec fn eb(e: Emitted, b: Seq<u8>) -> Emitted {
    Emitted { code: e.code + b, ..e }
}

/// A trap site `back` bytes before the end.
pub open spec fn et(e: Emitted, back: nat, id: u8, at: u32) -> Emitted {
    Emitted { traps: e.traps.push(((e.code.len() - back) as usize, id, at)), ..e }
}

/// A jump site in the last four bytes, to instruction `target`.
pub open spec fn ej(e: Emitted, target: usize) -> Emitted {
    Emitted { jumps: e.jumps.push(((e.code.len() - 4) as usize, target)), ..e }
}

/// The eight little-endian bytes of `x`.
pub open spec fn le64(x: u64) -> Seq<u8> {
    [x as u8, (x >> 8u64) as u8, (x >> 16u64) as u8, (x >> 24u64) as u8, (x >> 32u64) as u8, (x >> 40u64) as u8, (x >> 48u64) as u8, (x >> 56u64) as u8]@
}

/// The four little-endian bytes of `x`.
pub open spec fn le32(x: u32) -> Seq<u8> {
    [x as u8, (x >> 8u32) as u8, (x >> 16u32) as u8, (x >> 24u32) as u8]@
}

/// A jump by `data` from instruction `at` does not overflow an `i64`.
pub open spec fn jump_fits_block(at: usize, data: u64) -> bool {
    at + 1 + (data as i64) <= i64::MAX
}

/// Every jump of `ops` has a target index that fits an `i64`.
pub open spec fn block_jumps_fit(ops: Seq<(Op, u64)>) -> bool {
    forall|i: int| 0 <= i < ops.len() && (ops[i].0 == Op::Jump || ops[i].0 == Op::JZ) ==> #[trigger] jump_fits_block(i as usize, ops[i].1)
}

/// `after` is `before` with at most `n` more bytes and `t` more trap sites,
/// one more jump site at most, and every site four bytes inside the code.
pub open spec fn piece_bounded(before: Emitted, after: Emitted, n: nat, t: nat) -> bool {
    &&& after.code.len() <= before.code.len() + n
    &&& after.code.len() >= before.code.len()
    &&& after.traps.len() <= before.traps.len() + t
    &&& after.jumps.len() <= before.jumps.len() + 1
    &&& sites_inside(before) ==> sites_inside(after)
}

/// Every trap and jump site has its four bytes inside the code.
pub open spec fn sites_inside(e: Emitted) -> bool {
    &&& forall|k: int| 0 <= k < e.traps.len() ==> #[trigger] e.traps[k].0 + 4 <= e.code.len()
    &&& forall|k: int| 0 <= k < e.jumps.len() ==> #[trigger] e.jumps[k].0 + 4 <= e.code.len()
}

/// The emitter's state.
pub struct Emitter {
    pub code: Vec<u8>,
    pub traps: Vec<(usize, u8, u32)>,
    pub jumps: Vec<(usize, usize)>,
}

impl View for Emitter {
    type V = Emitted;

    open spec fn view(&self) -> Emitted {
        Emitted { code: self.code@, traps: self.traps@, jumps: self.jumps@ }
    }
}

impl Emitter {
    fn bytes(&mut self, b: &[u8])
        ensures
            final(self)@ == eb(old(self)@, b@),
    {
        self.code.extend_from_slice(b);
    }

    fn trap(&mut self, back: usize, id: u8, at: u32)
        requires
            back <= old(self)@.code.len(),
        ensures
            final(self)@ == et(old(self)@, back as nat, id, at),
    {
        let pos = self.code.len() - back;
        self.traps.push((pos, id, at));
    }

    fn jump(&mut self, target: usize)
        requires
            4 <= old(self)@.code.len(),
        ensures
            final(self)@ == ej(old(self)@, target),
    {
        let pos = self.code.len() - 4;
        self.jumps.push((pos, target));
    }

    fn le64(&mut self, x: u64)
        ensures
            final(self)@ == eb(old(self)@, le64(x)),
    {
        self.bytes(&[x as u8, (x >> 8u64) as u8, (x >> 16u64) as u8, (x >> 24u64) as u8, (x >> 32u64) as u8, (x >> 40u64) as u8, (x >> 48u64) as u8, (x >> 56u64) as u8]);
    }
}

/// The machine code of `Push`.
pub open spec fn piece_push(e: Emitted, data: u64, at: usize) -> Emitted {
    let e = eb(e, [0x4Cu8, 0x3B, 0x5B, 0x20, 0x0F, 0x8D, 0x00, 0x00, 0x00, 0x00]@);
    let e = et(e, 4, 1, at as u32);
    let e = eb(e, [0x48u8, 0xB8]@);
    let e = eb(e, le64(data));
    let e = eb(e, [0x4Du8, 0x89, 0xD8, 0x49, 0xC1, 0xE0, 0x03, 0x4D, 0x01, 0xE8, 0x49, 0x89, 0x00, 0x49, 0xFF, 0xC3]@);
    e
}

/// The machine code of `Add`.
pub open spec fn piece_add(e: Emitted, data: u64, at: usize) -> Emitted {
    let e = eb(e, [0x49u8, 0x83, 0xFB, 0x02, 0x0F, 0x82, 0x00, 0x00, 0x00, 0x00]@);
    let e = et(e, 4, 2, at as u32);
    let e = eb(e, [0x49u8, 0x83, 0xEB, 0x01, 0x4D, 0x89, 0xD8, 0x49, 0xC1, 0xE0, 0x03, 0x4D, 0x01, 0xE8, 0x49, 0x8B, 0x00, 0x49, 0x83, 0xEB, 0x01, 0x4D, 0x89, 0xD8, 0x49, 0xC1, 0xE0, 0x03, 0x4D, 0x01, 0xE8, 0x49, 0x8B, 0x08]@);
    let e = eb(e, [0x48u8, 0x01, 0xC8]@);
    let e = eb(e, [0x4Du8, 0x89, 0xD9, 0x49, 0xC1, 0xE1, 0x03, 0x4D, 0x01, 0xE9, 0x49, 0x89, 0x01, 0x49, 0xFF, 0xC3]@);
    e
}

/// The machine code of `Sub`.
pub open spec fn piece_sub(e: Emitted, data: u64, at: usize) -> Emitted {
    let e = eb(e, [0x49u8, 0x83, 0xFB, 0x02, 0x0F, 0x82, 0x00, 0x00, 0x00, 0x00]@);
    let e = et(e, 4, 2, at as u32);
    let e = eb(e, [0x49u8, 0x83, 0xEB, 0x01, 0x4D, 0x89, 0xD8, 0x49, 0xC1, 0xE0, 0x03, 0x4D, 0x01, 0xE8, 0x49, 0x8B, 0x00, 0x49, 0x83, 0xEB, 0x01, 0x4D, 0x89, 0xD8, 0x49, 0xC1, 0xE0, 0x03, 0x4D, 0x01, 0xE8, 0x49, 0x8B, 0x08]@);
    let e = eb(e, [0x48u8, 0x29, 0xC1, 0x48, 0x89, 0xC8]@);
    let e = eb(e, [0x4Du8, 0x89, 0xD9, 0x49, 0xC1, 0xE1, 0x03, 0x4D, 0x01, 0xE9, 0x49, 0x89, 0x01, 0x49, 0xFF, 0xC3]@);
    e
}

/// The machine code of `Mul`.
pub open spec fn piece_mul(e: Emitted, data: u64, at: usize) -> Emitted {
    let e = eb(e, [0x49u8, 0x83, 0xFB, 0x02, 0x0F, 0x82, 0x00, 0x00, 0x00, 0x00]@);
    let e = et(e, 4, 2, at as u32);
    let e = eb(e, [0x49u8, 0x83, 0xEB, 0x01, 0x4D, 0x89, 0xD8, 0x49, 0xC1, 0xE0, 0x03, 0x4D, 0x01, 0xE8, 0x49, 0x8B, 0x00, 0x49, 0x83, 0xEB, 0x01, 0x4D, 0x89, 0xD8, 0x49, 0xC1, 0xE0, 0x03, 0x4D, 0x01, 0xE8, 0x49, 0x8B, 0x08]@);
    let e = eb(e, [0x48u8, 0x0F, 0xAF, 0xC1]@);
    let e = eb(e, [0x4Du8, 0x89, 0xD9, 0x49, 0xC1, 0xE1, 0x03, 0x4D, 0x01, 0xE9, 0x49, 0x89, 0x01, 0x49, 0xFF, 0xC3]@);
    e
}

/// The machine code of `Store`.
pub open spec fn piece_store(e: Emitted, data: u64, at: usize) -> Emitted {
    let e = eb(e, [0x49u8, 0x83, 0xFB, 0x02, 0x0F, 0x82, 0x00, 0x00, 0x00, 0x00]@);
    let e = et(e, 4, 2, at as u32);
    let e = eb(e, [0x49u8, 0x83, 0xEB, 0x01, 0x4D, 0x89, 0xD8, 0x49, 0xC1, 0xE0, 0x03, 0x4D, 0x01, 0xE8, 0x49, 0x8B, 0x38, 0x49, 0x83, 0xEB, 0x01, 0x4D, 0x89, 0xD8, 0x49, 0xC1, 0xE0, 0x03, 0x4D, 0x01, 0xE8, 0x49, 0x8B, 0x30]@);
    let e = eb(e, [0x48u8, 0x85, 0xFF, 0x0F, 0x88, 0x00, 0x00, 0x00, 0x00]@);
    let e = et(e, 4, 7, at as u32);
    let e = eb(e, [0x48u8, 0xF7, 0xC7, 0x07, 0x00, 0x00, 0x00, 0x0F, 0x85, 0x00, 0x00, 0x00, 0x00]@);
    let e = et(e, 4, 11, at as u32);
    let e = eb(e, [0x48u8, 0x89, 0xBB, 0x80, 0x00, 0x00, 0x00, 0x48, 0x3B, 0x7B, 0x48, 0x0F, 0x83, 0x00, 0x00, 0x00, 0x00]@);
    let e = et(e, 4, 7, at as u32);
    let e = eb(e, [0x48u8, 0x8B, 0x43, 0x50, 0x48, 0x8B, 0x4B, 0x58, 0x48, 0x3B, 0x4B, 0x60, 0x0F, 0x8D, 0x00, 0x00, 0x00, 0x00]@);
    let e = et(e, 4, 10, at as u32);
    let e = eb(e, [0x48u8, 0x89, 0x3C, 0xC8, 0x4C, 0x8B, 0x43, 0x40, 0x4D, 0x8B, 0x0C, 0x38, 0x4C, 0x89, 0x4C, 0xC8, 0x08, 0x48, 0x83, 0xC1, 0x02, 0x48, 0x89, 0x4B, 0x58, 0xC7, 0x43, 0x78, 0x01, 0x00, 0x00, 0x00]@);
    let e = eb(e, [0x49u8, 0x89, 0x34, 0x38]@);
    e
}

/// The machine code of `Fetch`.
pub open spec fn piece_fetch(e: Emitted, data: u64, at: usize) -> Emitted {
    let e = eb(e, [0x49u8, 0x83, 0xFB, 0x01, 0x0F, 0x82, 0x00, 0x00, 0x00, 0x00]@);
    let e = et(e, 4, 2, at as u32);
    let e = eb(e, [0x49u8, 0x83, 0xEB, 0x01, 0x4D, 0x89, 0xD8, 0x49, 0xC1, 0xE0, 0x03, 0x4D, 0x01, 0xE8, 0x49, 0x8B, 0x38]@);
    let e = eb(e, [0x48u8, 0x85, 0xFF, 0x0F, 0x88, 0x00, 0x00, 0x00, 0x00]@);
    let e = et(e, 4, 7, at as u32);
    let e = eb(e, [0x48u8, 0xF7, 0xC7, 0x07, 0x00, 0x00, 0x00, 0x0F, 0x85, 0x00, 0x00, 0x00, 0x00]@);
    let e = et(e, 4, 11, at as u32);
    let e = eb(e, [0x48u8, 0x89, 0xBB, 0x80, 0x00, 0x00, 0x00, 0x48, 0x3B, 0x7B, 0x48, 0x0F, 0x83, 0x00, 0x00, 0x00, 0x00]@);
    let e = et(e, 4, 7, at as u32);
    let e = eb(e, [0x48u8, 0x8B, 0x43, 0x40, 0x48, 0x8B, 0x04, 0x38]@);
    let e = eb(e, [0x4Du8, 0x89, 0xD9, 0x49, 0xC1, 0xE1, 0x03, 0x4D, 0x01, 0xE9, 0x49, 0x89, 0x01, 0x49, 0xFF, 0xC3]@);
    e
}

/// The machine code of `Eq`.
pub open spec fn piece_eq(e: Emitted, data: u64, at: usize) -> Emitted {
    let e = eb(e, [0x49u8, 0x83, 0xFB, 0x02, 0x0F, 0x82, 0x00, 0x00, 0x00, 0x00]@);
    let e = et(e, 4, 2, at as u32);
    let e = eb(e, [0x49u8, 0x83, 0xEB, 0x01, 0x4D, 0x89, 0xD8, 0x49, 0xC1, 0xE0, 0x03, 0x4D, 0x01, 0xE8, 0x49, 0x8B, 0x00, 0x49, 0x83, 0xEB, 0x01, 0x4D, 0x89, 0xD8, 0x49, 0xC1, 0xE0, 0x03, 0x4D, 0x01, 0xE8, 0x49, 0x8B, 0x08, 0x48, 0x39, 0xC1]@);
    let e = eb(e, [0x0Fu8, 0x94, 0xC0]@);
    let e = eb(e, [0x48u8, 0x0F, 0xB6, 0xC0, 0x48, 0xF7, 0xD8, 0x4D, 0x89, 0xD9, 0x49, 0xC1, 0xE1, 0x03, 0x4D, 0x01, 0xE9, 0x49, 0x89, 0x01, 0x49, 0xFF, 0xC3]@);
    e
}

/// The machine code of `Lt`.
pub open spec fn piece_lt(e: Emitted, data: u64, at: usize) -> Emitted {
    let e = eb(e, [0x49u8, 0x83, 0xFB, 0x02, 0x0F, 0x82, 0x00, 0x00, 0x00, 0x00]@);
    let e = et(e, 4, 2, at as u32);
    let e = eb(e, [0x49u8, 0x83, 0xEB, 0x01, 0x4D, 0x89, 0xD8, 0x49, 0xC1, 0xE0, 0x03, 0x4D, 0x01, 0xE8, 0x49, 0x8B, 0x00, 0x49, 0x83, 0xEB, 0x01, 0x4D, 0x89, 0xD8, 0x49, 0xC1, 0xE0, 0x03, 0x4D, 0x01, 0xE8, 0x49, 0x8B, 0x08, 0x48, 0x39, 0xC1]@);
    let e = eb(e, [0x0Fu8, 0x9C, 0xC0]@);
    let e = eb(e, [0x48u8, 0x0F, 0xB6, 0xC0, 0x48, 0xF7, 0xD8, 0x4D, 0x89, 0xD9, 0x49, 0xC1, 0xE1, 0x03, 0x4D, 0x01, 0xE9, 0x49, 0x89, 0x01, 0x49, 0xFF, 0xC3]@);
    e
}

/// The machine code of `Gt`.
pub open spec fn piece_gt(e: Emitted, data: u64, at: usize) -> Emitted {
    let e = eb(e, [0x49u8, 0x83, 0xFB, 0x02, 0x0F, 0x82, 0x00, 0x00, 0x00, 0x00]@);
    let e = et(e, 4, 2, at as u32);
    let e = eb(e, [0x49u8, 0x83, 0xEB, 0x01, 0x4D, 0x89, 0xD8, 0x49, 0xC1, 0xE0, 0x03, 0x4D, 0x01, 0xE8, 0x49, 0x8B, 0x00, 0x49, 0x83, 0xEB, 0x01, 0x4D, 0x89, 0xD8, 0x49, 0xC1, 0xE0, 0x03, 0x4D, 0x01, 0xE8, 0x49, 0x8B, 0x08, 0x48, 0x39, 0xC1]@);
    let e = eb(e, [0x0Fu8, 0x9F, 0xC0]@);
    let e = eb(e, [0x48u8, 0x0F, 0xB6, 0xC0, 0x48, 0xF7, 0xD8, 0x4D, 0x89, 0xD9, 0x49, 0xC1, 0xE1, 0x03, 0x4D, 0x01, 0xE9, 0x49, 0x89, 0x01, 0x49, 0xFF, 0xC3]@);
    e
}

/// The machine code of `ToR`.
pub open spec fn piece_to_r(e: Emitted, data: u64, at: usize) -> Emitted {
    let e = eb(e, [0x49u8, 0x83, 0xFB, 0x01, 0x0F, 0x82, 0x00, 0x00, 0x00, 0x00]@);
    let e = et(e, 4, 2, at as u32);
    let e = eb(e, [0x4Cu8, 0x3B, 0x93, 0xD8, 0x00, 0x00, 0x00, 0x0F, 0x8D, 0x00, 0x00, 0x00, 0x00]@);
    let e = et(e, 4, 1, at as u32);
    let e = eb(e, [0x49u8, 0x83, 0xEB, 0x01, 0x4D, 0x89, 0xD8, 0x49, 0xC1, 0xE0, 0x03, 0x4D, 0x01, 0xE8, 0x49, 0x8B, 0x00, 0x4D, 0x89, 0x04, 0xD4, 0x49, 0xFF, 0xC2]@);
    e
}

/// The machine code of `FromR`.
pub open spec fn piece_from_r(e: Emitted, data: u64, at: usize) -> Emitted {
    let e = eb(e, [0x49u8, 0x83, 0xFA, 0x01, 0x0F, 0x82, 0x00, 0x00, 0x00, 0x00]@);
    let e = et(e, 4, 2, at as u32);
    let e = eb(e, [0x4Cu8, 0x3B, 0x5B, 0x20, 0x0F, 0x8D, 0x00, 0x00, 0x00, 0x00]@);
    let e = et(e, 4, 1, at as u32);
    let e = eb(e, [0x49u8, 0x83, 0xEA, 0x01, 0x49, 0x8B, 0x04, 0xD4, 0x4D, 0x89, 0xD9, 0x49, 0xC1, 0xE1, 0x03, 0x4D, 0x01, 0xE9, 0x49, 0x89, 0x01, 0x49, 0xFF, 0xC3]@);
    e
}

/// The machine code of `Dup`.
pub open spec fn piece_dup(e: Emitted, data: u64, at: usize) -> Emitted {
    let e = eb(e, [0x49u8, 0x83, 0xFB, 0x01, 0x0F, 0x82, 0x00, 0x00, 0x00, 0x00]@);
    let e = et(e, 4, 2, at as u32);
    let e = eb(e, [0x4Cu8, 0x3B, 0x5B, 0x20, 0x0F, 0x8D, 0x00, 0x00, 0x00, 0x00]@);
    let e = et(e, 4, 1, at as u32);
    let e = eb(e, [0x4Fu8, 0x8B, 0x44, 0xDD, 0xF8, 0x4F, 0x89, 0x44, 0xDD, 0x00, 0x49, 0xFF, 0xC3]@);
    e
}

/// The machine code of `Drop`.
pub open spec fn piece_drop(e: Emitted, data: u64, at: usize) -> Emitted {
    let e = eb(e, [0x49u8, 0x83, 0xFB, 0x01, 0x0F, 0x82, 0x00, 0x00, 0x00, 0x00]@);
    let e = et(e, 4, 2, at as u32);
    let e = eb(e, [0x49u8, 0xFF, 0xCB]@);
    e
}

/// The machine code of `Swap`.
pub open spec fn piece_swap(e: Emitted, data: u64, at: usize) -> Emitted {
    let e = eb(e, [0x49u8, 0x83, 0xFB, 0x02, 0x0F, 0x82, 0x00, 0x00, 0x00, 0x00]@);
    let e = et(e, 4, 2, at as u32);
    let e = eb(e, [0x4Fu8, 0x8B, 0x44, 0xDD, 0xF8, 0x4F, 0x8B, 0x4C, 0xDD, 0xF0, 0x4F, 0x89, 0x4C, 0xDD, 0xF8, 0x4F, 0x89, 0x44, 0xDD, 0xF0]@);
    e
}

/// The machine code of `Over`.
pub open spec fn piece_over(e: Emitted, data: u64, at: usize) -> Emitted {
    let e = eb(e, [0x49u8, 0x83, 0xFB, 0x02, 0x0F, 0x82, 0x00, 0x00, 0x00, 0x00]@);
    let e = et(e, 4, 2, at as u32);
    let e = eb(e, [0x4Cu8, 0x3B, 0x5B, 0x20, 0x0F, 0x8D, 0x00, 0x00, 0x00, 0x00]@);
    let e = et(e, 4, 1, at as u32);
    let e = eb(e, [0x4Fu8, 0x8B, 0x44, 0xDD, 0xF0, 0x4F, 0x89, 0x44, 0xDD, 0x00, 0x49, 0xFF, 0xC3]@);
    e
}

/// The machine code of `Inc`.
pub open spec fn piece_inc(e: Emitted, data: u64, at: usize) -> Emitted {
    let e = eb(e, [0x49u8, 0x83, 0xFB, 0x01, 0x0F, 0x82, 0x00, 0x00, 0x00, 0x00]@);
    let e = et(e, 4, 2, at as u32);
    let e = eb(e, [0x4Fu8, 0x8B, 0x44, 0xDD, 0xF8]@);
    let e = eb(e, [0x49u8, 0xFF, 0xC0]@);
    let e = eb(e, [0x4Fu8, 0x89, 0x44, 0xDD, 0xF8]@);
    e
}

/// The machine code of `Dec`.
pub open spec fn piece_dec(e: Emitted, data: u64, at: usize) -> Emitted {
    let e = eb(e, [0x49u8, 0x83, 0xFB, 0x01, 0x0F, 0x82, 0x00, 0x00, 0x00, 0x00]@);
    let e = et(e, 4, 2, at as u32);
    let e = eb(e, [0x4Fu8, 0x8B, 0x44, 0xDD, 0xF8]@);
    let e = eb(e, [0x49u8, 0xFF, 0xC8]@);
    let e = eb(e, [0x4Fu8, 0x89, 0x44, 0xDD, 0xF8]@);
    e
}

/// The machine code of `Do`.
pub open spec fn piece_do_loop(e: Emitted, data: u64, at: usize) -> Emitted {
    let e = eb(e, [0x49u8, 0x83, 0xFB, 0x02, 0x0F, 0x82, 0x00, 0x00, 0x00, 0x00]@);
    let e = et(e, 4, 2, at as u32);
    let e = eb(e, [0x49u8, 0x83, 0xEB, 0x01, 0x4D, 0x89, 0xD8, 0x49, 0xC1, 0xE0, 0x03, 0x4D, 0x01, 0xE8, 0x49, 0x8B, 0x30, 0x49, 0x83, 0xEB, 0x01, 0x4D, 0x89, 0xD8, 0x49, 0xC1, 0xE0, 0x03, 0x4D, 0x01, 0xE8, 0x49, 0x8B, 0x38]@);
    let e = eb(e, [0x4Cu8, 0x8B, 0x8B, 0x90, 0x00, 0x00, 0x00, 0x48, 0x8B, 0x93, 0x98, 0x00, 0x00, 0x00, 0x48, 0x3B, 0x93, 0xE0, 0x00, 0x00, 0x00, 0x0F, 0x8D, 0x00, 0x00, 0x00, 0x00]@);
    let e = et(e, 4, 1, at as u32);
    let e = eb(e, [0x49u8, 0x89, 0x3C, 0xD1, 0x48, 0xFF, 0xC2, 0x49, 0x89, 0x34, 0xD1, 0x48, 0xFF, 0xC2, 0x48, 0x89, 0x93, 0x98, 0x00, 0x00, 0x00]@);
    e
}

/// The machine code of `Loop`.
pub open spec fn piece_loop_back(e: Emitted, data: u64, at: usize) -> Emitted {
    let loop_target = ((at as i64) + 1 + ((data as i32) as i64)) as usize;
    let e = eb(e, [0x4Cu8, 0x8B, 0x8B, 0x90, 0x00, 0x00, 0x00, 0x48, 0x8B, 0x93, 0x98, 0x00, 0x00, 0x00, 0x49, 0x83, 0xFA, 0x02, 0x0F, 0x82, 0x00, 0x00, 0x00, 0x00]@);
    let e = et(e, 4, 2, at as u32);
    let e = eb(e, [0x49u8, 0x8B, 0x74, 0xD1, 0xF8, 0x49, 0x8B, 0x7C, 0xD1, 0xF0, 0x48, 0xFF, 0xC6, 0x48, 0x39, 0xFE, 0x0F, 0x8D, 0x0A, 0x00, 0x00, 0x00]@);
    let e = eb(e, [0x49u8, 0x89, 0x74, 0xD1, 0xF8, 0xE9, 0x00, 0x00, 0x00, 0x00]@);
    let e = ej(e, loop_target);
    let e = eb(e, [0x49u8, 0x83, 0xEA, 0x02, 0x48, 0x89, 0x93, 0x98, 0x00, 0x00, 0x00]@);
    e
}

/// The machine code of `I`.
pub open spec fn piece_loop_index(e: Emitted, data: u64, at: usize) -> Emitted {
    let e = eb(e, [0x4Cu8, 0x8B, 0x8B, 0x90, 0x00, 0x00, 0x00, 0x48, 0x8B, 0x93, 0x98, 0x00, 0x00, 0x00, 0x49, 0x83, 0xFA, 0x01, 0x0F, 0x82, 0x00, 0x00, 0x00, 0x00]@);
    let e = et(e, 4, 2, at as u32);
    let e = eb(e, [0x4Bu8, 0x8B, 0x44, 0xD1, 0xF8, 0x4D, 0x89, 0x04, 0xDD, 0x49, 0xFF, 0xC3]@);
    e
}

/// The machine code of `Jump` before its jump site.
pub open spec fn piece_jump(e: Emitted, at: usize) -> Emitted {
    let e = eb(e, [0xE9u8, 0x00, 0x00, 0x00, 0x00]@);
    e
}

/// The machine code of `JZ` before its jump site.
pub open spec fn piece_jz(e: Emitted, at: usize) -> Emitted {
    let e = eb(e, [0x49u8, 0x83, 0xFB, 0x01, 0x0F, 0x82, 0x00, 0x00, 0x00, 0x00]@);
    let e = et(e, 4, 2, at as u32);
    let e = eb(e, [0x49u8, 0xFF, 0xCB, 0x4D, 0x89, 0xD8, 0x49, 0xC1, 0xE0, 0x03, 0x4D, 0x01, 0xE8, 0x49, 0x8B, 0x00, 0x48, 0x85, 0xC0, 0x0F, 0x84, 0x00, 0x00, 0x00, 0x00]@);
    e
}

/// The machine code for instruction `op` (data `data`), the `at`-th of a
/// block of `nops`, appended to `e`; the error for an instruction that
/// has no native form or a jump that leaves the block.
pub open spec fn op_piece(e: Emitted, op: Op, data: u64, at: usize, nops: usize) -> Result<Emitted, ForthErrorKind> {
    match op {
        Op::Push => Ok(piece_push(e, data, at)),
        Op::Add => Ok(piece_add(e, data, at)),
        Op::Sub => Ok(piece_sub(e, data, at)),
        Op::Mul => Ok(piece_mul(e, data, at)),
        Op::Store => Ok(piece_store(e, data, at)),
        Op::Fetch => Ok(piece_fetch(e, data, at)),
        Op::Eq => Ok(piece_eq(e, data, at)),
        Op::Lt => Ok(piece_lt(e, data, at)),
        Op::Gt => Ok(piece_gt(e, data, at)),
        Op::ToR => Ok(piece_to_r(e, data, at)),
        Op::FromR => Ok(piece_from_r(e, data, at)),
        Op::Dup => Ok(piece_dup(e, data, at)),
        Op::Drop => Ok(piece_drop(e, data, at)),
        Op::Swap => Ok(piece_swap(e, data, at)),
        Op::Over => Ok(piece_over(e, data, at)),
        Op::Inc => Ok(piece_inc(e, data, at)),
        Op::Dec => Ok(piece_dec(e, data, at)),
        Op::Do => Ok(piece_do_loop(e, data, at)),
        Op::Loop => Ok(piece_loop_back(e, data, at)),
        Op::I => Ok(piece_loop_index(e, data, at)),
        Op::Jump => {
            let t = at + 1 + (data as i64);
            if t < 0 || t > nops {
                Err(ForthErrorKind::JumpOutOfBounds { target: t as usize })
            } else {
                Ok(ej(piece_jump(e, at), t as usize))
            }
        },
        Op::JZ => {
            let t = at + 1 + (data as i64);
            if t < 0 || t > nops {
                Err(ForthErrorKind::JumpOutOfBounds { target: t as usize })
            } else {
                Ok(ej(piece_jz(e, at), t as usize))
            }
        },
        _ => Err(ForthErrorKind::InvalidOpcode),
    }
}

/// The code that records address `cur` in the path trace.
pub open spec fn path_piece(e: Emitted, cur: u64) -> Emitted {
    let e = eb(e, [0x48u8, 0x8B, 0x83, 0xB8, 0x00, 0x00, 0x00, 0x48, 0x8B, 0x8B, 0xC0, 0x00, 0x00, 0x00, 0x48, 0x3B, 0x8B, 0xC8, 0x00, 0x00, 0x00, 0x73, 0x0F, 0x48, 0xB8]@);
    let e = eb(e, le64(cur));
    let e = eb(e, [0x48u8, 0x8B, 0x93, 0xB8, 0x00, 0x00, 0x00, 0x48, 0x89, 0x04, 0xCA, 0x48, 0xFF, 0xC1, 0x48, 0x89, 0x8B, 0xC0, 0x00, 0x00, 0x00]@);
    e
}

fn emit_push(e: &mut Emitter, data: u64, at: usize)
    requires
        at < 256,
    ensures
        final(e)@ == piece_push(old(e)@, data, at),
        piece_bounded(old(e)@, final(e)@, 146, 5),
{
    e.bytes(&[0x4Cu8, 0x3B, 0x5B, 0x20, 0x0F, 0x8D, 0x00, 0x00, 0x00, 0x00]);
    e.trap(4, 1, at as u32);
    e.bytes(&[0x48u8, 0xB8]);
    e.le64(data);
    e.bytes(&[0x4Du8, 0x89, 0xD8, 0x49, 0xC1, 0xE0, 0x03, 0x4D, 0x01, 0xE8, 0x49, 0x89, 0x00, 0x49, 0xFF, 0xC3]);
}

fn emit_add(e: &mut Emitter, data: u64, at: usize)
    requires
        at < 256,
    ensures
        final(e)@ == piece_add(old(e)@, data, at),
        piece_bounded(old(e)@, final(e)@, 146, 5),
{
    e.bytes(&[0x49u8, 0x83, 0xFB, 0x02, 0x0F, 0x82, 0x00, 0x00, 0x00, 0x00]);
    e.trap(4, 2, at as u32);
    e.bytes(&[0x49u8, 0x83, 0xEB, 0x01, 0x4D, 0x89, 0xD8, 0x49, 0xC1, 0xE0, 0x03, 0x4D, 0x01, 0xE8, 0x49, 0x8B, 0x00, 0x49, 0x83, 0xEB, 0x01, 0x4D, 0x89, 0xD8, 0x49, 0xC1, 0xE0, 0x03, 0x4D, 0x01, 0xE8, 0x49, 0x8B, 0x08]);
    e.bytes(&[0x48u8, 0x01, 0xC8]);
    e.bytes(&[0x4Du8, 0x89, 0xD9, 0x49, 0xC1, 0xE1, 0x03, 0x4D, 0x01, 0xE9, 0x49, 0x89, 0x01, 0x49, 0xFF, 0xC3]);
}

fn emit_sub(e: &mut Emitter, data: u64, at: usize)
    requires
        at < 256,
    ensures
        final(e)@ == piece_sub(old(e)@, data, at),
        piece_bounded(old(e)@, final(e)@, 146, 5),
{
    e.bytes(&[0x49u8, 0x83, 0xFB, 0x02, 0x0F, 0x82, 0x00, 0x00, 0x00, 0x00]);
    e.trap(4, 2, at as u32);
    e.bytes(&[0x49u8, 0x83, 0xEB, 0x01, 0x4D, 0x89, 0xD8, 0x49, 0xC1, 0xE0, 0x03, 0x4D, 0x01, 0xE8, 0x49, 0x8B, 0x00, 0x49, 0x83, 0xEB, 0x01, 0x4D, 0x89, 0xD8, 0x49, 0xC1, 0xE0, 0x03, 0x4D, 0x01, 0xE8, 0x49, 0x8B, 0x08]);
    e.bytes(&[0x48u8, 0x29, 0xC1, 0x48, 0x89, 0xC8]);
    e.bytes(&[0x4Du8, 0x89, 0xD9, 0x49, 0xC1, 0xE1, 0x03, 0x4D, 0x01, 0xE9, 0x49, 0x89, 0x01, 0x49, 0xFF, 0xC3]);
}

fn emit_mul(e: &mut Emitter, data: u64, at: usize)
    requires
        at < 256,
    ensures
        final(e)@ == piece_mul(old(e)@, data, at),
        piece_bounded(old(e)@, final(e)@, 146, 5),
{
    e.bytes(&[0x49u8, 0x83, 0xFB, 0x02, 0x0F, 0x82, 0x00, 0x00, 0x00, 0x00]);
    e.trap(4, 2, at as u32);
    e.bytes(&[0x49u8, 0x83, 0xEB, 0x01, 0x4D, 0x89, 0xD8, 0x49, 0xC1, 0xE0, 0x03, 0x4D, 0x01, 0xE8, 0x49, 0x8B, 0x00, 0x49, 0x83, 0xEB, 0x01, 0x4D, 0x89, 0xD8, 0x49, 0xC1, 0xE0, 0x03, 0x4D, 0x01, 0xE8, 0x49, 0x8B, 0x08]);
    e.bytes(&[0x48u8, 0x0F, 0xAF, 0xC1]);
    e.bytes(&[0x4Du8, 0x89, 0xD9, 0x49, 0xC1, 0xE1, 0x03, 0x4D, 0x01, 0xE9, 0x49, 0x89, 0x01, 0x49, 0xFF, 0xC3]);
}

fn emit_store(e: &mut Emitter, data: u64, at: usize)
    requires
        at < 256,
    ensures
        final(e)@ == piece_store(old(e)@, data, at),
        piece_bounded(old(e)@, final(e)@, 146, 5),
{
    e.bytes(&[0x49u8, 0x83, 0xFB, 0x02, 0x0F, 0x82, 0x00, 0x00, 0x00, 0x00]);
    e.trap(4, 2, at as u32);
    e.bytes(&[0x49u8, 0x83, 0xEB, 0x01, 0x4D, 0x89, 0xD8, 0x49, 0xC1, 0xE0, 0x03, 0x4D, 0x01, 0xE8, 0x49, 0x8B, 0x38, 0x49, 0x83, 0xEB, 0x01, 0x4D, 0x89, 0xD8, 0x49, 0xC1, 0xE0, 0x03, 0x4D, 0x01, 0xE8, 0x49, 0x8B, 0x30]);
    e.bytes(&[0x48u8, 0x85, 0xFF, 0x0F, 0x88, 0x00, 0x00, 0x00, 0x00]);
    e.trap(4, 7, at as u32);
    e.bytes(&[0x48u8, 0xF7, 0xC7, 0x07, 0x00, 0x00, 0x00, 0x0F, 0x85, 0x00, 0x00, 0x00, 0x00]);
    e.trap(4, 11, at as u32);
    e.bytes(&[0x48u8, 0x89, 0xBB, 0x80, 0x00, 0x00, 0x00, 0x48, 0x3B, 0x7B, 0x48, 0x0F, 0x83, 0x00, 0x00, 0x00, 0x00]);
    e.trap(4, 7, at as u32);
    e.bytes(&[0x48u8, 0x8B, 0x43, 0x50, 0x48, 0x8B, 0x4B, 0x58, 0x48, 0x3B, 0x4B, 0x60, 0x0F, 0x8D, 0x00, 0x00, 0x00, 0x00]);
    e.trap(4, 10, at as u32);
    e.bytes(&[0x48u8, 0x89, 0x3C, 0xC8, 0x4C, 0x8B, 0x43, 0x40, 0x4D, 0x8B, 0x0C, 0x38, 0x4C, 0x89, 0x4C, 0xC8, 0x08, 0x48, 0x83, 0xC1, 0x02, 0x48, 0x89, 0x4B, 0x58, 0xC7, 0x43, 0x78, 0x01, 0x00, 0x00, 0x00]);
    e.bytes(&[0x49u8, 0x89, 0x34, 0x38]);
}

fn emit_fetch(e: &mut Emitter, data: u64, at: usize)
    requires
        at < 256,
    ensures
        final(e)@ == piece_fetch(old(e)@, data, at),
        piece_bounded(old(e)@, final(e)@, 146, 5),
{
    e.bytes(&[0x49u8, 0x83, 0xFB, 0x01, 0x0F, 0x82, 0x00, 0x00, 0x00, 0x00]);
    e.trap(4, 2, at as u32);
    e.bytes(&[0x49u8, 0x83, 0xEB, 0x01, 0x4D, 0x89, 0xD8, 0x49, 0xC1, 0xE0, 0x03, 0x4D, 0x01, 0xE8, 0x49, 0x8B, 0x38]);
    e.bytes(&[0x48u8, 0x85, 0xFF, 0x0F, 0x88, 0x00, 0x00, 0x00, 0x00]);
    e.trap(4, 7, at as u32);
    e.bytes(&[0x48u8, 0xF7, 0xC7, 0x07, 0x00, 0x00, 0x00, 0x0F, 0x85, 0x00, 0x00, 0x00, 0x00]);
    e.trap(4, 11, at as u32);
    e.bytes(&[0x48u8, 0x89, 0xBB, 0x80, 0x00, 0x00, 0x00, 0x48, 0x3B, 0x7B, 0x48, 0x0F, 0x83, 0x00, 0x00, 0x00, 0x00]);
    e.trap(4, 7, at as u32);
    e.bytes(&[0x48u8, 0x8B, 0x43, 0x40, 0x48, 0x8B, 0x04, 0x38]);
    e.bytes(&[0x4Du8, 0x89, 0xD9, 0x49, 0xC1, 0xE1, 0x03, 0x4D, 0x01, 0xE9, 0x49, 0x89, 0x01, 0x49, 0xFF, 0xC3]);
}

fn emit_eq(e: &mut Emitter, data: u64, at: usize)
    requires
        at < 256,
    ensures
        final(e)@ == piece_eq(old(e)@, data, at),
        piece_bounded(old(e)@, final(e)@, 146, 5),
{
    e.bytes(&[0x49u8, 0x83, 0xFB, 0x02, 0x0F, 0x82, 0x00, 0x00, 0x00, 0x00]);
    e.trap(4, 2, at as u32);
    e.bytes(&[0x49u8, 0x83, 0xEB, 0x01, 0x4D, 0x89, 0xD8, 0x49, 0xC1, 0xE0, 0x03, 0x4D, 0x01, 0xE8, 0x49, 0x8B, 0x00, 0x49, 0x83, 0xEB, 0x01, 0x4D, 0x89, 0xD8, 0x49, 0xC1, 0xE0, 0x03, 0x4D, 0x01, 0xE8, 0x49, 0x8B, 0x08, 0x48, 0x39, 0xC1]);
    e.bytes(&[0x0Fu8, 0x94, 0xC0]);
    e.bytes(&[0x48u8, 0x0F, 0xB6, 0xC0, 0x48, 0xF7, 0xD8, 0x4D, 0x89, 0xD9, 0x49, 0xC1, 0xE1, 0x03, 0x4D, 0x01, 0xE9, 0x49, 0x89, 0x01, 0x49, 0xFF, 0xC3]);
}

fn emit_lt(e: &mut Emitter, data: u64, at: usize)
    requires
        at < 256,
    ensures
        final(e)@ == piece_lt(old(e)@, data, at),
        piece_bounded(old(e)@, final(e)@, 146, 5),
{
    e.bytes(&[0x49u8, 0x83, 0xFB, 0x02, 0x0F, 0x82, 0x00, 0x00, 0x00, 0x00]);
    e.trap(4, 2, at as u32);
    e.bytes(&[0x49u8, 0x83, 0xEB, 0x01, 0x4D, 0x89, 0xD8, 0x49, 0xC1, 0xE0, 0x03, 0x4D, 0x01, 0xE8, 0x49, 0x8B, 0x00, 0x49, 0x83, 0xEB, 0x01, 0x4D, 0x89, 0xD8, 0x49, 0xC1, 0xE0, 0x03, 0x4D, 0x01, 0xE8, 0x49, 0x8B, 0x08, 0x48, 0x39, 0xC1]);
    e.bytes(&[0x0Fu8, 0x9C, 0xC0]);
    e.bytes(&[0x48u8, 0x0F, 0xB6, 0xC0, 0x48, 0xF7, 0xD8, 0x4D, 0x89, 0xD9, 0x49, 0xC1, 0xE1, 0x03, 0x4D, 0x01, 0xE9, 0x49, 0x89, 0x01, 0x49, 0xFF, 0xC3]);
}

fn emit_gt(e: &mut Emitter, data: u64, at: usize)
    requires
        at < 256,
    ensures
        final(e)@ == piece_gt(old(e)@, data, at),
        piece_bounded(old(e)@, final(e)@, 146, 5),
{
    e.bytes(&[0x49u8, 0x83, 0xFB, 0x02, 0x0F, 0x82, 0x00, 0x00, 0x00, 0x00]);
    e.trap(4, 2, at as u32);
    e.bytes(&[0x49u8, 0x83, 0xEB, 0x01, 0x4D, 0x89, 0xD8, 0x49, 0xC1, 0xE0, 0x03, 0x4D, 0x01, 0xE8, 0x49, 0x8B, 0x00, 0x49, 0x83, 0xEB, 0x01, 0x4D, 0x89, 0xD8, 0x49, 0xC1, 0xE0, 0x03, 0x4D, 0x01, 0xE8, 0x49, 0x8B, 0x08, 0x48, 0x39, 0xC1]);
    e.bytes(&[0x0Fu8, 0x9F, 0xC0]);
    e.bytes(&[0x48u8, 0x0F, 0xB6, 0xC0, 0x48, 0xF7, 0xD8, 0x4D, 0x89, 0xD9, 0x49, 0xC1, 0xE1, 0x03, 0x4D, 0x01, 0xE9, 0x49, 0x89, 0x01, 0x49, 0xFF, 0xC3]);
}

fn emit_to_r(e: &mut Emitter, data: u64, at: usize)
    requires
        at < 256,
    ensures
        final(e)@ == piece_to_r(old(e)@, data, at),
        piece_bounded(old(e)@, final(e)@, 146, 5),
{
    e.bytes(&[0x49u8, 0x83, 0xFB, 0x01, 0x0F, 0x82, 0x00, 0x00, 0x00, 0x00]);
    e.trap(4, 2, at as u32);
    e.bytes(&[0x4Cu8, 0x3B, 0x93, 0xD8, 0x00, 0x00, 0x00, 0x0F, 0x8D, 0x00, 0x00, 0x00, 0x00]);
    e.trap(4, 1, at as u32);
    e.bytes(&[0x49u8, 0x83, 0xEB, 0x01, 0x4D, 0x89, 0xD8, 0x49, 0xC1, 0xE0, 0x03, 0x4D, 0x01, 0xE8, 0x49, 0x8B, 0x00, 0x4D, 0x89, 0x04, 0xD4, 0x49, 0xFF, 0xC2]);
}

fn emit_from_r(e: &mut Emitter, data: u64, at: usize)
    requires
        at < 256,
    ensures
        final(e)@ == piece_from_r(old(e)@, data, at),
        piece_bounded(old(e)@, final(e)@, 146, 5),
{
    e.bytes(&[0x49u8, 0x83, 0xFA, 0x01, 0x0F, 0x82, 0x00, 0x00, 0x00, 0x00]);
    e.trap(4, 2, at as u32);
    e.bytes(&[0x4Cu8, 0x3B, 0x5B, 0x20, 0x0F, 0x8D, 0x00, 0x00, 0x00, 0x00]);
    e.trap(4, 1, at as u32);
    e.bytes(&[0x49u8, 0x83, 0xEA, 0x01, 0x49, 0x8B, 0x04, 0xD4, 0x4D, 0x89, 0xD9, 0x49, 0xC1, 0xE1, 0x03, 0x4D, 0x01, 0xE9, 0x49, 0x89, 0x01, 0x49, 0xFF, 0xC3]);
}

fn emit_dup(e: &mut Emitter, data: u64, at: usize)
    requires
        at < 256,
    ensures
        final(e)@ == piece_dup(old(e)@, data, at),
        piece_bounded(old(e)@, final(e)@, 146, 5),
{
    e.bytes(&[0x49u8, 0x83, 0xFB, 0x01, 0x0F, 0x82, 0x00, 0x00, 0x00, 0x00]);
    e.trap(4, 2, at as u32);
    e.bytes(&[0x4Cu8, 0x3B, 0x5B, 0x20, 0x0F, 0x8D, 0x00, 0x00, 0x00, 0x00]);
    e.trap(4, 1, at as u32);
    e.bytes(&[0x4Fu8, 0x8B, 0x44, 0xDD, 0xF8, 0x4F, 0x89, 0x44, 0xDD, 0x00, 0x49, 0xFF, 0xC3]);
}

fn emit_drop(e: &mut Emitter, data: u64, at: usize)
    requires
        at < 256,
    ensures
        final(e)@ == piece_drop(old(e)@, data, at),
        piece_bounded(old(e)@, final(e)@, 146, 5),
{
    e.bytes(&[0x49u8, 0x83, 0xFB, 0x01, 0x0F, 0x82, 0x00, 0x00, 0x00, 0x00]);
    e.trap(4, 2, at as u32);
    e.bytes(&[0x49u8, 0xFF, 0xCB]);
}

fn emit_swap(e: &mut Emitter, data: u64, at: usize)
    requires
        at < 256,
    ensures
        final(e)@ == piece_swap(old(e)@, data, at),
        piece_bounded(old(e)@, final(e)@, 146, 5),
{
    e.bytes(&[0x49u8, 0x83, 0xFB, 0x02, 0x0F, 0x82, 0x00, 0x00, 0x00, 0x00]);
    e.trap(4, 2, at as u32);
    e.bytes(&[0x4Fu8, 0x8B, 0x44, 0xDD, 0xF8, 0x4F, 0x8B, 0x4C, 0xDD, 0xF0, 0x4F, 0x89, 0x4C, 0xDD, 0xF8, 0x4F, 0x89, 0x44, 0xDD, 0xF0]);
}

fn emit_over(e: &mut Emitter, data: u64, at: usize)
    requires
        at < 256,
    ensures
        final(e)@ == piece_over(old(e)@, data, at),
        piece_bounded(old(e)@, final(e)@, 146, 5),
{
    e.bytes(&[0x49u8, 0x83, 0xFB, 0x02, 0x0F, 0x82, 0x00, 0x00, 0x00, 0x00]);
    e.trap(4, 2, at as u32);
    e.bytes(&[0x4Cu8, 0x3B, 0x5B, 0x20, 0x0F, 0x8D, 0x00, 0x00, 0x00, 0x00]);
    e.trap(4, 1, at as u32);
    e.bytes(&[0x4Fu8, 0x8B, 0x44, 0xDD, 0xF0, 0x4F, 0x89, 0x44, 0xDD, 0x00, 0x49, 0xFF, 0xC3]);
}

fn emit_inc(e: &mut Emitter, data: u64, at: usize)
    requires
        at < 256,
    ensures
        final(e)@ == piece_inc(old(e)@, data, at),
        piece_bounded(old(e)@, final(e)@, 146, 5),
{
    e.bytes(&[0x49u8, 0x83, 0xFB, 0x01, 0x0F, 0x82, 0x00, 0x00, 0x00, 0x00]);
    e.trap(4, 2, at as u32);
    e.bytes(&[0x4Fu8, 0x8B, 0x44, 0xDD, 0xF8]);
    e.bytes(&[0x49u8, 0xFF, 0xC0]);
    e.bytes(&[0x4Fu8, 0x89, 0x44, 0xDD, 0xF8]);
}

fn emit_dec(e: &mut Emitter, data: u64, at: usize)
    requires
        at < 256,
    ensures
        final(e)@ == piece_dec(old(e)@, data, at),
        piece_bounded(old(e)@, final(e)@, 146, 5),
{
    e.bytes(&[0x49u8, 0x83, 0xFB, 0x01, 0x0F, 0x82, 0x00, 0x00, 0x00, 0x00]);
    e.trap(4, 2, at as u32);
    e.bytes(&[0x4Fu8, 0x8B, 0x44, 0xDD, 0xF8]);
    e.bytes(&[0x49u8, 0xFF, 0xC8]);
    e.bytes(&[0x4Fu8, 0x89, 0x44, 0xDD, 0xF8]);
}

fn emit_do_loop(e: &mut Emitter, data: u64, at: usize)
    requires
        at < 256,
    ensures
        final(e)@ == piece_do_loop(old(e)@, data, at),
        piece_bounded(old(e)@, final(e)@, 146, 5),
{
    e.bytes(&[0x49u8, 0x83, 0xFB, 0x02, 0x0F, 0x82, 0x00, 0x00, 0x00, 0x00]);
    e.trap(4, 2, at as u32);
    e.bytes(&[0x49u8, 0x83, 0xEB, 0x01, 0x4D, 0x89, 0xD8, 0x49, 0xC1, 0xE0, 0x03, 0x4D, 0x01, 0xE8, 0x49, 0x8B, 0x30, 0x49, 0x83, 0xEB, 0x01, 0x4D, 0x89, 0xD8, 0x49, 0xC1, 0xE0, 0x03, 0x4D, 0x01, 0xE8, 0x49, 0x8B, 0x38]);
    e.bytes(&[0x4Cu8, 0x8B, 0x8B, 0x90, 0x00, 0x00, 0x00, 0x48, 0x8B, 0x93, 0x98, 0x00, 0x00, 0x00, 0x48, 0x3B, 0x93, 0xE0, 0x00, 0x00, 0x00, 0x0F, 0x8D, 0x00, 0x00, 0x00, 0x00]);
    e.trap(4, 1, at as u32);
    e.bytes(&[0x49u8, 0x89, 0x3C, 0xD1, 0x48, 0xFF, 0xC2, 0x49, 0x89, 0x34, 0xD1, 0x48, 0xFF, 0xC2, 0x48, 0x89, 0x93, 0x98, 0x00, 0x00, 0x00]);
}

fn emit_loop_back(e: &mut Emitter, data: u64, at: usize)
    requires
        at < 256,
    ensures
        final(e)@ == piece_loop_back(old(e)@, data, at),
        piece_bounded(old(e)@, final(e)@, 146, 5),
{
    let loop_target = (at as i64 + 1 + (data as i32) as i64) as usize;
    e.bytes(&[0x4Cu8, 0x8B, 0x8B, 0x90, 0x00, 0x00, 0x00, 0x48, 0x8B, 0x93, 0x98, 0x00, 0x00, 0x00, 0x49, 0x83, 0xFA, 0x02, 0x0F, 0x82, 0x00, 0x00, 0x00, 0x00]);
    e.trap(4, 2, at as u32);
    e.bytes(&[0x49u8, 0x8B, 0x74, 0xD1, 0xF8, 0x49, 0x8B, 0x7C, 0xD1, 0xF0, 0x48, 0xFF, 0xC6, 0x48, 0x39, 0xFE, 0x0F, 0x8D, 0x0A, 0x00, 0x00, 0x00]);
    e.bytes(&[0x49u8, 0x89, 0x74, 0xD1, 0xF8, 0xE9, 0x00, 0x00, 0x00, 0x00]);
    e.jump(loop_target);
    e.bytes(&[0x49u8, 0x83, 0xEA, 0x02, 0x48, 0x89, 0x93, 0x98, 0x00, 0x00, 0x00]);
}

fn emit_loop_index(e: &mut Emitter, data: u64, at: usize)
    requires
        at < 256,
    ensures
        final(e)@ == piece_loop_index(old(e)@, data, at),
        piece_bounded(old(e)@, final(e)@, 146, 5),
{
    e.bytes(&[0x4Cu8, 0x8B, 0x8B, 0x90, 0x00, 0x00, 0x00, 0x48, 0x8B, 0x93, 0x98, 0x00, 0x00, 0x00, 0x49, 0x83, 0xFA, 0x01, 0x0F, 0x82, 0x00, 0x00, 0x00, 0x00]);
    e.trap(4, 2, at as u32);
    e.bytes(&[0x4Bu8, 0x8B, 0x44, 0xD1, 0xF8, 0x4D, 0x89, 0x04, 0xDD, 0x49, 0xFF, 0xC3]);
}

fn emit_jump(e: &mut Emitter, at: usize)
    requires
        at < 256,
    ensures
        final(e)@ == piece_jump(old(e)@, at),
        piece_bounded(old(e)@, final(e)@, 146, 5),
        final(e)@.code.len() >= 4,
        final(e)@.jumps == old(e)@.jumps,
{
    e.bytes(&[0xE9u8, 0x00, 0x00, 0x00, 0x00]);
}

fn emit_jz(e: &mut Emitter, at: usize)
    requires
        at < 256,
    ensures
        final(e)@ == piece_jz(old(e)@, at),
        piece_bounded(old(e)@, final(e)@, 146, 5),
        final(e)@.code.len() >= 4,
        final(e)@.jumps == old(e)@.jumps,
{
    e.bytes(&[0x49u8, 0x83, 0xFB, 0x01, 0x0F, 0x82, 0x00, 0x00, 0x00, 0x00]);
    e.trap(4, 2, at as u32);
    e.bytes(&[0x49u8, 0xFF, 0xCB, 0x4D, 0x89, 0xD8, 0x49, 0xC1, 0xE0, 0x03, 0x4D, 0x01, 0xE8, 0x49, 0x8B, 0x00, 0x48, 0x85, 0xC0, 0x0F, 0x84, 0x00, 0x00, 0x00, 0x00]);
}

/// Appends the machine code of one instruction, as `op_piece` says.
fn emit_op(e: &mut Emitter, op: Op, data: u64, at: usize, nops: usize) -> (r: Result<(), ForthErrorKind>)
    requires
        at < nops <= 256,
        (op == Op::Jump || op == Op::JZ) ==> jump_fits_block(at, data),
    ensures
        match op_piece(old(e)@, op, data, at, nops) {
            Ok(e2) => r is Ok && final(e)@ == e2,
            Err(k) => r == Err::<(), ForthErrorKind>(k),
        },
        r is Ok ==> piece_bounded(old(e)@, final(e)@, 146, 5),
{
    match op {
        Op::Push => {
            emit_push(e, data, at);
            Ok(())
        },
        Op::Add => {
            emit_add(e, data, at);
            Ok(())
        },
        Op::Sub => {
            emit_sub(e, data, at);
            Ok(())
        },
        Op::Mul => {
            emit_mul(e, data, at);
            Ok(())
        },
        Op::Store => {
            emit_store(e, data, at);
            Ok(())
        },
        Op::Fetch => {
            emit_fetch(e, data, at);
            Ok(())
        },
        Op::Eq => {
            emit_eq(e, data, at);
            Ok(())
        },
        Op::Lt => {
            emit_lt(e, data, at);
            Ok(())
        },
        Op::Gt => {
            emit_gt(e, data, at);
            Ok(())
        },
        Op::ToR => {
            emit_to_r(e, data, at);
            Ok(())
        },
        Op::FromR => {
            emit_from_r(e, data, at);
            Ok(())
        },
        Op::Dup => {
            emit_dup(e, data, at);
            Ok(())
        },
        Op::Drop => {
            emit_drop(e, data, at);
            Ok(())
        },
        Op::Swap => {
            emit_swap(e, data, at);
            Ok(())
        },
        Op::Over => {
            emit_over(e, data, at);
            Ok(())
        },
        Op::Inc => {
            emit_inc(e, data, at);
            Ok(())
        },
        Op::Dec => {
            emit_dec(e, data, at);
            Ok(())
        },
        Op::Do => {
            emit_do_loop(e, data, at);
            Ok(())
        },
        Op::Loop => {
            emit_loop_back(e, data, at);
            Ok(())
        },
        Op::I => {
            emit_loop_index(e, data, at);
            Ok(())
        },
        Op::Jump => {
            emit_jump(e, at);
            let t = at as i64 + 1 + data as i64;
            if t < 0 || t > nops as i64 {
                return Err(ForthErrorKind::JumpOutOfBounds { target: t as usize });
            }
            e.jump(t as usize);
            Ok(())
        },
        Op::JZ => {
            emit_jz(e, at);
            let t = at as i64 + 1 + data as i64;
            if t < 0 || t > nops as i64 {
                return Err(ForthErrorKind::JumpOutOfBounds { target: t as usize });
            }
            e.jump(t as usize);
            Ok(())
        },
        _ => Err(ForthErrorKind::InvalidOpcode),
    }
}

/// Appends the code that records address `cur` in the path trace.
fn emit_path(e: &mut Emitter, cur: u64)
    ensures
        final(e)@ == path_piece(old(e)@, cur),
        piece_bounded(old(e)@, final(e)@, 54, 0),
{
    e.bytes(&[0x48u8, 0x8B, 0x83, 0xB8, 0x00, 0x00, 0x00, 0x48, 0x8B, 0x8B, 0xC0, 0x00, 0x00, 0x00, 0x48, 0x3B, 0x8B, 0xC8, 0x00, 0x00, 0x00, 0x73, 0x0F, 0x48, 0xB8]);
    e.le64(cur);
    e.bytes(&[0x48u8, 0x8B, 0x93, 0xB8, 0x00, 0x00, 0x00, 0x48, 0x89, 0x04, 0xCA, 0x48, 0xFF, 0xC1, 0x48, 0x89, 0x8B, 0xC0, 0x00, 0x00, 0x00]);
}

/// The code before the first instruction: the prologue that saves the
/// registers, the move of the context argument (from `rcx` on Windows,
/// `rdi` elsewhere), the context checks and the register loads.
pub open spec fn header(windows: bool) -> Emitted {
    let e = Emitted { code: Seq::empty(), traps: Seq::empty(), jumps: Seq::empty() };
    let e = eb(e, [0x53u8, 0x41, 0x54, 0x41, 0x55, 0x41, 0x56, 0x41, 0x57, 0x56, 0x57, 0x9C, 0x55, 0x48, 0x89, 0xE5, 0x48, 0x83, 0xE4, 0xF0, 0x48, 0x83, 0xEC, 0x20]@);
    let e = eb(e, if windows { [0x48u8, 0x89, 0xCB]@ } else { [0x48u8, 0x89, 0xFB]@ });
    let e = eb(e, [0x48u8, 0xB8, 0x48, 0x54, 0x52, 0x4F, 0x46, 0x49, 0x41, 0x4B, 0x48, 0x3B, 0x03, 0x0F, 0x85, 0x00, 0x00, 0x00, 0x00]@);
    let e = et(e, 4, 3, 0);
    let e = eb(e, [0x48u8, 0x83, 0x7B, 0x08, 0x01, 0x0F, 0x85, 0x00, 0x00, 0x00, 0x00, 0x48, 0x81, 0x7B, 0x10, 0x08, 0x01, 0x00, 0x00, 0x0F, 0x85, 0x00, 0x00, 0x00, 0x00]@);
    let e = et(e, 10, 3, 0);
    let e = et(e, 4, 3, 0);
    let e = eb(e, [0x4Cu8, 0x8B, 0x6B, 0x18, 0x4C, 0x8B, 0x5B, 0x28, 0x4C, 0x8B, 0x63, 0x30, 0x4C, 0x8B, 0x53, 0x38]@);
    e
}

/// The code of instructions `i..` of `ops` appended to `e`, each after its
/// path-trace code; `targets` gathers where each instruction's code starts.
pub open spec fn emit_body(e: Emitted, ops: Seq<(Op, u64)>, base: usize, i: nat, targets: Seq<usize>) -> Result<(Emitted, Seq<usize>), ForthErrorKind>
    decreases ops.len() - i,
{
    if i >= ops.len() {
        Ok((e, targets))
    } else {
        let t2 = targets.push(e.code.len() as usize);
        let e1 = path_piece(e, (base + i) as u64);
        match op_piece(e1, ops[i as int].0, ops[i as int].1, i as usize, ops.len() as usize) {
            Ok(e2) => emit_body(e2, ops, base, i + 1, t2),
            Err(k) => Err(k),
        }
    }
}

/// The code after the last instruction: store the depths and the end
/// address, restore the registers and return.
pub open spec fn epilogue(end_ip: u64) -> Seq<u8> {
    [0x4Cu8, 0x89, 0x5B, 0x28, 0x4C, 0x89, 0x53, 0x38, 0x48, 0xB8]@ + le64(end_ip)
        + [0x48u8, 0x89, 0x43, 0x68, 0x48, 0x89, 0xEC, 0x5D, 0x9D, 0x5F, 0x5E, 0x41, 0x5F, 0x41, 0x5E, 0x41, 0x5D, 0x41, 0x5C, 0x5B, 0xC3]@
}

/// The restoring tail shared by the trap pads.
pub open spec fn pad_tail() -> Seq<u8> {
    [0x4Cu8, 0x89, 0x5B, 0x28, 0x4C, 0x89, 0x53, 0x38, 0x48, 0x89, 0xEC, 0x5D, 0x9D, 0x5F, 0x5E, 0x41, 0x5F, 0x41, 0x5E, 0x41, 0x5D, 0x41, 0x5C, 0x5B, 0xC3]@
}

/// A trap pad: store the trap code and instruction index, then the depths,
/// restore the registers and return.
pub open spec fn pad(id: u8, at: u32) -> Seq<u8> {
    [0x48u8, 0xC7, 0x43, 0x70, id, 0x00, 0x00, 0x00, 0x48, 0xC7, 0x83, 0xD0, 0x00, 0x00, 0x00]@ + le32(at) + pad_tail()
}

/// The `nop` bytes that bring a length of `n` to a multiple of 16.
pub open spec fn nop_fill(n: nat) -> Seq<u8> {
    Seq::new(((16 - n % 16) % 16) as nat, |i: int| 0x90u8)
}

/// `code` with a pad for each trap site from the `k`-th on, each padded to
/// a 16-byte boundary; `starts` gathers where each pad starts.
pub open spec fn with_pads(code: Seq<u8>, traps: Seq<(usize, u8, u32)>, k: nat, starts: Seq<usize>) -> (Seq<u8>, Seq<usize>)
    decreases traps.len() - k,
{
    if k >= traps.len() {
        (code, starts)
    } else {
        let c1 = code + pad(traps[k as int].1, traps[k as int].2);
        with_pads(c1 + nop_fill(c1.len()), traps, k + 1, starts.push(code.len() as usize))
    }
}

/// `code` with the little-endian `v` written at `pos`.
pub open spec fn patch(code: Seq<u8>, pos: int, v: i32) -> Seq<u8> {
    code.subrange(0, pos) + le32(v as u32) + code.subrange(pos + 4, code.len() as int)
}

/// The displacement from the end of a four-byte field at `pos` to `target`.
pub open spec fn rel(target: int, pos: int) -> i32 {
    (target - (pos + 4)) as i32
}

/// `code` with the jump sites from the `k`-th on filled in: an instruction
/// index with no code (past the end) jumps to the epilogue at `epi`.
pub open spec fn patch_jumps(code: Seq<u8>, jumps: Seq<(usize, usize)>, targets: Seq<usize>, epi: usize, k: nat) -> Seq<u8>
    decreases jumps.len() - k,
{
    if k >= jumps.len() {
        code
    } else {
        let pos = jumps[k as int].0;
        let t = jumps[k as int].1;
        let tp = if t < targets.len() { targets[t as int] } else { epi };
        patch_jumps(patch(code, pos as int, rel(tp as int, pos as int)), jumps, targets, epi, k + 1)
    }
}

/// `code` with the trap sites from the `k`-th on pointed at their pads.
pub open spec fn patch_traps(code: Seq<u8>, traps: Seq<(usize, u8, u32)>, starts: Seq<usize>, k: nat) -> Seq<u8>
    decreases traps.len() - k,
{
    if k >= traps.len() {
        code
    } else {
        let pos = traps[k as int].0;
        patch_traps(patch(code, pos as int, rel(starts[k as int] as int, pos as int)), traps, starts, k + 1)
    }
}

/// The machine code of a super-instruction for `ops` starting at address
/// `base`: header, the instructions, the epilogue (which leaves `resume` as
/// the address to go on from) and trap pads, with every jump and trap site
/// filled in; or the error of the first instruction that cannot be
/// compiled.
pub open spec fn emit_spec(base: usize, ops: Seq<(Op, u64)>, windows: bool, resume: u64) -> Result<Seq<u8>, ForthErrorKind> {
    match emit_body(header(windows), ops, base, 0, Seq::empty()) {
        Err(k) => Err(k),
        Ok((e1, targets)) => {
            let epi = e1.code.len() as usize;
            let e2 = eb(e1, epilogue(resume));
            let (c3, starts) = with_pads(e2.code, e2.traps, 0, Seq::empty());
            Ok(patch_traps(patch_jumps(c3, e2.jumps, targets.push(epi), epi, 0), e2.traps, starts, 0))
        },
    }
}

/// The largest code a block of at most 256 instructions takes.
pub const MAX_CODE: usize = 200000;

fn emit_header(windows: bool) -> (e: Emitter)
    ensures
        e@ == header(windows),
        e@.code.len() <= 87,
        e@.traps.len() == 3,
        e@.jumps.len() == 0,
        sites_inside(e@),
{
    let mut e = Emitter { code: Vec::new(), traps: Vec::new(), jumps: Vec::new() };
    assert(e@ =~= (Emitted { code: Seq::empty(), traps: Seq::empty(), jumps: Seq::empty() }));
    e.bytes(&[0x53u8, 0x41, 0x54, 0x41, 0x55, 0x41, 0x56, 0x41, 0x57, 0x56, 0x57, 0x9C, 0x55, 0x48, 0x89, 0xE5, 0x48, 0x83, 0xE4, 0xF0, 0x48, 0x83, 0xEC, 0x20]);
    if windows {
        e.bytes(&[0x48u8, 0x89, 0xCB]);
    } else {
        e.bytes(&[0x48u8, 0x89, 0xFB]);
    }
    e.bytes(&[0x48u8, 0xB8, 0x48, 0x54, 0x52, 0x4F, 0x46, 0x49, 0x41, 0x4B, 0x48, 0x3B, 0x03, 0x0F, 0x85, 0x00, 0x00, 0x00, 0x00]);
    e.trap(4, 3, 0);
    e.bytes(&[0x48u8, 0x83, 0x7B, 0x08, 0x01, 0x0F, 0x85, 0x00, 0x00, 0x00, 0x00, 0x48, 0x81, 0x7B, 0x10, 0x08, 0x01, 0x00, 0x00, 0x0F, 0x85, 0x00, 0x00, 0x00, 0x00]);
    e.trap(10, 3, 0);
    e.trap(4, 3, 0);
    e.bytes(&[0x4Cu8, 0x8B, 0x6B, 0x18, 0x4C, 0x8B, 0x5B, 0x28, 0x4C, 0x8B, 0x63, 0x30, 0x4C, 0x8B, 0x53, 0x38]);
    e
}

/// Writes the little-endian `v` at `pos`.
fn patch_at(code: &mut Vec<u8>, pos: usize, v: i32)
    requires
        pos + 4 <= old(code)@.len(),
    ensures
        final(code)@ == patch(old(code)@, pos as int, v),
{
    let x = v as u32;
    assert(pos + 4 <= code.len());
    code.set(pos, x as u8);
    code.set(pos + 1, (x >> 8u32) as u8);
    code.set(pos + 2, (x >> 16u32) as u8);
    code.set(pos + 3, (x >> 24u32) as u8);
    assert(code@ =~= patch(old(code)@, pos as int, v));
}

/// Appends `nop` bytes up to a multiple of 16.
fn fill_nops(code: &mut Vec<u8>)
    ensures
        final(code)@ == old(code)@ + nop_fill(old(code)@.len()),
{
    let ghost n0 = code@.len();
    while code.len() % 16 != 0
        invariant
            code@.len() >= n0,
            code@.len() - n0 <= (16 - n0 % 16) % 16,
            (code@.len() - n0 + n0 % 16) % 16 == code@.len() % 16,
            code@ == old(code)@ + Seq::new((code@.len() - n0) as nat, |i: int| 0x90u8),
            n0 == old(code)@.len(),
        decreases (16 - n0 % 16) % 16 - (code@.len() - n0),
    {
        code.push(0x90);
        assert(code@ =~= old(code)@ + Seq::new((code@.len() - n0) as nat, |i: int| 0x90u8));
    }
    assert(code@.len() - n0 == (16 - n0 % 16) % 16);
    assert(code@ =~= old(code)@ + nop_fill(old(code)@.len()));
}

/// The machine code of a super-instruction, as `emit_spec` says, for a
/// block of at most 256 instructions starting at address `super_idx`;
/// `windows` selects the Windows calling convention, and `resume` is the
/// address the code leaves to go on from after a clean run.
pub fn emit_super(super_idx: usize, ops: &[(Op, u64)], windows: bool, resume: u64) -> (r: Result<Vec<u8>, ForthErrorKind>)
    requires
        ops@.len() <= MAX_BLOCK_OPS,
        super_idx + ops@.len() <= usize::MAX,
        block_jumps_fit(ops@),
    ensures
        match emit_spec(super_idx, ops@, windows, resume) {
            Ok(c) => r matches Ok(v) && v@ == c,
            Err(k) => r == Err::<Vec<u8>, ForthErrorKind>(k),
        },
{
    let mut e = emit_header(windows);
    let mut targets: Vec<usize> = Vec::new();
    let n = ops.len();
    let ghost body = emit_body(header(windows), ops@, super_idx, 0, Seq::empty());
    let mut i: usize = 0;
    while i < n
        invariant
            n == ops@.len(),
            n <= 256,
            i <= n,
            super_idx + n <= usize::MAX,
            block_jumps_fit(ops@),
            targets@.len() == i,
            forall|j: int| 0 <= j < targets@.len() ==> #[trigger] targets@[j] <= e@.code.len(),
            emit_body(e@, ops@, super_idx, i as nat, targets@) == body,
            body == emit_body(header(windows), ops@, super_idx, 0, Seq::empty()),
            e@.code.len() <= 87 + 200 * i,
            e@.traps.len() <= 3 + 5 * i,
            e@.jumps.len() <= i,
            sites_inside(e@),
        decreases n - i,
    {
        targets.push(e.code.len());
        emit_path(&mut e, (super_idx + i) as u64);
        let (op, data) = ops[i];
        proof {
            if op == Op::Jump || op == Op::JZ {
                assert(jump_fits_block(i, ops@[i as int].1));
            }
        }
        match emit_op(&mut e, op, data, i, n) {
            Ok(()) => {},
            Err(k) => {
                return Err(k);
            },
        }
        i = i + 1;
    }
    let epi = e.code.len();
    targets.push(epi);
    let end_ip = resume;
    e.bytes(&[0x4Cu8, 0x89, 0x5B, 0x28, 0x4C, 0x89, 0x53, 0x38, 0x48, 0xB8]);
    e.le64(end_ip);
    e.bytes(&[0x48u8, 0x89, 0x43, 0x68, 0x48, 0x89, 0xEC, 0x5D, 0x9D, 0x5F, 0x5E, 0x41, 0x5F, 0x41, 0x5E, 0x41, 0x5D, 0x41, 0x5C, 0x5B, 0xC3]);
    let ghost e2 = e@;
    assert(e2.code =~= body.unwrap().0.code + epilogue(end_ip));
    assert(sites_inside(e2));
    let traps = e.traps;
    let jumps = e.jumps;
    let mut code = e.code;
    // Trap pads.
    let ghost padded = with_pads(code@, traps@, 0, Seq::empty());
    let mut starts: Vec<usize> = Vec::new();
    let mut k: usize = 0;
    while k < traps.len()
        invariant
            k <= traps@.len(),
            traps@.len() <= 3 + 5 * 256,
            with_pads(code@, traps@, k as nat, starts@) == padded,
            starts@.len() == k,
            code@.len() <= 87 + 200 * 256 + 39 + 64 * k,
            code@.len() >= e2.code.len(),
            forall|j: int| 0 <= j < k ==> #[trigger] starts@[j] < code@.len(),
            forall|j: int| 0 <= j < traps@.len() ==> #[trigger] traps@[j].0 + 4 <= code@.len(),
            forall|j: int| 0 <= j < jumps@.len() ==> #[trigger] jumps@[j].0 + 4 <= code@.len(),
            forall|j: int| 0 <= j < targets@.len() ==> #[trigger] targets@[j] <= code@.len(),
            epi <= code@.len(),
        decreases traps.len() - k,
    {
        starts.push(code.len());
        let (_, id, at) = traps[k];
        let ghost before = code@;
        code.extend_from_slice(&[0x48u8, 0xC7, 0x43, 0x70, id, 0x00, 0x00, 0x00, 0x48, 0xC7, 0x83, 0xD0, 0x00, 0x00, 0x00]);
        code.extend_from_slice(&[at as u8, (at >> 8u32) as u8, (at >> 16u32) as u8, (at >> 24u32) as u8]);
        code.extend_from_slice(&[0x4Cu8, 0x89, 0x5B, 0x28, 0x4C, 0x89, 0x53, 0x38, 0x48, 0x89, 0xEC, 0x5D, 0x9D, 0x5F, 0x5E, 0x41, 0x5F, 0x41, 0x5E, 0x41, 0x5D, 0x41, 0x5C, 0x5B, 0xC3]);
        assert(code@ =~= before + pad(id, at));
        fill_nops(&mut code);
        k = k + 1;
    }
    assert(code@ == padded.0 && starts@ == padded.1);
    // Jump sites.
    let ghost targets_all = targets@;
    let ghost jumped = patch_jumps(code@, jumps@, targets_all, epi, 0);
    let mut k: usize = 0;
    while k < jumps.len()
        invariant
            k <= jumps@.len(),
            patch_jumps(code@, jumps@, targets_all, epi, k as nat) == jumped,
            targets@ == targets_all,
            code@.len() <= MAX_CODE,
            forall|j: int| 0 <= j < jumps@.len() ==> #[trigger] jumps@[j].0 + 4 <= code@.len(),
            forall|j: int| 0 <= j < traps@.len() ==> #[trigger] traps@[j].0 + 4 <= code@.len(),
            starts@.len() == traps@.len(),
            forall|j: int| 0 <= j < starts@.len() ==> #[trigger] starts@[j] <= MAX_CODE,
            forall|j: int| 0 <= j < targets@.len() ==> #[trigger] targets@[j] <= MAX_CODE,
            epi <= MAX_CODE,
        decreases jumps.len() - k,
    {
        let (pos, t) = jumps[k];
        let tp = if t < targets.len() { targets[t] } else { epi };
        let off: i32 = (tp as i32) - ((pos as i32) + 4);
        patch_at(&mut code, pos, off);
        k = k + 1;
    }
    // Trap sites.
    let ghost trapped = patch_traps(code@, traps@, starts@, 0);
    let mut k: usize = 0;
    while k < traps.len()
        invariant
            k <= traps@.len(),
            starts@.len() == traps@.len(),
            patch_traps(code@, traps@, starts@, k as nat) == trapped,
            code@.len() <= MAX_CODE,
            forall|j: int| 0 <= j < traps@.len() ==> #[trigger] traps@[j].0 + 4 <= code@.len(),
            forall|j: int| 0 <= j < starts@.len() ==> #[trigger] starts@[j] <= MAX_CODE,
        decreases traps.len() - k,
    {
        let (pos, _, _) = traps[k];
        let off: i32 = (starts[k] as i32) - ((pos as i32) + 4);
        patch_at(&mut code, pos, off);
        k = k + 1;
    }
    Ok(code)
}


} // verus!
