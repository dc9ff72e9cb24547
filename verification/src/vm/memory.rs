use crate::common::error::{ForthResult, ForthError, ForthErrorKind, ForthPhase};
use crate::vm::bytes::{
    map_anon, mmap_bytes, mmap_len, mmap_get, mmap_set, mmap_copy_range, mmap_read_i64,
    mmap_write_i64, le_i64, i64_le_bytes, lemma_le_roundtrip, lemma_le_bytes_roundtrip,
};
use vstd::prelude::*;

verus! {

/// Byte-addressed data memory with an allocation pointer.
pub struct Memory {
    pub raw: memmap2::MmapMut,
    pub here: usize,
}

/// The writable byte view of a map (its `DerefMut` to `[u8]`): it starts
/// as the map's bytes, and the map ends as what the view was left holding.
#[verifier::external_body]
fn mmap_slice_mut(m: &mut memmap2::MmapMut) -> (r: &mut [u8])
    ensures
        r@ == mmap_bytes(*old(m)),
        mmap_bytes(*final(m)) == final(r)@,
{
    &mut m[..]
}

/// A memory error of the execution phase.
pub open spec fn oob(addr: usize, limit: usize) -> ForthError {
    ForthError { kind: ForthErrorKind::MemoryOOB { addr, limit }, phase: ForthPhase::Execution }
}

/// The read-only byte view of a map (its `Deref` to `[u8]`).
#[verifier::external_body]
fn mmap_slice(m: &memmap2::MmapMut) -> (r: &[u8])
    ensures
        r@ == mmap_bytes(*m),
{
    &m[..]
}

impl Memory {
    /// The bytes of memory.
    pub open spec fn bytes(&self) -> Seq<u8> {
        mmap_bytes(self.raw)
    }

    /// A memory of `sz` bytes with nothing allotted. Fails, with
    /// `ExecutionStateCorrupted`, when the mapping cannot be made (always
    /// when `sz` exceeds `isize::MAX`).
    pub fn try_new(sz: usize) -> (r: ForthResult<Self>)
        ensures
            r matches Ok(m) ==> m.bytes().len() == sz && m.here == 0,
            r matches Err(e) ==> e == (ForthError { kind: ForthErrorKind::ExecutionStateCorrupted, phase: ForthPhase::Execution }),
            sz > isize::MAX ==> r is Err,
    {
        match map_anon(sz) {
            Some(raw) => Ok(Memory { raw, here: 0 }),
            None => Err(ForthError::new(ForthErrorKind::ExecutionStateCorrupted, ForthPhase::Execution)),
        }
    }

    /// An independent copy with the same bytes and allocation pointer.
    pub fn try_clone(&self) -> (r: ForthResult<Self>)
        ensures
            r matches Ok(m) ==> m.bytes() == self.bytes() && m.here == self.here,
            r matches Err(e) ==> e == (ForthError { kind: ForthErrorKind::ExecutionStateCorrupted, phase: ForthPhase::Execution }),
    {
        let n = mmap_len(&self.raw);
        match map_anon(n) {
            Some(mut raw) => {
                mmap_copy_range(&mut raw, &self.raw, 0, n);
                assert(mmap_bytes(raw) =~= self.bytes());
                Ok(Memory { raw, here: self.here })
            },
            None => Err(ForthError::new(ForthErrorKind::ExecutionStateCorrupted, ForthPhase::Execution)),
        }
    }

    /// The byte at `a`; out of bounds is a `MemoryOOB` error.
    pub fn read_u8(&self, a: usize) -> (r: ForthResult<u8>)
        ensures
            a < self.bytes().len() ==> r == Ok::<u8, ForthError>(self.bytes()[a as int]),
            a >= self.bytes().len() ==> r == Err::<u8, ForthError>(oob(a, self.bytes().len() as usize)),
    {
        let n = mmap_len(&self.raw);
        if a >= n {
            return Err(ForthError::new(ForthErrorKind::MemoryOOB { addr: a, limit: n }, ForthPhase::Execution));
        }
        Ok(mmap_get(&self.raw, a))
    }

    /// Stores byte `v` at `a`; out of bounds is a `MemoryOOB` error and
    /// changes nothing.
    pub fn write_u8(&mut self, a: usize, v: u8) -> (r: ForthResult<()>)
        ensures
            final(self).here == old(self).here,
            a < old(self).bytes().len() ==> r is Ok && final(self).bytes() == old(self).bytes().update(a as int, v),
            a >= old(self).bytes().len() ==> r == Err::<(), ForthError>(oob(a, old(self).bytes().len() as usize))
                && final(self).bytes() == old(self).bytes(),
    {
        let n = mmap_len(&self.raw);
        if a >= n {
            return Err(ForthError::new(ForthErrorKind::MemoryOOB { addr: a, limit: n }, ForthPhase::Execution));
        }
        mmap_set(&mut self.raw, a, v);
        Ok(())
    }

    /// The little-endian `i64` at `a..a+8`; a cell not wholly inside memory
    /// is a `MemoryOOB` error.
    pub fn read_i64(&self, a: usize) -> (r: ForthResult<i64>)
        requires
            a + 8 <= usize::MAX,
        ensures
            a + 8 <= self.bytes().len() ==> r == Ok::<i64, ForthError>(le_i64(self.bytes().subrange(a as int, a + 8))),
            a + 8 > self.bytes().len() ==> r == Err::<i64, ForthError>(oob(a, self.bytes().len() as usize)),
    {
        let n = mmap_len(&self.raw);
        if a + 8 > n {
            return Err(ForthError::new(ForthErrorKind::MemoryOOB { addr: a, limit: n }, ForthPhase::Execution));
        }
        Ok(mmap_read_i64(&self.raw, a))
    }

    /// Stores `v` little-endian at `a..a+8`; a cell not wholly inside memory
    /// is a `MemoryOOB` error and changes nothing.
    pub fn write_i64(&mut self, a: usize, v: i64) -> (r: ForthResult<()>)
        requires
            a + 8 <= usize::MAX,
        ensures
            final(self).here == old(self).here,
            final(self).bytes().len() == old(self).bytes().len(),
            a + 8 <= old(self).bytes().len() ==> r is Ok && final(self).bytes() == old(self).bytes().subrange(0, a as int) + i64_le_bytes(v)
                + old(self).bytes().subrange(a + 8, old(self).bytes().len() as int),
            a + 8 > old(self).bytes().len() ==> r == Err::<(), ForthError>(oob(a, old(self).bytes().len() as usize))
                && final(self).bytes() == old(self).bytes(),
    {
        let n = mmap_len(&self.raw);
        if a + 8 > n {
            return Err(ForthError::new(ForthErrorKind::MemoryOOB { addr: a, limit: n }, ForthPhase::Execution));
        }
        mmap_write_i64(&mut self.raw, a, v);
        proof {
            let b = self.bytes();
            let o = old(self).bytes();
            assert(b =~= o.subrange(0, a as int) + i64_le_bytes(v) + o.subrange(a + 8, o.len() as int)) by {
                assert forall|i: int| 0 <= i < b.len() implies b[i] == (o.subrange(0, a as int) + i64_le_bytes(v) + o.subrange(a + 8, o.len() as int))[i] by {
                    if a <= i < a + 8 {
                        assert(b[i] == b.subrange(a as int, a + 8)[i - a]);
                    }
                }
            }
        }
        Ok(())
    }

    /// Allots `n` bytes at the next 8-byte boundary at or after the
    /// allocation pointer, and returns where they start; when they do not
    /// fit, a `MemoryOOB` error naming their end, and nothing changes.
    pub fn allot(&mut self, n: usize) -> (r: ForthResult<usize>)
        requires
            aligned_up(old(self).here) + n <= usize::MAX,
        ensures
            final(self).bytes() == old(self).bytes(),
            ({
                let a = aligned_up(old(self).here);
                if a + n > old(self).bytes().len() {
                    r == Err::<usize, ForthError>(oob((a + n) as usize, old(self).bytes().len() as usize))
                        && final(self).here == old(self).here
                } else {
                    r == Ok::<usize, ForthError>(a as usize) && final(self).here == a + n
                }
            }),
    {
        let pad = (8 - (self.here % 8)) % 8;
        let a = self.here + pad;
        let len = mmap_len(&self.raw);
        if a + n > len {
            return Err(ForthError::new(ForthErrorKind::MemoryOOB { addr: a + n, limit: len }, ForthPhase::Execution));
        }
        self.here = a + n;
        Ok(a)
    }

    /// The bytes of memory as a slice.
    pub fn get_raw_slice(&self) -> (r: &[u8])
        ensures
            r@ == self.bytes(),
    {
        mmap_slice(&self.raw)
    }

    /// The memory as a writable byte slice; the memory ends holding what
    /// the slice was left holding.
    pub fn as_slice_mut(&mut self) -> (r: &mut [u8])
        ensures
            r@ == old(self).bytes(),
            final(self).bytes() == final(r)@,
            final(self).here == old(self).here,
    {
        mmap_slice_mut(&mut self.raw)
    }

    /// The size of memory in bytes, never more than `isize::MAX`.
    pub fn len(&self) -> (r: usize)
        ensures
            r == self.bytes().len(),
            r <= isize::MAX,
    {
        mmap_len(&self.raw)
    }
}

/// The first multiple of 8 at or after `h`.
pub open spec fn aligned_up(h: usize) -> int {
    h + (8 - h % 8) % 8
}

/// What a write of `v` at `a` leaves there is read back.
pub proof fn lemma_read_after_write(before: Seq<u8>, a: int, v: i64)
    requires
        0 <= a,
        a + 8 <= before.len(),
    ensures
        le_i64((before.subrange(0, a) + i64_le_bytes(v) + before.subrange(a + 8, before.len() as int)).subrange(a, a + 8)) == v,
{
    let after = before.subrange(0, a) + i64_le_bytes(v) + before.subrange(a + 8, before.len() as int);
    assert(after.subrange(a, a + 8) =~= i64_le_bytes(v));
    lemma_le_roundtrip(v);
}

/// Memory with `v` written little-endian at `a`.
pub open spec fn overwrite(mem: Seq<u8>, a: int, v: i64) -> Seq<u8> {
    mem.subrange(0, a) + i64_le_bytes(v) + mem.subrange(a + 8, mem.len() as int)
}

/// Memory with the first `k` entries of journal `j` undone, the last
/// first. Entry `i` is the two words at `2 * i`: an address and the bits
/// the eight bytes there held before a write. An entry whose cell is not
/// inside memory is passed over.
pub open spec fn unjournal(mem: Seq<u8>, j: Seq<u64>, k: nat) -> Seq<u8>
    decreases k,
{
    if k == 0 {
        mem
    } else {
        let a = j[2 * (k - 1)] as int;
        let m1 = if a + 8 <= mem.len() { overwrite(mem, a, j[2 * (k - 1) + 1] as i64) } else { mem };
        unjournal(m1, j, (k - 1) as nat)
    }
}

/// Memory after the writes `ws` (address and value), in order.
pub open spec fn after_writes(m: Seq<u8>, ws: Seq<(usize, i64)>) -> Seq<u8>
    decreases ws.len(),
{
    if ws.len() == 0 {
        m
    } else {
        overwrite(after_writes(m, ws.drop_last()), ws.last().0 as int, ws.last().1)
    }
}

/// The journal the writes `ws` leave: for each, its address and the bits
/// its cell held just before it.
pub open spec fn journal_of(m: Seq<u8>, ws: Seq<(usize, i64)>) -> Seq<u64>
    decreases ws.len(),
{
    if ws.len() == 0 {
        Seq::empty()
    } else {
        let before = after_writes(m, ws.drop_last());
        let a = ws.last().0 as int;
        journal_of(m, ws.drop_last()) + seq![ws.last().0 as u64, le_i64(before.subrange(a, a + 8)) as u64]
    }
}

/// Writes stay the same length.
proof fn lemma_after_writes_len(m: Seq<u8>, ws: Seq<(usize, i64)>)
    requires
        forall|i: int| 0 <= i < ws.len() ==> #[trigger] ws[i].0 + 8 <= m.len(),
    ensures
        after_writes(m, ws).len() == m.len(),
        journal_of(m, ws).len() == 2 * ws.len(),
    decreases ws.len(),
{
    if ws.len() > 0 {
        assert forall|i: int| 0 <= i < ws.drop_last().len() implies #[trigger] ws.drop_last()[i].0 + 8 <= m.len() by {
            assert(ws.drop_last()[i] == ws[i]);
        }
        lemma_after_writes_len(m, ws.drop_last());
        assert(ws[ws.len() - 1].0 + 8 <= m.len());
    }
}

/// Undoing `k` entries reads only those entries.
proof fn lemma_unjournal_prefix(mem: Seq<u8>, j: Seq<u64>, extra: Seq<u64>, k: nat)
    requires
        2 * k <= j.len(),
    ensures
        unjournal(mem, j + extra, k) == unjournal(mem, j, k),
    decreases k,
{
    if k > 0 {
        let a = j[2 * (k - 1)] as int;
        assert((j + extra)[2 * (k - 1)] == j[2 * (k - 1)]);
        assert((j + extra)[2 * (k - 1) + 1] == j[2 * (k - 1) + 1]);
        let m1 = if a + 8 <= mem.len() { overwrite(mem, a, j[2 * (k - 1) + 1] as i64) } else { mem };
        lemma_unjournal_prefix(m1, j, extra, (k - 1) as nat);
    }
}

/// Writing back the bytes a cell held undoes a write to it.
proof fn lemma_overwrite_back(m: Seq<u8>, a: int, v: i64)
    requires
        0 <= a,
        a + 8 <= m.len(),
    ensures
        overwrite(overwrite(m, a, v), a, le_i64(m.subrange(a, a + 8))) == m,
{
    lemma_le_bytes_roundtrip(m.subrange(a, a + 8));
    let m1 = overwrite(m, a, v);
    assert(m1.len() == m.len());
    assert(overwrite(m1, a, le_i64(m.subrange(a, a + 8))) =~= m);
}

/// Rolling back: undoing the journal that a series of writes inside memory
/// left gives the memory before the writes.
pub proof fn lemma_journal_undoes_writes(m: Seq<u8>, ws: Seq<(usize, i64)>)
    requires
        forall|i: int| 0 <= i < ws.len() ==> #[trigger] ws[i].0 + 8 <= m.len(),
    ensures
        unjournal(after_writes(m, ws), journal_of(m, ws), ws.len()) == m,
    decreases ws.len(),
{
    if ws.len() > 0 {
        let n = ws.len();
        let pre = ws.drop_last();
        assert forall|i: int| 0 <= i < pre.len() implies #[trigger] pre[i].0 + 8 <= m.len() by {
            assert(pre[i] == ws[i]);
        }
        lemma_after_writes_len(m, pre);
        let mp = after_writes(m, pre);
        let a = ws.last().0 as int;
        let v = ws.last().1;
        assert(ws[n - 1].0 + 8 <= m.len());
        let old_val = le_i64(mp.subrange(a, a + 8));
        let old_bits = old_val as u64;
        let jp = journal_of(m, pre);
        let j = journal_of(m, ws);
        assert(j == jp + seq![ws.last().0 as u64, old_bits]);
        assert(j[2 * (n - 1)] == ws.last().0 as u64);
        assert(j[2 * (n - 1) + 1] == old_bits);
        assert((old_bits as i64) == old_val) by (bit_vector)
            requires
                old_bits == old_val as u64,
        ;
        lemma_overwrite_back(mp, a, v);
        let big = after_writes(m, ws);
        assert(big == overwrite(mp, a, v));
        assert(big.len() == m.len());
        assert(unjournal(big, j, n) == unjournal(mp, j, (n - 1) as nat));
        lemma_unjournal_prefix(mp, jp, seq![ws.last().0 as u64, old_bits], (n - 1) as nat);
        lemma_journal_undoes_writes(m, pre);
    }
}

impl Memory {
    /// Undoes the first `len / 2` entries of a write journal, the last
    /// first (see `unjournal`).
    pub fn replay_journal(&mut self, journal: &[u64], len: usize)
        requires
            len <= journal@.len(),
        ensures
            final(self).here == old(self).here,
            final(self).bytes() == unjournal(old(self).bytes(), journal@, (len / 2) as nat),
    {
        let ghost target = unjournal(self.bytes(), journal@, (len / 2) as nat);
        let mut k: usize = len / 2;
        let jl = journal.len();
        while k > 0
            invariant
                jl == journal@.len(),
                2 * k <= journal@.len(),
                unjournal(self.bytes(), journal@, k as nat) == target,
                self.here == old(self).here,
            decreases k,
        {
            let a = journal[2 * (k - 1)];
            let v = journal[2 * (k - 1) + 1];
            let n = self.len();
            if a <= (usize::MAX - 8) as u64 && (a as usize) + 8 <= n {
                let _ = self.write_i64(a as usize, v as i64);
            }
            k = k - 1;
        }
    }
}

} // verus!
