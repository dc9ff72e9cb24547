use vstd::prelude::*;

verus! {

/// A mutable anonymous memory map.
#[verifier::external_type_specification]
#[verifier::external_body]
pub struct ExMmapMut(memmap2::MmapMut);

/// The bytes a mutable memory map holds.
pub uninterp spec fn mmap_bytes(m: memmap2::MmapMut) -> Seq<u8>;

/// Calls `MmapOptions::new().len(len).map_anon()`: on success a map of
/// `len` bytes. memmap2 documents that the call fails when `len` exceeds
/// `isize::MAX`. What the fresh bytes hold is not stated. The I/O error is
/// dropped.
#[verifier::external_body]
pub(crate) fn map_anon(len: usize) -> (r: Option<memmap2::MmapMut>)
    ensures
        r matches Some(m) ==> mmap_bytes(m).len() == len,
        len > isize::MAX ==> r is None,
{
    memmap2::MmapOptions::new().len(len).map_anon().ok()
}

/// The length of the map (through its `Deref` to `[u8]`). Like every
/// slice of bytes, it is at most `isize::MAX` long (std's documented limit
/// on the size of a slice).
#[verifier::external_body]
pub(crate) fn mmap_len(m: &memmap2::MmapMut) -> (r: usize)
    ensures
        r == mmap_bytes(*m).len(),
        r <= isize::MAX,
{
    m.len()
}

/// Byte `i` of the map (through its `Deref` to `[u8]`).
#[verifier::external_body]
pub(crate) fn mmap_get(m: &memmap2::MmapMut, i: usize) -> (r: u8)
    requires
        i < mmap_bytes(*m).len(),
    ensures
        r == mmap_bytes(*m)[i as int],
{
    m[i]
}

/// Sets byte `i` of the map (through its `DerefMut` to `[u8]`); the other
/// bytes stay.
#[verifier::external_body]
pub(crate) fn mmap_set(m: &mut memmap2::MmapMut, i: usize, v: u8)
    requires
        i < mmap_bytes(*old(m)).len(),
    ensures
        mmap_bytes(*final(m)) == mmap_bytes(*old(m)).update(i as int, v),
{
    m[i] = v;
}

/// Copies `src[start..end]` over `dst[start..end]` (`copy_from_slice` on
/// the two maps' byte slices); the other bytes of `dst` stay.
#[verifier::external_body]
pub(crate) fn mmap_copy_range(dst: &mut memmap2::MmapMut, src: &memmap2::MmapMut, start: usize, end: usize)
    requires
        start <= end,
        end <= mmap_bytes(*old(dst)).len(),
        end <= mmap_bytes(*src).len(),
    ensures
        mmap_bytes(*final(dst)).len() == mmap_bytes(*old(dst)).len(),
        forall|i: int| 0 <= i < mmap_bytes(*old(dst)).len() ==> #[trigger] mmap_bytes(*final(dst))[i] == if start <= i < end {
            mmap_bytes(*src)[i]
        } else {
            mmap_bytes(*old(dst))[i]
        },
{
    dst[start..end].copy_from_slice(&src[start..end]);
}

// ---------------------------------------------------------------------------
// Little-endian cells.

/// The eight little-endian bytes of `v`.
pub open spec fn i64_le_bytes(v: i64) -> Seq<u8> {
    let x = v as u64;
    seq![
        x as u8,
        (x >> 8u64) as u8,
        (x >> 16u64) as u8,
        (x >> 24u64) as u8,
        (x >> 32u64) as u8,
        (x >> 40u64) as u8,
        (x >> 48u64) as u8,
        (x >> 56u64) as u8,
    ]
}

pub open spec fn le_u64(b0: u8, b1: u8, b2: u8, b3: u8, b4: u8, b5: u8, b6: u8, b7: u8) -> u64 {
    (b0 as u64) | ((b1 as u64) << 8u64) | ((b2 as u64) << 16u64) | ((b3 as u64) << 24u64) | ((b4 as u64)
        << 32u64) | ((b5 as u64) << 40u64) | ((b6 as u64) << 48u64) | ((b7 as u64) << 56u64)
}

/// The `i64` whose little-endian bytes are `b[0..8]`.
pub open spec fn le_i64(b: Seq<u8>) -> i64 {
    le_u64(b[0], b[1], b[2], b[3], b[4], b[5], b[6], b[7]) as i64
}

/// Reading back the bytes of a value gives the value.
pub proof fn lemma_le_roundtrip(v: i64)
    ensures
        le_i64(i64_le_bytes(v)) == v,
{
    let x = v as u64;
    assert(le_u64(x as u8, (x >> 8u64) as u8, (x >> 16u64) as u8, (x >> 24u64) as u8, (x >> 32u64) as u8, (x >> 40u64) as u8, (x >> 48u64) as u8, (x >> 56u64) as u8) == x) by (bit_vector);
    assert((x as i64) == v) by (bit_vector)
        requires
            x == v as u64,
    ;
}

pub fn u64_from_le(b0: u8, b1: u8, b2: u8, b3: u8, b4: u8, b5: u8, b6: u8, b7: u8) -> (r: u64)
    ensures
        r == le_u64(b0, b1, b2, b3, b4, b5, b6, b7),
{
    (b0 as u64) | ((b1 as u64) << 8u64) | ((b2 as u64) << 16u64) | ((b3 as u64) << 24u64) | ((b4 as u64)
        << 32u64) | ((b5 as u64) << 40u64) | ((b6 as u64) << 48u64) | ((b7 as u64) << 56u64)
}

/// Reads the little-endian `i64` at byte `a` of a map.
pub fn mmap_read_i64(m: &memmap2::MmapMut, a: usize) -> (r: i64)
    requires
        a + 8 <= mmap_bytes(*m).len(),
    ensures
        r == le_i64(mmap_bytes(*m).subrange(a as int, a + 8)),
{
    let _n = mmap_len(m);
    let x = u64_from_le(
        mmap_get(m, a),
        mmap_get(m, a + 1),
        mmap_get(m, a + 2),
        mmap_get(m, a + 3),
        mmap_get(m, a + 4),
        mmap_get(m, a + 5),
        mmap_get(m, a + 6),
        mmap_get(m, a + 7),
    );
    x as i64
}

/// Writes `v` as eight little-endian bytes at byte `a` of a map.
pub fn mmap_write_i64(m: &mut memmap2::MmapMut, a: usize, v: i64)
    requires
        a + 8 <= mmap_bytes(*old(m)).len(),
    ensures
        mmap_bytes(*final(m)).len() == mmap_bytes(*old(m)).len(),
        mmap_bytes(*final(m)).subrange(a as int, a + 8) == i64_le_bytes(v),
        forall|i: int| 0 <= i < mmap_bytes(*old(m)).len() && !(a <= i < a + 8) ==> #[trigger] mmap_bytes(*final(m))[i] == mmap_bytes(*old(m))[i],
{
    let _n = mmap_len(m);
    let x = v as u64;
    mmap_set(m, a, x as u8);
    mmap_set(m, a + 1, (x >> 8u64) as u8);
    mmap_set(m, a + 2, (x >> 16u64) as u8);
    mmap_set(m, a + 3, (x >> 24u64) as u8);
    mmap_set(m, a + 4, (x >> 32u64) as u8);
    mmap_set(m, a + 5, (x >> 40u64) as u8);
    mmap_set(m, a + 6, (x >> 48u64) as u8);
    mmap_set(m, a + 7, (x >> 56u64) as u8);
    assert(mmap_bytes(*m).subrange(a as int, a + 8) =~= i64_le_bytes(v));
}

/// Writing back the value eight bytes hold gives those bytes.
pub proof fn lemma_le_bytes_roundtrip(b: Seq<u8>)
    requires
        b.len() == 8,
    ensures
        i64_le_bytes(le_i64(b)) == b,
{
    let (b0, b1, b2, b3, b4, b5, b6, b7) = (b[0], b[1], b[2], b[3], b[4], b[5], b[6], b[7]);
    let x = le_u64(b0, b1, b2, b3, b4, b5, b6, b7);
    assert(x as u8 == b0 && (x >> 8u64) as u8 == b1 && (x >> 16u64) as u8 == b2 && (x >> 24u64) as u8 == b3
        && (x >> 32u64) as u8 == b4 && (x >> 40u64) as u8 == b5 && (x >> 48u64) as u8 == b6 && (x >> 56u64) as u8 == b7) by (bit_vector)
        requires
            x == le_u64(b0, b1, b2, b3, b4, b5, b6, b7),
    ;
    assert(((x as i64) as u64) == x) by (bit_vector);
    assert(i64_le_bytes(le_i64(b)) =~= b);
}

} // verus!
