//! Little-endian integers and byte-sequence helpers used by the wire format.
use vstd::prelude::*;

verus! {

/// The unsigned integer held by the four bytes of `b` that start at `pos`,
/// least significant byte first.
pub open spec fn le_u32_at(b: Seq<u8>, pos: int) -> int {
    b[pos] as int + b[pos + 1] as int * 256 + b[pos + 2] as int * 65536 + b[pos + 3] as int
        * 16777216
}

/// The unsigned integer held by the eight bytes of `b` that start at `pos`,
/// least significant byte first.
pub open spec fn le_u64_at(b: Seq<u8>, pos: int) -> int {
    le_u32_at(b, pos) + le_u32_at(b, pos + 4) * 4294967296
}

/// The four bytes that encode `v`, least significant byte first.
pub open spec fn le_u32_bytes(v: u32) -> Seq<u8> {
    seq![
        (v % 256) as u8,
        ((v / 256) % 256) as u8,
        ((v / 65536) % 256) as u8,
        (v / 16777216) as u8,
    ]
}

/// Reading back four bytes written by `le_u32_bytes` gives the value written.
pub proof fn lemma_le_u32_roundtrip(v: u32)
    ensures
        le_u32_bytes(v).len() == 4,
        le_u32_at(le_u32_bytes(v), 0) == v,
{
}

/// A little-endian word read inside a slice of a sequence is the word read
/// at the corresponding position of the whole sequence.
pub proof fn lemma_le_u32_at_subrange(b: Seq<u8>, s: int, e: int, pos: int)
    requires
        0 <= s <= e <= b.len(),
        0 <= pos,
        pos + 4 <= e - s,
    ensures
        le_u32_at(b.subrange(s, e), pos) == le_u32_at(b, s + pos),
{
}

/// A word of four bytes fits in a `u32`.
pub proof fn lemma_le_u32_at_bound(b: Seq<u8>, pos: int)
    ensures
        0 <= le_u32_at(b, pos) <= u32::MAX,
{
}

/// Reads the little-endian `u32` at `pos`.
pub fn read_u32_le(bytes: &[u8], pos: usize) -> (r: u32)
    requires
        pos + 4 <= bytes@.len(),
    ensures
        r == le_u32_at(bytes@, pos as int),
{
    let b0 = bytes[pos] as u32;
    let b1 = bytes[pos + 1] as u32;
    let b2 = bytes[pos + 2] as u32;
    let b3 = bytes[pos + 3] as u32;
    b0 + b1 * 256 + b2 * 65536 + b3 * 16777216
}

/// Reads the little-endian `u64` at the start of `bytes`.
pub fn read_u64_le(bytes: &[u8]) -> (r: u64)
    requires
        8 <= bytes@.len(),
    ensures
        r == le_u64_at(bytes@, 0),
{
    let lo = read_u32_le(bytes, 0) as u64;
    let hi = read_u32_le(bytes, 4) as u64;
    lo + hi * 4294967296
}

/// Appends the four little-endian bytes of `v`.
pub fn push_u32_le(out: &mut Vec<u8>, v: u32)
    ensures
        final(out)@ == old(out)@ + le_u32_bytes(v),
{
    out.push((v % 256) as u8);
    out.push(((v / 256) % 256) as u8);
    out.push(((v / 65536) % 256) as u8);
    out.push((v / 16777216) as u8);
    assert(final(out)@ =~= old(out)@ + le_u32_bytes(v));
}

/// Appends all of `data`.
pub fn append_bytes(out: &mut Vec<u8>, data: &[u8])
    ensures
        final(out)@ == old(out)@ + data@,
{
    let ghost start = out@;
    let n = data.len();
    let mut i: usize = 0;
    while i < n
        invariant
            n == data@.len(),
            i <= n,
            out@ == start + data@.subrange(0, i as int),
        decreases n - i,
    {
        out.push(data[i]);
        i = i + 1;
        assert(out@ =~= start + data@.subrange(0, i as int));
    }
    assert(data@.subrange(0, n as int) =~= data@);
}

/// A copy of `data[start..end]`.
pub fn copy_range(data: &[u8], start: usize, end: usize) -> (r: Vec<u8>)
    requires
        start <= end <= data@.len(),
    ensures
        r@ == data@.subrange(start as int, end as int),
{
    let mut out: Vec<u8> = Vec::new();
    let mut i: usize = start;
    while i < end
        invariant
            start <= i <= end <= data@.len(),
            out@ == data@.subrange(start as int, i as int),
        decreases end - i,
    {
        out.push(data[i]);
        i = i + 1;
        assert(out@ =~= data@.subrange(start as int, i as int));
    }
    out
}

/// `n` zero bytes.
pub fn zeros(n: usize) -> (r: Vec<u8>)
    ensures
        r@ == Seq::new(n as nat, |_i: int| 0u8),
{
    let mut out: Vec<u8> = Vec::new();
    let mut i: usize = 0;
    while i < n
        invariant
            i <= n,
            out@ == Seq::new(i as nat, |_i: int| 0u8),
        decreases n - i,
    {
        out.push(0u8);
        i = i + 1;
        assert(out@ =~= Seq::new(i as nat, |_i: int| 0u8));
    }
    out
}

/// Whether `a` and `b` hold the same bytes.
pub fn bytes_equal(a: &[u8], b: &[u8]) -> (r: bool)
    ensures
        r == (a@ == b@),
{
    if a.len() != b.len() {
        return false;
    }
    let n = a.len();
    let mut i: usize = 0;
    while i < n
        invariant
            n == a@.len(),
            n == b@.len(),
            i <= n,
            forall|j: int| 0 <= j < i ==> a@[j] == b@[j],
        decreases n - i,
    {
        if a[i] != b[i] {
            return false;
        }
        i = i + 1;
    }
    assert(a@ =~= b@);
    true
}

} // verus!
