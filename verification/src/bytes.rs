//! Little-endian integers and byte patterns inside byte buffers.
use vstd::prelude::*;

verus! {

/// The little-endian 16-bit value at `i`.
pub open spec fn le16(b: Seq<u8>, i: int) -> int {
    b[i] + 256 * b[i + 1]
}

/// The little-endian 32-bit value at `i`.
pub open spec fn le32(b: Seq<u8>, i: int) -> int {
    le16(b, i) + 65536 * le16(b, i + 2)
}

/// The little-endian 64-bit value at `i`.
pub open spec fn le64(b: Seq<u8>, i: int) -> int {
    le32(b, i) + 4294967296 * le32(b, i + 4)
}

/// Whether `pat` occurs in `data` at position `pos`.
pub open spec fn occurs_at(data: Seq<u8>, pos: int, pat: Seq<u8>) -> bool {
    0 <= pos && pos + pat.len() <= data.len() && data.subrange(pos, pos + pat.len()) == pat
}

pub fn read_u16_le(b: &[u8], pos: usize) -> (r: u16)
    requires
        pos + 2 <= b@.len(),
    ensures
        r == le16(b@, pos as int),
{
    b[pos] as u16 + (b[pos + 1] as u16) * 256
}

pub fn read_u32_le(b: &[u8], pos: usize) -> (r: u32)
    requires
        pos + 4 <= b@.len(),
    ensures
        r == le32(b@, pos as int),
{
    let n = b.len();
    assert(pos + 4 <= n);
    let lo = read_u16_le(b, pos) as u32;
    let hi = read_u16_le(b, pos + 2) as u32;
    lo + hi * 65536
}

pub fn read_u64_le(b: &[u8], pos: usize) -> (r: u64)
    requires
        pos + 8 <= b@.len(),
    ensures
        r == le64(b@, pos as int),
{
    let n = b.len();
    assert(pos + 8 <= n);
    let lo = read_u32_le(b, pos) as u64;
    let hi = read_u32_le(b, pos + 4) as u64;
    lo + hi * 4294967296
}

/// Whether `pat` occurs in `data` at position `pos`.
pub fn matches_at(data: &[u8], pos: usize, pat: &[u8]) -> (r: bool)
    ensures
        r == occurs_at(data@, pos as int, pat@),
{
    if pos > data.len() || pat.len() > data.len() - pos {
        return false;
    }
    let mut k: usize = 0;
    while k < pat.len()
        invariant
            pos + pat@.len() <= data@.len(),
            data@.len() == data.len(),
            k <= pat@.len(),
            forall|j: int| 0 <= j < k ==> data@[pos + j] == pat@[j],
        decreases pat@.len() - k,
    {
        if data[pos + k] != pat[k] {
            assert(data@.subrange(pos as int, pos + pat@.len())[k as int] != pat@[k as int]);
            return false;
        }
        k = k + 1;
    }
    assert(data@.subrange(pos as int, pos + pat@.len()) =~= pat@);
    true
}

} // verus!
