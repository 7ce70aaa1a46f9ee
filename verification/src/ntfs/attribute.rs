//! The attributes of an MFT record.
use vstd::prelude::*;
use crate::bytes::{le16, le32, le64, read_u16_le, read_u32_le, read_u64_le};
use crate::text::{string_from_utf16_lossy, utf16_lossy};

verus! {

/// The UTF-16 code units of the name in the `$FILE_NAME` content that
/// starts at `cs`: a length byte at 0x40 and the name from 0x42.
pub open spec fn name_units(a: Seq<u8>, cs: int) -> Seq<u16> {
    Seq::new(a[cs + 0x40] as nat, |i: int| le16(a, cs + 0x42 + 2 * i) as u16)
}

/// The name and size that the attribute list `a` gives from `pos` on,
/// starting from `name` and `size`. Attributes follow one another, each
/// with its type at 0 and its length at 4; the list ends at type
/// 0xFFFFFFFF, at a length of 0, or at an attribute that does not fit. Each
/// resident `$FILE_NAME` attribute (type 0x30) whose content fits sets the
/// size (at 0x30 of the content) and, where the name fits too, the name.
pub open spec fn attr_walk(a: Seq<u8>, pos: int, name: Option<Seq<char>>, size: u64) -> (Option<Seq<char>>, u64)
    decreases a.len() - pos,
{
    if pos < 0 || pos + 8 > a.len() {
        (name, size)
    } else if le32(a, pos) == 0xFFFF_FFFF {
        (name, size)
    } else {
        let len = le32(a, pos + 4);
        if len == 0 || pos + len > a.len() {
            (name, size)
        } else {
            let non_resident: int = if pos + 8 < a.len() { a[pos + 8] as int } else { 1 };
            let next: (Option<Seq<char>>, u64) = if le32(a, pos) == 0x30 && non_resident == 0 && pos + 22 <= a.len() {
                let cs = pos + le16(a, pos + 20);
                if cs + 0x42 <= a.len() {
                    let sz = le64(a, cs + 0x30) as u64;
                    if cs + 0x42 + 2 * a[cs + 0x40] <= a.len() {
                        (Some(utf16_lossy(name_units(a, cs))), sz)
                    } else {
                        (name, sz)
                    }
                } else {
                    (name, size)
                }
            } else {
                (name, size)
            };
            attr_walk(a, pos + len, next.0, next.1)
        }
    }
}

/// The name and size after the attribute at `pos` of the list `a`, given
/// the name and size before it (see `attr_walk`).
pub open spec fn attr_step(a: Seq<u8>, pos: int, name: Option<Seq<char>>, size: u64) -> (Option<Seq<char>>, u64) {
    let non_resident: int = if pos + 8 < a.len() { a[pos + 8] as int } else { 1 };
    if le32(a, pos) == 0x30 && non_resident == 0 && pos + 22 <= a.len() {
        let cs = pos + le16(a, pos + 20);
        if cs + 0x42 <= a.len() {
            let sz = le64(a, cs + 0x30) as u64;
            if cs + 0x42 + 2 * a[cs + 0x40] <= a.len() {
                (Some(utf16_lossy(name_units(a, cs))), sz)
            } else {
                (name, sz)
            }
        } else {
            (name, size)
        }
    } else {
        (name, size)
    }
}

/// The last resident `$FILE_NAME` attribute of a list decides the name and
/// the size: what the walk carried in from earlier attributes shows in its
/// result only where no later attribute sets it. So two walks from the same
/// attribute that carry different names in give the same name unless
/// neither meets a later name (each then gives the name it carried); the
/// same holds of the size; and the name does not depend on the size
/// carried in.
pub proof fn law_last_file_name_wins(
    a: Seq<u8>,
    pos: int,
    n1: Option<Seq<char>>,
    s1: u64,
    n2: Option<Seq<char>>,
    s2: u64,
)
    ensures
        attr_walk(a, pos, n1, s1).0 == attr_walk(a, pos, n2, s2).0 || (attr_walk(a, pos, n1, s1).0 == n1
            && attr_walk(a, pos, n2, s2).0 == n2),
        attr_walk(a, pos, n1, s1).1 == attr_walk(a, pos, n2, s2).1 || (attr_walk(a, pos, n1, s1).1 == s1
            && attr_walk(a, pos, n2, s2).1 == s2),
        attr_walk(a, pos, n1, s1).0 == attr_walk(a, pos, n1, s2).0,
    decreases a.len() - pos,
{
    if pos < 0 || pos + 8 > a.len() || le32(a, pos) == 0xFFFF_FFFF {
    } else {
        let len = le32(a, pos + 4);
        if len == 0 || pos + len > a.len() {
        } else {
            let x1 = attr_step(a, pos, n1, s1);
            let x2 = attr_step(a, pos, n2, s2);
            let x3 = attr_step(a, pos, n1, s2);
            assert(attr_walk(a, pos, n1, s1) == attr_walk(a, pos + len, x1.0, x1.1));
            assert(attr_walk(a, pos, n2, s2) == attr_walk(a, pos + len, x2.0, x2.1));
            assert(attr_walk(a, pos, n1, s2) == attr_walk(a, pos + len, x3.0, x3.1));
            law_last_file_name_wins(a, pos + len, x1.0, x1.1, x2.0, x2.1);
            law_last_file_name_wins(a, pos + len, x1.0, x1.1, x3.0, x3.1);
        }
    }
}

/// The view of an optional string.
pub open spec fn opt_view(o: Option<String>) -> Option<Seq<char>> {
    match o {
        Some(s) => Some(s@),
        None => None,
    }
}

/// The UTF-16 code units of the name at `cs`.
fn read_name_units(a: &[u8], cs: usize) -> (r: Vec<u16>)
    requires
        cs + 0x42 <= a@.len(),
        cs + 0x42 + 2 * a@[cs + 0x40] <= a@.len(),
    ensures
        r@ == name_units(a@, cs as int),
{
    let n = a.len();
    let count = a[cs + 0x40] as usize;
    let start = cs + 0x42;
    let mut units: Vec<u16> = Vec::new();
    let mut i: usize = 0;
    while i < count
        invariant
            count == a@[cs + 0x40],
            start == cs + 0x42,
            start + 2 * count <= a@.len(),
            n == a@.len(),
            i <= count,
            units@ =~= name_units(a@, cs as int).take(i as int),
        decreases count - i,
    {
        units.push(read_u16_le(a, start + 2 * i));
        i = i + 1;
    }
    units
}

/// Walks the attribute list `attrs` of an MFT record and gives the name and
/// the real size of the file from its resident `$FILE_NAME` attribute; the
/// last such attribute wins, and where there is none the name is `None` and
/// the size 0.
pub fn find_filename_attribute(attrs: &[u8]) -> (r: (Option<String>, u64))
    ensures
        (opt_view(r.0), r.1) == attr_walk(attrs@, 0, None, 0),
{
    let len = attrs.len();
    let mut pos: usize = 0;
    let mut filename: Option<String> = None;
    let mut size: u64 = 0;
    while pos <= len && 8 <= len - pos
        invariant
            len == attrs@.len(),
            pos <= len,
            attr_walk(attrs@, 0, None, 0) == attr_walk(attrs@, pos as int, opt_view(filename), size),
        ensures
            attr_walk(attrs@, 0, None, 0) == (opt_view(filename), size),
        decreases len - pos,
    {
        let attr_type = read_u32_le(attrs, pos);
        if attr_type == 0xFFFF_FFFF {
            break;
        }
        let attr_len = read_u32_le(attrs, pos + 4) as usize;
        if attr_len == 0 || attr_len > len - pos {
            break;
        }
        let non_resident: u8 = if pos + 8 < len { attrs[pos + 8] } else { 1 };
        if attr_type == 0x30 && non_resident == 0 && 22 <= len - pos {
            let content_off = read_u16_le(attrs, pos + 20) as usize;
            if content_off <= len - pos && 0x42 <= len - pos - content_off {
                let cs = pos + content_off;
                size = read_u64_le(attrs, cs + 0x30);
                let name_len = attrs[cs + 0x40] as usize;
                let name_start = cs + 0x42;
                if 2 * name_len <= len - name_start {
                    let units = read_name_units(attrs, cs);
                    filename = Some(string_from_utf16_lossy(units.as_slice()));
                }
            }
        }
        pos = pos + attr_len;
    }
    (filename, size)
}

} // verus!
