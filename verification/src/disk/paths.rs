//! Device paths and read alignment of the platform disk backends.
use vstd::prelude::*;
use vstd::string::StringExecFns;
use crate::disk::DriveInfo;
use crate::text::{has_prefix, starts_with_str, strip_prefixes, trim_start_matches_str};

verus! {

/// The device node of a drive name: "/dev/..." is kept, anything else gets
/// its leading slashes replaced by "/dev/".
pub open spec fn device_node(path: Seq<char>) -> Seq<char> {
    if has_prefix(path, "/dev/"@) {
        path
    } else {
        "/dev/"@ + strip_prefixes(path, "/"@)
    }
}

/// The device node of a drive name (Linux and macOS).
pub fn normalize_path(path: &str) -> (r: String)
    ensures
        r@ == device_node(path@),
{
    if starts_with_str(path, "/dev/") {
        String::from_str(path)
    } else {
        let rest = trim_start_matches_str(path, "/");
        let mut s = String::from_str("/dev/");
        s.append(rest.as_str());
        s
    }
}

/// `s` without its trailing backslashes.
pub open spec fn strip_trailing_backslashes(s: Seq<char>) -> Seq<char>
    decreases s.len(),
{
    if s.len() > 0 && s.last() == '\\' {
        strip_trailing_backslashes(s.drop_last())
    } else {
        s
    }
}

/// The Win32 device path of a drive name: "X:..." becomes "\\.\X:", a path
/// already under "\\.\" is kept, anything else is put under "\\.\" without
/// its trailing backslashes.
pub open spec fn windows_device(path: Seq<char>) -> Seq<char> {
    if path.len() >= 2 && path[1] == ':' {
        "\\\\.\\"@ + seq![path[0]] + ":"@
    } else if has_prefix(path, "\\\\.\\"@) {
        path
    } else {
        "\\\\.\\"@ + strip_trailing_backslashes(path)
    }
}

/// The Win32 device path of a drive name. The drive letter of an "X:" name
/// is a single byte.
pub fn windows_device_path(path: &str) -> (r: String)
    requires
        path@.len() >= 2 && path@[1] == ':' ==> (path@[0] as u32) < 128,
    ensures
        r@ == windows_device(path@),
{
    let n = path.unicode_len();
    if n >= 2 && path.get_char(1) == ':' {
        let mut s = String::from_str("\\\\.\\");
        s.append(path.substring_char(0, 1));
        s.append(":");
        proof {
            assert(path@.subrange(0, 1) =~= seq![path@[0]]);
        }
        s
    } else if starts_with_str(path, "\\\\.\\") {
        String::from_str(path)
    } else {
        let mut j: usize = n;
        assert(path@.take(n as int) =~= path@);
        while j > 0 && path.get_char(j - 1) == '\\'
            invariant
                n == path@.len(),
                j <= n,
                strip_trailing_backslashes(path@) == strip_trailing_backslashes(path@.take(j as int)),
            decreases j,
        {
            proof {
                assert(path@.take(j as int).drop_last() =~= path@.take(j - 1));
            }
            j = j - 1;
        }
        proof {
            if j > 0 {
                assert(path@.take(j as int).last() == path@[j - 1]);
            }
            assert(path@.subrange(0, j as int) =~= path@.take(j as int));
        }
        let mut s = String::from_str("\\\\.\\");
        s.append(path.substring_char(0, j));
        s
    }
}

/// The sector-aligned span that an unbuffered read of `len` bytes at
/// `offset` must cover: it starts at the sector boundary at or before
/// `offset` (`aligned_offset`, `delta` bytes before it) and spans whole
/// sectors through the last byte wanted.
pub fn aligned_span(offset: u64, len: usize, sector: u32) -> (r: (u64, usize, usize))
    requires
        sector > 0,
        len + sector + sector <= usize::MAX,
    ensures
        (r.0 as int) % (sector as int) == 0,
        r.0 <= offset < r.0 + sector,
        r.1 == offset - r.0,
        (r.2 as int) % (sector as int) == 0,
        len + r.1 <= r.2 < len + r.1 + sector,
{
    let s = sector as u64;
    assert((offset / s) * s <= offset) by (nonlinear_arith)
        requires
            s > 0,
    {
        assert(offset == (offset / s) * s + offset % s);
    }
    let aligned_offset = (offset / s) * s;
    assert(aligned_offset <= offset < aligned_offset + s) by (nonlinear_arith)
        requires
            s > 0,
            aligned_offset == (offset / s) * s,
    {
        assert(offset == (offset / s) * s + offset % s);
    }
    assert((aligned_offset as int) % (s as int) == 0) by (nonlinear_arith)
        requires
            s > 0,
            aligned_offset == (offset / s) * s,
    {
        vstd::arithmetic::div_mod::lemma_mod_multiples_basic((offset / s) as int, s as int);
    }
    let delta = (offset - aligned_offset) as usize;
    let su = sector as usize;
    let total = len + delta + su - 1;
    assert((total / su) * su <= total) by (nonlinear_arith)
        requires
            su > 0,
    {
        assert(total == (total / su) * su + total % su);
    }
    let aligned_len = (total / su) * su;
    assert((aligned_len as int) % (su as int) == 0 && total - su < aligned_len <= total) by (nonlinear_arith)
        requires
            su > 0,
            aligned_len == (total / su) * su,
    {
        assert(total == (total / su) * su + total % su);
        vstd::arithmetic::div_mod::lemma_mod_multiples_basic((total / su) as int, su as int);
    }
    (aligned_offset, delta, aligned_len)
}

/// The drive that a block device listed by the kernel stands for: loop
/// devices, RAM disks, device-mapper, software RAID and zram are left out,
/// and so are devices of no size. The size is in 512-byte sectors.
pub fn block_device_drive(name: &str, size_sectors: u64, removable: bool) -> (r: Option<DriveInfo>)
    requires
        size_sectors * 512 <= u64::MAX,
    ensures
        r is None <==> (has_prefix(name@, "loop"@) || has_prefix(name@, "ram"@) || has_prefix(name@, "dm-"@)
            || has_prefix(name@, "md"@) || has_prefix(name@, "zram"@) || size_sectors == 0),
        r matches Some(d) ==> {
            &&& d.path@ == "/dev/"@ + name@
            &&& d.label@ == "/dev/"@ + name@
            &&& d.size == size_sectors * 512
            &&& d.filesystem@ == "Unknown"@
            &&& d.removable == removable
        },
{
    if starts_with_str(name, "loop") || starts_with_str(name, "ram") || starts_with_str(name, "dm-")
        || starts_with_str(name, "md") || starts_with_str(name, "zram") {
        return None;
    }
    if size_sectors == 0 {
        return None;
    }
    let mut path = String::from_str("/dev/");
    path.append(name);
    let label = path.clone();
    Some(DriveInfo { path, label, size: size_sectors * 512, filesystem: String::from_str("Unknown"), removable })
}

/// Whether a name under /dev is a macOS disk or slice node ("disk" and a
/// digit), as opposed to the raw "rdisk" duplicates and everything else.
pub fn is_disk_node(name: &str) -> (r: bool)
    ensures
        r == (has_prefix(name@, "disk"@) && name@.len() > 4 && '0' <= name@[4] <= '9'),
{
    proof {
        reveal_strlit("disk");
    }
    if !starts_with_str(name, "disk") {
        return false;
    }
    if name.unicode_len() <= 4 {
        return false;
    }
    let c = name.get_char(4);
    '0' <= c && c <= '9'
}

/// The positions (0 for A to 25 for Z) of the drive letters whose bits are
/// set in a logical-drive mask, from `i` on.
pub open spec fn mask_drives(mask: nat, i: nat) -> Seq<u32>
    decreases 26 - i,
{
    if i >= 26 {
        seq![]
    } else if mask % 2 == 1 {
        seq![i as u32] + mask_drives(mask / 2, i + 1)
    } else {
        mask_drives(mask / 2, i + 1)
    }
}

/// The drive letters that a logical-drive mask (`GetLogicalDrives`) sets,
/// as positions in the alphabet, in order.
pub fn drive_letters(mask: u32) -> (r: Vec<u32>)
    ensures
        r@ == mask_drives(mask as nat, 0),
{
    let mut out: Vec<u32> = Vec::new();
    let mut m: u32 = mask;
    let mut i: u32 = 0;
    while i < 26
        invariant
            i <= 26,
            out@ + mask_drives(m as nat, i as nat) == mask_drives(mask as nat, 0),
        decreases 26 - i,
    {
        if m % 2 == 1 {
            proof {
                assert(out@.push(i) + mask_drives((m / 2) as nat, (i + 1) as nat) =~= out@ + mask_drives(m as nat, i as nat));
            }
            out.push(i);
        }
        m = m / 2;
        i = i + 1;
    }
    assert(out@ + seq![] =~= out@);
    out
}

/// The letter at position `i` of the alphabet, as a string.
pub open spec fn letter(i: int) -> Seq<char> {
    "ABCDEFGHIJKLMNOPQRSTUVWXYZ"@.subrange(i, i + 1)
}

fn letter_str(i: u32) -> (r: &'static str)
    requires
        i < 26,
    ensures
        r@ == letter(i as int),
{
    let alphabet = "ABCDEFGHIJKLMNOPQRSTUVWXYZ";
    proof {
        reveal_strlit("ABCDEFGHIJKLMNOPQRSTUVWXYZ");
    }
    alphabet.substring_char(i as usize, i as usize + 1)
}

/// The drive type that `GetDriveTypeW` gives for a removable drive.
pub const DRIVE_REMOVABLE: u32 = 2;

/// The drive type that `GetDriveTypeW` gives for an optical drive.
pub const DRIVE_CDROM: u32 = 5;

/// The drive that a Windows drive letter stands for, from its drive type
/// and, where they could be read, its volume label and file system name.
/// Optical drives are left out. The path is the drive's root ("X:\"), the
/// label is "<label> (X:)", with "Drive X:" for a label that could not be
/// read, and the file system "Unknown" where it could not be read; the size
/// is not known here.
pub fn windows_drive(i: u32, drive_type: u32, volume: Option<(&str, &str)>) -> (r: Option<DriveInfo>)
    requires
        i < 26,
    ensures
        r is None <==> drive_type == DRIVE_CDROM,
        r matches Some(d) ==> {
            &&& d.path@ == letter(i as int) + ":\\"@
            &&& d.label@ == match volume {
                Some((label, _)) => label@,
                None => "Drive "@ + letter(i as int) + ":"@,
            } + " ("@ + letter(i as int) + ":)"@
            &&& d.filesystem@ == match volume {
                Some((_, fs)) => fs@,
                None => "Unknown"@,
            }
            &&& d.size == 0
            &&& d.removable == (drive_type == DRIVE_REMOVABLE)
        },
{
    if drive_type == DRIVE_CDROM {
        return None;
    }
    let l = letter_str(i);
    let mut path = String::from_str(l);
    path.append(":\\");
    let (label, filesystem) = match volume {
        Some((label, fs)) => {
            let mut s = String::from_str(label);
            s.append(" (");
            s.append(l);
            s.append(":)");
            (s, String::from_str(fs))
        },
        None => {
            let mut s = String::from_str("Drive ");
            s.append(l);
            s.append(":");
            s.append(" (");
            s.append(l);
            s.append(":)");
            (s, String::from_str("Unknown"))
        },
    };
    Some(DriveInfo { path, label, size: 0, filesystem, removable: drive_type == DRIVE_REMOVABLE })
}

/// The drive that a macOS disk node under /dev of `size` bytes stands for:
/// none for other names and for nodes of no size; the path and label are
/// "/dev/<name>", the file system "Unknown", and it is not listed as
/// removable.
pub fn disk_node_drive(name: &str, size: u64) -> (r: Option<DriveInfo>)
    ensures
        r is None <==> !(has_prefix(name@, "disk"@) && name@.len() > 4 && '0' <= name@[4] <= '9') || size == 0,
        r matches Some(d) ==> {
            &&& d.path@ == "/dev/"@ + name@
            &&& d.label@ == "/dev/"@ + name@
            &&& d.size == size
            &&& d.filesystem@ == "Unknown"@
            &&& !d.removable
        },
{
    if !is_disk_node(name) || size == 0 {
        return None;
    }
    let mut path = String::from_str("/dev/");
    path.append(name);
    let mut label = String::from_str("/dev/");
    label.append(name);
    Some(DriveInfo { path, label, size, filesystem: String::from_str("Unknown"), removable: false })
}

/// Whether the path `a` comes before `b`: at their first difference the
/// character of `a` has the lower code point, or `a` is a proper prefix of
/// `b`. This is the order of the paths' UTF-8 bytes.
pub open spec fn path_before(a: Seq<char>, b: Seq<char>) -> bool
    decreases a.len(),
{
    if b.len() == 0 {
        false
    } else if a.len() == 0 {
        true
    } else if a[0] != b[0] {
        (a[0] as int) < (b[0] as int)
    } else {
        path_before(a.skip(1), b.skip(1))
    }
}

/// No path comes before itself, and of two different paths one comes
/// before the other.
pub proof fn lemma_path_before_total(a: Seq<char>, b: Seq<char>)
    ensures
        !(path_before(a, b) && path_before(b, a)),
        a != b ==> path_before(a, b) || path_before(b, a),
    decreases a.len(),
{
    if a.len() > 0 && b.len() > 0 && a[0] == b[0] {
        lemma_path_before_total(a.skip(1), b.skip(1));
        if a != b {
            if a.skip(1) == b.skip(1) {
                assert(a =~= seq![a[0]] + a.skip(1));
                assert(b =~= seq![b[0]] + b.skip(1));
            }
        }
    }
    if a.len() > 0 && b.len() > 0 && a[0] != b[0] {
        assert((a[0] as int) != (b[0] as int));
    }
    if a.len() == 0 && b.len() == 0 {
        assert(a =~= b);
    }
}

/// Coming before is transitive.
pub proof fn lemma_path_before_transitive(a: Seq<char>, b: Seq<char>, c: Seq<char>)
    requires
        path_before(a, b),
        path_before(b, c),
    ensures
        path_before(a, c),
    decreases a.len(),
{
    if a.len() > 0 && a[0] == b[0] && b[0] == c[0] {
        lemma_path_before_transitive(a.skip(1), b.skip(1), c.skip(1));
    }
}

/// Whether the path `a` comes before `b` (see `path_before`).
pub fn path_less(a: &str, b: &str) -> (r: bool)
    ensures
        r == path_before(a@, b@),
{
    let la = a.unicode_len();
    let lb = b.unicode_len();
    let mut i: usize = 0;
    assert(a@.skip(0) =~= a@);
    assert(b@.skip(0) =~= b@);
    while i < la && i < lb
        invariant
            la == a@.len(),
            lb == b@.len(),
            i <= la,
            i <= lb,
            path_before(a@, b@) == path_before(a@.skip(i as int), b@.skip(i as int)),
        decreases la - i,
    {
        let ca = a.get_char(i);
        let cb = b.get_char(i);
        if ca != cb {
            proof {
                assert(a@.skip(i as int)[0] == ca);
                assert(b@.skip(i as int)[0] == cb);
            }
            return (ca as u32) < (cb as u32);
        }
        proof {
            assert(a@.skip(i as int).skip(1) =~= a@.skip(i + 1));
            assert(b@.skip(i as int).skip(1) =~= b@.skip(i + 1));
        }
        i = i + 1;
    }
    la < lb
}

/// Whether the drives `v` are listed by path: no drive's path comes before
/// that of a drive listed earlier.
pub open spec fn listed_by_path(v: Seq<DriveInfo>) -> bool {
    forall|i: int, j: int| 0 <= i < j < v.len() ==> !path_before(#[trigger] v[j].path@, #[trigger] v[i].path@)
}

/// The drives listed by path: the same drives, each as many times, in the
/// order of their paths.
pub fn sort_drives(drives: Vec<DriveInfo>) -> (r: Vec<DriveInfo>)
    ensures
        r@.to_multiset() == drives@.to_multiset(),
        listed_by_path(r@),
{
    broadcast use vstd::seq_lib::group_to_multiset_ensures;
    let mut input = drives;
    let mut out: Vec<DriveInfo> = Vec::new();
    proof {
        assert(out@.to_multiset() =~= vstd::multiset::Multiset::empty());
    }
    while input.len() > 0
        invariant
            out@.to_multiset().add(input@.to_multiset()) == drives@.to_multiset(),
            listed_by_path(out@),
        decreases input@.len(),
    {
        let ghost before_in = input@;
        let x = input.pop().unwrap();
        proof {
            assert(before_in =~= input@.push(x));
        }
        let mut p: usize = 0;
        while p < out.len() && !path_less(x.path.as_str(), out[p].path.as_str())
            invariant
                p <= out@.len(),
                forall|q: int| 0 <= q < p ==> !path_before(x.path@, #[trigger] out@[q].path@),
            decreases out@.len() - p,
        {
            p = p + 1;
        }
        let ghost before_out = out@;
        out.insert(p, x);
        proof {
            broadcast use vstd::multiset::group_multiset_axioms;
            vstd::seq_lib::to_multiset_build(input@, x);
            vstd::seq_lib::to_multiset_insert(before_out, p as int, x);
            assert(out@.to_multiset().add(input@.to_multiset()) =~= before_out.to_multiset().add(
                before_in.to_multiset(),
            ));
            assert forall|i: int, j: int| 0 <= i < j < out@.len() implies !path_before(
                #[trigger] out@[j].path@,
                #[trigger] out@[i].path@,
            ) by {
                if i == p as int {
                    let y = before_out[j - 1].path@;
                    lemma_path_before_total(y, x.path@);
                    if path_before(y, x.path@) {
                        lemma_path_before_transitive(y, x.path@, before_out[p as int].path@);
                        if j - 1 > p {
                            assert(!path_before(before_out[j - 1].path@, before_out[p as int].path@));
                        }
                    }
                } else if j == p as int {
                    assert(out@[i] == before_out[i]);
                } else {
                    let i0 = if i < p { i } else { i - 1 };
                    let j0 = if j < p { j } else { j - 1 };
                    assert(out@[i] == before_out[i0]);
                    assert(out@[j] == before_out[j0]);
                }
            }
        }
    }
    proof {
        assert(input@.to_multiset() =~= vstd::multiset::Multiset::empty());
    }
    out
}

} // verus!
