//! The carving engine: finds signature headers in the raw bytes of a disk
//! and sizes each file by the first footer after its header.
use vstd::prelude::*;
use std::sync::Arc;
use std::sync::atomic::AtomicBool;
use vstd::slice::slice_to_vec;
use crate::bytes::{matches_at, occurs_at};
use crate::carver::signatures::{
    first_match, lemma_first_match_from, match_signature_at, signature_table, signatures,
    table_well_formed, SigSpec, Signature,
};
use crate::control::{always_stops, never_stops, report, stop_requested};
use crate::disk::{whole_read, DiskError, DiskReader};
use crate::types::{RecoveredFile, RecoveryMethod, ScanPhase, ScanProgress};

verus! {

/// Bytes read from the disk at a time.
pub const CHUNK_SIZE: usize = 1048576;

/// Bytes of one chunk kept in front of the next, so that a header across
/// the boundary is still seen.
pub const OVERLAP: usize = 16;

/// Bytes read at a time while looking for a footer.
pub const SCAN_BUF: usize = 65536;

/// The positions at which scanning `w` from `pos` finds a signature, each
/// with the index of the signature: a match moves on past its header, no
/// match moves on by one byte. The last byte is not looked at.
pub open spec fn window_hits(w: Seq<u8>, pos: int) -> Seq<(int, int)>
    decreases w.len() - pos,
{
    if pos < 0 || pos + 1 >= w.len() {
        seq![]
    } else {
        match first_match(w.skip(pos)) {
            Some(k) => {
                let h = signature_table()[k].header.len() as int;
                let next = if h < 1 { pos + 1 } else if pos + h > w.len() { w.len() as int } else { pos + h };
                seq![(pos, k)] + window_hits(w, next)
            },
            None => window_hits(w, pos + 1),
        }
    }
}

/// Whether the first occurrence of `ft` at or after `start` on the disk
/// ends `size` bytes after `start`.
pub open spec fn footer_ends_at(disk: Seq<u8>, start: int, ft: Seq<u8>, size: int) -> bool {
    &&& size >= ft.len()
    &&& occurs_at(disk, start + size - ft.len(), ft)
    &&& forall|p: int| start <= p < start + size - ft.len() ==> !occurs_at(disk, p, ft)
}

/// Whether no occurrence of `ft` at or after `start` ends within `max_size`
/// bytes of `start`.
pub open spec fn no_footer_within(disk: Seq<u8>, start: int, ft: Seq<u8>, max_size: int) -> bool {
    forall|p: int| start <= p && p + ft.len() <= start + max_size ==> !occurs_at(disk, p, ft)
}

/// The size and confidence that carving gives a file of a signature with
/// footer `footer` at `start`: no footer gives size 0 at 60%; a footer
/// found gives the size through its first occurrence at 95%; a footer not
/// found gives size 0 at 40%.
pub open spec fn footer_outcome(disk: Seq<u8>, start: int, footer: Option<Seq<u8>>, size: int, confidence: int) -> bool {
    match footer {
        None => size == 0 && confidence == 60,
        Some(ft) => (confidence == 95 && footer_ends_at(disk, start, ft, size)) || (confidence == 40
            && size == 0),
    }
}

/// Whether `f` is a file carved out of `disk` by the signature `s`: its
/// header is on the disk at the file's offset.
pub open spec fn carved_as(disk: Seq<u8>, f: RecoveredFile, s: SigSpec) -> bool {
    &&& f.name is None
    &&& f.original_path is None
    &&& f.recovery_method == RecoveryMethod::DiskCarving
    &&& f.file_type == s.file_type
    &&& occurs_at(disk, f.disk_offset as int, s.header)
    &&& footer_outcome(disk, f.disk_offset as int, s.footer, f.size as int, f.confidence as int)
}

/// Whether `f` is what carving `disk` by the signature `s` gives when every
/// read fills: carved as above, and a footer reported missing occurs nowhere
/// within the signature's largest size.
pub open spec fn carved_whole(disk: Seq<u8>, f: RecoveredFile, s: SigSpec) -> bool {
    &&& carved_as(disk, f, s)
    &&& (f.confidence == 40 ==> (s.footer matches Some(ft) && no_footer_within(
        disk,
        f.disk_offset as int,
        ft,
        s.max_size as int,
    )))
}

/// Whether `f` is a file carved out of `disk` by one of the signatures.
pub open spec fn carved_from(disk: Seq<u8>, f: RecoveredFile) -> bool {
    exists|k: int| 0 <= k < signature_table().len() && carved_as(disk, f, #[trigger] signature_table()[k])
}

/// Whether `v` is what carving `disk` may give: every file is carved from
/// the disk by one of the signatures, and its index is its position.
pub open spec fn carve_gives(disk: Seq<u8>, v: Seq<RecoveredFile>) -> bool {
    forall|i: int| 0 <= i < v.len() ==> (#[trigger] v[i]).index == i && carved_from(disk, v[i])
}

/// Where carving a disk of `size` bytes from `start` stands before its
/// `i`-th chunk when every read fills: the chunk's offset, and how many
/// bytes before it are kept from the chunks before.
pub open spec fn chunk_state(size: int, start: int, i: nat) -> (int, int)
    decreases i,
{
    if i == 0 {
        (start, 0)
    } else {
        let prev = chunk_state(size, start, (i - 1) as nat);
        let n = chunk_len(size, prev.0);
        (prev.0 + n, vstd::math::min(OVERLAP as int, prev.1 + n))
    }
}

/// Bytes of the chunk read at `offset` from a disk of `size` bytes.
pub open spec fn chunk_len(size: int, offset: int) -> int {
    if offset >= size {
        0
    } else {
        vstd::math::min(CHUNK_SIZE as int, size - offset)
    }
}

/// The disk offset that carving adds to a position in the window of the
/// chunk at `offset` with `kept` bytes of the chunks before in front: where
/// the window's first byte lies, for a chunk at 16 bytes or more into the
/// disk; 0 for a chunk nearer the start.
pub open spec fn window_base(offset: int, kept: int) -> int {
    if offset >= OVERLAP {
        offset - kept
    } else {
        0
    }
}

/// The signature by which carving takes a hit of signature `k` at disk
/// offset `abs` when every read fills: where the header of `k` is among the
/// first 12 bytes there, the first signature whose header begins those
/// bytes (a header cut off at the end of a window may have matched a
/// shorter one); `k` otherwise.
pub open spec fn hit_sig(disk: Seq<u8>, abs: int, k: int) -> int {
    let pr = whole_read(disk, abs, 12);
    if occurs_at(pr, 0, signature_table()[k].header) {
        match first_match(pr) {
            Some(k2) => k2,
            None => k,
        }
    } else {
        k
    }
}

/// The hits `hs` of a window that carving turns into files: each moved to
/// the disk by `base` and taken by its signature there (`hit_sig`), kept
/// where that signature's header is on the disk there.
pub open spec fn kept_hits(disk: Seq<u8>, base: int, hs: Seq<(int, int)>) -> Seq<(int, int)>
    decreases hs.len(),
{
    if hs.len() == 0 {
        seq![]
    } else {
        let rest = kept_hits(disk, base, hs.drop_last());
        let h = hs.last();
        let k2 = hit_sig(disk, base + h.0, h.1);
        if occurs_at(disk, base + h.0, signature_table()[k2].header) {
            rest.push((base + h.0, k2))
        } else {
            rest
        }
    }
}

/// The disk offsets and signatures of the files that carving `disk` from
/// `start` gives from its first `c` chunks when every read fills.
pub open spec fn carve_hits(disk: Seq<u8>, start: int, c: nat) -> Seq<(int, int)>
    decreases c,
{
    if c == 0 {
        seq![]
    } else {
        let st = chunk_state(disk.len() as int, start, (c - 1) as nat);
        let n = chunk_len(disk.len() as int, st.0);
        let w = disk.subrange(st.0 - st.1, st.0 + n);
        carve_hits(disk, start, (c - 1) as nat) + kept_hits(disk, window_base(st.0, st.1), window_hits(w, 0))
    }
}

/// Whether the files `v` are, one for one and in order, carved at the hits
/// `hs` by their signatures, with a missing footer reported only where none
/// is within the signature's largest size.
pub open spec fn carved_at_hits(disk: Seq<u8>, v: Seq<RecoveredFile>, hs: Seq<(int, int)>) -> bool {
    &&& v.len() == hs.len()
    &&& forall|i: int|
        0 <= i < v.len() ==> (#[trigger] v[i]).disk_offset == hs[i].0 && 0 <= hs[i].1 < signature_table().len()
            && carved_whole(disk, v[i], signature_table()[hs[i].1])
}

/// Whether `v` is what carving `disk` from `start` gives from its first `c`
/// chunks, each of which starts before the disk's end, when every read
/// fills.
pub open spec fn carve_prefix(disk: Seq<u8>, start: int, c: nat, v: Seq<RecoveredFile>) -> bool {
    &&& c == 0 || chunk_state(disk.len() as int, start, (c - 1) as nat).0 < disk.len()
    &&& carved_at_hits(disk, v, carve_hits(disk, start, c))
}

proof fn lemma_window_hits_bounds(w: Seq<u8>, pos: int)
    requires
        0 <= pos,
    ensures
        forall|i: int|
            0 <= i < window_hits(w, pos).len() ==> pos <= (#[trigger] window_hits(w, pos)[i]).0 < w.len()
                && 0 <= window_hits(w, pos)[i].1 < signature_table().len(),
    decreases w.len() - pos,
{
    if pos + 1 < w.len() {
        lemma_first_match_from(signature_table(), w.skip(pos), 0);
        match first_match(w.skip(pos)) {
            Some(k) => {
                let h = signature_table()[k].header.len() as int;
                let next = if h < 1 { pos + 1 } else if pos + h > w.len() { w.len() as int } else { pos + h };
                lemma_window_hits_bounds(w, next);
                let rest = window_hits(w, next);
                assert(window_hits(w, pos) == seq![(pos, k)] + rest);
                assert forall|i: int| 0 <= i < window_hits(w, pos).len() implies pos <= (
                #[trigger] window_hits(w, pos)[i]).0 < w.len() && 0 <= window_hits(w, pos)[i].1
                    < signature_table().len() by {
                    if i > 0 {
                        assert(window_hits(w, pos)[i] == rest[i - 1]);
                    }
                }
            },
            None => {
                lemma_window_hits_bounds(w, pos + 1);
                assert(window_hits(w, pos) == window_hits(w, pos + 1));
            },
        }
    }
}

/// The signature by which a hit of signature `k` at disk offset `abs` is
/// carved: where the header of `k` is among the first 12 bytes read there,
/// the first signature whose header begins them; `k` otherwise.
fn hit_signature<R: DiskReader + ?Sized>(reader: &mut R, table: &Vec<Signature>, abs: u64, k: usize) -> (k2: usize)
    requires
        table@.len() == signature_table().len(),
        forall|i: int| 0 <= i < table@.len() ==> #[trigger] table@[i]@ == signature_table()[i],
        k < table@.len(),
    ensures
        final(reader).contents() == old(reader).contents(),
        final(reader).reads_whole() == old(reader).reads_whole(),
        k2 < table@.len(),
        old(reader).reads_whole() ==> k2 == hit_sig(old(reader).contents(), abs as int, k as int),
{
    let ghost disk = reader.contents();
    let mut probe: Vec<u8> = vec![0u8; 12];
    let n = match reader.read_at(abs, &mut probe) {
        Ok(n) => n,
        Err(_) => return k,
    };
    let got = &probe[0..n];
    proof {
        assert(got@ =~= probe@.take(n as int));
        if reader.reads_whole() {
            assert(got@ =~= whole_read(disk, abs as int, 12));
        }
        assert(table@[k as int]@ == signature_table()[k as int]);
        assert(got@.skip(0) =~= got@);
    }
    if matches_at(got, 0, table[k].header.as_slice()) {
        match match_signature_at(table, got, 0) {
            Some(x) => x,
            None => k,
        }
    } else {
        k
    }
}

/// The first position at which `pat` occurs in `w`.
pub fn find_pattern(w: &[u8], pat: &[u8]) -> (r: Option<usize>)
    requires
        pat@.len() >= 1,
    ensures
        r matches Some(i) ==> occurs_at(w@, i as int, pat@) && forall|j: int| 0 <= j < i ==> !occurs_at(w@, j, pat@),
        r is None ==> forall|j: int| !occurs_at(w@, j, pat@),
{
    if pat.len() > w.len() {
        return None;
    }
    let wl = w.len();
    let last = wl - pat.len();
    let mut i: usize = 0;
    while i <= last
        invariant
            wl == w@.len(),
            last == w@.len() - pat@.len(),
            last < wl,
            forall|j: int| 0 <= j < i ==> !occurs_at(w@, j, pat@),
        decreases last + 1 - i,
    {
        if matches_at(w, i, pat) {
            return Some(i);
        }
        i = i + 1;
    }
    None
}

/// The signature hits of a window of bytes, as `window_hits` gives them.
pub fn scan_window(table: &Vec<Signature>, w: &[u8]) -> (r: Vec<(usize, usize)>)
    requires
        table@.len() == signature_table().len(),
        forall|i: int| 0 <= i < table@.len() ==> #[trigger] table@[i]@ == signature_table()[i],
    ensures
        r@.len() == window_hits(w@, 0).len(),
        forall|i: int| 0 <= i < r@.len() ==> (#[trigger] r@[i].0 as int, r@[i].1 as int) == window_hits(w@, 0)[i],
{
    let ghost all = window_hits(w@, 0);
    let mut out: Vec<(usize, usize)> = Vec::new();
    let ghost mut acc: Seq<(int, int)> = seq![];
    let mut pos: usize = 0;
    proof {
        table_facts();
    }
    while w.len() > 1 && pos < w.len() - 1
        invariant
            table@.len() == signature_table().len(),
            forall|i: int| 0 <= i < table@.len() ==> #[trigger] table@[i]@ == signature_table()[i],
            table_well_formed(signature_table()),
            all == window_hits(w@, 0),
            acc + window_hits(w@, pos as int) == all,
            out@.len() == acc.len(),
            forall|i: int| 0 <= i < out@.len() ==> (#[trigger] out@[i].0 as int, out@[i].1 as int) == acc[i],
            pos <= w@.len(),
            w@.len() == w.len(),
        decreases w@.len() - pos,
    {
        match match_signature_at(table, w, pos) {
            Some(k) => {
                let hlen = table[k].header.len();
                let next = if hlen > w.len() - pos { w.len() } else { pos + hlen };
                proof {
                    assert(table@[k as int]@ == signature_table()[k as int]);
                    assert(signature_table()[k as int].header.len() >= 2);
                    assert(window_hits(w@, pos as int) == seq![(pos as int, k as int)] + window_hits(w@, next as int));
                    assert(acc.push((pos as int, k as int)) + window_hits(w@, next as int) =~= acc + window_hits(w@, pos as int));
                    acc = acc.push((pos as int, k as int));
                }
                out.push((pos, k));
                pos = next;
            },
            None => {
                pos = pos + 1;
            },
        }
    }
    assert(acc + seq![] =~= acc);
    out
}

proof fn table_facts()
    ensures
        table_well_formed(signature_table()),
{
    let t = signature_table();
    assert forall|i: int| 0 <= i < t.len() implies {
        &&& #[trigger] t[i].header.len() >= 2
        &&& t[i].header.len() <= 12
        &&& (t[i].footer matches Some(f) ==> 2 <= f.len() <= 16)
        &&& t[i].max_size <= 4_294_967_295
    } by {}
}

/// A copy of the first `n` bytes of `src` put after `dst`.
fn append_prefix(dst: &mut Vec<u8>, src: &Vec<u8>, n: usize)
    requires
        n <= src@.len(),
    ensures
        final(dst)@ == old(dst)@ + src@.take(n as int),
{
    let mut i: usize = 0;
    while i < n
        invariant
            i <= n,
            n <= src@.len(),
            dst@ == old(dst)@ + src@.take(i as int),
        decreases n - i,
    {
        dst.push(src[i]);
        i = i + 1;
        assert(dst@ =~= old(dst)@ + src@.take(i as int));
    }
}

/// Where the footer search stops on a disk with `avail` bytes from its
/// start on, when every read fills: from `pos`, while `pos` is below
/// `max_size`, it reads 64 KiB at `pos` and goes on by what it read less
/// `keep` bytes (the bytes a footer cut at the end of a read may still need);
/// it stops where a read gives no more than `keep` bytes.
pub open spec fn footer_scan_stop(avail: int, max_size: int, keep: int, pos: int) -> int
    decreases (if pos < max_size { max_size - pos } else { 0 }),
{
    if pos >= max_size {
        pos
    } else {
        let n = if avail - pos <= 0 { 0 } else { vstd::math::min(SCAN_BUF as int, avail - pos) };
        if n <= keep {
            pos
        } else {
            footer_scan_stop(avail, max_size, keep, pos + n - keep)
        }
    }
}

proof fn lemma_footer_scan_stop(avail: int, max_size: int, keep: int, pos: int)
    requires
        0 <= keep < SCAN_BUF,
    ensures
        footer_scan_stop(avail, max_size, keep, pos) >= pos,
        footer_scan_stop(avail, max_size, keep, pos) >= max_size || footer_scan_stop(avail, max_size, keep, pos)
            + keep >= avail,
    decreases (if pos < max_size { max_size - pos } else { 0 }),
{
    if pos < max_size {
        let n = if avail - pos <= 0 { 0 } else { vstd::math::min(SCAN_BUF as int, avail - pos) };
        if n > keep {
            lemma_footer_scan_stop(avail, max_size, keep, pos + n - keep);
        }
    }
}

/// Looks for the first occurrence of `footer` on the disk at or after
/// `start`. It reads 64 KiB at a time from `start`, each read starting
/// `footer.len() - 1` bytes before the end of the one before, while it is
/// fewer than `max_size` bytes past `start`. Gives the size from `start`
/// through the first occurrence found and 95, or 0 and 40 where none was
/// found (a read failed or gave nothing or too little to hold a footer, or
/// `max_size` was reached).
#[verifier::rlimit(40)]
pub fn find_footer<R: DiskReader + ?Sized>(reader: &mut R, start: u64, footer: &[u8], max_size: u64) -> (r: (u64, u8))
    requires
        1 <= footer@.len() <= 16,
        max_size <= 4_294_967_295,
    ensures
        final(reader).contents() == old(reader).contents(),
        final(reader).reads_whole() == old(reader).reads_whole(),
        (r.1 == 95 && footer_ends_at(old(reader).contents(), start as int, footer@, r.0 as int))
            || (r.1 == 40 && r.0 == 0),
        old(reader).reads_whole() && r.1 == 40 ==> no_footer_within(
            old(reader).contents(),
            start as int,
            footer@,
            max_size as int,
        ),
        old(reader).reads_whole() ==> (r.1 == 95 <==> !no_footer_within(
            old(reader).contents(),
            start as int,
            footer@,
            footer_scan_stop(
                old(reader).contents().len() - start,
                max_size as int,
                footer@.len() - 1,
                0,
            ) + footer@.len() - 1,
        )),
{
    let ghost disk = reader.contents();
    let ghost rw = reader.reads_whole();
    let ghost avail: int = disk.len() - start;
    let flen = footer.len();
    let keep = flen - 1;
    let mut buf: Vec<u8> = vec![0u8; SCAN_BUF];
    let mut pos: u64 = 0;
    while pos < max_size
        invariant
            reader.contents() == disk,
            disk == old(reader).contents(),
            avail == disk.len() - start,
            flen == footer@.len(),
            1 <= flen <= 16,
            keep == flen - 1,
            buf@.len() == SCAN_BUF,
            max_size <= 4_294_967_295,
            pos <= max_size + SCAN_BUF,
            forall|p: int| start <= p && p + flen <= start + pos + keep ==> !occurs_at(disk, p, footer@),
            reader.reads_whole() == rw,
            rw == old(reader).reads_whole(),
            pos > 0 && rw ==> disk.len() <= u64::MAX,
            rw ==> footer_scan_stop(avail, max_size as int, keep as int, 0) == footer_scan_stop(
                avail,
                max_size as int,
                keep as int,
                pos as int,
            ),
        ensures
            reader.contents() == disk,
            reader.reads_whole() == rw,
            forall|p: int| start <= p && p + flen <= start + pos + keep ==> !occurs_at(disk, p, footer@),
            rw ==> pos == footer_scan_stop(avail, max_size as int, keep as int, 0),
        decreases max_size + SCAN_BUF - pos,
    {
        let at = match start.checked_add(pos) {
            Some(a) => a,
            None => break,
        };
        let n = match reader.read_at(at, &mut buf) {
            Ok(n) => n,
            Err(_) => break,
        };
        if n == 0 {
            break;
        }
        let chunk = &buf[0..n];
        proof {
            assert(chunk@ =~= buf@.take(n as int));
            assert(chunk@ == disk.subrange(at as int, at + n));
        }
        match find_pattern(chunk, footer) {
            Some(j) => {
                let size = pos + j as u64 + flen as u64;
                proof {
                    let q = at + j;
                    assert(chunk@.subrange(j as int, j + flen) =~= disk.subrange(q, q + flen));
                    assert forall|p: int| start <= p < q implies !occurs_at(disk, p, footer@) by {
                        if p >= at {
                            assert(disk.subrange(p, p + flen) =~= chunk@.subrange(p - at, p - at + flen));
                            assert(!occurs_at(chunk@, p - at, footer@));
                        }
                    }
                    if rw {
                        assert(n > keep);
                        lemma_footer_scan_stop(avail, max_size as int, keep as int, pos + n - keep);
                        assert(footer_scan_stop(avail, max_size as int, keep as int, pos as int) == footer_scan_stop(
                            avail,
                            max_size as int,
                            keep as int,
                            pos + n - keep,
                        ));
                        assert(occurs_at(disk, q, footer@));
                        assert(q + flen <= start + footer_scan_stop(avail, max_size as int, keep as int, 0) + keep);
                        assert(!no_footer_within(
                            disk,
                            start as int,
                            footer@,
                            footer_scan_stop(avail, max_size as int, keep as int, 0) + keep,
                        ));
                    }
                }
                return (size, 95);
            },
            None => {},
        }
        if n <= keep {
            break;
        }
        proof {
            assert forall|p: int| start <= p && p + flen <= at + n implies !occurs_at(disk, p, footer@) by {
                if p >= at {
                    if occurs_at(disk, p, footer@) {
                        assert(disk.subrange(p, p + flen) =~= chunk@.subrange(p - at, p - at + flen));
                        assert(occurs_at(chunk@, p - at, footer@));
                    }
                }
            }
        }
        pos = pos + (n - keep) as u64;
    }
    proof {
        if rw {
            lemma_footer_scan_stop(avail, max_size as int, keep as int, 0);
        }
    }
    (0, 40)
}

/// Checks that the header of `sig` is on the disk at `offset` and, where it
/// is, sizes the file by the signature's footer.
pub fn extract_file<R: DiskReader + ?Sized>(reader: &mut R, offset: u64, sig: &Signature, index: usize) -> (r: Option<RecoveredFile>)
    requires
        2 <= sig.header@.len() <= 12,
        sig.footer matches Some(f) ==> 2 <= f@.len() <= 16,
        sig.max_size <= 4_294_967_295,
    ensures
        final(reader).contents() == old(reader).contents(),
        final(reader).reads_whole() == old(reader).reads_whole(),
        r matches Some(f) ==> carved_as(old(reader).contents(), f, sig@) && f.index == index && f.disk_offset
            == offset,
        old(reader).reads_whole() ==> (r is Some <==> occurs_at(old(reader).contents(), offset as int, sig.header@)),
        old(reader).reads_whole() ==> (r matches Some(f) ==> carved_whole(old(reader).contents(), f, sig@)),
{
    let ghost disk = reader.contents();
    let hlen = sig.header.len();
    let plen = if hlen + 4 < 16 { hlen + 4 } else { 16 };
    let mut probe: Vec<u8> = vec![0u8; plen];
    let n = match reader.read_at(offset, &mut probe) {
        Ok(n) => n,
        Err(_) => return None,
    };
    proof {
        if reader.reads_whole() && occurs_at(disk, offset as int, sig.header@) {
            assert(n >= hlen);
            assert(probe@.take(n as int).subrange(0, hlen as int) =~= probe@.subrange(0, hlen as int));
            assert(disk.subrange(offset as int, offset + n).subrange(0, hlen as int) =~= disk.subrange(offset as int, offset + hlen));
            assert(occurs_at(probe@, 0, sig.header@));
        }
    }
    if n < hlen || !matches_at(probe.as_slice(), 0, sig.header.as_slice()) {
        return None;
    }
    proof {
        assert(probe@.take(n as int).subrange(0, hlen as int) =~= probe@.subrange(0, hlen as int));
        assert(disk.subrange(offset as int, offset + n).subrange(0, hlen as int) =~= disk.subrange(offset as int, offset + hlen));
    }
    let (size, confidence) = match &sig.footer {
        Some(footer) => find_footer(reader, offset, footer.as_slice(), sig.max_size),
        None => (0u64, 60u8),
    };
    Some(RecoveredFile {
        name: None,
        original_path: None,
        size,
        file_type: sig.file_type,
        disk_offset: offset,
        recovery_method: RecoveryMethod::DiskCarving,
        confidence,
        index,
    })
}

/// Whether `v` is what carving `disk` from `start` gives from some number
/// of its first chunks when every read fills (a stop may have cut it short).
pub open spec fn carve_some(disk: Seq<u8>, start: int, v: Seq<RecoveredFile>) -> bool {
    exists|c: nat| #[trigger] carve_prefix(disk, start, c, v)
}

/// Whether `v` is what carving `disk` from `start` gives when every read
/// fills and no stop is asked for: the files of every chunk up to the
/// disk's end.
pub open spec fn carve_all(disk: Seq<u8>, start: int, v: Seq<RecoveredFile>) -> bool {
    exists|c: nat| #[trigger] carve_prefix(disk, start, c, v) && chunk_state(disk.len() as int, start, c).0 >= disk.len()
}

/// Deep scan: reads the disk from `start_offset` to its reported size in
/// chunks, and carves a file at every signature header found, in the order
/// found. Stops early when a stop is requested or a read fails or gives
/// nothing. Every file it gives is carved from the disk by one of the
/// signatures, and its index is its position in the result. On a reader
/// that reads whole, the files are, in order, those of every hit in the
/// chunks read before it stopped. Each chunk is scanned with the last 16
/// bytes of the one before in front, so a header that lies wholly in them
/// is carved a second time; hits in a chunk less than 16 bytes into the disk
/// are placed from offset 0.
pub fn carve<R: DiskReader + ?Sized, P: FnMut(ScanProgress) + ?Sized>(
    reader: &mut R,
    start_offset: u64,
    progress_cb: &mut P,
    stop_flag: Arc<AtomicBool>,
) -> (r: Result<Vec<RecoveredFile>, DiskError>)
    ensures
        final(reader).contents() == old(reader).contents(),
        final(reader).reads_whole() == old(reader).reads_whole(),
        r matches Ok(v) && carve_gives(old(reader).contents(), v@),
        old(reader).reads_whole() ==> (r matches Ok(v) ==> carve_some(old(reader).contents(), start_offset as int, v@)),
{
    let check = || stop_requested(&stop_flag);
    carve_until(reader, start_offset, progress_cb, &check)
}

/// Deep scan as `carve` does it, asking `stop` before each chunk whether to
/// stop. Where `stop` never asks to and every read fills, it carves every
/// chunk up to the disk's end.
#[verifier::spinoff_prover]
#[verifier::rlimit(60)]
pub fn carve_until<R: DiskReader + ?Sized, P: FnMut(ScanProgress) + ?Sized, S: Fn() -> bool>(
    reader: &mut R,
    start_offset: u64,
    progress_cb: &mut P,
    stop: &S,
) -> (r: Result<Vec<RecoveredFile>, DiskError>)
    requires
        call_requires(*stop, ()),
    ensures
        final(reader).contents() == old(reader).contents(),
        final(reader).reads_whole() == old(reader).reads_whole(),
        r matches Ok(v) && carve_gives(old(reader).contents(), v@),
        old(reader).reads_whole() ==> (r matches Ok(v) ==> carve_some(old(reader).contents(), start_offset as int, v@)),
        old(reader).reads_whole() && never_stops(*stop) ==> (r matches Ok(v) && carve_all(
            old(reader).contents(),
            start_offset as int,
            v@,
        )),
        always_stops(*stop) ==> (r matches Ok(v) && v@.len() == 0),
{
    let ghost disk = reader.contents();
    let ghost rw = reader.reads_whole();
    let ghost mut c: nat = 0;
    let disk_size = reader.size();
    let table = signatures();
    proof {
        table_facts();
    }
    let mut results: Vec<RecoveredFile> = Vec::new();
    let mut offset = start_offset;
    let mut leftover: Vec<u8> = Vec::new();
    report(
        progress_cb,
        ScanProgress {
            bytes_scanned: 0,
            bytes_total: disk_size,
            files_found: 0,
            phase: ScanPhase::CarveStarting,
            complete: false,
            warning: None,
        },
    );
    proof {
        if offset <= disk.len() {
            assert(leftover@ =~= disk.subrange(offset as int, offset as int));
        }
    }
    while offset < disk_size
        invariant
            reader.contents() == disk,
            table@.len() == signature_table().len(),
            forall|i: int| 0 <= i < table@.len() ==> #[trigger] table@[i]@ == signature_table()[i],
            table_well_formed(signature_table()),
            leftover@.len() <= OVERLAP,
            forall|i: int| 0 <= i < results@.len() ==> (#[trigger] results@[i]).index == i
                && carved_from(disk, results@[i]),
            reader.reads_whole() == rw,
            disk == old(reader).contents(),
            rw ==> disk_size == disk.len(),
            rw ==> (offset as int, leftover@.len() as int) == chunk_state(disk.len() as int, start_offset as int, c),
            leftover@.len() <= offset,
            rw && offset <= disk.len() ==> leftover@ == disk.subrange(offset - leftover@.len(), offset as int),
            rw ==> carve_prefix(disk, start_offset as int, c, results@),
            call_requires(*stop, ()),
            always_stops(*stop) ==> results@.len() == 0,
        ensures
            reader.contents() == disk,
            forall|i: int| 0 <= i < results@.len() ==> (#[trigger] results@[i]).index == i
                && carved_from(disk, results@[i]),
            rw ==> carve_prefix(disk, start_offset as int, c, results@),
            rw && never_stops(*stop) ==> chunk_state(disk.len() as int, start_offset as int, c).0 >= disk.len(),
            always_stops(*stop) ==> results@.len() == 0,
        decreases disk_size - offset,
    {
        let s = stop();
        if s {
            break;
        }
        let remaining = disk_size - offset;
        let read_len: usize = if remaining < CHUNK_SIZE as u64 { remaining as usize } else { CHUNK_SIZE };
        let mut chunk_buf: Vec<u8> = vec![0u8; read_len];
        let n = match reader.read_at(offset, &mut chunk_buf) {
            Ok(n) => n,
            Err(_) => break,
        };
        if n == 0 {
            break;
        }
        let mut window: Vec<u8> = slice_to_vec(leftover.as_slice());
        append_prefix(&mut window, &chunk_buf, n);
        let window_base: u64 = if offset >= OVERLAP as u64 { offset - leftover.len() as u64 } else { 0 };
        let hits = scan_window(&table, window.as_slice());
        let ghost hs = window_hits(window@, 0);
        let ghost prefix = carve_hits(disk, start_offset as int, c);
        let ghost before = results@;
        proof {
            lemma_window_hits_bounds(window@, 0);
            if rw {
                assert(chunk_buf@.take(n as int) =~= disk.subrange(offset as int, offset + n));
                assert(window@ =~= disk.subrange(offset - leftover@.len(), offset + n));
                assert(hs.take(0) =~= seq![]);
                assert(prefix + kept_hits(disk, window_base as int, hs.take(0)) =~= prefix);
            }
        }
        let mut h: usize = 0;
        while h < hits.len()
            invariant
                reader.contents() == disk,
                table@.len() == signature_table().len(),
                forall|i: int| 0 <= i < table@.len() ==> #[trigger] table@[i]@ == signature_table()[i],
                table_well_formed(signature_table()),
                forall|i: int| 0 <= i < results@.len() ==> (#[trigger] results@[i]).index == i
                    && carved_from(disk, results@[i]),
                reader.reads_whole() == rw,
                h <= hits@.len(),
                hits@.len() == hs.len(),
                forall|i: int| 0 <= i < hits@.len() ==> (#[trigger] hits@[i].0 as int, hits@[i].1 as int) == hs[i],
                forall|i: int| 0 <= i < hs.len() ==> (#[trigger] hs[i]).0 < window@.len()
                    && 0 <= hs[i].1 < signature_table().len(),
                rw ==> disk.len() <= u64::MAX,
                rw ==> window_base + window@.len() <= disk.len(),
                rw ==> carved_at_hits(disk, results@, prefix + kept_hits(disk, window_base as int, hs.take(h as int))),
            decreases hits@.len() - h,
        {
            let (pos, k) = hits[h];
            let ghost hh = h as int;
            proof {
                assert((pos as int, k as int) == hs[hh]);
                assert(hs.take(hh + 1).drop_last() =~= hs.take(hh));
                assert(hs.take(hh + 1).last() == hs[hh]);
            }
            h = h + 1;
            if k >= table.len() {
                continue;
            }
            proof {
                assert(table@[k as int]@ == signature_table()[k as int]);
                assert(signature_table()[k as int].header.len() >= 2);
            }
            let abs_offset = match window_base.checked_add(pos as u64) {
                Some(a) => a,
                None => continue,
            };
            let k = hit_signature(reader, &table, abs_offset, k);
            proof {
                assert(table@[k as int]@ == signature_table()[k as int]);
                assert(signature_table()[k as int].header.len() >= 2);
            }
            let ghost old_results = results@;
            match extract_file(reader, abs_offset, &table[k], results.len()) {
                Some(recovered) => {
                    proof {
                        assert(carved_as(disk, recovered, signature_table()[k as int]));
                    }
                    results.push(recovered);
                    proof {
                        if rw {
                            let hsq = prefix + kept_hits(disk, window_base as int, hs.take(hh));
                            assert(prefix + kept_hits(disk, window_base as int, hs.take(hh + 1)) =~= hsq.push(
                                (window_base + pos, k as int),
                            ));
                            assert forall|i: int| 0 <= i < results@.len() implies (#[trigger] results@[i]).disk_offset
                                == hsq.push((window_base + pos, k as int))[i].0 && 0 <= hsq.push(
                                (window_base + pos, k as int),
                            )[i].1 < signature_table().len() && carved_whole(
                                disk,
                                results@[i],
                                signature_table()[hsq.push((window_base + pos, k as int))[i].1],
                            ) by {
                                if i < old_results.len() {
                                    assert(results@[i] == old_results[i]);
                                }
                            }
                        }
                    }
                    report(
                        progress_cb,
                        ScanProgress {
                            bytes_scanned: offset,
                            bytes_total: disk_size,
                            files_found: results.len(),
                            phase: ScanPhase::CarveFound(results.len()),
                            complete: false,
                            warning: None,
                        },
                    );
                },
                None => {
                    proof {
                        if rw {
                            assert(prefix + kept_hits(disk, window_base as int, hs.take(hh + 1)) =~= prefix
                                + kept_hits(disk, window_base as int, hs.take(hh)));
                        }
                    }
                },
            }
        }
        let wl = window.len();
        let keep = if wl < OVERLAP { wl } else { OVERLAP };
        leftover = slice_to_vec(&window[wl - keep..wl]);
        proof {
            if rw {
                assert(hs.take(hs.len() as int) =~= hs);
                assert(carve_hits(disk, start_offset as int, c + 1) == prefix + kept_hits(
                    disk,
                    window_base as int,
                    hs,
                ));
                assert(leftover@ =~= disk.subrange(offset + n - keep, offset + n));
            }
            c = c + 1;
        }
        offset = offset + n as u64;
        report(
            progress_cb,
            ScanProgress {
                bytes_scanned: offset,
                bytes_total: disk_size,
                files_found: results.len(),
                phase: ScanPhase::CarveProgress,
                complete: false,
                warning: None,
            },
        );
    }
    report(
        progress_cb,
        ScanProgress {
            bytes_scanned: disk_size,
            bytes_total: disk_size,
            files_found: results.len(),
            phase: ScanPhase::CarveComplete,
            complete: true,
            warning: None,
        },
    );
    proof {
        assert(disk == old(reader).contents());
        assert(rw == old(reader).reads_whole());
        if rw {
            assert(carve_prefix(disk, start_offset as int, c, results@));
            assert(carve_some(old(reader).contents(), start_offset as int, results@));
            if never_stops(*stop) {
                assert(carve_all(old(reader).contents(), start_offset as int, results@));
            }
        }
        assert(carve_gives(old(reader).contents(), results@));
    }
    Ok(results)
}

} // verus!
