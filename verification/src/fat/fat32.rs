//! Reads the FAT32 boot sector and the root directory's first cluster, and
//! reports the directory entries that carry the deleted marker.
use vstd::prelude::*;
use vstd::string::StringExecFns;
use vstd::utf8::{decode_utf8, valid_utf8};
use std::sync::Arc;
use std::sync::atomic::AtomicBool;
use crate::bytes::{le16, le32, matches_at, occurs_at, read_u16_le, read_u32_le};
use crate::control::{always_stops, never_stops, report, stop_requested};
use crate::disk::{boot_sector, lemma_whole_boot_sector, read_back, sector_read, whole_read, DiskReader};
use crate::ntfs::attribute::opt_view;
use crate::text::{lowercase, to_lowercase, trim_spec, trim_str, utf8_str};
use crate::types::{
    type_for_extension, type_of_extension, RecoveredFile, RecoveryMethod, ScanError, ScanPhase,
    ScanProgress,
};

verus! {

/// Bytes of one directory entry.
pub const DIR_ENTRY_SIZE: usize = 32;

/// The first byte of a deleted directory entry.
pub const DELETED_MARKER: u8 = 0xE5;

/// The geometry of a FAT32 volume.
pub struct Fat32Bpb {
    pub bytes_per_cluster: u32,
    pub data_start: u64,
    pub root_cluster: u32,
}

/// Bytes per cluster: bytes per sector (0x0B) times sectors per cluster (0x0D).
pub open spec fn fat_cluster_bytes(b: Seq<u8>) -> int {
    le16(b, 0x0B) * b[0x0D]
}

/// Bytes of all copies of the FAT: their number (0x10) times sectors per FAT
/// (0x24) times bytes per sector.
pub open spec fn fat_table_bytes(b: Seq<u8>) -> int {
    b[0x10] * le32(b, 0x24) * le16(b, 0x0B)
}

/// Whether the FAT sizes fit the 32-bit arithmetic they are computed in:
/// the sector count of all FATs, and their byte count.
pub open spec fn fat_tables_fit(b: Seq<u8>) -> bool {
    b[0x10] * le32(b, 0x24) <= u32::MAX && fat_table_bytes(b) <= u32::MAX
}

/// Where the data area starts: after the reserved sectors (0x0E) and the FATs.
pub open spec fn fat_data_start(b: Seq<u8>) -> int {
    le16(b, 0x0E) * le16(b, 0x0B) + fat_table_bytes(b)
}

/// The bounds that every geometry read from a boot sector keeps.
pub open spec fn bpb_wf(bpb: Fat32Bpb) -> bool {
    &&& bpb.bytes_per_cluster <= 65535 * 255
    &&& bpb.data_start <= 65535 * 65535 + 4294967295
}

/// Whether `bpb` is the geometry that the boot sector `b` gives.
pub open spec fn bpb_of(b: Seq<u8>, bpb: Fat32Bpb) -> bool {
    &&& bpb.bytes_per_cluster == fat_cluster_bytes(b)
    &&& bpb.data_start == fat_data_start(b)
    &&& bpb.root_cluster == le32(b, 0x2C)
}

/// The geometry of a FAT32 boot sector. Fails where the FATs together take
/// more bytes than 32 bits count.
pub fn parse_bpb(buf: &[u8]) -> (r: Result<Fat32Bpb, ScanError>)
    requires
        buf@.len() >= 0x30,
    ensures
        r matches Ok(bpb) ==> bpb_of(buf@, bpb) && bpb_wf(bpb),
        r matches Err(e) ==> e is BadGeometry,
        r is Ok <==> fat_tables_fit(buf@),
{
    let bps = read_u16_le(buf, 0x0B) as u32;
    let spc = buf[0x0D] as u32;
    let reserved = read_u16_le(buf, 0x0E) as u32;
    let fat_count = buf[0x10] as u32;
    let spf = read_u32_le(buf, 0x24);
    let root_cluster = read_u32_le(buf, 0x2C);
    assert(bps * spc <= 65535 * 255) by (nonlinear_arith)
        requires
            bps <= 65535,
            spc <= 255,
    ;
    let fat_size = match fat_count.checked_mul(spf) {
        Some(x) => match x.checked_mul(bps) {
            Some(y) => y,
            None => return Err(ScanError::BadGeometry),
        },
        None => return Err(ScanError::BadGeometry),
    };
    assert(reserved as u64 * bps as u64 <= 65535 * 65535) by (nonlinear_arith)
        requires
            bps <= 65535,
            reserved <= 65535,
    ;
    let data_start = (reserved as u64 * bps as u64) + fat_size as u64;
    Ok(Fat32Bpb { bytes_per_cluster: bps * spc, data_start, root_cluster })
}

/// The byte offset of data cluster `cluster` (clusters are numbered from 2).
pub open spec fn cluster_offset_spec(bpb: Fat32Bpb, cluster: int) -> int {
    bpb.data_start + (cluster - 2) * bpb.bytes_per_cluster
}

/// The byte offset of data cluster `cluster`.
pub fn cluster_offset(bpb: &Fat32Bpb, cluster: u32) -> (r: u64)
    requires
        bpb_wf(*bpb),
        cluster >= 2,
    ensures
        r == cluster_offset_spec(*bpb, cluster as int),
{
    assert((cluster - 2) * bpb.bytes_per_cluster <= 4294967295 * (65535 * 255)) by (nonlinear_arith)
        requires
            cluster - 2 <= 4294967295,
            cluster - 2 >= 0,
            bpb.bytes_per_cluster <= 65535 * 255,
    ;
    bpb.data_start + (cluster as u64 - 2) * bpb.bytes_per_cluster as u64
}

/// The characters of `b` where it is valid UTF-8, none where it is not.
pub open spec fn utf8_or_empty(b: Seq<u8>) -> Seq<char> {
    if valid_utf8(b) {
        decode_utf8(b)
    } else {
        seq![]
    }
}

/// The name part of an 8.3 entry: bytes 1 to 7 (byte 0 holds the deleted
/// marker), trimmed.
pub open spec fn entry_base(e: Seq<u8>) -> Seq<char> {
    trim_spec(utf8_or_empty(e.subrange(1, 8)))
}

/// The extension part of an 8.3 entry: bytes 8 to 10, trimmed and
/// lowercased.
pub open spec fn entry_ext(e: Seq<u8>) -> Seq<char> {
    lowercase(trim_spec(utf8_or_empty(e.subrange(8, 11))))
}

/// The name under which a deleted entry is reported: "?" for the lost first
/// letter, the name, and "." with the extension where there is one.
pub open spec fn entry_file_name(e: Seq<u8>) -> Seq<char> {
    if entry_ext(e).len() == 0 {
        "?"@ + entry_base(e)
    } else {
        "?"@ + entry_base(e) + "."@ + entry_ext(e)
    }
}

/// The first cluster of an entry: high half at 20, low half at 26.
pub open spec fn entry_first_cluster(e: Seq<u8>) -> int {
    le16(e, 20) * 65536 + le16(e, 26)
}

/// Whether `f` is what the deleted entry `e` gives as the `index`-th file
/// of a volume of geometry `bpb`. The data offset is that of the first
/// cluster, or 0 where the entry names no data cluster.
pub open spec fn entry_gives(e: Seq<u8>, bpb: Fat32Bpb, index: int, f: RecoveredFile) -> bool {
    let c = entry_first_cluster(e);
    &&& opt_view(f.name) == Some(entry_file_name(e))
    &&& f.original_path is None
    &&& f.size == le32(e, 28)
    &&& f.file_type == type_of_extension(entry_ext(e))
    &&& f.disk_offset == if c >= 2 { cluster_offset_spec(bpb, c) } else { 0 }
    &&& f.recovery_method == RecoveryMethod::Fat32Directory
    &&& f.confidence == 80
    &&& f.index == index
}

/// The file that a deleted 8.3 directory entry describes; `None` where its
/// name is empty.
pub fn parse_entry(entry: &[u8], bpb: &Fat32Bpb, index: usize) -> (r: Option<RecoveredFile>)
    requires
        entry@.len() == DIR_ENTRY_SIZE,
        bpb_wf(*bpb),
    ensures
        r matches Some(f) ==> entry_gives(entry@, *bpb, index as int, f),
        r is None <==> entry_base(entry@).len() == 0,
{
    let name_bytes = &entry[1..8];
    let raw_name = match utf8_str(name_bytes) {
        Some(s) => trim_str(s),
        None => trim_str(""),
    };
    let ext_bytes = &entry[8..11];
    let trimmed_ext = match utf8_str(ext_bytes) {
        Some(s) => trim_str(s),
        None => trim_str(""),
    };
    let raw_ext = to_lowercase(trimmed_ext.as_str());
    proof {
        assert(name_bytes@ == entry@.subrange(1, 8));
        assert(ext_bytes@ == entry@.subrange(8, 11));
        reveal_strlit("");
    }
    if raw_name.as_str().unicode_len() == 0 {
        return None;
    }
    let mut filename = String::from_str("?");
    filename.append(raw_name.as_str());
    if raw_ext.as_str().unicode_len() != 0 {
        filename.append(".");
        filename.append(raw_ext.as_str());
    }
    proof {
        assert(raw_name@ == entry_base(entry@));
        assert(trimmed_ext@ == trim_spec(utf8_or_empty(entry@.subrange(8, 11))));
        assert(raw_ext@ == lowercase(trimmed_ext@));
        assert(raw_ext@ == entry_ext(entry@));
        assert(filename@ == entry_file_name(entry@));
    }
    let size = read_u32_le(entry, 28) as u64;
    let cluster_hi = read_u16_le(entry, 20) as u32;
    let cluster_lo = read_u16_le(entry, 26) as u32;
    let first_cluster = cluster_hi * 65536 + cluster_lo;
    let disk_offset = if first_cluster >= 2 { cluster_offset(bpb, first_cluster) } else { 0 };
    let file_type = type_for_extension(raw_ext.as_str());
    Some(RecoveredFile {
        name: Some(filename),
        original_path: None,
        size,
        file_type,
        disk_offset,
        recovery_method: RecoveryMethod::Fat32Directory,
        confidence: 80,
        index,
    })
}

/// Whether the entry `e` is reported by the scan: it carries the deleted
/// marker, is neither a long-name entry (attributes 0x0F), a directory
/// (0x10) nor a volume label (0x08), and has a name.
pub open spec fn is_deleted_file_entry(e: Seq<u8>) -> bool {
    &&& e[0] == DELETED_MARKER
    &&& e[11] != 0x0F
    &&& (e[11] / 16) % 2 == 0
    &&& (e[11] / 8) % 2 == 0
    &&& entry_base(e).len() > 0
}

/// The positions, from `pos` on, of the entries of the directory bytes
/// `dir` that the scan reports. Entries are 32 bytes each; an entry whose
/// first byte is 0 ends the directory.
pub open spec fn dir_hits(dir: Seq<u8>, pos: int) -> Seq<int>
    decreases dir.len() - pos,
{
    if pos < 0 || pos + DIR_ENTRY_SIZE > dir.len() || dir[pos] == 0 {
        seq![]
    } else if is_deleted_file_entry(dir.subrange(pos, pos + DIR_ENTRY_SIZE)) {
        seq![pos] + dir_hits(dir, pos + DIR_ENTRY_SIZE)
    } else {
        dir_hits(dir, pos + DIR_ENTRY_SIZE)
    }
}

/// An entry is reported as a deleted file exactly where its first byte is
/// the deleted marker 0xE5, its attribute byte is not 0x0F (a long-name
/// part) and has neither the directory bit (0x10) nor the volume-label bit
/// (0x08) set, and its base name is not blank.
pub proof fn law_deleted_file_entry(e: Seq<u8>)
    requires
        e.len() == DIR_ENTRY_SIZE,
    ensures
        is_deleted_file_entry(e) <==> (e[0] == 0xE5u8 && e[11] != 0x0Fu8 && e[11] & 0x10u8 == 0 && e[11] & 0x08u8
            == 0 && entry_base(e).len() > 0),
{
    let x: u8 = e[11];
    assert(((x / 16) % 2 == 0) <==> (x & 0x10u8 == 0)) by (bit_vector);
    assert(((x / 8) % 2 == 0) <==> (x & 0x08u8 == 0)) by (bit_vector);
}

/// Whether `p` is the position of an entry of the directory bytes `dir`
/// that a scan from `start` reports: a whole 32-byte entry a whole number of
/// entries past `start`, no entry from `start` up to it (itself included)
/// starting with 0, and the entry that of a deleted file.
pub open spec fn reported_entry(dir: Seq<u8>, start: int, p: int) -> bool {
    &&& start <= p
    &&& (p - start) % (DIR_ENTRY_SIZE as int) == 0
    &&& p + DIR_ENTRY_SIZE <= dir.len()
    &&& forall|q: int| start <= q <= p && (q - start) % (DIR_ENTRY_SIZE as int) == 0 ==> #[trigger] dir[q] != 0
    &&& is_deleted_file_entry(dir.subrange(p, p + DIR_ENTRY_SIZE))
}

/// The entries that a scan of a directory reports are exactly its deleted
/// file entries before the first entry that starts with 0, each once and in
/// the order they stand in.
pub proof fn law_dir_hits_are_reported_entries(dir: Seq<u8>, start: int)
    requires
        start >= 0,
    ensures
        forall|p: int| dir_hits(dir, start).contains(p) <==> reported_entry(dir, start, p),
        forall|i: int, j: int|
            0 <= i < j < dir_hits(dir, start).len() ==> dir_hits(dir, start)[i] < dir_hits(dir, start)[j],
        forall|i: int| 0 <= i < dir_hits(dir, start).len() ==> dir_hits(dir, start)[i] >= start,
    decreases dir.len() - start,
{
    let h = dir_hits(dir, start);
    let sz = DIR_ENTRY_SIZE as int;
    if start + sz > dir.len() || dir[start] == 0 {
        assert(h.len() == 0);
        assert forall|p: int| !reported_entry(dir, start, p) by {
            if reported_entry(dir, start, p) {
                assert(dir[start] != 0);
            }
        }
    } else {
        law_dir_hits_are_reported_entries(dir, start + sz);
        let rest = dir_hits(dir, start + sz);
        assert forall|p: int| p > start implies (reported_entry(dir, start, p) <==> reported_entry(
            dir,
            start + sz,
            p,
        )) by {
            if reported_entry(dir, start + sz, p) {
                assert forall|q: int| start <= q <= p && (q - start) % sz == 0 implies #[trigger] dir[q] != 0 by {
                    if q > start {
                        assert((q - (start + sz)) % sz == 0);
                    }
                }
            }
            if reported_entry(dir, start, p) {
                assert((p - start) % sz == 0);
                assert(p >= start + sz);
                assert forall|q: int| start + sz <= q <= p && (q - (start + sz)) % sz == 0 implies #[trigger] dir[q]
                    != 0 by {
                    assert((q - start) % sz == 0);
                }
            }
        }
        if is_deleted_file_entry(dir.subrange(start, start + sz)) {
            assert(h == seq![start] + rest);
            assert forall|q: int| start <= q <= start && (q - start) % sz == 0 implies #[trigger] dir[q] != 0 by {}
            assert(reported_entry(dir, start, start));
            assert forall|p: int| h.contains(p) <==> reported_entry(dir, start, p) by {
                if p == start {
                    assert(h[0] == start);
                }
                if h.contains(p) && p != start {
                    let i = choose|i: int| 0 <= i < h.len() && h[i] == p;
                    assert(rest[i - 1] == p);
                    assert(rest.contains(p));
                }
                if reported_entry(dir, start, p) && p != start {
                    assert(rest.contains(p));
                    let i = choose|i: int| 0 <= i < rest.len() && rest[i] == p;
                    assert(h[i + 1] == p);
                }
            }
        } else {
            assert(h == rest);
            assert(!reported_entry(dir, start, start));
            assert forall|p: int| h.contains(p) <==> reported_entry(dir, start, p) by {
                if h.contains(p) {
                    assert(rest.contains(p));
                }
            }
        }
    }
}

/// Whether the files `v` from index `start` on are those that the
/// directory bytes `dir` give: one for each reported entry, in order.
pub open spec fn dir_gives(dir: Seq<u8>, bpb: Fat32Bpb, start: int, v: Seq<RecoveredFile>) -> bool {
    let hits = dir_hits(dir, 0);
    &&& v.len() == start + hits.len()
    &&& forall|i: int| 0 <= i < hits.len() ==> entry_gives(
        dir.subrange(hits[i], hits[i] + DIR_ENTRY_SIZE),
        bpb,
        start + i,
        #[trigger] v[start + i],
    )
}

/// Reads the first cluster of the directory at `cluster` and adds the
/// deleted files that its entries record to `results`. Adds nothing when a
/// stop is requested or `depth` is over 16.
pub fn scan_dir<R: DiskReader + ?Sized, P: FnMut(ScanProgress) + ?Sized>(
    reader: &mut R,
    bpb: &Fat32Bpb,
    cluster: u32,
    results: &mut Vec<RecoveredFile>,
    progress_cb: &mut P,
    stop_flag: Arc<AtomicBool>,
    depth: usize,
) -> (r: Result<(), ScanError>)
    requires
        bpb_wf(*bpb),
        cluster >= 2,
    ensures
        final(reader).contents() == old(reader).contents(),
        final(reader).reads_whole() == old(reader).reads_whole(),
        r matches Err(e) ==> e is Read,
        r is Ok ==> final(results)@ == old(results)@ || exists|dir: Seq<u8>| {
            &&& #[trigger] read_back(old(reader).contents(), cluster_offset_spec(*bpb, cluster as int), dir)
            &&& dir.len() <= bpb.bytes_per_cluster
            &&& final(results)@.take(old(results)@.len() as int) == old(results)@
            &&& dir_gives(dir, *bpb, old(results)@.len() as int, final(results)@)
        },
        depth > 16 ==> r is Ok && final(results)@ == old(results)@,
        old(reader).reads_whole() ==> r is Ok,
        old(reader).reads_whole() && final(results)@ != old(results)@ ==> {
            &&& final(results)@.take(old(results)@.len() as int) == old(results)@
            &&& dir_gives(
                whole_read(old(reader).contents(), cluster_offset_spec(*bpb, cluster as int), bpb.bytes_per_cluster as int),
                *bpb,
                old(results)@.len() as int,
                final(results)@,
            )
        },
{
    let check = || stop_requested(&stop_flag);
    scan_dir_until(reader, bpb, cluster, results, progress_cb, &check, depth)
}

/// Reads a directory's first cluster as `scan_dir` does, asking `stop`
/// first whether to stop. Where `stop` never asks to and the read fills, it
/// adds every deleted file of the whole cluster.
pub fn scan_dir_until<R: DiskReader + ?Sized, P: FnMut(ScanProgress) + ?Sized, S: Fn() -> bool>(
    reader: &mut R,
    bpb: &Fat32Bpb,
    cluster: u32,
    results: &mut Vec<RecoveredFile>,
    progress_cb: &mut P,
    stop: &S,
    depth: usize,
) -> (r: Result<(), ScanError>)
    requires
        call_requires(*stop, ()),
        bpb_wf(*bpb),
        cluster >= 2,
    ensures
        final(reader).contents() == old(reader).contents(),
        final(reader).reads_whole() == old(reader).reads_whole(),
        r matches Err(e) ==> e is Read,
        r is Ok ==> final(results)@ == old(results)@ || exists|dir: Seq<u8>| {
            &&& #[trigger] read_back(old(reader).contents(), cluster_offset_spec(*bpb, cluster as int), dir)
            &&& dir.len() <= bpb.bytes_per_cluster
            &&& final(results)@.take(old(results)@.len() as int) == old(results)@
            &&& dir_gives(dir, *bpb, old(results)@.len() as int, final(results)@)
        },
        depth > 16 ==> r is Ok && final(results)@ == old(results)@,
        old(reader).reads_whole() ==> r is Ok,
        old(reader).reads_whole() && final(results)@ != old(results)@ ==> {
            &&& final(results)@.take(old(results)@.len() as int) == old(results)@
            &&& dir_gives(
                whole_read(old(reader).contents(), cluster_offset_spec(*bpb, cluster as int), bpb.bytes_per_cluster as int),
                *bpb,
                old(results)@.len() as int,
                final(results)@,
            )
        },
        old(reader).reads_whole() && never_stops(*stop) && depth <= 16 ==> {
            &&& r is Ok
            &&& final(results)@.take(old(results)@.len() as int) == old(results)@
            &&& dir_gives(
                whole_read(old(reader).contents(), cluster_offset_spec(*bpb, cluster as int), bpb.bytes_per_cluster as int),
                *bpb,
                old(results)@.len() as int,
                final(results)@,
            )
        },
        always_stops(*stop) ==> r is Ok && final(results)@ == old(results)@,
{
    if depth > 16 {
        return Ok(());
    }
    let s = stop();
    if s {
        return Ok(());
    }
    let ghost disk = reader.contents();
    let ghost start = results@.len() as int;
    let off = cluster_offset(bpb, cluster);
    let mut buf: Vec<u8> = vec![0u8; bpb.bytes_per_cluster as usize];
    let n = match reader.read_at(off, &mut buf) {
        Ok(n) => n,
        Err(e) => return Err(ScanError::Read(e)),
    };
    let ghost dir = buf@.take(n as int);
    proof {
        if reader.reads_whole() {
            assert(dir =~= whole_read(disk, off as int, bpb.bytes_per_cluster as int));
        }
    }
    let ghost hits = dir_hits(dir, 0);
    let ghost mut seen: Seq<int> = seq![];
    let mut pos: usize = 0;
    while pos <= n && DIR_ENTRY_SIZE <= n - pos
        invariant
            reader.contents() == disk,
            n <= buf@.len(),
            dir == buf@.take(n as int),
            hits == dir_hits(dir, 0),
            bpb_wf(*bpb),
            pos <= n,
            pos % DIR_ENTRY_SIZE == 0,
            seen + dir_hits(dir, pos as int) == hits,
            results@.len() == start + seen.len(),
            0 <= start,
            results@.take(start) == old(results)@,
            forall|i: int| 0 <= i < seen.len() ==> entry_gives(
                dir.subrange(seen[i], seen[i] + DIR_ENTRY_SIZE),
                *bpb,
                start + i,
                #[trigger] results@[start + i],
            ),
            forall|i: int| 0 <= i < seen.len() ==> seen[i] == hits[i],
        ensures
            seen == hits,
        decreases n - pos,
    {
        let entry = &buf[pos..pos + DIR_ENTRY_SIZE];
        let ghost e = dir.subrange(pos as int, pos + DIR_ENTRY_SIZE);
        assert(entry@ =~= e);
        if entry[0] == 0x00 {
            assert(seen + seq![] =~= seen);
            break;
        }
        if entry[0] == DELETED_MARKER {
            let attrs = entry[11];
            if attrs != 0x0F && (attrs / 16) % 2 == 0 && (attrs / 8) % 2 == 0 {
                match parse_entry(entry, bpb, results.len()) {
                    Some(r) => {
                        proof {
                            assert(dir_hits(dir, pos as int) == seq![pos as int] + dir_hits(dir, pos + DIR_ENTRY_SIZE));
                            assert(seen.push(pos as int) + dir_hits(dir, pos + DIR_ENTRY_SIZE) =~= seen + dir_hits(dir, pos as int));
                            seen = seen.push(pos as int);
                        }
                        let ghost before = results@;
                        results.push(r);
                        proof {
                            assert(results@ == before.push(r));
                            assert(start <= before.len());
                            assert(results@.take(start) =~= before.take(start));
                        }
                        report(
                            progress_cb,
                            ScanProgress {
                                bytes_scanned: off,
                                bytes_total: reader.size(),
                                files_found: results.len(),
                                phase: ScanPhase::FatFound(results.len()),
                                complete: false,
                                warning: None,
                            },
                        );
                    },
                    None => {},
                }
            }
        }
        pos = pos + DIR_ENTRY_SIZE;
    }
    proof {
        assert(read_back(disk, off as int, dir));
    }
    Ok(())
}

/// The bytes "FAT" that the file system type (at 82) starts with.
pub open spec fn fat_word() -> Seq<u8> {
    seq![0x46u8, 0x41, 0x54]
}

/// Whether the boot sector `b` is one the FAT32 scan accepts: it ends in
/// 0x55 0xAA, its type field (82 to 89) is valid UTF-8 starting with "FAT",
/// its FATs fit in 32 bits of bytes and its root directory starts at a
/// data cluster.
pub open spec fn fat_boot_ok(b: Seq<u8>) -> bool {
    &&& le16(b, 510) == 0xAA55
    &&& valid_utf8(b.subrange(82, 90))
    &&& occurs_at(b, 82, fat_word())
    &&& fat_tables_fit(b)
    &&& le32(b, 0x2C) >= 2
}

/// Whether `v` is what a FAT32 quick scan of `disk` may give: the boot
/// sector read from the disk is accepted, and the files are those that the
/// entries of the root directory's first cluster record, in order (none
/// where a stop cut the scan short).
pub open spec fn fat_scan_gives(disk: Seq<u8>, v: Seq<RecoveredFile>) -> bool {
    exists|b: Seq<u8>, bpb: Fat32Bpb| {
        &&& #[trigger] sector_read(disk, b, 512)
        &&& fat_boot_ok(b)
        &&& #[trigger] bpb_of(b, bpb)
        &&& (v.len() == 0 || exists|dir: Seq<u8>| {
            &&& #[trigger] read_back(disk, cluster_offset_spec(bpb, bpb.root_cluster as int), dir)
            &&& dir_gives(dir, bpb, 0, v)
        })
    }
}

/// Whether `r` is what the FAT32 scan answers to the boot sector `b`: not a
/// FAT boot sector exactly where it does not end in 0x55 0xAA; not FAT32
/// exactly where it does but its type field is not valid UTF-8 starting
/// with "FAT"; a bad geometry exactly where both pass but the FATs do not
/// fit in 32 bits of bytes or the root directory is below cluster 2.
pub open spec fn fat_boot_outcome(b: Seq<u8>, r: Result<Vec<RecoveredFile>, ScanError>) -> bool {
    let sector_ok = le16(b, 510) == 0xAA55;
    let type_ok = valid_utf8(b.subrange(82, 90)) && occurs_at(b, 82, fat_word());
    &&& (r matches Err(e) && e is NotFatBootSector) <==> !sector_ok
    &&& (r matches Err(e) && e is NotFat32) <==> sector_ok && !type_ok
    &&& (r matches Err(e) && e is BadGeometry) <==> sector_ok && type_ok && (!fat_tables_fit(b) || le32(
        b,
        0x2C,
    ) < 2)
}

/// FAT32 quick scan: checks the boot sector, reads the root directory's
/// first cluster and gives the deleted files its entries record, in order.
pub fn scan_fat32<R: DiskReader + ?Sized, P: FnMut(ScanProgress) + ?Sized>(
    reader: &mut R,
    progress_cb: &mut P,
    stop_flag: Arc<AtomicBool>,
) -> (r: Result<Vec<RecoveredFile>, ScanError>)
    ensures
        final(reader).contents() == old(reader).contents(),
        final(reader).reads_whole() == old(reader).reads_whole(),
        r matches Ok(v) ==> fat_scan_gives(old(reader).contents(), v@),
        r matches Err(e) ==> e is Read || e is NotFatBootSector || e is NotFat32 || e is BadGeometry,
        (r matches Err(e) && e is Read) || exists|b: Seq<u8>|
            #[trigger] sector_read(old(reader).contents(), b, 512) && fat_boot_outcome(b, r),
        old(reader).reads_whole() ==> fat_boot_outcome(boot_sector(old(reader).contents()), r) && (r is Ok
            <==> fat_boot_ok(boot_sector(old(reader).contents()))),
        old(reader).reads_whole() ==> (r matches Ok(v) ==> exists|bpb: Fat32Bpb| {
            &&& #[trigger] bpb_of(boot_sector(old(reader).contents()), bpb)
            &&& (v@.len() > 0 ==> dir_gives(
                whole_read(old(reader).contents(), cluster_offset_spec(bpb, bpb.root_cluster as int), bpb.bytes_per_cluster as int),
                bpb,
                0,
                v@,
            ))
        }),
{
    let check = || stop_requested(&stop_flag);
    scan_fat32_until(reader, progress_cb, &check)
}

/// FAT32 quick scan as `scan_fat32` does it, asking `stop` whether to stop
/// before the root directory is read. Where `stop` never asks to and every
/// read fills, an accepted volume gives every deleted file of the root
/// directory's first cluster.
pub fn scan_fat32_until<R: DiskReader + ?Sized, P: FnMut(ScanProgress) + ?Sized, S: Fn() -> bool>(
    reader: &mut R,
    progress_cb: &mut P,
    stop: &S,
) -> (r: Result<Vec<RecoveredFile>, ScanError>)
    requires
        call_requires(*stop, ()),
    ensures
        final(reader).contents() == old(reader).contents(),
        final(reader).reads_whole() == old(reader).reads_whole(),
        r matches Ok(v) ==> fat_scan_gives(old(reader).contents(), v@),
        r matches Err(e) ==> e is Read || e is NotFatBootSector || e is NotFat32 || e is BadGeometry,
        (r matches Err(e) && e is Read) || exists|b: Seq<u8>|
            #[trigger] sector_read(old(reader).contents(), b, 512) && fat_boot_outcome(b, r),
        old(reader).reads_whole() ==> fat_boot_outcome(boot_sector(old(reader).contents()), r) && (r is Ok
            <==> fat_boot_ok(boot_sector(old(reader).contents()))),
        old(reader).reads_whole() ==> (r matches Ok(v) ==> exists|bpb: Fat32Bpb| {
            &&& #[trigger] bpb_of(boot_sector(old(reader).contents()), bpb)
            &&& (v@.len() > 0 ==> dir_gives(
                whole_read(old(reader).contents(), cluster_offset_spec(bpb, bpb.root_cluster as int), bpb.bytes_per_cluster as int),
                bpb,
                0,
                v@,
            ))
        }),
        old(reader).reads_whole() && never_stops(*stop) ==> (r matches Ok(v) ==> exists|bpb: Fat32Bpb| {
            &&& #[trigger] bpb_of(boot_sector(old(reader).contents()), bpb)
            &&& dir_gives(
                whole_read(old(reader).contents(), cluster_offset_spec(bpb, bpb.root_cluster as int), bpb.bytes_per_cluster as int),
                bpb,
                0,
                v@,
            )
        }),
        always_stops(*stop) ==> (r matches Ok(v) ==> v@.len() == 0),
{
    let ghost disk = reader.contents();
    let mut boot_buf: Vec<u8> = vec![0u8; 512];
    let ghost zeros = boot_buf@;
    let n = match reader.read_at(0, &mut boot_buf) {
        Ok(n) => n,
        Err(e) => return Err(ScanError::Read(e)),
    };
    proof {
        assert forall|j: int| n <= j < 512 implies boot_buf@[j] == 0 by {
            assert(boot_buf@.skip(n as int)[j - n] == zeros.skip(n as int)[j - n]);
        }
        assert(sector_read(disk, boot_buf@, 512));
        if reader.reads_whole() {
            lemma_whole_boot_sector(disk, boot_buf@, n as int);
        }
    }
    let ghost b = boot_buf@;
    let sig = read_u16_le(boot_buf.as_slice(), 510);
    if sig != 0xAA55 {
        return Err(ScanError::NotFatBootSector);
    }
    let fs_bytes = &boot_buf[82..90];
    assert(fs_bytes@ == boot_buf@.subrange(82, 90));
    let fat: [u8; 3] = [0x46, 0x41, 0x54];
    assert(fat@ =~= fat_word());
    if utf8_str(fs_bytes).is_none() || !matches_at(boot_buf.as_slice(), 82, fat.as_slice()) {
        return Err(ScanError::NotFat32);
    }
    let bpb = match parse_bpb(boot_buf.as_slice()) {
        Ok(x) => x,
        Err(e) => return Err(e),
    };
    if bpb.root_cluster < 2 {
        return Err(ScanError::BadGeometry);
    }
    report(
        progress_cb,
        ScanProgress {
            bytes_scanned: 0,
            bytes_total: reader.size(),
            files_found: 0,
            phase: ScanPhase::FatReading,
            complete: false,
            warning: None,
        },
    );
    let mut results: Vec<RecoveredFile> = Vec::new();
    match scan_dir_until(reader, &bpb, bpb.root_cluster, &mut results, progress_cb, stop, 0) {
        Ok(()) => {},
        Err(e) => return Err(e),
    }
    proof {
        assert(results@.take(0) =~= seq![]);
    }
    report(
        progress_cb,
        ScanProgress {
            bytes_scanned: reader.size(),
            bytes_total: reader.size(),
            files_found: results.len(),
            phase: ScanPhase::FatComplete,
            complete: true,
            warning: None,
        },
    );
    Ok(results)
}

} // verus!
