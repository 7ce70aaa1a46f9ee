//! Walks the Master File Table and reports the records of deleted files.
use vstd::prelude::*;
use std::sync::Arc;
use std::sync::atomic::AtomicBool;
use crate::bytes::{le16, le64, matches_at, occurs_at, read_u16_le, read_u64_le};
use crate::control::{always_stops, never_stops, report, stop_requested};
use crate::disk::{boot_sector, lemma_whole_boot_sector, sector_read, DiskReader};
use crate::ntfs::attribute::{attr_walk, find_filename_attribute, opt_view};
use crate::text::{after_last_dot, all_ascii, ascii_lower, is_lower_alnum, last_segment, to_lowercase};
use crate::types::{
    type_for_extension, type_of_extension, type_of_name, FileType, RecoveredFile, RecoveryMethod, ScanError,
    ScanPhase, ScanProgress,
};

verus! {

/// Bytes of one MFT record.
pub const MFT_RECORD_SIZE: usize = 1024;

/// The signature at byte 3 of an NTFS boot sector: "NTFS" and four spaces.
pub open spec fn ntfs_signature() -> Seq<u8> {
    seq![0x4Eu8, 0x54, 0x46, 0x53, 0x20, 0x20, 0x20, 0x20]
}

/// The signature that begins an MFT record: "FILE".
pub open spec fn record_signature() -> Seq<u8> {
    seq![0x46u8, 0x49, 0x4C, 0x45]
}

/// Where an NTFS volume's geometry puts things.
pub struct NtfsBoot {
    pub bytes_per_cluster: u64,
    pub mft_offset: u64,
}

/// Bytes per cluster of an NTFS boot sector: bytes per sector (0x0B) times
/// sectors per cluster (0x0D).
pub open spec fn ntfs_cluster_bytes(b: Seq<u8>) -> int {
    le16(b, 0x0B) * b[0x0D]
}

/// The byte offset of the MFT: its first cluster (0x30) times the cluster
/// size.
pub open spec fn ntfs_mft_offset(b: Seq<u8>) -> int {
    le64(b, 0x30) * ntfs_cluster_bytes(b)
}

/// The geometry of an NTFS boot sector. Fails where the MFT offset does not
/// fit in 64 bits.
pub fn parse_boot(buf: &[u8]) -> (r: Result<NtfsBoot, ScanError>)
    requires
        buf@.len() >= 0x38,
    ensures
        r matches Ok(b) ==> b.bytes_per_cluster == ntfs_cluster_bytes(buf@) && b.mft_offset
            == ntfs_mft_offset(buf@),
        r matches Err(e) ==> e is BadGeometry && ntfs_mft_offset(buf@) > u64::MAX,
        r is Ok <==> ntfs_mft_offset(buf@) <= u64::MAX,
{
    let bps = read_u16_le(buf, 0x0B) as u64;
    let spc = buf[0x0D] as u64;
    let mft_cluster = read_u64_le(buf, 0x30);
    assert(bps * spc <= 65535 * 255) by (nonlinear_arith)
        requires
            bps <= 65535,
            spc <= 255,
    ;
    let bytes_per_cluster = bps * spc;
    match mft_cluster.checked_mul(bytes_per_cluster) {
        Some(m) => Ok(NtfsBoot { bytes_per_cluster, mft_offset: m }),
        None => Err(ScanError::BadGeometry),
    }
}

/// Whether `rec` is a 1024-byte MFT record of a deleted file: it starts
/// with "FILE", and its flags (0x16) have neither the in-use bit nor the
/// directory bit.
pub open spec fn is_deleted_file_record(rec: Seq<u8>) -> bool {
    &&& rec.len() == MFT_RECORD_SIZE
    &&& occurs_at(rec, 0, record_signature())
    &&& le16(rec, 0x16) % 2 == 0
    &&& (le16(rec, 0x16) / 2) % 2 == 0
}

/// Whether `f` is what the record `rec` at disk offset `off` gives as the
/// `index`-th file: the attribute list starts at the offset at 0x14, which
/// lies inside the record; name and size are those of its `$FILE_NAME`
/// attribute, and the type is that of the name's extension.
pub open spec fn record_gives(rec: Seq<u8>, off: u64, index: usize, f: RecoveredFile) -> bool {
    let first = le16(rec, 0x14);
    let walked = attr_walk(rec.skip(first), 0, None, 0);
    &&& first < MFT_RECORD_SIZE
    &&& opt_view(f.name) == walked.0
    &&& f.size == walked.1
    &&& f.file_type == match walked.0 {
        Some(n) => type_of_name(n),
        None => FileType::Unknown,
    }
    &&& f.original_path is None
    &&& f.disk_offset == off
    &&& f.recovery_method == RecoveryMethod::NtfsMft
    &&& f.confidence == 85
    &&& f.index == index
}

/// The type that a file name stands for, by its extension in any letter
/// case.
pub fn guess_type(name: &str) -> (t: FileType)
    ensures
        t == type_of_name(name@),
        (forall|i: int| 0 <= i < last_segment(name@).len() ==> is_lower_alnum(#[trigger] last_segment(name@)[i]))
            ==> t == type_of_extension(last_segment(name@)),
        all_ascii(last_segment(name@)) ==> t == type_of_extension(
            last_segment(name@).map_values(|c: char| ascii_lower(c)),
        ),
{
    let ext = after_last_dot(name);
    let lower = to_lowercase(ext.as_str());
    type_for_extension(lower.as_str())
}

/// The file that an MFT record at disk offset `record_offset` describes;
/// `None` where its attribute list would start outside the record.
pub fn parse_mft_record(buf: &[u8], record_offset: u64, index: usize) -> (r: Option<RecoveredFile>)
    requires
        buf@.len() == MFT_RECORD_SIZE,
    ensures
        r matches Some(f) ==> record_gives(buf@, record_offset, index, f),
        r is None <==> le16(buf@, 0x14) >= MFT_RECORD_SIZE,
{
    let first_attr = read_u16_le(buf, 0x14) as usize;
    if first_attr >= MFT_RECORD_SIZE {
        return None;
    }
    let attrs = &buf[first_attr..buf.len()];
    assert(attrs@ =~= buf@.skip(first_attr as int));
    let (name, size) = find_filename_attribute(attrs);
    let file_type = match &name {
        Some(n) => guess_type(n.as_str()),
        None => FileType::Unknown,
    };
    Some(RecoveredFile {
        name,
        original_path: None,
        size,
        file_type,
        disk_offset: record_offset,
        recovery_method: RecoveryMethod::NtfsMft,
        confidence: 85,
        index,
    })
}

/// Whether `f` is the `index`-th file of a scan of the MFT that starts at
/// `mft_offset` on `disk`: it comes from the deleted-file record on the disk
/// at its offset, a whole number of records past the MFT's start.
pub open spec fn found_in_mft(disk: Seq<u8>, mft_offset: int, index: int, f: RecoveredFile) -> bool {
    let off = f.disk_offset as int;
    let rec = disk.subrange(off, off + MFT_RECORD_SIZE);
    &&& off >= mft_offset
    &&& (off - mft_offset) % (MFT_RECORD_SIZE as int) == 0
    &&& off + MFT_RECORD_SIZE <= disk.len()
    &&& is_deleted_file_record(rec)
    &&& record_gives(rec, f.disk_offset, index as usize, f)
}

/// The 1024 bytes of `disk` from `p`: the MFT record that starts there.
pub open spec fn record_at(disk: Seq<u8>, p: int) -> Seq<u8> {
    disk.subrange(p, p + MFT_RECORD_SIZE)
}

/// Whether a scan reports the record `rec`: a deleted file's record whose
/// attribute list starts inside it.
pub open spec fn reported_record(rec: Seq<u8>) -> bool {
    is_deleted_file_record(rec) && le16(rec, 0x14) < MFT_RECORD_SIZE
}

/// Whether the records from `m` up to `e` are a run of whole records on
/// `disk` that each start with "FILE", and `v` has a file for every record
/// of the run that a scan reports, and none at or past `e`.
pub open spec fn mft_prefix_complete(disk: Seq<u8>, m: int, e: int, v: Seq<RecoveredFile>) -> bool {
    &&& m <= e
    &&& (e - m) % (MFT_RECORD_SIZE as int) == 0
    &&& forall|p: int|
        m <= p < e && (p - m) % (MFT_RECORD_SIZE as int) == 0 ==> p + MFT_RECORD_SIZE <= disk.len()
            && occurs_at(#[trigger] record_at(disk, p), 0, record_signature())
    &&& forall|i: int| 0 <= i < v.len() ==> #[trigger] v[i].disk_offset < e
    &&& forall|p: int|
        m <= p < e && (p - m) % (MFT_RECORD_SIZE as int) == 0 && reported_record(
            #[trigger] record_at(disk, p),
        ) ==> exists|i: int| 0 <= i < v.len() && #[trigger] v[i].disk_offset == p
}

/// Whether `v` is what walking the MFT from `m` on `disk` gives when every
/// read fills and no stop is asked for: the run of records ends where the
/// next record does not fit on the disk or does not start with "FILE".
pub open spec fn mft_all(disk: Seq<u8>, m: int, v: Seq<RecoveredFile>) -> bool {
    exists|e: int| {
        &&& #[trigger] mft_prefix_complete(disk, m, e, v)
        &&& (e + MFT_RECORD_SIZE > disk.len() || !occurs_at(record_at(disk, e), 0, record_signature()))
    }
}

/// Reads the MFT record by record from `boot.mft_offset` while records fit
/// in the disk's reported size, start with "FILE" and are read whole, and
/// gives the deleted files among them, in disk order. Stops early when a
/// stop is requested; fails only where a read fails. On a reader that reads
/// whole, it gives a file for every reported record of the run it read.
pub fn scan_mft<R: DiskReader + ?Sized, P: FnMut(ScanProgress) + ?Sized>(
    reader: &mut R,
    boot: &NtfsBoot,
    progress_cb: &mut P,
    stop_flag: Arc<AtomicBool>,
) -> (r: Result<Vec<RecoveredFile>, ScanError>)
    ensures
        final(reader).contents() == old(reader).contents(),
        final(reader).reads_whole() == old(reader).reads_whole(),
        r matches Err(e) ==> e is Read,
        r matches Ok(v) ==> {
            &&& forall|i: int| 0 <= i < v@.len() ==> found_in_mft(old(reader).contents(), boot.mft_offset as int, i, #[trigger] v@[i])
            &&& forall|i: int, j: int| 0 <= i < j < v@.len() ==> v@[i].disk_offset < v@[j].disk_offset
        },
        old(reader).reads_whole() ==> r is Ok,
        old(reader).reads_whole() ==> (r matches Ok(v) ==> exists|e: int|
            mft_prefix_complete(old(reader).contents(), boot.mft_offset as int, e, v@)),
{
    let check = || stop_requested(&stop_flag);
    scan_mft_until(reader, boot, progress_cb, &check)
}

/// Walks the MFT as `scan_mft` does, asking `stop` before each record
/// whether to stop. Where `stop` never asks to and every read fills, it
/// walks the whole run of records.
pub fn scan_mft_until<R: DiskReader + ?Sized, P: FnMut(ScanProgress) + ?Sized, S: Fn() -> bool>(
    reader: &mut R,
    boot: &NtfsBoot,
    progress_cb: &mut P,
    stop: &S,
) -> (r: Result<Vec<RecoveredFile>, ScanError>)
    requires
        call_requires(*stop, ()),
    ensures
        final(reader).contents() == old(reader).contents(),
        final(reader).reads_whole() == old(reader).reads_whole(),
        r matches Err(e) ==> e is Read,
        r matches Ok(v) ==> {
            &&& forall|i: int| 0 <= i < v@.len() ==> found_in_mft(old(reader).contents(), boot.mft_offset as int, i, #[trigger] v@[i])
            &&& forall|i: int, j: int| 0 <= i < j < v@.len() ==> v@[i].disk_offset < v@[j].disk_offset
        },
        old(reader).reads_whole() ==> r is Ok,
        old(reader).reads_whole() ==> (r matches Ok(v) ==> exists|e: int|
            mft_prefix_complete(old(reader).contents(), boot.mft_offset as int, e, v@)),
        old(reader).reads_whole() && never_stops(*stop) ==> (r matches Ok(v) && mft_all(
            old(reader).contents(),
            boot.mft_offset as int,
            v@,
        )),
        always_stops(*stop) ==> (r matches Ok(v) && v@.len() == 0),
{
    let ghost disk = reader.contents();
    let mut results: Vec<RecoveredFile> = Vec::new();
    let mut record_buf: Vec<u8> = vec![0u8; MFT_RECORD_SIZE];
    let disk_size = reader.size();
    let mut mft_offset = boot.mft_offset;
    let sig: [u8; 4] = [0x46, 0x49, 0x4C, 0x45];
    assert(sig@ =~= record_signature());
    loop
        invariant
            reader.contents() == disk,
            disk == old(reader).contents(),
            record_buf@.len() == MFT_RECORD_SIZE,
            sig@ == record_signature(),
            mft_offset >= boot.mft_offset,
            (mft_offset - boot.mft_offset) % (MFT_RECORD_SIZE as int) == 0,
            forall|i: int| 0 <= i < results@.len() ==> found_in_mft(disk, boot.mft_offset as int, i, #[trigger] results@[i]),
            forall|i: int| 0 <= i < results@.len() ==> #[trigger] results@[i].disk_offset < mft_offset,
            forall|i: int, j: int| 0 <= i < j < results@.len() ==> results@[i].disk_offset < results@[j].disk_offset,
            reader.reads_whole() == old(reader).reads_whole(),
            reader.reads_whole() ==> disk_size == disk.len(),
            reader.reads_whole() ==> mft_prefix_complete(disk, boot.mft_offset as int, mft_offset as int, results@),
            call_requires(*stop, ()),
            always_stops(*stop) ==> results@.len() == 0,
        ensures
            always_stops(*stop) ==> results@.len() == 0,
            reader.contents() == disk,
            forall|i: int| 0 <= i < results@.len() ==> found_in_mft(disk, boot.mft_offset as int, i, #[trigger] results@[i]),
            forall|i: int, j: int| 0 <= i < j < results@.len() ==> results@[i].disk_offset < results@[j].disk_offset,
            reader.reads_whole() == old(reader).reads_whole(),
            reader.reads_whole() ==> mft_prefix_complete(disk, boot.mft_offset as int, mft_offset as int, results@),
            reader.reads_whole() && never_stops(*stop) ==> (mft_offset + MFT_RECORD_SIZE > disk.len() || !occurs_at(
                record_at(disk, mft_offset as int),
                0,
                record_signature(),
            )),
        decreases u64::MAX - mft_offset,
    {
        let s = stop();
        if s {
            break;
        }
        if disk_size < MFT_RECORD_SIZE as u64 || mft_offset > disk_size - MFT_RECORD_SIZE as u64 {
            break;
        }
        let n = match reader.read_at(mft_offset, &mut record_buf) {
            Ok(n) => n,
            Err(e) => return Err(ScanError::Read(e)),
        };
        if n < MFT_RECORD_SIZE {
            break;
        }
        proof {
            assert(record_buf@.take(n as int) =~= record_buf@);
        }
        if !matches_at(record_buf.as_slice(), 0, sig.as_slice()) {
            proof {
                if reader.reads_whole() {
                    assert(record_buf@ =~= record_at(disk, mft_offset as int));
                }
            }
            break;
        }
        let flags = read_u16_le(record_buf.as_slice(), 0x16);
        let in_use = flags % 2 != 0;
        let is_dir = (flags / 2) % 2 != 0;
        proof {
            assert(record_buf@.take(n as int) =~= record_buf@);
            assert(record_buf@ =~= record_at(disk, mft_offset as int));
        }
        let ghost before = results@;
        if !in_use && !is_dir {
            match parse_mft_record(record_buf.as_slice(), mft_offset, results.len()) {
                Some(recovered) => {
                    results.push(recovered);
                    report(
                        progress_cb,
                        ScanProgress {
                            bytes_scanned: mft_offset,
                            bytes_total: disk_size,
                            files_found: results.len(),
                            phase: ScanPhase::NtfsFound(results.len()),
                            complete: false,
                            warning: None,
                        },
                    );
                },
                None => {},
            }
        }
        proof {
            if reader.reads_whole() {
                let m = boot.mft_offset as int;
                let e = mft_offset + MFT_RECORD_SIZE;
                assert(results@.len() >= before.len());
                assert forall|i: int| 0 <= i < before.len() implies results@[i] == before[i] by {}
                assert forall|p: int|
                    m <= p < e && (p - m) % (MFT_RECORD_SIZE as int) == 0 implies p + MFT_RECORD_SIZE
                        <= disk.len() && occurs_at(#[trigger] record_at(disk, p), 0, record_signature()) by {
                    if p < mft_offset {
                        assert(mft_prefix_complete(disk, m, mft_offset as int, before));
                    }
                }
                assert forall|p: int|
                    m <= p < e && (p - m) % (MFT_RECORD_SIZE as int) == 0 && reported_record(
                        #[trigger] record_at(disk, p),
                    ) implies exists|i: int| 0 <= i < results@.len() && #[trigger] results@[i].disk_offset == p by {
                    if p < mft_offset {
                        assert(mft_prefix_complete(disk, m, mft_offset as int, before));
                        let i = choose|i: int| 0 <= i < before.len() && #[trigger] before[i].disk_offset == p;
                        assert(results@[i] == before[i]);
                    } else {
                        assert(p == mft_offset);
                        assert(results@[before.len() as int].disk_offset == p);
                    }
                }
            }
        }
        if mft_offset > u64::MAX - MFT_RECORD_SIZE as u64 {
            break;
        }
        mft_offset = mft_offset + MFT_RECORD_SIZE as u64;
    }
    proof {
        if reader.reads_whole() && never_stops(*stop) {
            assert(mft_prefix_complete(disk, boot.mft_offset as int, mft_offset as int, results@));
        }
    }
    report(
        progress_cb,
        ScanProgress {
            bytes_scanned: disk_size,
            bytes_total: disk_size,
            files_found: results.len(),
            phase: ScanPhase::NtfsComplete,
            complete: true,
            warning: None,
        },
    );
    Ok(results)
}

/// Whether `v` is what an NTFS quick scan of `disk` may give: the boot
/// sector read from the disk carries the NTFS signature, and every file is
/// a deleted-file record of the MFT that it locates, in disk order.
pub open spec fn ntfs_scan_gives(disk: Seq<u8>, v: Seq<RecoveredFile>) -> bool {
    exists|b: Seq<u8>| {
        &&& #[trigger] sector_read(disk, b, 512)
        &&& occurs_at(b, 3, ntfs_signature())
        &&& ntfs_mft_offset(b) <= u64::MAX
        &&& forall|i: int| 0 <= i < v.len() ==> found_in_mft(disk, ntfs_mft_offset(b), i, #[trigger] v[i])
        &&& forall|i: int, j: int| 0 <= i < j < v.len() ==> v[i].disk_offset < v[j].disk_offset
    }
}

/// Whether the boot sector `b` is one the NTFS scan goes on with: it carries
/// the NTFS signature and puts the MFT at an offset that fits in 64 bits.
pub open spec fn ntfs_boot_accepts(b: Seq<u8>) -> bool {
    occurs_at(b, 3, ntfs_signature()) && ntfs_mft_offset(b) <= u64::MAX
}

/// Whether `r` is what the NTFS scan answers to the boot sector `b`: "not
/// NTFS" exactly where the signature is missing, a bad geometry exactly
/// where it is there but the MFT offset does not fit in 64 bits.
pub open spec fn ntfs_boot_outcome(b: Seq<u8>, r: Result<Vec<RecoveredFile>, ScanError>) -> bool {
    &&& (r matches Err(e) && e is NotNtfs) <==> !occurs_at(b, 3, ntfs_signature())
    &&& (r matches Err(e) && e is BadGeometry) <==> occurs_at(b, 3, ntfs_signature()) && ntfs_mft_offset(b)
        > u64::MAX
}

/// NTFS quick scan: checks the boot sector's signature, finds the MFT and
/// gives the deleted files recorded in it (see `scan_mft`).
pub fn scan_ntfs<R: DiskReader + ?Sized, P: FnMut(ScanProgress) + ?Sized>(
    reader: &mut R,
    progress_cb: &mut P,
    stop_flag: Arc<AtomicBool>,
) -> (r: Result<Vec<RecoveredFile>, ScanError>)
    ensures
        final(reader).contents() == old(reader).contents(),
        final(reader).reads_whole() == old(reader).reads_whole(),
        r matches Ok(v) ==> ntfs_scan_gives(old(reader).contents(), v@),
        r matches Err(e) ==> e is Read || e is BadGeometry || e is NotNtfs,
        (r matches Err(e) && e is Read) || exists|b: Seq<u8>|
            #[trigger] sector_read(old(reader).contents(), b, 512) && ntfs_boot_outcome(b, r),
        old(reader).reads_whole() ==> ntfs_boot_outcome(boot_sector(old(reader).contents()), r) && (r is Ok
            <==> ntfs_boot_accepts(boot_sector(old(reader).contents()))),
        old(reader).reads_whole() ==> (r matches Ok(v) ==> exists|e: int| mft_prefix_complete(
            old(reader).contents(),
            ntfs_mft_offset(boot_sector(old(reader).contents())),
            e,
            v@,
        )),
{
    let check = || stop_requested(&stop_flag);
    scan_ntfs_until(reader, progress_cb, &check)
}

/// NTFS quick scan as `scan_ntfs` does it, asking `stop` before each record
/// whether to stop. Where `stop` never asks to and every read fills, a
/// volume whose boot sector is accepted gives the whole run of MFT records.
pub fn scan_ntfs_until<R: DiskReader + ?Sized, P: FnMut(ScanProgress) + ?Sized, S: Fn() -> bool>(
    reader: &mut R,
    progress_cb: &mut P,
    stop: &S,
) -> (r: Result<Vec<RecoveredFile>, ScanError>)
    requires
        call_requires(*stop, ()),
    ensures
        final(reader).contents() == old(reader).contents(),
        final(reader).reads_whole() == old(reader).reads_whole(),
        r matches Ok(v) ==> ntfs_scan_gives(old(reader).contents(), v@),
        r matches Err(e) ==> e is Read || e is BadGeometry || e is NotNtfs,
        (r matches Err(e) && e is Read) || exists|b: Seq<u8>|
            #[trigger] sector_read(old(reader).contents(), b, 512) && ntfs_boot_outcome(b, r),
        old(reader).reads_whole() ==> ntfs_boot_outcome(boot_sector(old(reader).contents()), r) && (r is Ok
            <==> ntfs_boot_accepts(boot_sector(old(reader).contents()))),
        old(reader).reads_whole() ==> (r matches Ok(v) ==> exists|e: int| mft_prefix_complete(
            old(reader).contents(),
            ntfs_mft_offset(boot_sector(old(reader).contents())),
            e,
            v@,
        )),
        old(reader).reads_whole() && never_stops(*stop) ==> (r matches Ok(v) ==> mft_all(
            old(reader).contents(),
            ntfs_mft_offset(boot_sector(old(reader).contents())),
            v@,
        )),
        always_stops(*stop) ==> (r matches Ok(v) ==> v@.len() == 0),
{
    let ghost disk = reader.contents();
    let ghost rw = reader.reads_whole();
    let mut boot_buf: Vec<u8> = vec![0u8; 512];
    let ghost zeros = boot_buf@;
    let n = match reader.read_at(0, &mut boot_buf) {
        Ok(n) => n,
        Err(e) => return Err(ScanError::Read(e)),
    };
    let ghost b = boot_buf@;
    proof {
        assert forall|j: int| n <= j < 512 implies boot_buf@[j] == 0 by {
            assert(boot_buf@.skip(n as int)[j - n] == zeros.skip(n as int)[j - n]);
        }
        assert(sector_read(disk, boot_buf@, 512));
        if rw {
            lemma_whole_boot_sector(disk, b, n as int);
        }
    }
    let sig: [u8; 8] = [0x4E, 0x54, 0x46, 0x53, 0x20, 0x20, 0x20, 0x20];
    assert(sig@ =~= ntfs_signature());
    if !matches_at(boot_buf.as_slice(), 3, sig.as_slice()) {
        return Err(ScanError::NotNtfs);
    }
    let boot = match parse_boot(boot_buf.as_slice()) {
        Ok(bt) => bt,
        Err(e) => return Err(e),
    };
    report(
        progress_cb,
        ScanProgress {
            bytes_scanned: 0,
            bytes_total: reader.size(),
            files_found: 0,
            phase: ScanPhase::NtfsReading,
            complete: false,
            warning: None,
        },
    );
    scan_mft_until(reader, &boot, progress_cb, stop)
}

} // verus!
