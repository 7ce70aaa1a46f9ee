//! A recovery session's decisions: which scans run on a volume, how their
//! results are numbered, and how a found file is saved.
use vstd::prelude::*;
use vstd::string::StringExecFns;
use std::sync::Arc;
use std::sync::atomic::AtomicBool;
use crate::bytes::matches_at;
use crate::bytes::{le16, occurs_at};
use crate::carver::engine::{carve_all, carve_gives, carve_some, carve_until};
use crate::control::{always_stops, never_stops, report, stop_requested};
use crate::disk::{boot_sector, lemma_whole_boot_sector, read_back, whole_len, whole_read, DiskError, DiskReader};
use crate::fat::fat32::{
    bpb_of, cluster_offset_spec, dir_gives, fat_boot_ok, fat_scan_gives, scan_fat32_until, Fat32Bpb,
};
use crate::ntfs::mft::{
    mft_all, mft_prefix_complete, ntfs_boot_accepts, ntfs_mft_offset, ntfs_scan_gives, ntfs_signature,
    scan_ntfs_until,
};
use crate::text::{decimal, decimal_width6, is_lower_alnum, last_segment, lemma_last_segment_after_dot, zero_pad};
use crate::types::{
    extension_of, type_of_extension, FileType, RecoveredFile, RecoveryMethod, ScanError, ScanMode, ScanPhase,
    ScanProgress,
};

verus! {

/// `f` with its index set to `i`.
pub open spec fn with_index(f: RecoveredFile, i: int) -> RecoveredFile {
    RecoveredFile { index: i as usize, ..f }
}

/// Whether `v` is `src` numbered afresh: each file's index is its position.
pub open spec fn renumbered(src: Seq<RecoveredFile>, v: Seq<RecoveredFile>) -> bool {
    &&& v.len() == src.len()
    &&& forall|i: int| 0 <= i < v.len() ==> #[trigger] v[i] == with_index(src[i], i)
}

/// Sets the index of each file to its position.
pub fn renumber(files: &mut Vec<RecoveredFile>)
    ensures
        renumbered(old(files)@, final(files)@),
{
    let ghost src = files@;
    let mut i: usize = 0;
    while i < files.len()
        invariant
            files@.len() == src.len(),
            i <= files@.len(),
            forall|j: int| 0 <= j < i ==> #[trigger] files@[j] == with_index(src[j], j),
            forall|j: int| i <= j < files@.len() ==> #[trigger] files@[j] == src[j],
        decreases files@.len() - i,
    {
        let mut f = files.remove(i);
        f.index = i;
        files.insert(i, f);
        assert(files@[i as int] == with_index(src[i as int], i as int));
        i = i + 1;
    }
}

/// Whether `v` is what scanning `disk` in `mode` may give: the quick
/// (NTFS or FAT32) files first, then the carved ones, numbered afresh. A
/// mode without the quick pass gives no quick files, one without the deep
/// pass no carved files; the NTFS scan runs on a volume whose boot sector
/// carries the NTFS signature, the FAT32 scan on another one that ends in
/// 0x55 0xAA.
pub open spec fn volume_scan_gives(disk: Seq<u8>, mode: ScanMode, v: Seq<RecoveredFile>) -> bool {
    exists|q: Seq<RecoveredFile>, d: Seq<RecoveredFile>| {
        &&& #[trigger] renumbered(q + d, v)
        &&& (q.len() > 0 ==> mode.has_quick_pass() && (ntfs_scan_gives(disk, q) || fat_scan_gives(disk, q)))
        &&& (d.len() > 0 ==> mode.has_deep_pass() && carve_gives(disk, d))
    }
}

/// The quick files that scanning `disk` in `mode` gives when every read
/// fills, by the boot sector `b` that the disk starts with: none without
/// the quick pass; the MFT walk where `b` carries the NTFS signature (none
/// where the NTFS scan refuses `b`); else the root directory's deleted
/// files where `b` ends in 0x55 0xAA (none where the FAT32 scan refuses
/// `b`); else none. With `full`, the walks were not cut short by a stop.
pub open spec fn quick_gives(disk: Seq<u8>, mode: ScanMode, q: Seq<RecoveredFile>, full: bool) -> bool {
    let b = boot_sector(disk);
    if !mode.has_quick_pass() {
        q.len() == 0
    } else if occurs_at(b, 3, ntfs_signature()) {
        if !ntfs_boot_accepts(b) {
            q.len() == 0
        } else if full {
            mft_all(disk, ntfs_mft_offset(b), q)
        } else {
            exists|e: int| mft_prefix_complete(disk, ntfs_mft_offset(b), e, q)
        }
    } else if le16(b, 510) == 0xAA55 {
        if !fat_boot_ok(b) {
            q.len() == 0
        } else {
            exists|bpb: Fat32Bpb| {
                &&& #[trigger] bpb_of(b, bpb)
                &&& (full || q.len() > 0) ==> dir_gives(
                    crate::disk::whole_read(disk, cluster_offset_spec(bpb, bpb.root_cluster as int), bpb.bytes_per_cluster as int),
                    bpb,
                    0,
                    q,
                )
            }
        }
    } else {
        q.len() == 0
    }
}

/// The carved files that scanning `disk` in `mode` gives when every read
/// fills: none without the deep pass, else those of the chunks carved from
/// the start of the disk (all of them with `full`).
pub open spec fn deep_gives(disk: Seq<u8>, mode: ScanMode, d: Seq<RecoveredFile>, full: bool) -> bool {
    if !mode.has_deep_pass() {
        d.len() == 0
    } else if full {
        carve_all(disk, 0, d)
    } else {
        carve_some(disk, 0, d)
    }
}

/// Whether `v` is what scanning `disk` in `mode` gives when every read
/// fills: the quick files, then the carved ones, numbered afresh.
pub open spec fn volume_scan_whole(disk: Seq<u8>, mode: ScanMode, v: Seq<RecoveredFile>, full: bool) -> bool {
    exists|q: Seq<RecoveredFile>, d: Seq<RecoveredFile>| {
        &&& #[trigger] renumbered(q + d, v)
        &&& quick_gives(disk, mode, q, full)
        &&& deep_gives(disk, mode, d, full)
    }
}

/// Scans an opened volume in `mode`: the quick pass picks the NTFS scan
/// when the boot sector carries the NTFS signature, else the FAT32 scan
/// when it ends in 0x55 0xAA, else reports the volume as unknown and skips;
/// the deep pass carves the whole volume. A pass that fails adds nothing.
/// The results are numbered in order. Fails only where the boot sector
/// cannot be read.
pub fn scan_volume<R: DiskReader + ?Sized, P: FnMut(ScanProgress) + ?Sized>(
    reader: &mut R,
    mode: ScanMode,
    progress_cb: &mut P,
    stop_flag: Arc<AtomicBool>,
) -> (r: Result<Vec<RecoveredFile>, ScanError>)
    ensures
        final(reader).contents() == old(reader).contents(),
        r matches Ok(v) ==> volume_scan_gives(old(reader).contents(), mode, v@),
        r matches Err(e) ==> e is Read,
        old(reader).reads_whole() ==> (r matches Ok(v) && volume_scan_whole(old(reader).contents(), mode, v@, false)),
{
    let check = || stop_requested(&stop_flag);
    scan_volume_until(reader, mode, progress_cb, &check)
}

/// Scans an opened volume as `scan_volume` does, asking `stop` whether to
/// stop as the scans go. Where `stop` never asks to and every read fills,
/// each pass runs to its end.
pub fn scan_volume_until<R: DiskReader + ?Sized, P: FnMut(ScanProgress) + ?Sized, S: Fn() -> bool>(
    reader: &mut R,
    mode: ScanMode,
    progress_cb: &mut P,
    stop: &S,
) -> (r: Result<Vec<RecoveredFile>, ScanError>)
    requires
        call_requires(*stop, ()),
    ensures
        final(reader).contents() == old(reader).contents(),
        r matches Ok(v) ==> volume_scan_gives(old(reader).contents(), mode, v@),
        r matches Err(e) ==> e is Read,
        old(reader).reads_whole() ==> (r matches Ok(v) && volume_scan_whole(old(reader).contents(), mode, v@, false)),
        old(reader).reads_whole() && never_stops(*stop) ==> (r matches Ok(v) && volume_scan_whole(
            old(reader).contents(),
            mode,
            v@,
            true,
        )),
        always_stops(*stop) ==> (r matches Ok(v) ==> v@.len() == 0),
{
    let ghost disk = reader.contents();
    let ghost rw = reader.reads_whole();
    let mut boot: Vec<u8> = vec![0u8; 512];
    let ghost zeros = boot@;
    let n = match reader.read_at(0, &mut boot) {
        Ok(n) => n,
        Err(e) => return Err(ScanError::Read(e)),
    };
    proof {
        if rw {
            assert forall|j: int| n <= j < 512 implies boot@[j] == 0 by {
                assert(boot@.skip(n as int)[j - n] == zeros.skip(n as int)[j - n]);
            }
            lemma_whole_boot_sector(disk, boot@, n as int);
        }
    }
    let sig: [u8; 8] = [0x4E, 0x54, 0x46, 0x53, 0x20, 0x20, 0x20, 0x20];
    assert(sig@ =~= ntfs_signature());
    let is_ntfs = matches_at(boot.as_slice(), 3, sig.as_slice());
    let is_fat32 = boot[510] == 0x55 && boot[511] == 0xAA;
    let mut combined: Vec<RecoveredFile> = Vec::new();
    let quick = match mode {
        ScanMode::QuickScan | ScanMode::Both => true,
        ScanMode::DeepScan => false,
    };
    if quick {
        report(
            progress_cb,
            ScanProgress {
                bytes_scanned: 0,
                bytes_total: reader.size(),
                files_found: 0,
                phase: ScanPhase::QuickStarting,
                complete: false,
                warning: None,
            },
        );
        if is_ntfs {
            match scan_ntfs_until(reader, progress_cb, stop) {
                Ok(mut found) => combined.append(&mut found),
                Err(_) => {},
            }
        } else if is_fat32 {
            match scan_fat32_until(reader, progress_cb, stop) {
                Ok(mut found) => combined.append(&mut found),
                Err(_) => {},
            }
        } else {
            report(
                progress_cb,
                ScanProgress {
                    bytes_scanned: 0,
                    bytes_total: reader.size(),
                    files_found: 0,
                    phase: ScanPhase::QuickSkipped,
                    complete: false,
                    warning: Some(String::from_str("Drive is not NTFS or FAT32; quick scan skipped.")),
                },
            );
        }
    }
    let ghost q = combined@;
    assert(q.len() > 0 ==> mode.has_quick_pass() && (ntfs_scan_gives(disk, q) || fat_scan_gives(disk, q)));
    proof {
        if rw {
            assert(quick_gives(disk, mode, q, false));
            if never_stops(*stop) {
                assert(quick_gives(disk, mode, q, true));
            }
        }
    }
    let deep = match mode {
        ScanMode::DeepScan | ScanMode::Both => true,
        ScanMode::QuickScan => false,
    };
    let ghost mut d: Seq<RecoveredFile> = seq![];
    if deep {
        match carve_until(reader, 0, progress_cb, stop) {
            Ok(mut found) => {
                proof {
                    d = found@;
                }
                combined.append(&mut found);
            },
            Err(_) => {},
        }
    }
    proof {
        if rw {
            assert(deep_gives(disk, mode, d, false));
            if never_stops(*stop) {
                assert(deep_gives(disk, mode, d, true));
            }
        }
    }
    assert(combined@ =~= q + d);
    renumber(&mut combined);
    assert(renumbered(q + d, combined@));
    Ok(combined)
}

/// What saving a found file does.
#[derive(Debug, PartialEq, Eq, Structural)]
pub enum SaveSource {
    /// The file was pulled into the output directory during the scan.
    AlreadyPulled,
    /// `len` bytes at `offset` of the drive are copied out.
    Copy { offset: u64, len: u64 },
}

/// Why a found file cannot be saved.
#[derive(Debug)]
pub enum SaveError {
    /// The file has no data location on the drive (offset or size 0).
    NoDataLocation,
    /// The drive could not be read.
    Read(DiskError),
}

/// How a found file is saved: a pulled file is already in place; any other
/// file is copied from its offset on the drive, and cannot be saved where
/// its offset or its size is 0.
pub fn save_source(file: &RecoveredFile) -> (r: Result<SaveSource, SaveError>)
    ensures
        file.recovery_method == RecoveryMethod::AdbPull ==> r == Ok::<SaveSource, SaveError>(
            SaveSource::AlreadyPulled,
        ),
        file.recovery_method != RecoveryMethod::AdbPull ==> {
            if file.disk_offset == 0 || file.size == 0 {
                r matches Err(e) && e is NoDataLocation
            } else {
                r == Ok::<SaveSource, SaveError>(
                    SaveSource::Copy { offset: file.disk_offset, len: file.size },
                )
            }
        },
{
    match file.recovery_method {
        RecoveryMethod::AdbPull => Ok(SaveSource::AlreadyPulled),
        _ => {
            if file.disk_offset == 0 || file.size == 0 {
                Err(SaveError::NoDataLocation)
            } else {
                Ok(SaveSource::Copy { offset: file.disk_offset, len: file.size })
            }
        },
    }
}

/// The name under which a found file is saved: its own name, or
/// "recovered_" with its index in six digits and its type's extension.
pub open spec fn output_name_of(file: RecoveredFile) -> Seq<char> {
    match file.name {
        Some(n) => n@,
        None => "recovered_"@ + zero_pad(decimal(file.index as nat), 6) + "."@ + extension_of(
            file.file_type,
        ),
    }
}

/// A file saved under its generated name is recognised again by that name:
/// for every type but `Unknown`, what follows the last dot of
/// "recovered_<index>.<extension>" is the type's extension, made of
/// lowercase letters and digits, and it names the type (so `guess_type`
/// gives the file's type back).
pub proof fn lemma_generated_name_keeps_type(f: RecoveredFile)
    requires
        f.name is None,
        f.file_type != FileType::Unknown,
    ensures
        last_segment(output_name_of(f)) == extension_of(f.file_type),
        forall|i: int| 0 <= i < extension_of(f.file_type).len() ==> is_lower_alnum(
            #[trigger] extension_of(f.file_type)[i],
        ),
        type_of_extension(last_segment(output_name_of(f))) == f.file_type,
{
    let e = extension_of(f.file_type);
    reveal_strlit(".");
    reveal_strlit("jpg");
    reveal_strlit("png");
    reveal_strlit("gif");
    reveal_strlit("bmp");
    reveal_strlit("mp4");
    reveal_strlit("mov");
    reveal_strlit("avi");
    reveal_strlit("mkv");
    reveal_strlit("pdf");
    reveal_strlit("docx");
    reveal_strlit("zip");
    reveal_strlit("mp3");
    assert forall|i: int| 0 <= i < e.len() implies is_lower_alnum(#[trigger] e[i]) && e[i] != '.' by {
        assert(i < 4);
    }
    let a = "recovered_"@ + zero_pad(decimal(f.index as nat), 6);
    assert("."@ =~= seq!['.']);
    assert(output_name_of(f) == a + seq!['.'] + e);
    lemma_last_segment_after_dot(a, e);
    crate::types::lemma_extension_names_type(f.file_type);
}

/// The name under which a found file is saved.
pub fn output_file_name(file: &RecoveredFile) -> (r: String)
    ensures
        r@ == output_name_of(*file),
{
    match &file.name {
        Some(n) => n.clone(),
        None => {
            let mut s = String::from_str("recovered_");
            let digits = decimal_width6(file.index);
            s.append(digits.as_str());
            s.append(".");
            s.append(file.file_type.extension());
            s
        },
    }
}

/// Reads the `len` bytes of a found file at `offset` into a buffer of that
/// size. A read may fill only a front part; the rest stays zero.
pub fn read_file_bytes<R: DiskReader + ?Sized>(reader: &mut R, offset: u64, len: usize) -> (r: Result<Vec<u8>, SaveError>)
    ensures
        final(reader).contents() == old(reader).contents(),
        r matches Ok(b) ==> b@.len() == len && exists|k: int| 0 <= k <= len && #[trigger] read_back(
            old(reader).contents(),
            offset as int,
            b@.take(k),
        ) && forall|j: int| k <= j < len ==> b@[j] == 0,
        r matches Err(e) ==> e is Read,
        old(reader).reads_whole() ==> (r matches Ok(b) && b@.take(
            whole_len(old(reader).contents().len() as int, offset as int, len as int),
        ) == whole_read(old(reader).contents(), offset as int, len as int) && forall|j: int|
            whole_len(old(reader).contents().len() as int, offset as int, len as int) <= j < len ==> b@[j] == 0),
{
    let ghost disk = reader.contents();
    let mut data: Vec<u8> = vec![0u8; len];
    let ghost zeros = data@;
    match reader.read_at(offset, &mut data) {
        Ok(n) => {
            proof {
                assert forall|j: int| n <= j < len implies data@[j] == 0 by {
                    assert(data@.skip(n as int)[j - n] == zeros.skip(n as int)[j - n]);
                }
                assert(read_back(disk, offset as int, data@.take(n as int)));
                assert(data@.len() == len);
                assert(0 <= n <= len);
                if reader.reads_whole() {
                    if offset >= disk.len() {
                        assert(data@.take(n as int) =~= seq![]);
                    }
                }
            }
            Ok(data)
        },
        Err(e) => Err(SaveError::Read(e)),
    }
}

/// The bytes to write for a found file: none for a file already pulled into
/// place; otherwise its `size` bytes at its offset on the drive, as
/// `read_file_bytes` reads them. Fails for a file that has no data location
/// (offset or size 0) and where the read fails.
pub fn copy_file_bytes<R: DiskReader + ?Sized>(reader: &mut R, file: &RecoveredFile) -> (r: Result<
    Option<Vec<u8>>,
    SaveError,
>)
    requires
        file.size <= usize::MAX,
    ensures
        final(reader).contents() == old(reader).contents(),
        file.recovery_method == RecoveryMethod::AdbPull ==> r matches Ok(None),
        file.recovery_method != RecoveryMethod::AdbPull && (file.disk_offset == 0 || file.size == 0) ==> (r matches Err(
            e,
        ) && e is NoDataLocation),
        r matches Ok(Some(b)) ==> file.recovery_method != RecoveryMethod::AdbPull && b@.len() == file.size
            && exists|k: int| 0 <= k <= file.size && #[trigger] read_back(
            old(reader).contents(),
            file.disk_offset as int,
            b@.take(k),
        ) && forall|j: int| k <= j < file.size ==> b@[j] == 0,
        r matches Err(e) && e is Read ==> file.recovery_method != RecoveryMethod::AdbPull,
        old(reader).reads_whole() && file.recovery_method != RecoveryMethod::AdbPull && file.disk_offset != 0
            && file.size != 0 ==> (r matches Ok(Some(b)) && b@.take(
            whole_len(old(reader).contents().len() as int, file.disk_offset as int, file.size as int),
        ) == whole_read(old(reader).contents(), file.disk_offset as int, file.size as int) && forall|j: int|
            whole_len(old(reader).contents().len() as int, file.disk_offset as int, file.size as int) <= j
                < file.size ==> b@[j] == 0),
{
    match save_source(file) {
        Ok(SaveSource::AlreadyPulled) => Ok(None),
        Ok(SaveSource::Copy { offset, len }) => match read_file_bytes(reader, offset, len as usize) {
            Ok(b) => Ok(Some(b)),
            Err(e) => Err(e),
        },
        Err(e) => Err(e),
    }
}

} // verus!
