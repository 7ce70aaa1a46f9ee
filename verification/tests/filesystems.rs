use recovar::disk::{DiskReader, MemDisk};
use recovar::fat::fat32::{cluster_offset, parse_bpb, parse_entry, scan_fat32, scan_fat32_until, Fat32Bpb, DELETED_MARKER};
use recovar::ntfs::attribute::find_filename_attribute;
use recovar::ntfs::mft::{guess_type, parse_mft_record, scan_ntfs, scan_ntfs_until};
use recovar::types::{FileType, RecoveryMethod, ScanError};
use std::sync::atomic::AtomicBool;
use std::sync::Arc;

const NTFS_SIGNATURE: &[u8] = b"NTFS    ";
const MFT_RECORD_SIG: &[u8] = b"FILE";

/// Builds a minimal FAT32 image (boot sector + one deleted file in the
/// root directory) and returns it along with the original file bytes.
fn build_fat32_image() -> (Vec<u8>, Vec<u8>) {
    let mut img = vec![0u8; 2048];
    img[0x0B..0x0D].copy_from_slice(&512u16.to_le_bytes());
    img[0x0D] = 1;
    img[0x0E..0x10].copy_from_slice(&1u16.to_le_bytes());
    img[0x10] = 1;
    img[0x24..0x28].copy_from_slice(&1u32.to_le_bytes());
    img[0x2C..0x30].copy_from_slice(&2u32.to_le_bytes());
    img[82..90].copy_from_slice(b"FAT32   ");
    img[510] = 0x55;
    img[511] = 0xAA;

    let e = 1024;
    img[e] = DELETED_MARKER;
    img[e + 1..e + 8].copy_from_slice(b"TESTFIL");
    img[e + 8..e + 11].copy_from_slice(b"JPG");
    img[e + 11] = 0x20;
    img[e + 20..e + 22].copy_from_slice(&0u16.to_le_bytes());
    img[e + 26..e + 28].copy_from_slice(&3u16.to_le_bytes());
    img[e + 28..e + 32].copy_from_slice(&300u32.to_le_bytes());

    let payload: Vec<u8> = (0..300u32).map(|i| b'A' + (i % 26) as u8).collect();
    img[1536..1536 + 300].copy_from_slice(&payload);

    (img, payload)
}

#[test]
fn recovers_deleted_fat32_file_with_correct_bytes() {
    let (img, expected_payload) = build_fat32_image();
    let mut disk = MemDisk(img);
    let stop = Arc::new(AtomicBool::new(false));

    let results = scan_fat32(&mut disk, &mut |_| {}, stop).expect("scan should succeed");

    assert_eq!(results.len(), 1, "expected exactly one deleted file to be found");
    let file = &results[0];
    assert_eq!(file.name.as_deref(), Some("?TESTFIL.jpg"));
    assert_eq!(file.size, 300);
    assert_eq!(
        file.disk_offset, 1536,
        "disk_offset must point at the file's actual data cluster, not 0"
    );

    let mut recovered = vec![0u8; file.size as usize];
    let n = disk.read_at(file.disk_offset, &mut recovered).unwrap();
    assert_eq!(n, 300);
    assert_eq!(
        recovered, expected_payload,
        "recovered bytes must match the original file content"
    );
}

#[test]
fn fat32_entry_kinds_that_are_not_reported() {
    let (mut img, _) = build_fat32_image();
    // A deleted long-name entry, a deleted directory and a live file before
    // the deleted file; then an end-of-directory marker hides a later entry.
    let base = 1024;
    img.copy_within(base..base + 32, base + 96);
    img[base] = DELETED_MARKER;
    img[base + 11] = 0x0F;
    img[base + 32] = DELETED_MARKER;
    img[base + 32 + 1..base + 32 + 8].copy_from_slice(b"SUBDIR ");
    img[base + 32 + 11] = 0x10;
    img[base + 64] = b'L';
    img[base + 64 + 1..base + 64 + 8].copy_from_slice(b"IVEFILE");
    img[base + 64 + 11] = 0x20;
    img[base + 160] = DELETED_MARKER;
    img[base + 160 + 1..base + 160 + 8].copy_from_slice(b"HIDDEN ");
    img[base + 128] = 0x00;
    let mut disk = MemDisk(img);
    let results = scan_fat32(&mut disk, &mut |_| {}, Arc::new(AtomicBool::new(false))).unwrap();
    assert_eq!(results.len(), 1);
    assert_eq!(results[0].name.as_deref(), Some("?TESTFIL.jpg"));
    assert_eq!(results[0].index, 0);
    assert_eq!(results[0].recovery_method, RecoveryMethod::Fat32Directory);
    assert_eq!(results[0].confidence, 80);
}

#[test]
fn fat32_rejects_other_volumes() {
    let (mut img, _) = build_fat32_image();
    img[511] = 0x00;
    let mut disk = MemDisk(img.clone());
    let r = scan_fat32(&mut disk, &mut |_| {}, Arc::new(AtomicBool::new(false)));
    assert!(matches!(r, Err(ScanError::NotFatBootSector)));

    img[511] = 0xAA;
    img[82..90].copy_from_slice(b"NTFS    ");
    let mut disk = MemDisk(img.clone());
    let r = scan_fat32(&mut disk, &mut |_| {}, Arc::new(AtomicBool::new(false)));
    assert!(matches!(r, Err(ScanError::NotFat32)));

    img[82..90].copy_from_slice(b"FAT32   ");
    img[0x2C..0x30].copy_from_slice(&0u32.to_le_bytes());
    let mut disk = MemDisk(img);
    let r = scan_fat32(&mut disk, &mut |_| {}, Arc::new(AtomicBool::new(false)));
    assert!(matches!(r, Err(ScanError::BadGeometry)));
}

#[test]
fn bpb_geometry_and_cluster_offsets() {
    let (img, _) = build_fat32_image();
    let bpb = parse_bpb(&img[..512]).ok().unwrap();
    assert_eq!(bpb.bytes_per_cluster, 512);
    assert_eq!(bpb.data_start, 1024);
    assert_eq!(bpb.root_cluster, 2);
    assert_eq!(cluster_offset(&bpb, 2), 1024);
    assert_eq!(cluster_offset(&bpb, 3), 1536);
    let big = Fat32Bpb { bytes_per_cluster: 4096, data_start: 1_048_576, root_cluster: 2 };
    assert_eq!(cluster_offset(&big, 10), 1_048_576 + 8 * 4096);
}

#[test]
fn fat_sizes_that_overflow_are_refused() {
    let mut boot = vec![0u8; 512];
    boot[0x0B..0x0D].copy_from_slice(&4096u16.to_le_bytes());
    boot[0x10] = 2;
    boot[0x24..0x28].copy_from_slice(&0x8000_0000u32.to_le_bytes());
    assert!(matches!(parse_bpb(&boot), Err(ScanError::BadGeometry)));
}

#[test]
fn entries_without_extension_or_cluster() {
    let bpb = Fat32Bpb { bytes_per_cluster: 512, data_start: 1024, root_cluster: 2 };
    let mut e = vec![0u8; 32];
    e[0] = DELETED_MARKER;
    e[1..8].copy_from_slice(b"README ");
    e[8..11].copy_from_slice(b"   ");
    e[28..32].copy_from_slice(&7u32.to_le_bytes());
    let f = parse_entry(&e, &bpb, 4).unwrap();
    assert_eq!(f.name.as_deref(), Some("?README"));
    assert_eq!(f.file_type, FileType::Unknown);
    assert_eq!(f.disk_offset, 0);
    assert_eq!(f.size, 7);
    assert_eq!(f.index, 4);

    e[1..8].copy_from_slice(b"       ");
    assert!(parse_entry(&e, &bpb, 0).is_none());

    e[1..8].copy_from_slice(b"CLIP   ");
    e[8..11].copy_from_slice(b"Mp4");
    e[20..22].copy_from_slice(&1u16.to_le_bytes());
    e[26..28].copy_from_slice(&2u16.to_le_bytes());
    let f = parse_entry(&e, &bpb, 0).unwrap();
    assert_eq!(f.name.as_deref(), Some("?CLIP.mp4"));
    assert_eq!(f.file_type, FileType::Mp4);
    assert_eq!(f.disk_offset, 1024 + (65538 - 2) * 512);
}

/// Builds a minimal NTFS boot sector plus one deleted MFT record
/// containing a resident $FILE_NAME attribute for "test.png".
fn build_ntfs_image() -> Vec<u8> {
    let mut img = vec![0u8; 2048];
    img[3..11].copy_from_slice(NTFS_SIGNATURE);
    img[0x0B..0x0D].copy_from_slice(&512u16.to_le_bytes());
    img[0x0D] = 1;
    img[0x30..0x38].copy_from_slice(&2u64.to_le_bytes());

    let rec = 1024usize;
    img[rec..rec + 4].copy_from_slice(MFT_RECORD_SIG);
    img[rec + 0x14..rec + 0x16].copy_from_slice(&56u16.to_le_bytes());
    img[rec + 0x16..rec + 0x18].copy_from_slice(&0u16.to_le_bytes());

    let attr = rec + 56;
    let attr_len: u32 = 112;
    img[attr..attr + 4].copy_from_slice(&0x30u32.to_le_bytes());
    img[attr + 4..attr + 8].copy_from_slice(&attr_len.to_le_bytes());
    img[attr + 8] = 0;
    let content_off: u16 = 24;
    img[attr + 20..attr + 22].copy_from_slice(&content_off.to_le_bytes());

    let content = attr + content_off as usize;
    let real_size: u64 = 12345;
    img[content + 0x30..content + 0x38].copy_from_slice(&real_size.to_le_bytes());
    let name = "test.png";
    img[content + 0x40] = name.chars().count() as u8;
    let name_start = content + 0x42;
    for (i, c) in name.encode_utf16().enumerate() {
        img[name_start + i * 2..name_start + i * 2 + 2].copy_from_slice(&c.to_le_bytes());
    }
    img[attr + attr_len as usize..attr + attr_len as usize + 4].copy_from_slice(&0xFFFFFFFFu32.to_le_bytes());
    img
}

#[test]
fn recovers_deleted_ntfs_file_name_and_size() {
    let img = build_ntfs_image();
    let mut disk = MemDisk(img);
    let stop = Arc::new(AtomicBool::new(false));

    let results = scan_ntfs(&mut disk, &mut |_| {}, stop).expect("scan should succeed");

    assert_eq!(results.len(), 1, "expected exactly one deleted MFT record to be found");
    let file = &results[0];
    assert_eq!(file.name.as_deref(), Some("test.png"));
    assert_eq!(file.size, 12345);
    assert_eq!(file.file_type, FileType::Png);
    assert_eq!(file.disk_offset, 1024, "disk_offset must point at the MFT record itself");
}

#[test]
fn ntfs_skips_records_in_use_or_of_directories() {
    let mut img = build_ntfs_image();
    img[1024 + 0x16] = 0x01;
    let mut disk = MemDisk(img.clone());
    assert!(scan_ntfs(&mut disk, &mut |_| {}, Arc::new(AtomicBool::new(false))).unwrap().is_empty());
    img[1024 + 0x16] = 0x02;
    let mut disk = MemDisk(img.clone());
    assert!(scan_ntfs(&mut disk, &mut |_| {}, Arc::new(AtomicBool::new(false))).unwrap().is_empty());
    img[3] = b'X';
    let mut disk = MemDisk(img);
    assert!(matches!(
        scan_ntfs(&mut disk, &mut |_| {}, Arc::new(AtomicBool::new(false))),
        Err(ScanError::NotNtfs)
    ));
}

#[test]
fn filename_attribute_walk() {
    // A non-resident $FILE_NAME is passed over; a resident one after it is
    // read; the terminator ends the list.
    let mut a = vec![0u8; 256];
    a[0..4].copy_from_slice(&0x30u32.to_le_bytes());
    a[4..8].copy_from_slice(&24u32.to_le_bytes());
    a[8] = 1;
    let p = 24;
    a[p..p + 4].copy_from_slice(&0x30u32.to_le_bytes());
    a[p + 4..p + 8].copy_from_slice(&160u32.to_le_bytes());
    a[p + 20..p + 22].copy_from_slice(&24u16.to_le_bytes());
    let cs = p + 24;
    a[cs + 0x30..cs + 0x38].copy_from_slice(&99u64.to_le_bytes());
    a[cs + 0x40] = 2;
    a[cs + 0x42..cs + 0x46].copy_from_slice(&[b'h', 0, b'i', 0]);
    a[p + 160..p + 164].copy_from_slice(&0xFFFF_FFFFu32.to_le_bytes());
    assert_eq!(find_filename_attribute(&a), (Some("hi".to_string()), 99));

    // A zero length ends the walk at once.
    let b = vec![0u8; 64];
    assert_eq!(find_filename_attribute(&b), (None, 0));
    assert_eq!(find_filename_attribute(&[]), (None, 0));
}

#[test]
fn record_with_attributes_outside_is_refused() {
    let mut rec = vec![0u8; 1024];
    rec[0x14..0x16].copy_from_slice(&1024u16.to_le_bytes());
    assert!(parse_mft_record(&rec, 0, 0).is_none());
    rec[0x14..0x16].copy_from_slice(&1000u16.to_le_bytes());
    let f = parse_mft_record(&rec, 4096, 3).unwrap();
    assert_eq!(f.name, None);
    assert_eq!(f.file_type, FileType::Unknown);
    assert_eq!(f.disk_offset, 4096);
    assert_eq!(f.confidence, 85);
    assert_eq!(f.index, 3);
}

#[test]
fn guessing_types_from_names() {
    assert_eq!(guess_type("holiday.JPEG"), FileType::Jpeg);
    assert_eq!(guess_type("a.b.Mkv"), FileType::Mkv);
    assert_eq!(guess_type("archive.tar.gz"), FileType::Unknown);
    assert_eq!(guess_type("mp3"), FileType::Mp3);
    assert_eq!(guess_type("trailingdot."), FileType::Unknown);
}

#[test]
fn entries_whose_name_is_not_utf8_have_no_name() {
    let bpb = Fat32Bpb { bytes_per_cluster: 512, data_start: 1024, root_cluster: 2 };
    let mut e = vec![0u8; 32];
    e[0] = DELETED_MARKER;
    e[1..8].copy_from_slice(&[0xFF, b'A', b'B', b'C', b' ', b' ', b' ']);
    e[8..11].copy_from_slice(b"JPG");
    assert!(parse_entry(&e, &bpb, 0).is_none());
    // An extension that is not UTF-8 counts as none.
    e[1..8].copy_from_slice(b"ABC    ");
    e[8..11].copy_from_slice(&[0xC3, 0x28, 0x41]);
    let f = parse_entry(&e, &bpb, 0).unwrap();
    assert_eq!(f.name.as_deref(), Some("?ABC"));
    assert_eq!(f.file_type, FileType::Unknown);
}

#[test]
fn quick_scans_with_a_stop_check() {
    let mut disk = MemDisk(build_ntfs_image());
    let found = scan_ntfs_until(&mut disk, &mut |_| {}, &|| false).unwrap();
    assert_eq!(found.len(), 1);
    assert_eq!(found[0].name.as_deref(), Some("test.png"));
    assert_eq!(found[0].disk_offset, 1024);
    let mut disk = MemDisk(build_ntfs_image());
    assert!(scan_ntfs_until(&mut disk, &mut |_| {}, &|| true).unwrap().is_empty());

    let (img, _) = build_fat32_image();
    let mut disk = MemDisk(img.clone());
    let found = scan_fat32_until(&mut disk, &mut |_| {}, &|| false).unwrap();
    assert_eq!(found.len(), 1);
    assert_eq!(found[0].name.as_deref(), Some("?TESTFIL.jpg"));
    let mut disk = MemDisk(img);
    assert!(scan_fat32_until(&mut disk, &mut |_| {}, &|| true).unwrap().is_empty());
}

#[test]
fn boot_sector_errors_by_kind() {
    let mut disk = MemDisk(vec![0u8; 2048]);
    assert!(matches!(scan_ntfs(&mut disk, &mut |_| {}, Arc::new(AtomicBool::new(false))), Err(ScanError::NotNtfs)));
    assert!(matches!(scan_fat32(&mut disk, &mut |_| {}, Arc::new(AtomicBool::new(false))), Err(ScanError::NotFatBootSector)));
    let mut sector = vec![0u8; 512];
    sector[510] = 0x55;
    sector[511] = 0xAA;
    sector[82..90].copy_from_slice(b"NTFS    ");
    let mut disk = MemDisk(sector.clone());
    assert!(matches!(scan_fat32(&mut disk, &mut |_| {}, Arc::new(AtomicBool::new(false))), Err(ScanError::NotFat32)));
    sector[82..90].copy_from_slice(b"FAT32   ");
    let mut disk = MemDisk(sector);
    assert!(matches!(scan_fat32(&mut disk, &mut |_| {}, Arc::new(AtomicBool::new(false))), Err(ScanError::BadGeometry)));
}

#[test]
fn extensions_in_capitals_name_their_type() {
    assert_eq!(guess_type("test.png"), FileType::Png);
    assert_eq!(guess_type("a.tar.JPEG"), FileType::Jpeg);
    assert_eq!(guess_type("FILE.MOV"), FileType::Mov);
    assert_eq!(guess_type("file.bin"), FileType::Unknown);
    assert_eq!(guess_type("FILE.DOCX"), FileType::Docx);
}

#[test]
fn saved_bytes_of_a_found_fat32_file() {
    let (img, payload) = build_fat32_image();
    let mut disk = MemDisk(img);
    let found = scan_fat32(&mut disk, &mut |_| {}, Arc::new(AtomicBool::new(false))).unwrap();
    assert_eq!(found.len(), 1);
    assert_eq!(recovar::recovery::output_file_name(&found[0]), "?TESTFIL.jpg");
    let bytes = recovar::recovery::copy_file_bytes(&mut disk, &found[0]).unwrap().unwrap();
    assert_eq!(bytes, payload);
}
