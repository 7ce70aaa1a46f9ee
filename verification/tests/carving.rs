use recovar::carver::engine::{carve, carve_until, find_footer, scan_window, CHUNK_SIZE};
use recovar::carver::signatures::signatures;
use recovar::disk::{DiskReader, MemDisk};
use recovar::types::{FileType, RecoveryMethod};
use std::sync::atomic::AtomicBool;
use std::sync::Arc;

#[test]
fn carves_deleted_jpeg_out_of_raw_bytes() {
    let mut disk_bytes = vec![0xCCu8; 4096];
    let jpeg_offset = 1000usize;
    let jpeg_body: Vec<u8> = [0xFF, 0xD8, 0xFF, 0xE0, 0x00, 0x10, 0x4A, 0x46, 0x49, 0x46]
        .iter()
        .copied()
        .chain((0..200).map(|i| (i % 251) as u8))
        .chain([0xFF, 0xD9])
        .collect();
    disk_bytes[jpeg_offset..jpeg_offset + jpeg_body.len()].copy_from_slice(&jpeg_body);

    let mut disk = MemDisk(disk_bytes);
    let stop = Arc::new(AtomicBool::new(false));
    let results = carve(&mut disk, 0, &mut |_| {}, stop).expect("carve should succeed");

    assert_eq!(results.len(), 1, "expected exactly one carved file");
    let file = &results[0];
    assert_eq!(file.file_type, FileType::Jpeg);
    assert_eq!(file.disk_offset, jpeg_offset as u64);
    assert_eq!(
        file.size as usize,
        jpeg_body.len(),
        "carved size must span header through footer, not just the header"
    );

    let mut recovered = vec![0u8; file.size as usize];
    disk.read_at(file.disk_offset, &mut recovered).unwrap();
    assert_eq!(recovered, jpeg_body, "carved bytes must match the original file");
}

#[test]
fn carved_files_without_footer_or_with_lost_footer() {
    let mut bytes = vec![0x11u8; 2048];
    // A BMP header: no footer is searched, size 0 at 60%.
    bytes[100..102].copy_from_slice(&[0x42, 0x4D]);
    // A PDF header whose footer never comes: size 0 at 40%.
    bytes[500..505].copy_from_slice(&[0x25, 0x50, 0x44, 0x46, 0x2D]);
    let mut disk = MemDisk(bytes);
    let results = carve(&mut disk, 0, &mut |_| {}, Arc::new(AtomicBool::new(false))).unwrap();
    assert_eq!(results.len(), 2);
    assert_eq!(results[0].file_type, FileType::Bmp);
    assert_eq!(results[0].disk_offset, 100);
    assert_eq!(results[0].size, 0);
    assert_eq!(results[0].confidence, 60);
    assert_eq!(results[1].file_type, FileType::Pdf);
    assert_eq!(results[1].disk_offset, 500);
    assert_eq!(results[1].size, 0);
    assert_eq!(results[1].confidence, 40);
    for (i, f) in results.iter().enumerate() {
        assert_eq!(f.index, i);
        assert_eq!(f.recovery_method, RecoveryMethod::DiskCarving);
        assert!(f.name.is_none());
    }
}

#[test]
fn png_size_runs_through_its_footer() {
    let mut bytes = vec![0u8; 1024];
    let header = [0x89, 0x50, 0x4E, 0x47, 0x0D, 0x0A, 0x1A, 0x0A];
    let footer = [0x49, 0x45, 0x4E, 0x44, 0xAE, 0x42, 0x60, 0x82];
    bytes[64..72].copy_from_slice(&header);
    bytes[300..308].copy_from_slice(&footer);
    let mut disk = MemDisk(bytes);
    let results = carve(&mut disk, 0, &mut |_| {}, Arc::new(AtomicBool::new(false))).unwrap();
    assert_eq!(results.len(), 1);
    assert_eq!(results[0].file_type, FileType::Png);
    assert_eq!(results[0].size, 308 - 64);
    assert_eq!(results[0].confidence, 95);
}

#[test]
fn stop_before_start_carves_nothing() {
    let mut bytes = vec![0u8; 256];
    bytes[10..13].copy_from_slice(&[0xFF, 0xD8, 0xFF]);
    let mut disk = MemDisk(bytes);
    let results = carve(&mut disk, 0, &mut |_| {}, Arc::new(AtomicBool::new(true))).unwrap();
    assert!(results.is_empty());
}

#[test]
fn progress_ends_with_a_complete_report() {
    let mut disk = MemDisk(vec![0u8; 512]);
    let mut reports = Vec::new();
    carve(&mut disk, 0, &mut |p| reports.push(p), Arc::new(AtomicBool::new(false))).unwrap();
    assert!(!reports.is_empty());
    let last = reports.last().unwrap();
    assert!(last.complete);
    assert_eq!(last.bytes_scanned, 512);
    assert_eq!(last.bytes_total, 512);
}

#[test]
fn footer_is_found_across_read_boundaries() {
    // Reads go 64 KiB at a time; put the footer across the first boundary.
    let mut bytes = vec![0u8; 200_000];
    bytes[65535] = 0xFF;
    bytes[65536] = 0xD9;
    let mut disk = MemDisk(bytes);
    let (size, confidence) = find_footer(&mut disk, 0, &[0xFF, 0xD9], 50_000_000);
    assert_eq!(confidence, 95);
    assert_eq!(size, 65537);
}

#[test]
fn footer_search_reports_first_occurrence_or_none() {
    let mut bytes = vec![0u8; 1000];
    bytes[10..12].copy_from_slice(&[0x00, 0x3B]);
    bytes[20..22].copy_from_slice(&[0x00, 0x3B]);
    let mut disk = MemDisk(bytes);
    assert_eq!(find_footer(&mut disk, 0, &[0x00, 0x3B], 1000), (12, 95));
    assert_eq!(find_footer(&mut disk, 11, &[0x00, 0x3B], 1000), (11, 95));
    assert_eq!(find_footer(&mut disk, 21, &[0x00, 0x3B], 1000), (0, 40));
    // Nothing is read once max_size bytes are behind.
    assert_eq!(find_footer(&mut disk, 0, &[0x00, 0x3B], 0), (0, 40));
}

#[test]
fn window_scan_skips_past_each_header() {
    let table = signatures();
    // Two JPEG headers back to back, then a BMP header at the last two bytes.
    let w = [0xFF, 0xD8, 0xFF, 0xFF, 0xD8, 0xFF, 0x00, 0x42, 0x4D];
    let hits = scan_window(&table, &w);
    assert_eq!(hits, vec![(0, 0), (3, 0), (7, 4)]);
    // The last byte alone is never looked at.
    assert!(scan_window(&table, &[0x42]).is_empty());
}

#[test]
fn chunk_size_is_one_mebibyte() {
    assert_eq!(CHUNK_SIZE, 1024 * 1024);
}

#[test]
fn carving_with_a_stop_check() {
    let mut bytes = vec![0x11u8; 3000];
    bytes[200..202].copy_from_slice(&[0x42, 0x4D]);
    bytes[2500..2512].copy_from_slice(&[0x00, 0x00, 0x00, 0x14, 0x66, 0x74, 0x79, 0x70, 0x71, 0x74, 0x20, 0x20]);
    let mut disk = MemDisk(bytes.clone());
    let all = carve_until(&mut disk, 0, &mut |_| {}, &|| false).unwrap();
    assert_eq!(all.len(), 2);
    assert_eq!(all[0].file_type, FileType::Bmp);
    assert_eq!(all[0].disk_offset, 200);
    assert_eq!(all[1].file_type, FileType::Mov);
    assert_eq!(all[1].disk_offset, 2500);
    assert_eq!(all[1].index, 1);
    let mut disk = MemDisk(bytes);
    let none = carve_until(&mut disk, 0, &mut |_| {}, &|| true).unwrap();
    assert!(none.is_empty());
}

#[test]
fn headers_at_chunk_boundaries() {
    let c = CHUNK_SIZE;
    let mut bytes = vec![0x11u8; c + 4096];
    // Wholly inside the last 16 bytes of the first chunk: found with the
    // first chunk, and again from the bytes kept in front of the second.
    bytes[c - 8..c - 6].copy_from_slice(&[0x42, 0x4D]);
    // Across the boundary: found with the second chunk.
    bytes[c - 3..c + 2].copy_from_slice(&[0x25, 0x50, 0x44, 0x46, 0x2D]);
    let mut disk = MemDisk(bytes);
    let found = carve_until(&mut disk, 0, &mut |_| {}, &|| false).unwrap();
    assert_eq!(found.len(), 3);
    assert_eq!(found[0].disk_offset, (c - 8) as u64);
    assert_eq!(found[0].file_type, FileType::Bmp);
    assert_eq!(found[1].disk_offset, (c - 8) as u64);
    assert_eq!(found[1].file_type, FileType::Bmp);
    assert_eq!(found[2].disk_offset, (c - 3) as u64);
    assert_eq!(found[2].file_type, FileType::Pdf);
    assert_eq!(found[2].index, 2);
}

#[test]
fn a_mov_header_cut_by_a_chunk_end_is_still_mov() {
    let c = CHUNK_SIZE;
    let mut bytes = vec![0x11u8; c + 4096];
    bytes[c - 10..c + 2].copy_from_slice(&[0x00, 0x00, 0x00, 0x14, 0x66, 0x74, 0x79, 0x70, 0x71, 0x74, 0x20, 0x20]);
    let mut disk = MemDisk(bytes);
    let found = carve_until(&mut disk, 0, &mut |_| {}, &|| false).unwrap();
    assert_eq!(found.len(), 2);
    for f in &found {
        assert_eq!(f.disk_offset, (c - 10) as u64);
        assert_eq!(f.file_type, FileType::Mov);
    }
}

#[test]
fn carving_from_a_start_offset() {
    let mut bytes = vec![0x11u8; 512];
    bytes[100..102].copy_from_slice(&[0x42, 0x4D]);
    // From 16 bytes on, hits are placed from the start offset.
    let mut disk = MemDisk(bytes.clone());
    let found = carve_until(&mut disk, 20, &mut |_| {}, &|| false).unwrap();
    assert_eq!(found.len(), 1);
    assert_eq!(found[0].disk_offset, 100);
    // Nearer the start, hits are placed from 0, where no header is.
    let mut disk = MemDisk(bytes);
    let found = carve_until(&mut disk, 5, &mut |_| {}, &|| false).unwrap();
    assert!(found.is_empty());
}

#[test]
fn footer_search_reads_overlapping_blocks() {
    // A footer across the end of the first 64 KiB read is found by the
    // next read, which starts one byte before that end.
    let mut bytes = vec![0x11u8; 70_000];
    bytes[65_535] = 0xFF;
    bytes[65_536] = 0xD9;
    let mut disk = MemDisk(bytes.clone());
    assert_eq!(find_footer(&mut disk, 0, &[0xFF, 0xD9], 1_000_000), (65_537, 95));
    // No footer before the disk ends: 0 at 40%.
    let mut disk = MemDisk(vec![0x11u8; 70_000]);
    assert_eq!(find_footer(&mut disk, 0, &[0xFF, 0xD9], 1_000_000), (0, 40));
    // Each read goes on from one byte before the end of the last, so the
    // second read starts at 65 535: with that as the largest size there is
    // none, with one byte more the footer is found.
    let mut disk = MemDisk(bytes.clone());
    assert_eq!(find_footer(&mut disk, 0, &[0xFF, 0xD9], 65_535), (0, 40));
    let mut disk = MemDisk(bytes);
    assert_eq!(find_footer(&mut disk, 0, &[0xFF, 0xD9], 65_536), (65_537, 95));
}

#[test]
fn a_stop_check_that_always_stops_gives_nothing() {
    let mut bytes = vec![0x11u8; 3000];
    bytes[200..202].copy_from_slice(&[0x42, 0x4D]);
    let mut disk = MemDisk(bytes);
    assert!(carve_until(&mut disk, 0, &mut |_| {}, &|| true).unwrap().is_empty());
}
