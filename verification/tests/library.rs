use recovar::android::adb::{accessible_folders, choose_device, parse_device_list, pulled_file_type, AdbDevice};
use recovar::cli::{elevation_hint, gui_scan_mode, parse_filter, select_by_indices, select_for_display, split_commas};
use recovar::disk::paths::{aligned_span, block_device_drive, disk_node_drive, path_less, sort_drives, drive_letters, is_disk_node, normalize_path, windows_device_path, windows_drive};
use recovar::disk::stub;
use recovar::disk::{DiskReader, DriveInfo, MemDisk};
use recovar::dto::{AdbDeviceDto, DriveInfoDto};
use recovar::recovery::{output_file_name, read_file_bytes, renumber, save_source, scan_volume, SaveError, SaveSource};
use recovar::text::{after_last_dot, split_words, starts_with_str, str_eq, trim_start_matches_str, trim_str};
use recovar::types::{type_for_extension, FileType, RecoveredFile, RecoveryMethod, ScanMode};
use std::sync::atomic::AtomicBool;
use std::sync::Arc;

fn file(name: Option<&str>, t: FileType, index: usize) -> RecoveredFile {
    RecoveredFile {
        name: name.map(|s| s.to_string()),
        original_path: None,
        size: 10,
        file_type: t,
        disk_offset: 4096,
        recovery_method: RecoveryMethod::DiskCarving,
        confidence: 95,
        index,
    }
}

const ALL_TYPES: [FileType; 13] = [
    FileType::Jpeg, FileType::Png, FileType::Gif, FileType::Bmp, FileType::Mp4, FileType::Mov,
    FileType::Avi, FileType::Mkv, FileType::Pdf, FileType::Docx, FileType::Zip, FileType::Mp3,
    FileType::Unknown,
];

#[test]
fn file_type_names() {
    assert_eq!(FileType::Jpeg.extension(), "jpg");
    assert_eq!(FileType::Unknown.extension(), "bin");
    assert_eq!(FileType::Docx.display_name(), "Word Document");
    assert_eq!(FileType::Mp3.display_name(), "MP3 Audio");
    assert!(FileType::Bmp.is_image() && !FileType::Bmp.is_video());
    assert!(FileType::Mkv.is_video() && !FileType::Mkv.is_image());
    assert!(!FileType::Pdf.is_image() && !FileType::Pdf.is_video());
}

#[test]
fn no_type_is_image_and_video() {
    for t in ALL_TYPES {
        assert!(!(t.is_image() && t.is_video()));
    }
}

#[test]
fn extensions_read_back_as_their_type() {
    for t in ALL_TYPES {
        if t != FileType::Unknown {
            assert_eq!(type_for_extension(t.extension()), t);
        }
    }
    assert_eq!(type_for_extension("jpeg"), FileType::Jpeg);
    assert_eq!(type_for_extension("JPG"), FileType::Unknown);
    assert_eq!(type_for_extension("bin"), FileType::Unknown);
}

#[test]
fn scan_modes_read_and_write() {
    for m in [ScanMode::QuickScan, ScanMode::DeepScan, ScanMode::Both] {
        assert_eq!(ScanMode::from_str(m.as_str()).unwrap(), m);
    }
    assert_eq!(ScanMode::from_str("DEEP").unwrap(), ScanMode::DeepScan);
    assert_eq!(ScanMode::from_str("Quick").unwrap(), ScanMode::QuickScan);
    let e = ScanMode::from_str("fast").unwrap_err();
    assert_eq!(e.word, "fast");
    assert_eq!(gui_scan_mode("quick"), ScanMode::QuickScan);
    assert_eq!(gui_scan_mode("deep"), ScanMode::DeepScan);
    assert_eq!(gui_scan_mode("QUICK"), ScanMode::Both);
}

#[test]
fn method_labels() {
    assert_eq!(RecoveryMethod::NtfsMft.label(), "NTFS MFT");
    assert_eq!(RecoveryMethod::Fat32Directory.label(), "FAT32 Dir");
    assert_eq!(RecoveryMethod::DiskCarving.label(), "Carving");
    assert_eq!(RecoveryMethod::AdbPull.label(), "ADB Pull");
}

#[test]
fn text_helpers() {
    assert_eq!(trim_str("  a b \t\n"), "a b");
    assert_eq!(trim_str("\u{3000}x\u{A0}"), "x");
    assert_eq!(trim_str("   "), "");
    assert_eq!(after_last_dot("a.b.c"), "c");
    assert_eq!(after_last_dot("noext"), "noext");
    assert_eq!(after_last_dot("dot."), "");
    assert_eq!(split_words("  ab  c\td "), vec!["ab", "c", "d"]);
    assert!(split_words(" \t ").is_empty());
    assert!(starts_with_str("model:X", "model:"));
    assert!(!starts_with_str("mod", "model:"));
    assert_eq!(trim_start_matches_str("model:model:Pixel", "model:"), "Pixel");
    assert!(str_eq("ä", "ä"));
    assert!(!str_eq("a", "ab"));
    assert_eq!(split_commas("a,,b,"), vec!["a", "", "b", ""]);
    assert_eq!(split_commas(""), vec![""]);
}

#[test]
fn filters_name_types() {
    assert_eq!(parse_filter(None), vec![]);
    assert_eq!(parse_filter(Some("JPG, png ,xyz")), vec![FileType::Jpeg, FileType::Png, FileType::Unknown]);
    assert_eq!(parse_filter(Some("")), vec![FileType::Unknown]);
}

#[test]
fn display_selection_filters_and_limits() {
    let results = vec![
        file(Some("a.jpg"), FileType::Jpeg, 0),
        file(Some("b.pdf"), FileType::Pdf, 1),
        file(Some("c.mp4"), FileType::Mp4, 2),
        file(None, FileType::Png, 3),
    ];
    let shown = select_for_display(&results, &vec![], 0);
    assert_eq!(shown.iter().map(|f| f.index).collect::<Vec<_>>(), vec![0, 2, 3]);
    let shown = select_for_display(&results, &vec![], 2);
    assert_eq!(shown.iter().map(|f| f.index).collect::<Vec<_>>(), vec![0, 2]);
    let shown = select_for_display(&results, &vec![FileType::Pdf], 0);
    assert_eq!(shown.iter().map(|f| f.index).collect::<Vec<_>>(), vec![1]);
    let picked = select_by_indices(&results, &vec![3, 1, 9]);
    assert_eq!(picked.iter().map(|f| f.index).collect::<Vec<_>>(), vec![1, 3]);
}

#[test]
fn save_decisions() {
    let mut f = file(None, FileType::Jpeg, 7);
    assert_eq!(save_source(&f).unwrap(), SaveSource::Copy { offset: 4096, len: 10 });
    assert_eq!(output_file_name(&f), "recovered_000007.jpg");
    f.size = 0;
    assert!(matches!(save_source(&f), Err(SaveError::NoDataLocation)));
    f.size = 10;
    f.disk_offset = 0;
    assert!(matches!(save_source(&f), Err(SaveError::NoDataLocation)));
    f.recovery_method = RecoveryMethod::AdbPull;
    f.disk_offset = 0;
    assert_eq!(save_source(&f).unwrap(), SaveSource::AlreadyPulled);
    let named = file(Some("?TESTFIL.jpg"), FileType::Jpeg, 1234567);
    assert_eq!(output_file_name(&named), "?TESTFIL.jpg");
    let unnamed = file(None, FileType::Unknown, 1234567);
    assert_eq!(output_file_name(&unnamed), "recovered_1234567.bin");
}

#[test]
fn reading_a_found_file() {
    let mut disk = MemDisk((0..100u8).collect());
    assert_eq!(read_file_bytes(&mut disk, 10, 5).unwrap(), vec![10, 11, 12, 13, 14]);
    // A read past the end leaves the rest of the buffer zero.
    assert_eq!(read_file_bytes(&mut disk, 98, 4).unwrap(), vec![98, 99, 0, 0]);
}

#[test]
fn renumbering_sets_positions() {
    let mut v = vec![file(None, FileType::Gif, 5), file(None, FileType::Bmp, 5)];
    renumber(&mut v);
    assert_eq!(v[0].index, 0);
    assert_eq!(v[1].index, 1);
    assert_eq!(v[1].file_type, FileType::Bmp);
}

#[test]
fn volume_scan_numbers_quick_then_deep_results() {
    // A FAT32 image whose deleted file's data starts with a JPEG header.
    let mut img = vec![0u8; 4096];
    img[0x0B..0x0D].copy_from_slice(&512u16.to_le_bytes());
    img[0x0D] = 1;
    img[0x0E..0x10].copy_from_slice(&1u16.to_le_bytes());
    img[0x10] = 1;
    img[0x24..0x28].copy_from_slice(&1u32.to_le_bytes());
    img[0x2C..0x30].copy_from_slice(&2u32.to_le_bytes());
    img[82..90].copy_from_slice(b"FAT32   ");
    img[510] = 0x55;
    img[511] = 0xAA;
    let e = 1024;
    img[e] = 0xE5;
    img[e + 1..e + 8].copy_from_slice(b"PHOTO  ");
    img[e + 8..e + 11].copy_from_slice(b"JPG");
    img[e + 11] = 0x20;
    img[e + 26..e + 28].copy_from_slice(&3u16.to_le_bytes());
    img[e + 28..e + 32].copy_from_slice(&4u32.to_le_bytes());
    img[1536..1540].copy_from_slice(&[0xFF, 0xD8, 0xFF, 0xD9]);

    let mut disk = MemDisk(img.clone());
    let v = scan_volume(&mut disk, ScanMode::Both, &mut |_| {}, Arc::new(AtomicBool::new(false))).unwrap();
    assert_eq!(v.len(), 2);
    assert_eq!(v[0].recovery_method, RecoveryMethod::Fat32Directory);
    assert_eq!(v[0].name.as_deref(), Some("?PHOTO.jpg"));
    assert_eq!(v[1].recovery_method, RecoveryMethod::DiskCarving);
    assert_eq!(v[1].disk_offset, 1536);
    assert_eq!(v[1].size, 4);
    for (i, f) in v.iter().enumerate() {
        assert_eq!(f.index, i);
    }

    let mut disk = MemDisk(img.clone());
    let v = scan_volume(&mut disk, ScanMode::QuickScan, &mut |_| {}, Arc::new(AtomicBool::new(false))).unwrap();
    assert_eq!(v.len(), 1);
    let mut disk = MemDisk(img);
    let v = scan_volume(&mut disk, ScanMode::DeepScan, &mut |_| {}, Arc::new(AtomicBool::new(false))).unwrap();
    assert_eq!(v.len(), 1);
    assert_eq!(v[0].recovery_method, RecoveryMethod::DiskCarving);
}

#[test]
fn unknown_volume_skips_quick_scan_with_a_warning() {
    let mut disk = MemDisk(vec![0u8; 1024]);
    let mut warnings = Vec::new();
    let v = scan_volume(&mut disk, ScanMode::QuickScan, &mut |p| {
        if let Some(w) = p.warning {
            warnings.push(w)
        }
    }, Arc::new(AtomicBool::new(false)))
    .unwrap();
    assert!(v.is_empty());
    assert_eq!(warnings, vec!["Drive is not NTFS or FAT32; quick scan skipped.".to_string()]);
}

#[test]
fn memory_disk_reads() {
    let mut disk = MemDisk(vec![1, 2, 3, 4, 5]);
    assert_eq!(disk.size(), 5);
    assert_eq!(disk.sector_size(), 512);
    let mut buf = vec![9u8; 4];
    assert_eq!(disk.read_at(3, &mut buf).unwrap(), 2);
    assert_eq!(buf, vec![4, 5, 9, 9]);
    assert_eq!(disk.read_at(5, &mut buf).unwrap(), 0);
    assert_eq!(disk.read_at(u64::MAX, &mut buf).unwrap(), 0);
}

#[test]
fn adb_device_list_parsing() {
    let out = "List of devices attached\r\n\
               * daemon started successfully\n\
               ABCDEF123456   device usb:1-1 product:a52 model:Samsung_A52 transport_id:1\r\n\
               \n\
               emulator-5554\toffline\n\
               lonely\n";
    let devs = parse_device_list(out);
    assert_eq!(devs.len(), 2);
    assert_eq!(devs[0].serial, "ABCDEF123456");
    assert_eq!(devs[0].state, "device");
    assert_eq!(devs[0].model, "Samsung_A52");
    assert_eq!(devs[1].serial, "emulator-5554");
    assert_eq!(devs[1].state, "offline");
    assert_eq!(devs[1].model, "Unknown");
    assert!(parse_device_list("").is_empty());
    assert!(parse_device_list("ABC device").is_empty());
}

#[test]
fn device_choice() {
    let d = |s: &str| AdbDevice { serial: s.to_string(), model: "m".to_string(), state: "device".to_string() };
    let devs = vec![d("one"), d("two"), d("two")];
    assert_eq!(choose_device(&devs, &None), Some(0));
    assert_eq!(choose_device(&devs, &Some("two".to_string())), Some(1));
    assert_eq!(choose_device(&devs, &Some("three".to_string())), None);
    assert_eq!(choose_device(&vec![], &None), None);
}

#[test]
fn pulled_files_are_photos_and_videos() {
    assert_eq!(pulled_file_type("IMG_0001.JPG"), Some(FileType::Jpeg));
    assert_eq!(pulled_file_type("clip.mkv"), Some(FileType::Mkv));
    assert_eq!(pulled_file_type("doc.pdf"), None);
    assert_eq!(pulled_file_type("anim.gif"), None);
    assert_eq!(accessible_folders(), vec!["/sdcard/DCIM", "/sdcard/Pictures", "/sdcard/Movies", "/sdcard/Download", "/sdcard/.Trash"]);
}

#[test]
fn device_paths() {
    assert_eq!(normalize_path("sda"), "/dev/sda");
    assert_eq!(normalize_path("/dev/nvme0n1"), "/dev/nvme0n1");
    assert_eq!(normalize_path("//sdb"), "/dev/sdb");
    assert_eq!(windows_device_path("C:\\"), "\\\\.\\C:");
    assert_eq!(windows_device_path("\\\\.\\PhysicalDrive0"), "\\\\.\\PhysicalDrive0");
    assert_eq!(windows_device_path("PhysicalDrive1\\\\"), "\\\\.\\PhysicalDrive1");
}

#[test]
fn sector_alignment() {
    assert_eq!(aligned_span(1000, 100, 512), (512, 488, 1024));
    assert_eq!(aligned_span(1024, 512, 512), (1024, 0, 512));
    assert_eq!(aligned_span(0, 0, 4096), (0, 0, 0));
}

#[test]
fn block_devices_listed() {
    assert!(block_device_drive("loop0", 100, false).is_none());
    assert!(block_device_drive("zram0", 100, false).is_none());
    assert!(block_device_drive("sdb", 0, true).is_none());
    let d = block_device_drive("sdb", 100, true).unwrap();
    assert_eq!(d.path, "/dev/sdb");
    assert_eq!(d.label, "/dev/sdb");
    assert_eq!(d.size, 51200);
    assert_eq!(d.filesystem, "Unknown");
    assert!(d.removable);
    assert!(is_disk_node("disk0"));
    assert!(is_disk_node("disk2s1"));
    assert!(!is_disk_node("rdisk0"));
    assert!(!is_disk_node("disk"));
    assert!(!is_disk_node("diskX"));
}

#[test]
fn unsupported_platform_backend() {
    match stub::open_drive("C:\\") {
        Err(e) => assert_eq!(e.message, "Raw disk access is not implemented on this platform."),
        Ok(_) => panic!("opening a drive succeeded"),
    }
    assert!(stub::list_drives().unwrap().is_empty());
    assert_eq!(elevation_hint(true), "Run as Administrator");
    assert_eq!(elevation_hint(false), "Run with sudo");
}

#[test]
fn transfer_shapes() {
    let d = DriveInfo { path: "/dev/sda".to_string(), label: "disk".to_string(), size: 5, filesystem: "NTFS".to_string(), removable: false };
    let dto = DriveInfoDto::from(d);
    assert_eq!(dto.path, "/dev/sda");
    assert_eq!(dto.filesystem, "NTFS");
    let a = AdbDevice { serial: "s".to_string(), model: "m".to_string(), state: "device".to_string() };
    let dto = AdbDeviceDto::from(a);
    assert_eq!(dto.serial, "s");
    assert_eq!(dto.state, "device");
}

#[test]
fn windows_drive_listing() {
    assert_eq!(drive_letters(0b1_0100), vec![2, 4]);
    assert_eq!(drive_letters(0xFFFF_FFFF).len(), 26);
    assert!(windows_drive(3, 5, None).is_none());
    let d = windows_drive(2, 3, Some(("System", "NTFS"))).unwrap();
    assert_eq!(d.path, "C:\\");
    assert_eq!(d.label, "System (C:)");
    assert_eq!(d.filesystem, "NTFS");
    assert!(!d.removable);
    let e = windows_drive(6, 2, None).unwrap();
    assert_eq!(e.path, "G:\\");
    assert_eq!(e.label, "Drive G: (G:)");
    assert_eq!(e.filesystem, "Unknown");
    assert!(e.removable);
}

#[test]
fn scanning_a_volume_with_a_stop_check() {
    let mut bytes = vec![0u8; 4096];
    bytes[1000..1002].copy_from_slice(&[0x42, 0x4D]);
    let mut disk = MemDisk(bytes);
    let mut warnings: Vec<String> = Vec::new();
    let found = recovar::recovery::scan_volume_until(
        &mut disk,
        ScanMode::Both,
        &mut |p: recovar::types::ScanProgress| {
            if let Some(w) = p.warning {
                warnings.push(w)
            }
        },
        &|| false,
    )
    .unwrap();
    assert_eq!(found.len(), 1);
    assert_eq!(found[0].file_type, FileType::Bmp);
    assert_eq!(found[0].disk_offset, 1000);
    assert_eq!(found[0].index, 0);
    assert_eq!(warnings, vec!["Drive is not NTFS or FAT32; quick scan skipped.".to_string()]);
}

#[test]
fn text_conversions_of_the_standard_library() {
    assert_eq!(recovar::text::to_lowercase("QUICK Scan.JPG"), "quick scan.jpg");
    let units = [0x0041u16, 0xD83D, 0xDE00, 0xDC00, 0xD800, 0x0042];
    assert_eq!(recovar::text::string_from_utf16_lossy(&units), "A\u{1F600}\u{FFFD}\u{FFFD}B");
}

#[test]
fn drives_are_listed_by_path() {
    let names = ["sdb", "nvme0n1", "sda", "sda1"];
    let drives: Vec<DriveInfo> = names.iter().map(|n| block_device_drive(n, 8, false).unwrap()).collect();
    let sorted = sort_drives(drives);
    let paths: Vec<&str> = sorted.iter().map(|d| d.path.as_str()).collect();
    assert_eq!(paths, vec!["/dev/nvme0n1", "/dev/sda", "/dev/sda1", "/dev/sdb"]);
    assert!(path_less("/dev/sda", "/dev/sda1"));
    assert!(!path_less("/dev/sdb", "/dev/sda1"));
    assert!(!path_less("/dev/sda", "/dev/sda"));
}

#[test]
fn mac_disk_nodes() {
    let d = disk_node_drive("disk2", 4096).unwrap();
    assert_eq!(d.path, "/dev/disk2");
    assert_eq!(d.label, "/dev/disk2");
    assert_eq!(d.size, 4096);
    assert_eq!(d.filesystem, "Unknown");
    assert!(!d.removable);
    assert!(disk_node_drive("disk2", 0).is_none());
    assert!(disk_node_drive("rdisk2", 4096).is_none());
}

#[test]
fn pulled_files_and_gui_targets() {
    let f = recovar::android::adb::pulled_record("a.jpg".to_string(), "/sdcard/DCIM/a.jpg".to_string(), 12, FileType::Jpeg, 3);
    assert_eq!(f.name.as_deref(), Some("a.jpg"));
    assert_eq!(f.original_path.as_deref(), Some("/sdcard/DCIM/a.jpg"));
    assert_eq!(f.size, 12);
    assert_eq!(f.disk_offset, 0);
    assert_eq!(f.recovery_method, RecoveryMethod::AdbPull);
    assert_eq!(f.confidence, 100);
    assert_eq!(f.index, 3);
    assert_eq!(recovar::cli::gui_target(false, None, None).err().unwrap(), "Invalid target");
    assert_eq!(recovar::cli::gui_target(true, None, None).err().unwrap(), "Unknown target type");
    match recovar::cli::gui_target(true, Some(None), Some((None, None))).unwrap() {
        recovar::types::Target::Laptop { drive } => assert_eq!(drive, "C:\\"),
        _ => panic!("a Laptop entry wins"),
    }
    match recovar::cli::gui_target(true, None, Some((Some("abc".to_string()), None))).unwrap() {
        recovar::types::Target::Android { serial, image_path } => {
            assert_eq!(serial.as_deref(), Some("abc"));
            assert!(image_path.is_none());
        }
        _ => panic!("an Android entry gives an Android target"),
    }
}

#[test]
fn six_place_numbers() {
    assert_eq!(recovar::text::decimal_width6(0), "000000");
    assert_eq!(recovar::text::decimal_width6(42), "000042");
    assert_eq!(recovar::text::decimal_width6(1234567), "1234567");
}

#[test]
fn mode_words_in_capitals() {
    assert_eq!(ScanMode::from_str("QUICK").unwrap(), ScanMode::QuickScan);
    assert_eq!(ScanMode::from_str("Deep").unwrap(), ScanMode::DeepScan);
    assert_eq!(ScanMode::from_str("BOTH").unwrap(), ScanMode::Both);
    assert_eq!(ScanMode::from_str("fast").err().unwrap().word, "fast");
}

#[test]
fn listed_device_files_are_named_as_paths_name_them() {
    let lines = [
        "/sdcard/DCIM/Camera/IMG_1.jpg",
        "  /sdcard/Download/a.pdf \r",
        "/sdcard/dir/",
        "/sdcard/dir/.",
        "/sdcard/..",
        "/",
        ".",
        "plain.txt",
        "a//b",
        "./x.mp4",
        "/sdcard/...",
    ];
    for line in lines {
        let (path, name) = recovar::android::adb::listed_file(line).unwrap();
        assert_eq!(path, line.trim());
        let expected = std::path::Path::new(line.trim()).file_name().and_then(|n| n.to_str()).unwrap_or("unknown");
        assert_eq!(name, expected, "for {line:?}");
    }
    assert!(recovar::android::adb::listed_file("   ").is_none());
    assert!(recovar::android::adb::listed_file("").is_none());
}
