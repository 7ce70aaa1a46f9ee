use recovar::carver::signatures::{match_signature, signatures};
use recovar::types::FileType;

#[test]
fn test_match_signature_jpeg() {
    let jpeg_data = [0xFF, 0xD8, 0xFF, 0xE0, 0x00, 0x10, 0x4A, 0x46, 0x49, 0x46];
    let matched = match_signature(&jpeg_data);
    assert!(matched.is_some());
    assert_eq!(matched.unwrap().name, "JPEG");
}

#[test]
fn test_match_signature_png() {
    let png_data = [0x89, 0x50, 0x4E, 0x47, 0x0D, 0x0A, 0x1A, 0x0A, 0x00, 0x00];
    let matched = match_signature(&png_data);
    assert!(matched.is_some());
    assert_eq!(matched.unwrap().name, "PNG");
}

#[test]
fn test_match_signature_unknown() {
    let random_data = [0x00, 0x11, 0x22, 0x33, 0x44];
    let matched = match_signature(&random_data);
    assert!(matched.is_none());
}

#[test]
fn every_signature_matches_its_own_header() {
    for sig in signatures() {
        let mut data = sig.header.clone();
        data.push(0x00);
        let matched = match_signature(&data).expect("own header must match");
        // GIF87a and GIF89a differ, so each header finds its own entry.
        assert_eq!(matched.name, sig.name);
        assert_eq!(matched.file_type, sig.file_type);
    }
}

#[test]
fn signature_table_order_and_types() {
    let t = signatures();
    assert_eq!(t.len(), 13);
    assert_eq!(t[0].file_type, FileType::Jpeg);
    assert_eq!(t[5].name, "MP4");
    assert_eq!(t[6].name, "MOV");
    assert_eq!(t[6].file_type, FileType::Mov);
    assert_eq!(t[7].name, "MP4 small");
    assert_eq!(t[11].name, "DOCX/ZIP");
    assert_eq!(t[11].footer, Some(vec![0x50, 0x4B, 0x05, 0x06]));
    assert_eq!(t[4].footer, None);
    assert_eq!(t[5].max_size, 4_000_000_000);
}

#[test]
fn header_shorter_than_data_needed_does_not_match() {
    // Only the first two bytes of the JPEG header.
    assert!(match_signature(&[0xFF, 0xD8]).is_none());
    // The BMP header is two bytes, so two bytes are enough for it.
    assert_eq!(match_signature(&[0x42, 0x4D]).unwrap().name, "BMP");
    assert!(match_signature(&[]).is_none());
}

#[test]
fn quicktime_header_is_carved_as_mov() {
    let data = [0x00, 0x00, 0x00, 0x14, 0x66, 0x74, 0x79, 0x70, 0x71, 0x74, 0x20, 0x20, 0x00];
    let matched = match_signature(&data).expect("QuickTime header must match");
    assert_eq!(matched.file_type, FileType::Mov);
    let mp4 = [0x00, 0x00, 0x00, 0x14, 0x66, 0x74, 0x79, 0x70, 0x69, 0x73, 0x6F, 0x6D];
    assert_eq!(match_signature(&mp4).unwrap().name, "MP4 small");
}
