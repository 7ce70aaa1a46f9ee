//! The values that scans produce and report.
use vstd::prelude::*;
use crate::disk::DiskError;
use crate::text::{
    all_ascii, ascii_lower, ascii_upper, is_lower_alnum, last_segment, lemma_capitals_lower_back, lowercase, str_eq,
    to_lowercase,
};

verus! {

/// How much of a volume a scan covers.
#[derive(Clone, Copy, Debug, PartialEq, Eq, Structural)]
pub enum ScanMode {
    QuickScan,
    DeepScan,
    Both,
}

/// The word by which a scan mode is written and read back.
pub open spec fn mode_word(m: ScanMode) -> Seq<char> {
    match m {
        ScanMode::QuickScan => "quick"@,
        ScanMode::DeepScan => "deep"@,
        ScanMode::Both => "both"@,
    }
}

/// The scan mode that a lowercased word names, if any.
pub open spec fn mode_of_word(w: Seq<char>) -> Option<ScanMode> {
    if w == "quick"@ {
        Some(ScanMode::QuickScan)
    } else if w == "deep"@ {
        Some(ScanMode::DeepScan)
    } else if w == "both"@ {
        Some(ScanMode::Both)
    } else {
        None
    }
}

/// A word that names no scan mode.
#[derive(Debug)]
pub struct UnknownScanMode {
    pub word: String,
}

impl ScanMode {
    /// Whether the mode includes the metadata (NTFS/FAT32) pass.
    pub open spec fn has_quick_pass(self) -> bool {
        self is QuickScan || self is Both
    }

    /// Whether the mode includes the carving pass.
    pub open spec fn has_deep_pass(self) -> bool {
        self is DeepScan || self is Both
    }

    /// The word for the mode, as it is displayed ("quick", "deep", "both").
    pub fn as_str(&self) -> (r: &'static str)
        ensures
            r@ == mode_word(*self),
    {
        match self {
            ScanMode::QuickScan => "quick",
            ScanMode::DeepScan => "deep",
            ScanMode::Both => "both",
        }
    }

    /// Reads a mode from its word, in any letter case. A mode's own word
    /// (as `as_str` writes it) reads back as that mode.
    pub fn from_str(s: &str) -> (r: Result<ScanMode, UnknownScanMode>)
        ensures
            r matches Ok(m) ==> mode_of_word(lowercase(s@)) == Some(m),
            r matches Err(e) ==> mode_of_word(lowercase(s@)) is None && e.word@ == s@,
            mode_of_word(s@) matches Some(m) ==> r matches Ok(x) && x == m,
            all_ascii(s@) ==> match mode_of_word(s@.map_values(|c: char| ascii_lower(c))) {
                Some(m) => r matches Ok(x) && x == m,
                None => r is Err,
            },
    {
        let lower = to_lowercase(s);
        proof {
            reveal_strlit("quick");
            reveal_strlit("deep");
            reveal_strlit("both");
            if mode_of_word(s@) is Some {
                assert forall|i: int| 0 <= i < s@.len() implies is_lower_alnum(#[trigger] s@[i]) by {
                    if s@ == "quick"@ {
                        assert(i < 5);
                    } else if s@ == "deep"@ {
                        assert(i < 4);
                    } else {
                        assert(i < 4);
                    }
                }
            }
        }
        if str_eq(lower.as_str(), "quick") {
            Ok(ScanMode::QuickScan)
        } else if str_eq(lower.as_str(), "deep") {
            Ok(ScanMode::DeepScan)
        } else if str_eq(lower.as_str(), "both") {
            Ok(ScanMode::Both)
        } else {
            Err(UnknownScanMode { word: String::from_str(s) })
        }
    }
}

/// What a recovery session reads from.
#[derive(Clone, Debug)]
pub enum Target {
    Laptop { drive: String },
    Android { serial: Option<String>, image_path: Option<String> },
}

/// The kinds of file that the scanners recognise.
#[derive(Clone, Copy, Debug, PartialEq, Eq, Structural)]
pub enum FileType {
    Jpeg,
    Png,
    Gif,
    Bmp,
    Mp4,
    Mov,
    Avi,
    Mkv,
    Pdf,
    Docx,
    Zip,
    Mp3,
    Unknown,
}

/// The file name extension under which a recovered file of a type is saved.
pub open spec fn extension_of(t: FileType) -> Seq<char> {
    match t {
        FileType::Jpeg => "jpg"@,
        FileType::Png => "png"@,
        FileType::Gif => "gif"@,
        FileType::Bmp => "bmp"@,
        FileType::Mp4 => "mp4"@,
        FileType::Mov => "mov"@,
        FileType::Avi => "avi"@,
        FileType::Mkv => "mkv"@,
        FileType::Pdf => "pdf"@,
        FileType::Docx => "docx"@,
        FileType::Zip => "zip"@,
        FileType::Mp3 => "mp3"@,
        FileType::Unknown => "bin"@,
    }
}

/// The name under which a type is shown.
pub open spec fn display_name_of(t: FileType) -> Seq<char> {
    match t {
        FileType::Jpeg => "JPEG Image"@,
        FileType::Png => "PNG Image"@,
        FileType::Gif => "GIF Image"@,
        FileType::Bmp => "BMP Image"@,
        FileType::Mp4 => "MP4 Video"@,
        FileType::Mov => "MOV Video"@,
        FileType::Avi => "AVI Video"@,
        FileType::Mkv => "MKV Video"@,
        FileType::Pdf => "PDF Document"@,
        FileType::Docx => "Word Document"@,
        FileType::Zip => "ZIP Archive"@,
        FileType::Mp3 => "MP3 Audio"@,
        FileType::Unknown => "Unknown"@,
    }
}

/// The type that a lowercase file name extension stands for.
pub open spec fn type_of_extension(e: Seq<char>) -> FileType {
    if e == "jpg"@ || e == "jpeg"@ {
        FileType::Jpeg
    } else if e == "png"@ {
        FileType::Png
    } else if e == "gif"@ {
        FileType::Gif
    } else if e == "bmp"@ {
        FileType::Bmp
    } else if e == "mp4"@ {
        FileType::Mp4
    } else if e == "mov"@ {
        FileType::Mov
    } else if e == "avi"@ {
        FileType::Avi
    } else if e == "mkv"@ {
        FileType::Mkv
    } else if e == "pdf"@ {
        FileType::Pdf
    } else if e == "docx"@ {
        FileType::Docx
    } else if e == "zip"@ {
        FileType::Zip
    } else if e == "mp3"@ {
        FileType::Mp3
    } else {
        FileType::Unknown
    }
}

impl FileType {
    pub open spec fn spec_is_image(self) -> bool {
        self is Jpeg || self is Png || self is Gif || self is Bmp
    }

    pub open spec fn spec_is_video(self) -> bool {
        self is Mp4 || self is Mov || self is Avi || self is Mkv
    }

    /// The extension under which a recovered file of this type is saved.
    pub fn extension(&self) -> (r: &'static str)
        ensures
            r@ == extension_of(*self),
    {
        match self {
            FileType::Jpeg => "jpg",
            FileType::Png => "png",
            FileType::Gif => "gif",
            FileType::Bmp => "bmp",
            FileType::Mp4 => "mp4",
            FileType::Mov => "mov",
            FileType::Avi => "avi",
            FileType::Mkv => "mkv",
            FileType::Pdf => "pdf",
            FileType::Docx => "docx",
            FileType::Zip => "zip",
            FileType::Mp3 => "mp3",
            FileType::Unknown => "bin",
        }
    }

    /// Whether the type is a still image (JPEG, PNG, GIF, BMP).
    pub fn is_image(&self) -> (b: bool)
        ensures
            b == self.spec_is_image(),
    {
        match self {
            FileType::Jpeg | FileType::Png | FileType::Gif | FileType::Bmp => true,
            _ => false,
        }
    }

    /// Whether the type is a video (MP4, MOV, AVI, MKV).
    pub fn is_video(&self) -> (b: bool)
        ensures
            b == self.spec_is_video(),
    {
        match self {
            FileType::Mp4 | FileType::Mov | FileType::Avi | FileType::Mkv => true,
            _ => false,
        }
    }

    /// The name under which the type is shown.
    pub fn display_name(&self) -> (r: &'static str)
        ensures
            r@ == display_name_of(*self),
    {
        match self {
            FileType::Jpeg => "JPEG Image",
            FileType::Png => "PNG Image",
            FileType::Gif => "GIF Image",
            FileType::Bmp => "BMP Image",
            FileType::Mp4 => "MP4 Video",
            FileType::Mov => "MOV Video",
            FileType::Avi => "AVI Video",
            FileType::Mkv => "MKV Video",
            FileType::Pdf => "PDF Document",
            FileType::Docx => "Word Document",
            FileType::Zip => "ZIP Archive",
            FileType::Mp3 => "MP3 Audio",
            FileType::Unknown => "Unknown",
        }
    }
}

/// The type that a lowercase extension stands for; anything unlisted is
/// `Unknown`.
pub fn type_for_extension(ext: &str) -> (t: FileType)
    ensures
        t == type_of_extension(ext@),
{
    if str_eq(ext, "jpg") || str_eq(ext, "jpeg") {
        FileType::Jpeg
    } else if str_eq(ext, "png") {
        FileType::Png
    } else if str_eq(ext, "gif") {
        FileType::Gif
    } else if str_eq(ext, "bmp") {
        FileType::Bmp
    } else if str_eq(ext, "mp4") {
        FileType::Mp4
    } else if str_eq(ext, "mov") {
        FileType::Mov
    } else if str_eq(ext, "avi") {
        FileType::Avi
    } else if str_eq(ext, "mkv") {
        FileType::Mkv
    } else if str_eq(ext, "pdf") {
        FileType::Pdf
    } else if str_eq(ext, "docx") {
        FileType::Docx
    } else if str_eq(ext, "zip") {
        FileType::Zip
    } else if str_eq(ext, "mp3") {
        FileType::Mp3
    } else {
        FileType::Unknown
    }
}

/// The type that a file name stands for, by its extension in any case.
pub open spec fn type_of_name(name: Seq<char>) -> FileType {
    type_of_extension(lowercase(last_segment(name)))
}

/// No type is both an image and a video.
pub proof fn lemma_image_video_disjoint(t: FileType)
    ensures
        !(t.spec_is_image() && t.spec_is_video()),
{
}

/// A type written under its own extension reads back as that type: the
/// extension it is saved under names it again (for `Unknown`, "bin" names
/// no listed type).
pub proof fn lemma_extension_names_type(t: FileType)
    ensures
        type_of_extension(extension_of(t)) == t,
{
    reveal_strlit("jpg");
    reveal_strlit("jpeg");
    reveal_strlit("png");
    reveal_strlit("gif");
    reveal_strlit("bmp");
    reveal_strlit("mp4");
    reveal_strlit("mov");
    reveal_strlit("avi");
    reveal_strlit("mkv");
    reveal_strlit("pdf");
    reveal_strlit("docx");
    reveal_strlit("zip");
    reveal_strlit("mp3");
    let e = extension_of(t);
    // Two of the listed words differ where one of their letters does.
    match t {
        FileType::Jpeg => {},
        FileType::Png => { assert(e[0] == 'p' && e[1] == 'n'); assert("pdf"@[1] == 'd'); },
        FileType::Gif => { assert(e[0] == 'g'); },
        FileType::Bmp => { assert(e[0] == 'b'); },
        FileType::Mp4 => { assert(e[0] == 'm' && e[1] == 'p'); assert("mov"@[1] == 'o'); assert("mkv"@[1] == 'k'); },
        FileType::Mov => { assert(e[1] == 'o'); assert("mp4"@[1] == 'p'); assert("mkv"@[1] == 'k'); },
        FileType::Avi => { assert(e[0] == 'a'); },
        FileType::Mkv => { assert(e[1] == 'k'); assert("mp4"@[1] == 'p'); assert("mov"@[1] == 'o'); },
        FileType::Pdf => { assert(e[1] == 'd'); assert("png"@[1] == 'n'); },
        FileType::Docx => { assert(e[0] == 'd'); },
        FileType::Zip => { assert(e[0] == 'z'); },
        FileType::Mp3 => { assert(e[2] == '3'); assert("mp4"@[2] == '4'); assert("mov"@[1] == 'o'); assert("mkv"@[1] == 'k'); },
        FileType::Unknown => { reveal_strlit("bin"); assert(e[0] == 'b' && e[1] == 'i'); assert("bmp"@[1] == 'm'); },
    }
}

/// A name whose extension is a type's own, in small letters or in capitals,
/// stands for that type: the extension is ASCII, and with its capitals
/// lowered it is the type's extension, which names the type.
pub proof fn law_extension_in_any_case(t: FileType, name: Seq<char>)
    requires
        last_segment(name) == extension_of(t) || last_segment(name) == extension_of(t).map_values(
            |c: char| ascii_upper(c),
        ),
    ensures
        all_ascii(last_segment(name)),
        type_of_extension(last_segment(name).map_values(|c: char| ascii_lower(c))) == t,
{
    let e = extension_of(t);
    lemma_extension_is_lower_alnum(t);
    lemma_capitals_lower_back(e);
    lemma_extension_names_type(t);
    if last_segment(name) == e {
        assert forall|i: int| 0 <= i < e.len() implies #[trigger] ascii_lower(e[i]) == e[i] by {}
        assert(e.map_values(|c: char| ascii_lower(c)) =~= e);
    }
}

/// Every type's extension is made of lowercase ASCII letters and digits.
pub proof fn lemma_extension_is_lower_alnum(t: FileType)
    ensures
        forall|i: int| 0 <= i < extension_of(t).len() ==> is_lower_alnum(#[trigger] extension_of(t)[i]),
{
    reveal_strlit("jpg");
    reveal_strlit("png");
    reveal_strlit("gif");
    reveal_strlit("bmp");
    reveal_strlit("mp4");
    reveal_strlit("mov");
    reveal_strlit("avi");
    reveal_strlit("mkv");
    reveal_strlit("pdf");
    reveal_strlit("docx");
    reveal_strlit("zip");
    reveal_strlit("mp3");
    reveal_strlit("bin");
}

/// A mode's word, in small letters or in capitals, reads as that mode: the
/// word is ASCII, and with its capitals lowered it names the mode.
pub proof fn law_mode_word_in_any_case(m: ScanMode, w: Seq<char>)
    requires
        w == mode_word(m) || w == mode_word(m).map_values(|c: char| ascii_upper(c)),
    ensures
        all_ascii(w),
        mode_of_word(w.map_values(|c: char| ascii_lower(c))) == Some(m),
{
    reveal_strlit("quick");
    reveal_strlit("deep");
    reveal_strlit("both");
    let e = mode_word(m);
    assert forall|i: int| 0 <= i < e.len() implies is_lower_alnum(#[trigger] e[i]) by {}
    lemma_capitals_lower_back(e);
    if w == e {
        assert forall|i: int| 0 <= i < e.len() implies #[trigger] ascii_lower(e[i]) == e[i] by {}
        assert(e.map_values(|c: char| ascii_lower(c)) =~= e);
    }
    match m {
        ScanMode::QuickScan => {},
        ScanMode::DeepScan => { assert(e[0] == 'd'); assert("quick"@.len() == 5); },
        ScanMode::Both => { assert(e[0] == 'b'); assert("quick"@.len() == 5); assert("deep"@[0] == 'd'); },
    }
}

/// The image types are exactly JPEG, PNG, GIF and BMP, and the video types
/// exactly MP4, MOV, AVI and MKV: these are the types shown as images and as
/// videos ("... Image", "... Video").
pub proof fn law_image_and_video_types(t: FileType)
    ensures
        t.spec_is_image() <==> (t == FileType::Jpeg || t == FileType::Png || t == FileType::Gif || t
            == FileType::Bmp),
        t.spec_is_video() <==> (t == FileType::Mp4 || t == FileType::Mov || t == FileType::Avi || t
            == FileType::Mkv),
        t.spec_is_image() <==> display_name_of(t).len() >= 6 && display_name_of(t).skip(
            display_name_of(t).len() - 6,
        ) == " Image"@,
        t.spec_is_video() <==> display_name_of(t).len() >= 6 && display_name_of(t).skip(
            display_name_of(t).len() - 6,
        ) == " Video"@,
{
    reveal_strlit(" Image");
    reveal_strlit(" Video");
    reveal_strlit("JPEG Image");
    reveal_strlit("PNG Image");
    reveal_strlit("GIF Image");
    reveal_strlit("BMP Image");
    reveal_strlit("MP4 Video");
    reveal_strlit("MOV Video");
    reveal_strlit("AVI Video");
    reveal_strlit("MKV Video");
    reveal_strlit("PDF Document");
    reveal_strlit("Word Document");
    reveal_strlit("ZIP Archive");
    reveal_strlit("MP3 Audio");
    reveal_strlit("Unknown");
    let d = display_name_of(t);
    if d.len() >= 6 {
        let tail = d.skip(d.len() - 6);
        assert(tail.len() == 6);
        assert(tail[1] == d[d.len() - 5]);
        assert(tail[5] == d[d.len() - 1]);
        assert(" Image"@[1] == 'I' && " Video"@[1] == 'V');
        if t.spec_is_image() {
            assert(tail =~= " Image"@);
        }
        if t.spec_is_video() {
            assert(tail =~= " Video"@);
        }
    }
}

/// Why a scan could not run.
#[derive(Debug)]
pub enum ScanError {
    /// The disk could not be read.
    Read(DiskError),
    /// The boot sector does not end in 0x55 0xAA.
    NotFatBootSector,
    /// The boot sector does not name a FAT file system.
    NotFat32,
    /// The boot sector does not carry the NTFS signature.
    NotNtfs,
    /// The geometry in the boot sector puts the file system beyond what
    /// 64-bit offsets can address, or names no valid first cluster.
    BadGeometry,
}

/// How a file was found.
#[derive(Clone, Copy, Debug, PartialEq, Eq, Structural)]
pub enum RecoveryMethod {
    NtfsMft,
    Fat32Directory,
    DiskCarving,
    AdbPull,
}

/// A file that a scan found. `confidence` is a percentage (0 to 100) of how
/// likely the file is to be recovered intact.
#[derive(Clone, Debug)]
pub struct RecoveredFile {
    pub name: Option<String>,
    pub original_path: Option<String>,
    pub size: u64,
    pub file_type: FileType,
    pub disk_offset: u64,
    pub recovery_method: RecoveryMethod,
    pub confidence: u8,
    pub index: usize,
}

impl RecoveredFile {
    /// A copy of the file record.
    pub fn duplicate(&self) -> (r: RecoveredFile)
        ensures
            r == *self,
    {
        RecoveredFile {
            name: match &self.name {
                Some(n) => Some(n.clone()),
                None => None,
            },
            original_path: match &self.original_path {
                Some(p) => Some(p.clone()),
                None => None,
            },
            size: self.size,
            file_type: self.file_type,
            disk_offset: self.disk_offset,
            recovery_method: self.recovery_method,
            confidence: self.confidence,
            index: self.index,
        }
    }
}

/// The short name under which a recovery method is listed.
pub open spec fn method_label_of(m: RecoveryMethod) -> Seq<char> {
    match m {
        RecoveryMethod::NtfsMft => "NTFS MFT"@,
        RecoveryMethod::Fat32Directory => "FAT32 Dir"@,
        RecoveryMethod::DiskCarving => "Carving"@,
        RecoveryMethod::AdbPull => "ADB Pull"@,
    }
}

impl RecoveryMethod {
    /// The short name under which the method is listed.
    pub fn label(&self) -> (r: &'static str)
        ensures
            r@ == method_label_of(*self),
    {
        match self {
            RecoveryMethod::NtfsMft => "NTFS MFT",
            RecoveryMethod::Fat32Directory => "FAT32 Dir",
            RecoveryMethod::DiskCarving => "Carving",
            RecoveryMethod::AdbPull => "ADB Pull",
        }
    }
}

/// The stage that a progress report describes.
#[derive(Clone, Debug)]
pub enum ScanPhase {
    QuickStarting,
    QuickSkipped,
    NtfsReading,
    NtfsFound(usize),
    NtfsComplete,
    FatReading,
    FatFound(usize),
    FatComplete,
    CarveStarting,
    CarveFound(usize),
    CarveProgress,
    CarveComplete,
    AdbScanning(String),
    AdbComplete,
}

/// A progress report of a running scan.
#[derive(Clone, Debug)]
pub struct ScanProgress {
    pub bytes_scanned: u64,
    pub bytes_total: u64,
    pub files_found: usize,
    pub phase: ScanPhase,
    pub complete: bool,
    pub warning: Option<String>,
}

} // verus!
