//! The table of file signatures that carving looks for.
use vstd::prelude::*;
use crate::bytes::{matches_at, occurs_at};
use crate::types::FileType;

verus! {

/// A file format as carving knows it: the bytes it starts with, the bytes
/// it may end with, and the largest size searched for that end.
#[derive(Debug)]
pub struct Signature {
    pub header: Vec<u8>,
    pub footer: Option<Vec<u8>>,
    pub max_size: u64,
    pub file_type: FileType,
    pub name: &'static str,
}

/// The mathematical content of a signature.
pub struct SigSpec {
    pub header: Seq<u8>,
    pub footer: Option<Seq<u8>>,
    pub max_size: nat,
    pub file_type: FileType,
    pub name: Seq<char>,
}

impl View for Signature {
    type V = SigSpec;

    open spec fn view(&self) -> SigSpec {
        SigSpec {
            header: self.header@,
            footer: match self.footer {
                Some(f) => Some(f@),
                None => None,
            },
            max_size: self.max_size as nat,
            file_type: self.file_type,
            name: self.name@,
        }
    }
}

pub open spec fn sig(header: Seq<u8>, footer: Option<Seq<u8>>, max_size: nat, file_type: FileType, name: Seq<char>) -> SigSpec {
    SigSpec { header, footer, max_size, file_type, name }
}

/// The signatures, in the order in which they are tried.
pub open spec fn signature_table() -> Seq<SigSpec> {
    seq![
        sig(seq![0xFFu8, 0xD8, 0xFF], Some(seq![0xFFu8, 0xD9]), 50_000_000, FileType::Jpeg, "JPEG"@),
        sig(seq![0x89u8, 0x50, 0x4E, 0x47, 0x0D, 0x0A, 0x1A, 0x0A], Some(seq![0x49u8, 0x45, 0x4E, 0x44, 0xAE, 0x42, 0x60, 0x82]), 100_000_000, FileType::Png, "PNG"@),
        sig(seq![0x47u8, 0x49, 0x46, 0x38, 0x37, 0x61], Some(seq![0x00u8, 0x3B]), 20_000_000, FileType::Gif, "GIF87a"@),
        sig(seq![0x47u8, 0x49, 0x46, 0x38, 0x39, 0x61], Some(seq![0x00u8, 0x3B]), 20_000_000, FileType::Gif, "GIF89a"@),
        sig(seq![0x42u8, 0x4D], None, 50_000_000, FileType::Bmp, "BMP"@),
        sig(seq![0x00u8, 0x00, 0x00, 0x18, 0x66, 0x74, 0x79, 0x70], None, 4_000_000_000, FileType::Mp4, "MP4"@),
        sig(seq![0x00u8, 0x00, 0x00, 0x14, 0x66, 0x74, 0x79, 0x70, 0x71, 0x74, 0x20, 0x20], None, 4_000_000_000, FileType::Mov, "MOV"@),
        sig(seq![0x00u8, 0x00, 0x00, 0x14, 0x66, 0x74, 0x79, 0x70], None, 4_000_000_000, FileType::Mp4, "MP4 small"@),
        sig(seq![0x52u8, 0x49, 0x46, 0x46], None, 2_000_000_000, FileType::Avi, "AVI"@),
        sig(seq![0x1Au8, 0x45, 0xDF, 0xA3], None, 4_000_000_000, FileType::Mkv, "MKV"@),
        sig(seq![0x25u8, 0x50, 0x44, 0x46, 0x2D], Some(seq![0x25u8, 0x25, 0x45, 0x4F, 0x46]), 500_000_000, FileType::Pdf, "PDF"@),
        sig(seq![0x50u8, 0x4B, 0x03, 0x04], Some(seq![0x50u8, 0x4B, 0x05, 0x06]), 500_000_000, FileType::Docx, "DOCX/ZIP"@),
        sig(seq![0x49u8, 0x44, 0x33], None, 100_000_000, FileType::Mp3, "MP3"@),
    ]
}

/// Every signature has a header of at least two bytes, a footer of at least
/// two bytes where it has one, and a largest size that fits in 32 bits.
pub open spec fn table_well_formed(t: Seq<SigSpec>) -> bool {
    forall|i: int| 0 <= i < t.len() ==> {
        &&& #[trigger] t[i].header.len() >= 2
        &&& t[i].header.len() <= 12
        &&& (t[i].footer matches Some(f) ==> 2 <= f.len() <= 16)
        &&& t[i].max_size <= 4_294_967_295
    }
}

/// The first signature of `t` (from index `i` on) whose header begins `data`.
pub open spec fn first_match_from(t: Seq<SigSpec>, data: Seq<u8>, i: int) -> Option<int>
    decreases t.len() - i,
{
    if i < 0 || i >= t.len() {
        None
    } else if occurs_at(data, 0, t[i].header) {
        Some(i)
    } else {
        first_match_from(t, data, i + 1)
    }
}

/// The index of the first signature whose header begins `data`.
pub open spec fn first_match(data: Seq<u8>) -> Option<int> {
    first_match_from(signature_table(), data, 0)
}

pub(crate) proof fn lemma_first_match_from(t: Seq<SigSpec>, data: Seq<u8>, i: int)
    requires
        0 <= i <= t.len(),
    ensures
        first_match_from(t, data, i) matches Some(k) ==> i <= k < t.len() && occurs_at(data, 0, t[k].header)
            && forall|j: int| i <= j < k ==> !occurs_at(data, 0, #[trigger] t[j].header),
        first_match_from(t, data, i) is None ==> forall|j: int| i <= j < t.len() ==> !occurs_at(data, 0, #[trigger] t[j].header),
    decreases t.len() - i,
{
    if i < t.len() {
        lemma_first_match_from(t, data, i + 1);
    }
}

/// The signature table, in order.
pub fn signatures() -> (v: Vec<Signature>)
    ensures
        v@.len() == signature_table().len(),
        forall|i: int| 0 <= i < v@.len() ==> #[trigger] v@[i]@ == signature_table()[i],
        table_well_formed(signature_table()),
{
    let mut v: Vec<Signature> = Vec::new();
    v.push(Signature { header: vec![0xFF, 0xD8, 0xFF], footer: Some(vec![0xFF, 0xD9]), max_size: 50_000_000, file_type: FileType::Jpeg, name: "JPEG" });
    v.push(Signature { header: vec![0x89, 0x50, 0x4E, 0x47, 0x0D, 0x0A, 0x1A, 0x0A], footer: Some(vec![0x49, 0x45, 0x4E, 0x44, 0xAE, 0x42, 0x60, 0x82]), max_size: 100_000_000, file_type: FileType::Png, name: "PNG" });
    v.push(Signature { header: vec![0x47, 0x49, 0x46, 0x38, 0x37, 0x61], footer: Some(vec![0x00, 0x3B]), max_size: 20_000_000, file_type: FileType::Gif, name: "GIF87a" });
    v.push(Signature { header: vec![0x47, 0x49, 0x46, 0x38, 0x39, 0x61], footer: Some(vec![0x00, 0x3B]), max_size: 20_000_000, file_type: FileType::Gif, name: "GIF89a" });
    v.push(Signature { header: vec![0x42, 0x4D], footer: None, max_size: 50_000_000, file_type: FileType::Bmp, name: "BMP" });
    v.push(Signature { header: vec![0x00, 0x00, 0x00, 0x18, 0x66, 0x74, 0x79, 0x70], footer: None, max_size: 4_000_000_000, file_type: FileType::Mp4, name: "MP4" });
    v.push(Signature { header: vec![0x00, 0x00, 0x00, 0x14, 0x66, 0x74, 0x79, 0x70, 0x71, 0x74, 0x20, 0x20], footer: None, max_size: 4_000_000_000, file_type: FileType::Mov, name: "MOV" });
    v.push(Signature { header: vec![0x00, 0x00, 0x00, 0x14, 0x66, 0x74, 0x79, 0x70], footer: None, max_size: 4_000_000_000, file_type: FileType::Mp4, name: "MP4 small" });
    v.push(Signature { header: vec![0x52, 0x49, 0x46, 0x46], footer: None, max_size: 2_000_000_000, file_type: FileType::Avi, name: "AVI" });
    v.push(Signature { header: vec![0x1A, 0x45, 0xDF, 0xA3], footer: None, max_size: 4_000_000_000, file_type: FileType::Mkv, name: "MKV" });
    v.push(Signature { header: vec![0x25, 0x50, 0x44, 0x46, 0x2D], footer: Some(vec![0x25, 0x25, 0x45, 0x4F, 0x46]), max_size: 500_000_000, file_type: FileType::Pdf, name: "PDF" });
    v.push(Signature { header: vec![0x50, 0x4B, 0x03, 0x04], footer: Some(vec![0x50, 0x4B, 0x05, 0x06]), max_size: 500_000_000, file_type: FileType::Docx, name: "DOCX/ZIP" });
    v.push(Signature { header: vec![0x49, 0x44, 0x33], footer: None, max_size: 100_000_000, file_type: FileType::Mp3, name: "MP3" });
    proof {
        let t = signature_table();
        assert forall|i: int| 0 <= i < v@.len() implies #[trigger] v@[i]@ == t[i] by {
            assert(v@[i]@.header =~= t[i].header);
        }
    }
    v
}

/// The index of the first signature of `table` whose header occurs in
/// `data` at `pos`.
pub fn match_signature_at(table: &Vec<Signature>, data: &[u8], pos: usize) -> (r: Option<usize>)
    requires
        table@.len() == signature_table().len(),
        forall|i: int| 0 <= i < table@.len() ==> #[trigger] table@[i]@ == signature_table()[i],
        pos <= data@.len(),
    ensures
        r matches Some(k) ==> k < table@.len() && first_match(data@.skip(pos as int)) == Some(k as int),
        r is None ==> first_match(data@.skip(pos as int)) is None,
{
    let ghost rest = data@.skip(pos as int);
    let ghost t = signature_table();
    let mut i: usize = 0;
    while i < table.len()
        invariant
            t == signature_table(),
            table@.len() == t.len(),
            forall|j: int| 0 <= j < table@.len() ==> #[trigger] table@[j]@ == t[j],
            pos <= data@.len(),
            rest == data@.skip(pos as int),
            i <= t.len(),
            first_match_from(t, rest, 0) == first_match_from(t, rest, i as int),
        decreases t.len() - i,
    {
        let h = &table[i].header;
        proof {
            assert(table@[i as int]@.header == t[i as int].header);
        }
        if matches_at(data, pos, h.as_slice()) {
            proof {
                assert(data@.subrange(pos as int, pos + h@.len()) =~= rest.subrange(0, h@.len() as int));
                assert(h@ == t[i as int].header);
                assert(occurs_at(rest, 0, t[i as int].header));
                assert(first_match_from(t, rest, i as int) == Some(i as int));
                assert(first_match(data@.skip(pos as int)) == first_match_from(t, rest, 0));
            }
            return Some(i);
        }
        proof {
            if occurs_at(rest, 0, t[i as int].header) {
                assert(data@.subrange(pos as int, pos + h@.len()) =~= rest.subrange(0, h@.len() as int));
            }
        }
        i = i + 1;
    }
    None
}

/// The first signature, in table order, whose header begins `data`.
pub fn match_signature(data: &[u8]) -> (r: Option<Signature>)
    ensures
        r matches Some(s) ==> exists|k: int| first_match(data@) == Some(k) && s@ == #[trigger] signature_table()[k],
        r is None ==> first_match(data@) is None,
{
    let mut table = signatures();
    assert(data@.skip(0) =~= data@);
    proof {
        lemma_first_match_from(signature_table(), data@, 0);
    }
    match match_signature_at(&table, data, 0) {
        Some(k) => {
            let s = table.remove(k);
            assert(s@ == signature_table()[k as int]);
            Some(s)
        }
        None => None,
    }
}

/// Whether some signature of the table carves files of type `t`.
pub open spec fn carves_type(t: FileType) -> bool {
    exists|k: int| 0 <= k < signature_table().len() && (#[trigger] signature_table()[k]).file_type == t
}

/// The signature table carries each format's standard magic bytes: every
/// signature of a type starts with that format's header bytes and, where
/// the format has an end marker, ends with that marker, and searches for it
/// up to that format's largest size; every format that is carved has a
/// signature; and the table holds thirteen signatures.
pub proof fn law_signature_magic_bytes()
    ensures
        signature_table().len() == 13,
        forall|k: int| 0 <= k < signature_table().len() ==> {
            let s = #[trigger] signature_table()[k];
            &&& s.file_type == FileType::Jpeg ==> s.header == seq![0xFFu8, 0xD8, 0xFF] && s.footer == Some(
                seq![0xFFu8, 0xD9],
            )
            &&& s.file_type == FileType::Png ==> s.header == seq![0x89u8, 0x50, 0x4E, 0x47, 0x0D, 0x0A, 0x1A, 0x0A]
                && s.footer == Some(seq![0x49u8, 0x45, 0x4E, 0x44, 0xAE, 0x42, 0x60, 0x82])
            &&& s.file_type == FileType::Gif ==> (s.header == seq![0x47u8, 0x49, 0x46, 0x38, 0x37, 0x61]
                || s.header == seq![0x47u8, 0x49, 0x46, 0x38, 0x39, 0x61]) && s.footer == Some(seq![0x00u8, 0x3B])
            &&& s.file_type == FileType::Bmp ==> s.header == seq![0x42u8, 0x4D] && s.footer is None
            &&& s.file_type == FileType::Mp4 ==> (s.header == seq![0x00u8, 0x00, 0x00, 0x18, 0x66, 0x74, 0x79, 0x70]
                || s.header == seq![0x00u8, 0x00, 0x00, 0x14, 0x66, 0x74, 0x79, 0x70]) && s.footer is None
            &&& s.file_type == FileType::Mov ==> s.header == seq![0x00u8, 0x00, 0x00, 0x14, 0x66, 0x74, 0x79, 0x70, 0x71, 0x74, 0x20, 0x20]
                && s.footer is None
            &&& s.file_type == FileType::Avi ==> s.header == seq![0x52u8, 0x49, 0x46, 0x46] && s.footer is None
            &&& s.file_type == FileType::Mkv ==> s.header == seq![0x1Au8, 0x45, 0xDF, 0xA3] && s.footer is None
            &&& s.file_type == FileType::Pdf ==> s.header == seq![0x25u8, 0x50, 0x44, 0x46, 0x2D] && s.footer == Some(
                seq![0x25u8, 0x25, 0x45, 0x4F, 0x46],
            )
            &&& s.file_type == FileType::Docx ==> s.header == seq![0x50u8, 0x4B, 0x03, 0x04] && s.footer == Some(
                seq![0x50u8, 0x4B, 0x05, 0x06],
            )
            &&& s.file_type == FileType::Mp3 ==> s.header == seq![0x49u8, 0x44, 0x33] && s.footer is None
            &&& s.file_type != FileType::Zip && s.file_type != FileType::Unknown
            &&& s.max_size == match s.file_type {
                FileType::Jpeg => 50_000_000nat,
                FileType::Png => 100_000_000,
                FileType::Gif => 20_000_000,
                FileType::Bmp => 50_000_000,
                FileType::Avi => 2_000_000_000,
                FileType::Pdf => 500_000_000,
                FileType::Docx => 500_000_000,
                FileType::Mp3 => 100_000_000,
                _ => 4_000_000_000,
            }
        },
        forall|t: FileType| t != FileType::Zip && t != FileType::Unknown ==> #[trigger] carves_type(t),
{
    let t = signature_table();
    assert forall|tt: FileType| tt != FileType::Zip && tt != FileType::Unknown implies #[trigger] carves_type(tt) by {
        match tt {
            FileType::Jpeg => { assert(t[0].file_type == tt); },
            FileType::Png => { assert(t[1].file_type == tt); },
            FileType::Gif => { assert(t[2].file_type == tt); },
            FileType::Bmp => { assert(t[4].file_type == tt); },
            FileType::Mp4 => { assert(t[5].file_type == tt); },
            FileType::Mov => { assert(t[6].file_type == tt); },
            FileType::Avi => { assert(t[8].file_type == tt); },
            FileType::Mkv => { assert(t[9].file_type == tt); },
            FileType::Pdf => { assert(t[10].file_type == tt); },
            FileType::Docx => { assert(t[11].file_type == tt); },
            FileType::Mp3 => { assert(t[12].file_type == tt); },
            _ => {},
        }
    }
}

} // verus!
