//! What the library reads out of `adb` output, and which pulled files it
//! keeps.
use vstd::prelude::*;
use crate::cli::split_at_char;
use crate::text::{
    has_prefix, last_segment, lowercase, starts_with_str, strip_prefixes, to_lowercase, trim_spec,
    trim_start_matches_str, trim_str, after_last_dot, words, split_words, str_eq,
};
use crate::types::{lemma_extension_names_type, type_of_extension, FileType, RecoveredFile, RecoveryMethod};
use crate::text::{all_ascii, ascii_lower, ascii_upper, is_lower_alnum, lemma_capitals_lower_back};

verus! {

/// A device that `adb devices -l` lists.
#[derive(Clone, Debug)]
pub struct AdbDevice {
    pub serial: String,
    pub model: String,
    pub state: String,
}

/// The lines of `s` (`str::lines`, up to the carriage returns that end
/// lines, which the callers trim anyway): the pieces between newlines,
/// without the empty piece after a final newline.
pub open spec fn lines_of(s: Seq<char>) -> Seq<Seq<char>> {
    let p = split_at_char(s, '\n');
    if p.len() > 0 && p.last().len() == 0 {
        p.drop_last()
    } else {
        p
    }
}

/// The lines of `s`.
pub fn split_lines(s: &str) -> (r: Vec<String>)
    ensures
        r@.len() == lines_of(s@).len(),
        forall|i: int| 0 <= i < r@.len() ==> #[trigger] r@[i]@ == lines_of(s@)[i],
{
    let mut pieces = split_newlines(s);
    let n = pieces.len();
    if n > 0 && pieces[n - 1].as_str().unicode_len() == 0 {
        pieces.pop();
    }
    pieces
}

/// `s` split at every newline.
fn split_newlines(s: &str) -> (r: Vec<String>)
    ensures
        r@.len() == split_at_char(s@, '\n').len(),
        forall|i: int| 0 <= i < r@.len() ==> #[trigger] r@[i]@ == split_at_char(s@, '\n')[i],
{
    let len = s.unicode_len();
    let mut done: Vec<String> = Vec::new();
    let mut start: usize = 0;
    let mut i: usize = 0;
    while i < len
        invariant
            len == s@.len(),
            start <= i <= len,
            split_at_char(s@.take(i as int), '\n').len() == done@.len() + 1,
            forall|j: int| 0 <= j < done@.len() ==> #[trigger] done@[j]@ == split_at_char(s@.take(i as int), '\n')[j],
            split_at_char(s@.take(i as int), '\n').last() == s@.subrange(start as int, i as int),
        decreases len - i,
    {
        let c = s.get_char(i);
        proof {
            assert(s@.take(i + 1).drop_last() =~= s@.take(i as int));
            lemma_split_len(s@.take(i as int), '\n');
        }
        if c == '\n' {
            done.push(String::from_str(s.substring_char(start, i)));
            start = i + 1;
            proof {
                assert(s@.subrange(start as int, i + 1) =~= seq![]);
            }
        } else {
            proof {
                assert(s@.subrange(start as int, i + 1) =~= s@.subrange(start as int, i as int).push(c));
            }
        }
        i = i + 1;
    }
    done.push(String::from_str(s.substring_char(start, len)));
    proof {
        assert(s@.take(len as int) =~= s@);
    }
    done
}

proof fn lemma_split_len(s: Seq<char>, c: char)
    ensures
        split_at_char(s, c).len() >= 1,
    decreases s.len(),
{
    if s.len() > 0 {
        lemma_split_len(s.drop_last(), c);
    }
}

/// The model that the words of a device line name: the first word that
/// starts with "model:", with those leading "model:" removed; "Unknown"
/// where there is none.
pub open spec fn model_of(parts: Seq<Seq<char>>) -> Seq<char>
    decreases parts.len(),
{
    if parts.len() == 0 {
        "Unknown"@
    } else if has_prefix(parts[0], "model:"@) {
        strip_prefixes(parts[0], "model:"@)
    } else {
        model_of(parts.drop_first())
    }
}

/// Whether a trimmed line of `adb devices -l` describes a device: it is not
/// empty, is no daemon message (starting with '*'), and has at least a
/// serial and a state.
pub open spec fn is_device_line(t: Seq<char>) -> bool {
    t.len() > 0 && t[0] != '*' && words(t).len() >= 2
}

/// Whether `d` is the device that the trimmed line `t` describes.
pub open spec fn device_of(t: Seq<char>, d: AdbDevice) -> bool {
    &&& d.serial@ == words(t)[0]
    &&& d.state@ == words(t)[1]
    &&& d.model@ == model_of(words(t))
}

/// The trimmed device lines of `adb devices -l` output: all lines but the
/// first (the "List of devices attached" header), trimmed, that describe a
/// device.
pub open spec fn device_lines(out: Seq<char>) -> Seq<Seq<char>> {
    keep_device_lines(trimmed_body_lines(out))
}

/// The lines of `ts` that describe a device, in order.
pub open spec fn keep_device_lines(ts: Seq<Seq<char>>) -> Seq<Seq<char>>
    decreases ts.len(),
{
    if ts.len() == 0 {
        seq![]
    } else if is_device_line(ts.last()) {
        keep_device_lines(ts.drop_last()).push(ts.last())
    } else {
        keep_device_lines(ts.drop_last())
    }
}

/// The lines of `out` after the first, trimmed.
pub open spec fn trimmed_body_lines(out: Seq<char>) -> Seq<Seq<char>> {
    let l = lines_of(out);
    if l.len() == 0 {
        seq![]
    } else {
        l.drop_first().map_values(|x: Seq<char>| trim_spec(x))
    }
}

/// The model word of a device line.
fn model_from_words(parts: &Vec<String>) -> (r: String)
    ensures
        r@ == model_of(parts@.map_values(|p: String| p@)),
{
    let ghost ws = parts@.map_values(|p: String| p@);
    assert(ws.skip(0) =~= ws);
    let mut i: usize = 0;
    while i < parts.len()
        invariant
            ws == parts@.map_values(|p: String| p@),
            i <= parts@.len(),
            model_of(ws) == model_of(ws.skip(i as int)),
        decreases parts@.len() - i,
    {
        proof {
            assert(ws.skip(i as int).drop_first() =~= ws.skip(i + 1));
            assert(ws.skip(i as int)[0] == parts@[i as int]@);
        }
        if starts_with_str(parts[i].as_str(), "model:") {
            return trim_start_matches_str(parts[i].as_str(), "model:");
        }
        i = i + 1;
    }
    proof {
        assert(ws.skip(i as int) =~= seq![]);
    }
    String::from_str("Unknown")
}

/// The device that a trimmed line describes, if it describes one.
pub fn parse_device_line(t: &str) -> (r: Option<AdbDevice>)
    ensures
        r matches Some(d) ==> is_device_line(t@) && device_of(t@, d),
        r is None ==> !is_device_line(t@),
{
    if t.unicode_len() == 0 || t.get_char(0) == '*' {
        return None;
    }
    let parts = split_words(t);
    if parts.len() < 2 {
        return None;
    }
    let model = model_from_words(&parts);
    proof {
        assert(parts@.map_values(|p: String| p@) =~= words(t@));
    }
    Some(AdbDevice { serial: parts[0].clone(), model, state: parts[1].clone() })
}

/// The devices that `adb devices -l` lists, in order, from its output.
pub fn parse_device_list(out: &str) -> (r: Vec<AdbDevice>)
    ensures
        r@.len() == device_lines(out@).len(),
        forall|i: int| 0 <= i < r@.len() ==> device_of(device_lines(out@)[i], #[trigger] r@[i]),
{
    let lines = split_lines(out);
    let ghost trimmed = trimmed_body_lines(out@);
    let mut devices: Vec<AdbDevice> = Vec::new();
    let ghost mut kept: Seq<Seq<char>> = seq![];
    let mut i: usize = 1;
    while i < lines.len()
        invariant
            lines@.len() == lines_of(out@).len(),
            forall|j: int| 0 <= j < lines@.len() ==> #[trigger] lines@[j]@ == lines_of(out@)[j],
            trimmed == trimmed_body_lines(out@),
            lines@.len() > 0 ==> trimmed.len() == lines@.len() - 1,
            1 <= i,
            i <= lines@.len() || (lines@.len() == 0 && i == 1),
            kept == keep_device_lines(trimmed.take(i - 1)),
            devices@.len() == kept.len(),
            forall|j: int| 0 <= j < devices@.len() ==> device_of(kept[j], #[trigger] devices@[j]),
        decreases lines@.len() - i,
    {
        let t = trim_str(lines[i].as_str());
        proof {
            assert(trimmed.take(i as int).drop_last() =~= trimmed.take(i - 1));
            assert(trimmed[i - 1] == trim_spec(lines_of(out@)[i as int]));
            assert(trimmed[i - 1] == t@);
            assert(trimmed.take(i as int).last() == t@);
        }
        match parse_device_line(t.as_str()) {
            Some(d) => {
                devices.push(d);
                proof {
                    kept = kept.push(t@);
                }
            },
            None => {},
        }
        i = i + 1;
    }
    proof {
        if lines@.len() > 0 {
            assert(i == lines@.len());
            assert(trimmed.take(lines@.len() - 1) =~= trimmed);
            assert(trimmed.take(i - 1) == trimmed);
        } else {
            assert(trimmed =~= seq![]);
            assert(trimmed.take(0) =~= trimmed);
        }
        assert(kept == keep_device_lines(trimmed));
        assert(device_lines(out@) == keep_device_lines(trimmed));
    }
    devices
}

/// The type that a pulled file's name keeps it as: only photos and videos
/// (JPEG, PNG, MP4, MOV, AVI, MKV), by the extension in any letter case.
pub open spec fn pulled_type_of_extension(e: Seq<char>) -> Option<FileType> {
    if e == "jpg"@ || e == "jpeg"@ {
        Some(FileType::Jpeg)
    } else if e == "png"@ {
        Some(FileType::Png)
    } else if e == "mp4"@ {
        Some(FileType::Mp4)
    } else if e == "mov"@ {
        Some(FileType::Mov)
    } else if e == "avi"@ {
        Some(FileType::Avi)
    } else if e == "mkv"@ {
        Some(FileType::Mkv)
    } else {
        None
    }
}

/// The extensions of the files pulled from a device: photos (jpg, jpeg,
/// png) and videos (mp4, mov, avi, mkv).
pub open spec fn is_pulled_extension(e: Seq<char>) -> bool {
    e == "jpg"@ || e == "jpeg"@ || e == "png"@ || e == "mp4"@ || e == "mov"@ || e == "avi"@ || e == "mkv"@
}

/// A file is pulled exactly where its lowercase extension is one of jpg,
/// jpeg, png, mp4, mov, avi and mkv, and it is pulled as the type that its
/// extension names, which is a photo or a video type.
pub proof fn law_pulled_types(e: Seq<char>)
    ensures
        pulled_type_of_extension(e) is Some <==> is_pulled_extension(e),
        pulled_type_of_extension(e) matches Some(t) ==> t == type_of_extension(e) && (t.spec_is_image()
            || t.spec_is_video()),
{
    if e == "jpg"@ {
        lemma_extension_names_type(FileType::Jpeg);
    } else if e == "png"@ {
        lemma_extension_names_type(FileType::Png);
    } else if e == "mp4"@ {
        lemma_extension_names_type(FileType::Mp4);
    } else if e == "mov"@ {
        lemma_extension_names_type(FileType::Mov);
    } else if e == "avi"@ {
        lemma_extension_names_type(FileType::Avi);
    } else if e == "mkv"@ {
        lemma_extension_names_type(FileType::Mkv);
    }
}

/// The name of a file whose extension is one that is pulled, in small
/// letters or in capitals, is pulled as the type that the extension names.
pub proof fn law_pulled_in_any_case(w: Seq<char>, name: Seq<char>)
    requires
        is_pulled_extension(w),
        last_segment(name) == w || last_segment(name) == w.map_values(|c: char| ascii_upper(c)),
    ensures
        all_ascii(last_segment(name)),
        pulled_type_of_extension(last_segment(name).map_values(|c: char| ascii_lower(c))) == Some(
            type_of_extension(w),
        ),
{
    reveal_strlit("jpg");
    reveal_strlit("jpeg");
    reveal_strlit("png");
    reveal_strlit("mp4");
    reveal_strlit("mov");
    reveal_strlit("avi");
    reveal_strlit("mkv");
    assert forall|i: int| 0 <= i < w.len() implies is_lower_alnum(#[trigger] w[i]) by {}
    lemma_capitals_lower_back(w);
    if last_segment(name) == w {
        assert forall|i: int| 0 <= i < w.len() implies #[trigger] ascii_lower(w[i]) == w[i] by {}
        assert(w.map_values(|c: char| ascii_lower(c)) =~= w);
    }
    law_pulled_types(w);
}

/// The type under which a file of this name is pulled from a device; `None`
/// for files that are not pulled.
pub fn pulled_file_type(file_name: &str) -> (r: Option<FileType>)
    ensures
        r == pulled_type_of_extension(lowercase(last_segment(file_name@))),
        all_ascii(last_segment(file_name@)) ==> r == pulled_type_of_extension(
            last_segment(file_name@).map_values(|c: char| ascii_lower(c)),
        ),
{
    let ext = after_last_dot(file_name);
    let lower = to_lowercase(ext.as_str());
    let e = lower.as_str();
    if str_eq(e, "jpg") || str_eq(e, "jpeg") {
        Some(FileType::Jpeg)
    } else if str_eq(e, "png") {
        Some(FileType::Png)
    } else if str_eq(e, "mp4") {
        Some(FileType::Mp4)
    } else if str_eq(e, "mov") {
        Some(FileType::Mov)
    } else if str_eq(e, "avi") {
        Some(FileType::Avi)
    } else if str_eq(e, "mkv") {
        Some(FileType::Mkv)
    } else {
        None
    }
}

/// What follows the last '/' of `p`; all of `p` where there is none.
pub open spec fn after_last_slash(p: Seq<char>) -> Seq<char>
    decreases p.len(),
{
    if p.len() == 0 {
        p
    } else if p.last() == '/' {
        seq![]
    } else {
        after_last_slash(p.drop_last()).push(p.last())
    }
}

/// The last component of the path `p`, as `Path::file_name` gives it for a
/// path written with '/': trailing slashes and "." components are left out;
/// there is none where nothing is left or what is left ends in "..".
pub open spec fn file_name_of(p: Seq<char>) -> Option<Seq<char>>
    decreases p.len(),
{
    if p.len() == 0 {
        None
    } else if p.last() == '/' {
        file_name_of(p.drop_last())
    } else if p == seq!['.'] {
        None
    } else if p.len() >= 2 && p.last() == '.' && p[p.len() - 2] == '/' {
        file_name_of(p.drop_last().drop_last())
    } else if after_last_slash(p) == seq!['.', '.'] {
        None
    } else {
        Some(after_last_slash(p))
    }
}

proof fn lemma_after_last_slash(s: Seq<char>, j: int)
    requires
        0 <= j <= s.len(),
        j == 0 || s[j - 1] == '/',
        forall|k: int| j <= k < s.len() ==> s[k] != '/',
    ensures
        after_last_slash(s) == s.skip(j),
    decreases s.len(),
{
    if s.len() == j {
        assert(s.skip(j) =~= seq![]);
        if j > 0 {
            assert(s.last() == '/');
        }
    } else {
        lemma_after_last_slash(s.drop_last(), j);
        assert(s.drop_last().skip(j).push(s.last()) =~= s.skip(j));
    }
}

/// The file that a line of `find` output on the device lists: none for a
/// line that is blank once trimmed; otherwise the trimmed path and its file
/// name, "unknown" where the path has none.
pub fn listed_file(line: &str) -> (r: Option<(String, String)>)
    ensures
        trim_spec(line@).len() == 0 ==> r is None,
        trim_spec(line@).len() > 0 ==> (r matches Some((path, name)) && path@ == trim_spec(line@) && name@
            == match file_name_of(trim_spec(line@)) {
            Some(n) => n,
            None => "unknown"@,
        }),
{
    let path = trim_str(line);
    let p = path.as_str();
    let n = p.unicode_len();
    if n == 0 {
        return None;
    }
    let mut end: usize = n;
    let mut found = true;
    assert(p@.take(n as int) =~= p@);
    loop
        invariant
            n == p@.len(),
            end <= n,
            p@ == trim_spec(line@),
            file_name_of(p@) == if found { file_name_of(p@.take(end as int)) } else { None::<Seq<char>> },
        ensures
            found ==> 0 < end && p@.take(end as int).last() != '/' && p@.take(end as int) != seq!['.']
                && !(end >= 2 && p@[end - 1] == '.' && p@[end - 2] == '/') && file_name_of(p@) == file_name_of(
                p@.take(end as int),
            ),
            !found ==> file_name_of(p@) is None,
        decreases end,
    {
        let ghost t = p@.take(end as int);
        if end == 0 {
            proof {
                assert(t =~= seq![]);
            }
            found = false;
            break;
        }
        let c = p.get_char(end - 1);
        proof {
            assert(t.last() == c);
            assert(t.drop_last() =~= p@.take(end - 1));
        }
        if c == '/' {
            end = end - 1;
            continue;
        }
        if end == 1 && c == '.' {
            proof {
                assert(t =~= seq!['.']);
            }
            found = false;
            break;
        }
        if end >= 2 && c == '.' && p.get_char(end - 2) == '/' {
            proof {
                assert(t[t.len() - 2] == p@[end - 2]);
                assert(t.drop_last().drop_last() =~= p@.take(end - 2));
            }
            end = end - 2;
            continue;
        }
        proof {
            if t =~= seq!['.'] {
                assert(end == 1);
            }
        }
        break;
    }
    if !found {
        return Some((path.clone(), String::from_str("unknown")));
    }
    let mut j: usize = end;
    while j > 0 && p.get_char(j - 1) != '/'
        invariant
            n == p@.len(),
            j <= end <= n,
            forall|k: int| j <= k < end ==> p@[k] != '/',
        decreases j,
    {
        j = j - 1;
    }
    let ghost t = p@.take(end as int);
    proof {
        lemma_after_last_slash(t, j as int);
        assert(t.skip(j as int) =~= p@.subrange(j as int, end as int));
        assert(t.len() >= 2 ==> t[t.len() - 2] == p@[end - 2]);
    }
    let seg = p.substring_char(j, end);
    let dots = "..";
    proof {
        reveal_strlit("..");
        assert(dots@ =~= seq!['.', '.']);
    }
    if str_eq(seg, dots) {
        Some((path.clone(), String::from_str("unknown")))
    } else {
        Some((path.clone(), String::from_str(seg)))
    }
}

/// The record of a file pulled from a device: its name, its path on the
/// device, the size it has once pulled and its type; pulled over adb at
/// 100% confidence, with no offset on a disk, numbered `index`.
pub fn pulled_record(name: String, device_path: String, size: u64, file_type: FileType, index: usize) -> (f: RecoveredFile)
    ensures
        f.name == Some(name),
        f.original_path == Some(device_path),
        f.size == size,
        f.file_type == file_type,
        f.disk_offset == 0,
        f.recovery_method == RecoveryMethod::AdbPull,
        f.confidence == 100,
        f.index == index,
{
    RecoveredFile {
        name: Some(name),
        original_path: Some(device_path),
        size,
        file_type,
        disk_offset: 0,
        recovery_method: RecoveryMethod::AdbPull,
        confidence: 100,
        index,
    }
}

/// The folders of a device's shared storage that are searched for files,
/// in order: camera, pictures, movies, downloads and the trash.
pub fn accessible_folders() -> (r: Vec<&'static str>)
    ensures
        r@.len() == 5,
        r@[0]@ == "/sdcard/DCIM"@,
        r@[1]@ == "/sdcard/Pictures"@,
        r@[2]@ == "/sdcard/Movies"@,
        r@[3]@ == "/sdcard/Download"@,
        r@[4]@ == "/sdcard/.Trash"@,
{
    vec!["/sdcard/DCIM", "/sdcard/Pictures", "/sdcard/Movies", "/sdcard/Download", "/sdcard/.Trash"]
}

/// The device to pull from: the one with the given serial, or the first
/// one where no serial is given.
pub fn choose_device(devices: &Vec<AdbDevice>, serial: &Option<String>) -> (r: Option<usize>)
    ensures
        serial is None ==> r == if devices@.len() > 0 { Some(0usize) } else { None::<usize> },
        serial matches Some(s) ==> {
            &&& r matches Some(i) ==> i < devices@.len() && devices@[i as int].serial@ == s@
                && forall|j: int| 0 <= j < i ==> devices@[j].serial@ != s@
            &&& r is None ==> forall|j: int| 0 <= j < devices@.len() ==> devices@[j].serial@ != s@
        },
{
    match serial {
        None => if devices.len() > 0 { Some(0) } else { None },
        Some(s) => {
            assert(*serial == Some(*s));
            let mut i: usize = 0;
            while i < devices.len()
                invariant
                    *serial == Some(*s),
                    i <= devices@.len(),
                    forall|j: int| 0 <= j < i ==> devices@[j].serial@ != s@,
                decreases devices@.len() - i,
            {
                if str_eq(devices[i].serial.as_str(), s.as_str()) {
                    assert(devices@[i as int].serial@ == s@);
                    return Some(i);
                }
                i = i + 1;
            }
            None
        },
    }
}

} // verus!
