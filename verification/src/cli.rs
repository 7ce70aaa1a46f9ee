//! The choices that the command line and the desktop front end make on
//! found files: type filters, the list shown, the files picked to save.
use vstd::prelude::*;
use crate::text::{lowercase, to_lowercase, trim_spec, trim_str};
use vstd::string::StringExecFns;
use crate::types::{type_for_extension, type_of_extension, FileType, RecoveredFile, ScanMode, Target};

verus! {

/// `s` split at every `c`, as `str::split` gives it: one piece more than
/// there are `c`s.
pub open spec fn split_at_char(s: Seq<char>, c: char) -> Seq<Seq<char>>
    decreases s.len(),
{
    if s.len() == 0 {
        seq![seq![]]
    } else {
        let rest = split_at_char(s.drop_last(), c);
        if s.last() == c {
            rest.push(seq![])
        } else {
            rest.update(rest.len() - 1, rest.last().push(s.last()))
        }
    }
}

proof fn lemma_split_nonempty(s: Seq<char>, c: char)
    ensures
        split_at_char(s, c).len() >= 1,
    decreases s.len(),
{
    if s.len() > 0 {
        lemma_split_nonempty(s.drop_last(), c);
    }
}

/// The pieces of `s` between commas.
pub fn split_commas(s: &str) -> (r: Vec<String>)
    ensures
        r@.len() == split_at_char(s@, ',').len(),
        forall|i: int| 0 <= i < r@.len() ==> #[trigger] r@[i]@ == split_at_char(s@, ',')[i],
{
    let len = s.unicode_len();
    let mut done: Vec<String> = Vec::new();
    let mut start: usize = 0;
    let mut i: usize = 0;
    while i < len
        invariant
            len == s@.len(),
            start <= i <= len,
            split_at_char(s@.take(i as int), ',').len() == done@.len() + 1,
            forall|j: int| 0 <= j < done@.len() ==> #[trigger] done@[j]@ == split_at_char(s@.take(i as int), ',')[j],
            split_at_char(s@.take(i as int), ',').last() == s@.subrange(start as int, i as int),
        decreases len - i,
    {
        let c = s.get_char(i);
        proof {
            assert(s@.take(i + 1).drop_last() =~= s@.take(i as int));
            lemma_split_nonempty(s@.take(i as int), ',');
        }
        if c == ',' {
            done.push(String::from_str(s.substring_char(start, i)));
            start = i + 1;
            proof {
                assert(s@.subrange(start as int, i + 1) =~= seq![]);
            }
        } else {
            proof {
                assert(s@.subrange(start as int, i + 1) =~= s@.subrange(start as int, i as int).push(c));
            }
        }
        i = i + 1;
    }
    done.push(String::from_str(s.substring_char(start, len)));
    proof {
        assert(s@.take(len as int) =~= s@);
    }
    done
}

/// The types that a comma-separated filter names: each piece trimmed and
/// lowercased is read as an extension; no filter names none.
pub open spec fn filter_types_of(filter: Option<Seq<char>>) -> Seq<FileType> {
    match filter {
        None => seq![],
        Some(f) => split_at_char(f, ',').map_values(|p: Seq<char>| type_of_extension(lowercase(trim_spec(p)))),
    }
}

/// The types that a `--filter` value names.
pub fn parse_filter(filter: Option<&str>) -> (r: Vec<FileType>)
    ensures
        r@ == filter_types_of(match filter {
            Some(f) => Some(f@),
            None => None,
        }),
{
    match filter {
        None => Vec::new(),
        Some(f) => {
            let pieces = split_commas(f);
            let ghost want = filter_types_of(Some(f@));
            let mut out: Vec<FileType> = Vec::new();
            let mut i: usize = 0;
            while i < pieces.len()
                invariant
                    pieces@.len() == split_at_char(f@, ',').len(),
                    forall|j: int| 0 <= j < pieces@.len() ==> #[trigger] pieces@[j]@ == split_at_char(f@, ',')[j],
                    want == filter_types_of(Some(f@)),
                    i <= pieces@.len(),
                    out@ =~= want.take(i as int),
                decreases pieces@.len() - i,
            {
                let t = trim_str(pieces[i].as_str());
                let l = to_lowercase(t.as_str());
                out.push(type_for_extension(l.as_str()));
                i = i + 1;
                proof {
                    assert(out@ =~= want.take(i as int));
                }
            }
            proof {
                assert(want.take(i as int) =~= want);
            }
            out
        },
    }
}

/// Whether `t` is one of `ts`.
pub fn contains_type(ts: &Vec<FileType>, t: FileType) -> (r: bool)
    ensures
        r == ts@.contains(t),
{
    let mut i: usize = 0;
    while i < ts.len()
        invariant
            i <= ts@.len(),
            forall|j: int| 0 <= j < i ==> ts@[j] != t,
        decreases ts@.len() - i,
    {
        if ts[i] == t {
            assert(ts@[i as int] == t);
            return true;
        }
        i = i + 1;
    }
    false
}

/// Whether a found file is listed under the type filter `ft`: with no
/// filter, images and videos are; with one, the files of its types.
pub open spec fn listed(f: RecoveredFile, ft: Seq<FileType>) -> bool {
    if ft.len() == 0 {
        f.file_type.spec_is_image() || f.file_type.spec_is_video()
    } else {
        ft.contains(f.file_type)
    }
}

/// The files of `s` that the filter lists, in order.
pub open spec fn listed_files(s: Seq<RecoveredFile>, ft: Seq<FileType>) -> Seq<RecoveredFile>
    decreases s.len(),
{
    if s.len() == 0 {
        seq![]
    } else if listed(s.last(), ft) {
        listed_files(s.drop_last(), ft).push(s.last())
    } else {
        listed_files(s.drop_last(), ft)
    }
}

/// At most the first `limit` of `s`; all of `s` where `limit` is 0.
pub open spec fn at_most(s: Seq<RecoveredFile>, limit: usize) -> Seq<RecoveredFile> {
    if limit == 0 || s.len() <= limit {
        s
    } else {
        s.take(limit as int)
    }
}

/// The found files shown after a scan: those the filter lists, in order,
/// and no more than `limit` of them (0 means no limit).
pub fn select_for_display(results: &Vec<RecoveredFile>, filter_types: &Vec<FileType>, limit: usize) -> (r: Vec<RecoveredFile>)
    ensures
        r@ == at_most(listed_files(results@, filter_types@), limit),
{
    let mut out: Vec<RecoveredFile> = Vec::new();
    let mut i: usize = 0;
    let no_filter = filter_types.len() == 0;
    while i < results.len()
        invariant
            i <= results@.len(),
            no_filter == (filter_types@.len() == 0),
            out@ == at_most(listed_files(results@.take(i as int), filter_types@), limit),
        decreases results@.len() - i,
    {
        let f = &results[i];
        let keep = if no_filter {
            f.file_type.is_image() || f.file_type.is_video()
        } else {
            contains_type(filter_types, f.file_type)
        };
        proof {
            assert(results@.take(i + 1).drop_last() =~= results@.take(i as int));
            assert(results@.take(i + 1).last() == results@[i as int]);
        }
        if keep && (limit == 0 || out.len() < limit) {
            out.push(f.duplicate());
        }
        proof {
            let before = listed_files(results@.take(i as int), filter_types@);
            if keep && limit != 0 && before.len() >= limit {
                assert(before.push(results@[i as int]).take(limit as int) =~= before.take(limit as int));
            }
        }
        i = i + 1;
    }
    proof {
        assert(results@.take(results@.len() as int) =~= results@);
    }
    out
}

/// The files of `s` whose index is one of `indices`, in order.
pub open spec fn picked_files(s: Seq<RecoveredFile>, indices: Seq<usize>) -> Seq<RecoveredFile>
    decreases s.len(),
{
    if s.len() == 0 {
        seq![]
    } else if indices.contains(s.last().index) {
        picked_files(s.drop_last(), indices).push(s.last())
    } else {
        picked_files(s.drop_last(), indices)
    }
}

/// The found files picked for saving by their indices, in order.
pub fn select_by_indices(results: &Vec<RecoveredFile>, indices: &Vec<usize>) -> (r: Vec<RecoveredFile>)
    ensures
        r@ == picked_files(results@, indices@),
{
    let mut out: Vec<RecoveredFile> = Vec::new();
    let mut i: usize = 0;
    while i < results.len()
        invariant
            i <= results@.len(),
            out@ == picked_files(results@.take(i as int), indices@),
        decreases results@.len() - i,
    {
        let f = &results[i];
        let mut found = false;
        let mut j: usize = 0;
        while j < indices.len()
            invariant
                j <= indices@.len(),
                found == exists|k: int| 0 <= k < j && indices@[k] == f.index,
            decreases indices@.len() - j,
        {
            if indices[j] == f.index {
                found = true;
            }
            j = j + 1;
        }
        proof {
            assert(results@.take(i + 1).drop_last() =~= results@.take(i as int));
            assert(results@.take(i + 1).last() == results@[i as int]);
            if found {
                let k = choose|k: int| 0 <= k < j && indices@[k] == f.index;
                assert(indices@.contains(f.index));
            }
        }
        if found {
            out.push(f.duplicate());
        }
        i = i + 1;
    }
    proof {
        assert(results@.take(results@.len() as int) =~= results@);
    }
    out
}

/// The hint on how to get raw disk access: elevation on Windows, sudo
/// elsewhere.
pub fn elevation_hint(windows: bool) -> (r: &'static str)
    ensures
        r@ == if windows { "Run as Administrator"@ } else { "Run with sudo"@ },
{
    if windows {
        "Run as Administrator"
    } else {
        "Run with sudo"
    }
}

/// The target that the desktop front end describes: `is_object` says whether
/// the description is an object; `laptop` is its "Laptop" entry, if any,
/// with the drive it names, and `android` its "Android" entry with the
/// serial and image path it names. A "Laptop" entry wins; its drive is
/// "C:\" where none is named. A description that is no object is an
/// invalid target, one with neither entry of an unknown type.
pub fn gui_target(
    is_object: bool,
    laptop: Option<Option<String>>,
    android: Option<(Option<String>, Option<String>)>,
) -> (r: Result<Target, String>)
    ensures
        !is_object ==> (r matches Err(e) && e@ == "Invalid target"@),
        is_object ==> match laptop {
            Some(d) => r matches Ok(Target::Laptop { drive }) && drive@ == match d {
                Some(x) => x@,
                None => "C:\\"@,
            },
            None => match android {
                Some((serial, image_path)) => r == Ok::<Target, String>(
                    Target::Android { serial, image_path },
                ),
                None => r matches Err(e) && e@ == "Unknown target type"@,
            },
        },
{
    if !is_object {
        return Err(String::from_str("Invalid target"));
    }
    match laptop {
        Some(d) => {
            let drive = match d {
                Some(x) => x,
                None => String::from_str("C:\\"),
            };
            Ok(Target::Laptop { drive })
        },
        None => match android {
            Some((serial, image_path)) => Ok(Target::Android { serial, image_path }),
            None => Err(String::from_str("Unknown target type")),
        },
    }
}

/// The scan mode that the desktop front end's mode word asks for: "quick",
/// "deep", and anything else both.
pub fn gui_scan_mode(mode: &str) -> (m: ScanMode)
    ensures
        m == if mode@ == "quick"@ {
            ScanMode::QuickScan
        } else if mode@ == "deep"@ {
            ScanMode::DeepScan
        } else {
            ScanMode::Both
        },
{
    if crate::text::str_eq(mode, "quick") {
        ScanMode::QuickScan
    } else if crate::text::str_eq(mode, "deep") {
        ScanMode::DeepScan
    } else {
        ScanMode::Both
    }
}

} // verus!
