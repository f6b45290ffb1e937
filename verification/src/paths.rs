//! File names, stems and extensions of paths.
//!
//! Splitting a path into components is left to `std::path::Path` (the
//! separators it knows depend on the platform the library is built for); the
//! stem and extension rules that `Path` documents on top of the file name are
//! stated and proved here.
use vstd::prelude::*;
use crate::text::{chars_of, eq_str, slice_chars, string_from_chars};
use crate::unicode::{to_lowercase, unicode_lowercase};

verus! {

/// The final component of path `p` as `Path::file_name` gives it, when it
/// exists and is valid Unicode.
pub uninterp spec fn path_file_name_of(p: Seq<char>) -> Option<Seq<char>>;

/// The final component of a path parsed by the platform's `Path` rules
/// (`Path::file_name`, then `OsStr::to_str`). `None` when the path ends in
/// `..`, a root or a prefix, or is empty. Only the naming is claimed: the
/// result is `path_file_name_of` of the argument.
#[verifier::external_body]
pub(crate) fn path_file_name(p: &str) -> (r: Option<String>)
    ensures
        r matches Some(n) ==> path_file_name_of(p@) == Some(n@),
        r is None ==> path_file_name_of(p@) is None,
{
    match std::path::Path::new(p).file_name() {
        Some(n) => match n.to_str() {
            Some(t) => Some(t.to_string()),
            None => None,
        },
        None => None,
    }
}

/// The parent of path `p` as `Path::parent` gives it, when it has one.
pub uninterp spec fn path_parent_of(p: Seq<char>) -> Option<Seq<char>>;

/// `Path::parent` of a path given as text (the parent of a Unicode path is
/// Unicode, so `to_str` keeps it). `None` for a root, a prefix or the empty
/// path. Only the naming is claimed: the result is `path_parent_of` of the
/// argument.
#[verifier::external_body]
pub(crate) fn path_parent(p: &str) -> (r: Option<String>)
    ensures
        r matches Some(q) ==> path_parent_of(p@) == Some(q@),
        r is None ==> path_parent_of(p@) is None,
{
    match std::path::Path::new(p).parent() {
        Some(q) => match q.to_str() {
            Some(t) => Some(t.to_string()),
            None => None,
        },
        None => None,
    }
}

/// Index of the last `'.'` in `s`.
pub open spec fn last_dot(s: Seq<char>) -> Option<int>
    decreases s.len(),
{
    if s.len() == 0 {
        None
    } else if s.last() == '.' {
        Some(s.len() - 1)
    } else {
        last_dot(s.drop_last())
    }
}

/// The stem `Path` documents for a file name: the entire name if it has no
/// embedded `'.'` or begins with `'.'` and has no other `'.'`, otherwise the
/// part before the final `'.'`.
pub open spec fn stem_of_name(name: Seq<char>) -> Seq<char> {
    match last_dot(name) {
        Some(k) => if k == 0 {
            name
        } else {
            name.subrange(0, k)
        },
        None => name,
    }
}

/// The extension `Path` documents for a file name: none if the name has no
/// embedded `'.'` or begins with `'.'` and has no other `'.'`, otherwise the
/// part after the final `'.'`.
pub open spec fn extension_of_name(name: Seq<char>) -> Option<Seq<char>> {
    match last_dot(name) {
        Some(k) => if k == 0 {
            None
        } else {
            Some(name.subrange(k + 1, name.len() as int))
        },
        None => None,
    }
}

/// `Path::file_stem` of path `p`.
pub open spec fn path_file_stem(p: Seq<char>) -> Option<Seq<char>> {
    match path_file_name_of(p) {
        Some(n) => Some(stem_of_name(n)),
        None => None,
    }
}

/// `Path::extension` of path `p`.
pub open spec fn path_extension(p: Seq<char>) -> Option<Seq<char>> {
    match path_file_name_of(p) {
        Some(n) => extension_of_name(n),
        None => None,
    }
}

/// What `remove_extension_and_path` gives for `filename`.
pub open spec fn name_without_extension(filename: Seq<char>) -> Seq<char> {
    match path_file_name_of(filename) {
        Some(n) => match path_file_stem(n) {
            Some(st) => st,
            None => filename,
        },
        None => filename,
    }
}

proof fn lemma_last_dot(s: Seq<char>, k: int)
    requires
        -1 <= k < s.len(),
        forall|j: int| k < j < s.len() ==> #[trigger] s[j] != '.',
        k >= 0 ==> s[k] == '.',
    ensures
        last_dot(s) == (if k >= 0 { Some(k) } else { None::<int> }),
    decreases s.len(),
{
    if s.len() > 0 && s.len() - 1 != k {
        assert(s.last() != '.');
        assert forall|j: int| k < j < s.drop_last().len() implies #[trigger] s.drop_last()[j] != '.' by {
            assert(s.drop_last()[j] == s[j]);
        }
        lemma_last_dot(s.drop_last(), k);
    }
}

fn find_last_dot(s: &Vec<char>) -> (r: Option<usize>)
    ensures
        r matches Some(k) ==> last_dot(s@) == Some(k as int) && k < s.len(),
        r is None ==> last_dot(s@) is None,
{
    let mut i: usize = s.len();
    while i > 0
        invariant
            i <= s.len(),
            forall|j: int| i <= j < s.len() ==> #[trigger] s@[j] != '.',
        decreases i,
    {
        if s[i - 1] == '.' {
            proof {
                lemma_last_dot(s@, i - 1);
            }
            return Some(i - 1);
        }
        i = i - 1;
    }
    proof {
        lemma_last_dot(s@, -1);
    }
    None
}

/// `Path::file_stem`: the file name without its extension.
pub fn file_stem(p: &str) -> (r: Option<String>)
    ensures
        r matches Some(st) ==> path_file_stem(p@) == Some(st@),
        r is None ==> path_file_stem(p@) is None,
{
    match path_file_name(p) {
        Some(n) => {
            let v = chars_of(n.as_str());
            match find_last_dot(&v) {
                Some(k) => {
                    if k == 0 {
                        Some(n)
                    } else {
                        Some(string_from_chars(&slice_chars(&v, 0, k)))
                    }
                },
                None => Some(n),
            }
        },
        None => None,
    }
}

/// The extension `Path` takes from a file name (`extension_of_name`).
pub fn name_extension(name: &str) -> (r: Option<String>)
    ensures
        r matches Some(e) ==> extension_of_name(name@) == Some(e@),
        r is None ==> extension_of_name(name@) is None,
{
    let v = chars_of(name);
    match find_last_dot(&v) {
        Some(k) => {
            if k == 0 {
                None
            } else {
                Some(string_from_chars(&slice_chars(&v, k + 1, v.len())))
            }
        },
        None => None,
    }
}

/// `Path::extension`: the part of the file name after its final `'.'`.
pub fn file_extension(p: &str) -> (r: Option<String>)
    ensures
        r matches Some(e) ==> path_extension(p@) == Some(e@),
        r is None ==> path_extension(p@) is None,
{
    match path_file_name(p) {
        Some(n) => name_extension(n.as_str()),
        None => None,
    }
}

/// The file name of `filename` without folders and without its extension;
/// `filename` itself when it has no file name.
pub fn remove_extension_and_path(filename: &str) -> (r: String)
    ensures
        r@ == name_without_extension(filename@),
{
    match path_file_name(filename) {
        Some(name) => match file_stem(name.as_str()) {
            Some(stem) => stem,
            None => String::from_str(filename),
        },
        None => String::from_str(filename),
    }
}

/// Extensions (in lower case) of the files a library lists as videos.
pub open spec fn is_video_extension(e: Seq<char>) -> bool {
    e == "mkv"@ || e == "mp4"@ || e == "avi"@ || e == "mov"@ || e == "m2ts"@
}

/// A path names a video file when its extension, lower-cased, is one of
/// `mkv`, `mp4`, `avi`, `mov`, `m2ts`.
pub open spec fn names_video_file(p: Seq<char>) -> bool {
    match path_extension(p) {
        Some(e) => is_video_extension(unicode_lowercase(e)),
        None => false,
    }
}

fn is_video_ext(ext: &str) -> (r: bool)
    ensures
        r == is_video_extension(unicode_lowercase(ext@)),
{
    let l = chars_of(to_lowercase(ext).as_str());
    eq_str(&l, "mkv") || eq_str(&l, "mp4") || eq_str(&l, "avi") || eq_str(&l, "mov") || eq_str(
        &l,
        "m2ts",
    )
}

pub fn is_video_file(filepath: &str) -> (r: bool)
    ensures
        r == names_video_file(filepath@),
{
    match file_extension(filepath) {
        Some(ext) => is_video_ext(ext.as_str()),
        None => false,
    }
}

/// A file name (no folders) whose extension, lower-cased, is a video one.
pub open spec fn is_video_name(name: Seq<char>) -> bool {
    match extension_of_name(name) {
        Some(e) => is_video_extension(unicode_lowercase(e)),
        None => false,
    }
}

pub fn is_video_name_exec(name: &str) -> (r: bool)
    ensures
        r == is_video_name(name@),
{
    match name_extension(name) {
        Some(ext) => is_video_ext(ext.as_str()),
        None => false,
    }
}

} // verus!
