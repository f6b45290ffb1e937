//! Deciding whether a video file is a TV episode, from its name, the name
//! of the folder that holds it and the other files in that folder.
use vstd::prelude::*;
use crate::text::{chars_of, eq_str, string_from_chars, trim, trim_chars};
use crate::paths::{
    name_without_extension, path_file_name_of, path_parent_of, is_video_name, path_file_name,
    path_parent, remove_extension_and_path, is_video_name_exec,
};
use crate::regex_match::{regex_first_match, regex_is_match, regex_replace, regex_replace_all, replace_first, replace_every};
use crate::name_cleanup::{similar, is_similar, collapse_spaces, normalize_spaces};
use crate::patterns::{
    SEASON_EPISODE_NUMBER, EPISODE_NUMBER, SEASON_EPISODE_X_FORMAT, FOLDER_SEASON, DASH_NUMBER,
    BRACKETED_NUMBER, EP_PREFIX, SPECIAL,
};

verus! {

/// One entry of a folder listing, as far as the decisions need it.
#[derive(Clone, Debug)]
pub struct FolderEntry {
    /// The entry's name; invalid UTF-8 replaced by U+FFFD.
    pub name: String,
    /// Whether the name is valid UTF-8 (then `name` is exact).
    pub name_is_utf8: bool,
    /// Whether the entry is a regular file.
    pub is_file: bool,
}

/// Entries of `es` that satisfy `p`.
pub open spec fn count_where(es: Seq<FolderEntry>, p: spec_fn(FolderEntry) -> bool) -> nat
    decreases es.len(),
{
    if es.len() == 0 {
        0
    } else {
        count_where(es.drop_last(), p) + if p(es.last()) {
            1nat
        } else {
            0nat
        }
    }
}

proof fn lemma_count_prefix(es: Seq<FolderEntry>, p: spec_fn(FolderEntry) -> bool, i: int)
    requires
        0 <= i <= es.len(),
    ensures
        count_where(es.take(i), p) <= count_where(es, p),
    decreases es.len() - i,
{
    if i < es.len() {
        lemma_count_prefix(es, p, i + 1);
        assert(es.take(i + 1).drop_last() =~= es.take(i));
    } else {
        assert(es.take(i) =~= es);
    }
}

proof fn lemma_count_step(es: Seq<FolderEntry>, p: spec_fn(FolderEntry) -> bool, i: int)
    requires
        0 <= i < es.len(),
    ensures
        count_where(es.take(i + 1), p) == count_where(es.take(i), p) + if p(es[i]) {
            1nat
        } else {
            0nat
        },
{
    assert(es.take(i + 1).drop_last() =~= es.take(i));
    assert(es.take(i + 1).last() == es[i]);
}

/// The name of a listed file without its extension.
pub open spec fn entry_stem(e: FolderEntry) -> Seq<char> {
    name_without_extension(e.name@)
}

/// A regular file with a Unicode name other than `filename` (compared
/// without extensions).
pub open spec fn other_file(e: FolderEntry, filename: Seq<char>) -> bool {
    e.is_file && e.name_is_utf8 && entry_stem(e) != filename
}

/// `s` with the first match of `pat` replaced by a space, then trimmed.
pub open spec fn base_without(pat: Seq<char>, s: Seq<char>) -> Seq<char> {
    trim(replace_first(pat, s, " "@))
}

/// Another file of the folder whose name also matches `pat` and whose name
/// without that match is `similar` to `filename`'s.
pub open spec fn pattern_sibling(pat: Seq<char>, filename: Seq<char>, e: FolderEntry) -> bool {
    &&& other_file(e, filename)
    &&& regex_first_match(pat, entry_stem(e)) is Some
    &&& similar(base_without(pat, filename), base_without(pat, entry_stem(e)))
}

pub open spec fn pattern_sibling_pred(pat: Seq<char>, filename: Seq<char>) -> spec_fn(FolderEntry) -> bool {
    |e: FolderEntry| pattern_sibling(pat, filename, e)
}

/// Number of `pattern_sibling`s of `filename` in `es`.
pub open spec fn pattern_siblings(pat: Seq<char>, filename: Seq<char>, es: Seq<FolderEntry>) -> nat {
    count_where(es, pattern_sibling_pred(pat, filename))
}

proof fn lemma_space_literal()
    ensures
        !" "@.contains('$'),
        " "@ == seq![' '],
{
    reveal_strlit(" ");
}

/// `s` trimmed after its first match of `pat` became a space.
fn base_without_exec(pat: &str, s: &str) -> (r: String)
    ensures
        r@ == base_without(pat@, s@),
{
    proof {
        lemma_space_literal();
    }
    let replaced = regex_replace(pat, s, " ");
    let t = trim_chars(&chars_of(replaced.as_str()));
    string_from_chars(&t)
}

/// Whether `filename` has at least `max(min_matches, 1)` pattern siblings
/// among `entries`.
fn has_pattern_siblings(pat: &str, filename: &str, entries: &Vec<FolderEntry>, min_matches: usize) -> (r: bool)
    ensures
        r == (pattern_siblings(pat@, filename@, entries@) >= if min_matches == 0 {
            1
        } else {
            min_matches as int
        }),
{
    let ghost p = pattern_sibling_pred(pat@, filename@);
    let ghost need: int = if min_matches == 0 {
        1
    } else {
        min_matches as int
    };
    let base = base_without_exec(pat, filename);
    let mut count: usize = 0;
    let mut i: usize = 0;
    assert(entries@.take(0) =~= Seq::<FolderEntry>::empty());
    while i < entries.len()
        invariant
            i <= entries.len(),
            p == pattern_sibling_pred(pat@, filename@),
            base@ == base_without(pat@, filename@),
            count == count_where(entries@.take(i as int), p),
            count <= i,
            count < need,
            need == (if min_matches == 0 {
                1
            } else {
                min_matches as int
            }),
        decreases entries.len() - i,
    {
        let e = &entries[i];
        proof {
            lemma_count_step(entries@, p, i as int);
        }
        let mut hit = false;
        if e.is_file && e.name_is_utf8 {
            let stem = remove_extension_and_path(e.name.as_str());
            if !eq_str(&chars_of(stem.as_str()), filename) {
                if regex_is_match(pat, stem.as_str()) {
                    let eb = base_without_exec(pat, stem.as_str());
                    hit = is_similar(base.as_str(), eb.as_str());
                }
            }
        }
        assert(hit == p(entries@[i as int]));
        if hit {
            count = count + 1;
            if count >= min_matches {
                proof {
                    lemma_count_prefix(entries@, p, i + 1);
                }
                return true;
            }
        }
        i = i + 1;
    }
    assert(entries@.take(entries.len() as int) =~= entries@);
    false
}

/// Another file of the folder with an `E05`-style number and a similar
/// name without it.
pub fn verify_with_folder_context(filename: &str, entries: &Vec<FolderEntry>) -> (r: bool)
    ensures
        r == (pattern_siblings(EPISODE_NUMBER@, filename@, entries@) >= 1),
{
    has_pattern_siblings(EPISODE_NUMBER, filename, entries, 1)
}

/// At least `max(min_matches, 1)` other files of the folder with a
/// ` - 01`-style number and a similar name without it (one or two would
/// also fit a series of films).
pub fn verify_dash_number_with_folder_context(filename: &str, entries: &Vec<FolderEntry>, min_matches: usize) -> (r: bool)
    ensures
        r == (pattern_siblings(DASH_NUMBER@, filename@, entries@) >= if min_matches == 0 {
            1
        } else {
            min_matches as int
        }),
{
    has_pattern_siblings(DASH_NUMBER, filename, entries, min_matches)
}

/// Another file of the folder with a `[01]`-style number and a similar
/// name without it.
pub fn verify_bracketed_number_with_folder_context(filename: &str, entries: &Vec<FolderEntry>) -> (r: bool)
    ensures
        r == (pattern_siblings(BRACKETED_NUMBER@, filename@, entries@) >= 1),
{
    has_pattern_siblings(BRACKETED_NUMBER, filename, entries, 1)
}

/// Every match of `pat` in `s` replaced by a space, if there is one.
pub open spec fn strip_all(pat: Seq<char>, s: Seq<char>) -> Seq<char> {
    if regex_first_match(pat, s) is Some {
        replace_every(pat, s, " "@)
    } else {
        s
    }
}

/// A name with every season and episode marker taken out and white space
/// collapsed.
pub open spec fn episode_free(s: Seq<char>) -> Seq<char> {
    let a = strip_all(SEASON_EPISODE_NUMBER@, s);
    let b = strip_all(EPISODE_NUMBER@, a);
    let c = strip_all(SEASON_EPISODE_X_FORMAT@, b);
    let d = strip_all(FOLDER_SEASON@, c);
    let e = strip_all(DASH_NUMBER@, d);
    let f = strip_all(BRACKETED_NUMBER@, e);
    let g = strip_all(EP_PREFIX@, f);
    collapse_spaces(g)
}

/// A name with its first `special` taken out and white space collapsed.
pub open spec fn special_base(s: Seq<char>) -> Seq<char> {
    collapse_spaces(replace_first(SPECIAL@, s, " "@))
}

/// Another file of the folder whose episode-free name is similar to the
/// name without `special`.
pub open spec fn special_sibling(filename: Seq<char>, e: FolderEntry) -> bool {
    other_file(e, filename) && similar(special_base(filename), episode_free(entry_stem(e)))
}

pub open spec fn special_sibling_pred(filename: Seq<char>) -> spec_fn(FolderEntry) -> bool {
    |e: FolderEntry| special_sibling(filename, e)
}

fn strip_all_exec(pat: &str, s: String) -> (r: String)
    ensures
        r@ == strip_all(pat@, s@),
{
    proof {
        lemma_space_literal();
    }
    if regex_is_match(pat, s.as_str()) {
        regex_replace_all(pat, s.as_str(), " ")
    } else {
        s
    }
}

fn episode_free_exec(s: &str) -> (r: String)
    ensures
        r@ == episode_free(s@),
{
    let a = strip_all_exec(SEASON_EPISODE_NUMBER, string_from_chars(&chars_of(s)));
    let b = strip_all_exec(EPISODE_NUMBER, a);
    let c = strip_all_exec(SEASON_EPISODE_X_FORMAT, b);
    let d = strip_all_exec(FOLDER_SEASON, c);
    let e = strip_all_exec(DASH_NUMBER, d);
    let f = strip_all_exec(BRACKETED_NUMBER, e);
    let g = strip_all_exec(EP_PREFIX, f);
    normalize_spaces(g.as_str())
}

/// Another file of the folder whose name, without season and episode
/// markers, is similar to `filename` without `special`.
pub fn verify_special_with_folder_context(filename: &str, entries: &Vec<FolderEntry>) -> (r: bool)
    ensures
        r == (count_where(entries@, special_sibling_pred(filename@)) >= 1),
{
    proof {
        lemma_space_literal();
    }
    let ghost p = special_sibling_pred(filename@);
    let replaced = regex_replace(SPECIAL, filename, " ");
    let base = normalize_spaces(replaced.as_str());
    let mut i: usize = 0;
    assert(entries@.take(0) =~= Seq::<FolderEntry>::empty());
    while i < entries.len()
        invariant
            i <= entries.len(),
            p == special_sibling_pred(filename@),
            base@ == special_base(filename@),
            count_where(entries@.take(i as int), p) == 0,
        decreases entries.len() - i,
    {
        let e = &entries[i];
        proof {
            lemma_count_step(entries@, p, i as int);
        }
        let mut hit = false;
        if e.is_file && e.name_is_utf8 {
            let stem = remove_extension_and_path(e.name.as_str());
            if !eq_str(&chars_of(stem.as_str()), filename) {
                let eb = episode_free_exec(stem.as_str());
                hit = is_similar(base.as_str(), eb.as_str());
            }
        }
        assert(hit == p(entries@[i as int]));
        if hit {
            proof {
                lemma_count_prefix(entries@, p, i + 1);
            }
            return true;
        }
        i = i + 1;
    }
    assert(entries@.take(entries.len() as int) =~= entries@);
    false
}

pub open spec fn video_file_pred() -> spec_fn(FolderEntry) -> bool {
    |e: FolderEntry| e.is_file && is_video_name(e.name@)
}

/// Number of regular files in the listing with a video extension.
pub fn count_video_files_in_folder(entries: &Vec<FolderEntry>) -> (r: usize)
    ensures
        r == count_where(entries@, video_file_pred()),
{
    let ghost p = video_file_pred();
    let mut count: usize = 0;
    let mut i: usize = 0;
    assert(entries@.take(0) =~= Seq::<FolderEntry>::empty());
    while i < entries.len()
        invariant
            i <= entries.len(),
            p == video_file_pred(),
            count == count_where(entries@.take(i as int), p),
            count <= i,
        decreases entries.len() - i,
    {
        proof {
            lemma_count_step(entries@, p, i as int);
        }
        if entries[i].is_file && is_video_name_exec(entries[i].name.as_str()) {
            count = count + 1;
        }
        i = i + 1;
    }
    assert(entries@.take(entries.len() as int) =~= entries@);
    count
}

/// The parent folder's name matches a season pattern.
pub open spec fn in_season_folder(filepath: Seq<char>) -> bool {
    match path_parent_of(filepath) {
        Some(parent) => match path_file_name_of(parent) {
            Some(folder) => regex_first_match(FOLDER_SEASON@, folder) is Some,
            None => false,
        },
        None => false,
    }
}

/// The decision of `is_tv_episode` for the file at `filepath`, given the
/// listing `es` of the folder that holds it.
pub open spec fn tv_episode(filepath: Seq<char>, es: Seq<FolderEntry>) -> bool {
    let name = name_without_extension(filepath);
    let has_parent = path_parent_of(filepath) is Some;
    let matches = |pat: Seq<char>| regex_first_match(pat, name) is Some;
    ||| matches(SEASON_EPISODE_NUMBER@)
    ||| matches(SEASON_EPISODE_X_FORMAT@)
    ||| matches(EPISODE_NUMBER@) && has_parent && (pattern_siblings(EPISODE_NUMBER@, name, es) >= 1
        || in_season_folder(filepath))
    ||| in_season_folder(filepath) && count_where(es, video_file_pred()) > 1
    ||| matches(EP_PREFIX@)
    ||| matches(DASH_NUMBER@) && has_parent && pattern_siblings(DASH_NUMBER@, name, es) >= 3
    ||| matches(BRACKETED_NUMBER@) && has_parent && pattern_siblings(BRACKETED_NUMBER@, name, es) >= 1
    ||| matches(SPECIAL@) && has_parent && count_where(es, special_sibling_pred(name)) >= 1
}

fn season_folder(filepath: &str) -> (r: bool)
    ensures
        r == in_season_folder(filepath@),
{
    match path_parent(filepath) {
        Some(parent) => match path_file_name(parent.as_str()) {
            Some(folder) => regex_is_match(FOLDER_SEASON, folder.as_str()),
            None => false,
        },
        None => false,
    }
}

/// Whether the file at `filepath` is, with high confidence, a TV episode:
/// `S01E05` or `1x05` in its name; or `E05` confirmed by a similarly named
/// sibling or a season folder; or a season folder with several videos; or
/// `Ep. 01`; or ` - 01` with three similar siblings; or `[01]` with one; or
/// `special` with a similar sibling. `entries` is the listing of the folder
/// that holds the file (empty when it cannot be read).
pub fn is_tv_episode(filepath: &str, entries: &Vec<FolderEntry>) -> (r: bool)
    ensures
        r == tv_episode(filepath@, entries@),
{
    let filename = remove_extension_and_path(filepath);
    let name = filename.as_str();
    if regex_is_match(SEASON_EPISODE_NUMBER, name) {
        return true;
    }
    if regex_is_match(SEASON_EPISODE_X_FORMAT, name) {
        return true;
    }
    let has_parent = path_parent(filepath).is_some();
    if regex_is_match(EPISODE_NUMBER, name) && has_parent {
        if verify_with_folder_context(name, entries) {
            return true;
        }
        if season_folder(filepath) {
            return true;
        }
    }
    if season_folder(filepath) && count_video_files_in_folder(entries) > 1 {
        return true;
    }
    if regex_is_match(EP_PREFIX, name) {
        return true;
    }
    if regex_is_match(DASH_NUMBER, name) && has_parent && verify_dash_number_with_folder_context(
        name,
        entries,
        3,
    ) {
        return true;
    }
    if regex_is_match(BRACKETED_NUMBER, name) && has_parent
        && verify_bracketed_number_with_folder_context(name, entries) {
        return true;
    }
    if regex_is_match(SPECIAL, name) && has_parent && verify_special_with_folder_context(
        name,
        entries,
    ) {
        return true;
    }
    false
}

/// A file name that carries an unmistakable episode marker (`S01E05`,
/// `1x05` or `Ep. 5`) makes the file a TV episode whatever its folder holds.
pub proof fn lemma_episode_markers_decide(filepath: Seq<char>, es: Seq<FolderEntry>)
    ensures
        regex_first_match(SEASON_EPISODE_NUMBER@, name_without_extension(filepath)) is Some ==> tv_episode(filepath, es),
        regex_first_match(SEASON_EPISODE_X_FORMAT@, name_without_extension(filepath)) is Some ==> tv_episode(filepath, es),
        regex_first_match(EP_PREFIX@, name_without_extension(filepath)) is Some ==> tv_episode(filepath, es),
{
}

} // verus!
