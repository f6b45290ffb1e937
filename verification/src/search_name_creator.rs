//! Search names from file names: the show, season and episode of a TV
//! episode, and the title and year of a film.
use vstd::prelude::*;
use crate::text::{
    chars_of, slice_chars, string_from_chars, trim, trim_chars, drop_lead, drop_trail, parse_i32,
    parse_i32_chars, char_index_at, byte_slice, lemma_strip, lemma_drop_lead, utf8_len,
    is_char_boundary,
};
use crate::unicode::{char_numeric, is_numeric, unicode_uppercase, to_uppercase};
use crate::paths::{name_without_extension, path_file_name_of, path_parent_of, path_file_name, path_parent, remove_extension_and_path};
use crate::regex_match::{regex_first_match, regex_all_captures, regex_find, regex_captures_all, capture_view, is_span, span_chars};
use crate::name_cleanup::{
    outside_brackets, alphanumeric_with_spaces, remove_square_bracket_text, make_alphanumeric_with_spaces,
    byte_len, lemma_outside_brackets_has_none, lemma_outside_brackets_of_plain,
};
use crate::patterns::{
    SEASON_EPISODE_NUMBER, EPISODE_NUMBER, SEASON_EPISODE_X_FORMAT, FOLDER_SEASON, DASH_NUMBER,
    BRACKETED_NUMBER, EP_PREFIX, YEAR_IN_BRACKETS, YEAR_IN_SPACES, YEAR_ANYWHERE, noise_patterns,
    noise_pattern_list,
};

verus! {

/// Index of the first `c` in `s`.
pub open spec fn first_index(s: Seq<char>, c: char) -> Option<int>
    decreases s.len(),
{
    if s.len() == 0 {
        None
    } else if s[0] == c {
        Some(0)
    } else {
        match first_index(s.drop_first(), c) {
            Some(k) => Some(k + 1),
            None => None,
        }
    }
}

proof fn lemma_first_index(s: Seq<char>, c: char, i: int)
    requires
        0 <= i <= s.len(),
        forall|j: int| 0 <= j < i ==> #[trigger] s[j] != c,
        i < s.len() ==> s[i] == c,
    ensures
        first_index(s, c) == if i < s.len() {
            Some(i)
        } else {
            None::<int>
        },
    decreases s.len(),
{
    if s.len() > 0 && i > 0 {
        assert forall|j: int| 0 <= j < i - 1 implies #[trigger] s.drop_first()[j] != c by {
            assert(s.drop_first()[j] == s[j + 1]);
        }
        if i < s.len() {
            assert(s.drop_first()[i - 1] == s[i]);
        }
        assert(s[0] != c);
        lemma_first_index(s.drop_first(), c, i - 1);
    }
}

/// Position of the first `c` in `s`.
pub fn find_char(s: &Vec<char>, c: char) -> (r: Option<usize>)
    ensures
        r matches Some(k) ==> first_index(s@, c) == Some(k as int) && k < s.len(),
        r is None ==> first_index(s@, c) is None,
{
    let mut i: usize = 0;
    while i < s.len()
        invariant
            i <= s.len(),
            forall|j: int| 0 <= j < i ==> #[trigger] s@[j] != c,
        decreases s.len() - i,
    {
        if s[i] == c {
            proof {
                lemma_first_index(s@, c, i as int);
            }
            return Some(i);
        }
        i = i + 1;
    }
    proof {
        lemma_first_index(s@, c, s.len() as int);
    }
    None
}

/// The numeric characters of `s` (`char::is_numeric`), in order.
pub open spec fn numeric_only(s: Seq<char>) -> Seq<char>
    decreases s.len(),
{
    if s.len() == 0 {
        Seq::empty()
    } else if char_numeric(s.last()) {
        numeric_only(s.drop_last()).push(s.last())
    } else {
        numeric_only(s.drop_last())
    }
}

fn numeric_only_exec(s: &Vec<char>) -> (r: Vec<char>)
    ensures
        r@ == numeric_only(s@),
{
    let mut r: Vec<char> = Vec::new();
    let mut i: usize = 0;
    while i < s.len()
        invariant
            i <= s.len(),
            r@ == numeric_only(s@.take(i as int)),
        decreases s.len() - i,
    {
        assert(s@.take(i + 1).drop_last() =~= s@.take(i as int));
        assert(s@.take(i + 1).last() == s@[i as int]);
        if is_numeric(s[i]) {
            r.push(s[i]);
        }
        i = i + 1;
    }
    assert(s@.take(s.len() as int) =~= s@);
    r
}

/// Leading `'-'` removed (`trim_start_matches('-')`).
pub open spec fn trim_start_dashes(s: Seq<char>) -> Seq<char> {
    drop_lead(s, |c: char| c == '-')
}

/// Leading and trailing `'['` and `']'` removed.
pub open spec fn trim_square_brackets(s: Seq<char>) -> Seq<char> {
    drop_trail(drop_lead(s, |c: char| c == '[' || c == ']'), |c: char| c == '[' || c == ']')
}

/// Leading characters that are not numeric removed.
pub open spec fn trim_start_non_numeric(s: Seq<char>) -> Seq<char> {
    drop_lead(s, |c: char| !char_numeric(c))
}

fn trim_start_dashes_exec(s: &Vec<char>) -> (r: Vec<char>)
    ensures
        r@ == trim_start_dashes(s@),
{
    let ghost p = |c: char| c == '-';
    let mut lo: usize = 0;
    while lo < s.len() && s[lo] == '-'
        invariant
            lo <= s.len(),
            forall|j: int| 0 <= j < lo ==> #[trigger] s@[j] == '-',
        decreases s.len() - lo,
    {
        lo = lo + 1;
    }
    proof {
        assert forall|j: int| 0 <= j < lo implies #[trigger] p(s@[j]) by {}
        lemma_drop_lead(s@, p, lo as int);
    }
    slice_chars(s, lo, s.len())
}

fn trim_start_non_numeric_exec(s: &Vec<char>) -> (r: Vec<char>)
    ensures
        r@ == trim_start_non_numeric(s@),
{
    let ghost p = |c: char| !char_numeric(c);
    let mut lo: usize = 0;
    while lo < s.len() && !is_numeric(s[lo])
        invariant
            lo <= s.len(),
            forall|j: int| 0 <= j < lo ==> !char_numeric(#[trigger] s@[j]),
        decreases s.len() - lo,
    {
        lo = lo + 1;
    }
    proof {
        assert forall|j: int| 0 <= j < lo implies #[trigger] p(s@[j]) by {}
        lemma_drop_lead(s@, p, lo as int);
    }
    slice_chars(s, lo, s.len())
}

fn trim_square_brackets_exec(s: &Vec<char>) -> (r: Vec<char>)
    ensures
        r@ == trim_square_brackets(s@),
{
    let ghost p = |c: char| c == '[' || c == ']';
    let n = s.len();
    let mut lo: usize = 0;
    while lo < n && (s[lo] == '[' || s[lo] == ']')
        invariant
            lo <= n == s.len(),
            forall|j: int| 0 <= j < lo ==> (#[trigger] s@[j] == '[' || s@[j] == ']'),
        decreases n - lo,
    {
        lo = lo + 1;
    }
    let mut hi: usize = n;
    while hi > lo && (s[hi - 1] == '[' || s[hi - 1] == ']')
        invariant
            lo <= hi <= n == s.len(),
            forall|j: int| hi <= j < n ==> (#[trigger] s@[j] == '[' || s@[j] == ']'),
        decreases hi,
    {
        hi = hi - 1;
    }
    proof {
        assert forall|j: int| 0 <= j < lo implies #[trigger] p(s@[j]) by {}
        assert forall|j: int| hi <= j < n implies #[trigger] p(s@[j]) by {}
        lemma_strip(s@, p, lo as int, hi as int);
    }
    slice_chars(s, lo, hi)
}

/// The text of `name` before, and the text of, the leftmost match of `pat`.
pub open spec fn split_at_match(pat: Seq<char>, name: Seq<char>) -> Option<(Seq<char>, Seq<char>)> {
    match regex_first_match(pat, name) {
        Some(m) => Some((name.take(char_index_at(name, m.0)), byte_slice(name, m.0, m.1))),
        None => None,
    }
}

fn split_at_match_exec(pat: &str, name: &Vec<char>, name_str: &str) -> (r: Option<(Vec<char>, Vec<char>)>)
    requires
        name@ == name_str@,
    ensures
        r matches Some(p) ==> split_at_match(pat@, name@) == Some((p.0@, p.1@)),
        r is None ==> split_at_match(pat@, name@) is None,
{
    match regex_find(pat, name_str) {
        Some(m) => {
            let (a, b) = span_chars(name, m.0, m.1);
            let before = slice_chars(name, 0, a);
            let matched = slice_chars(name, a, b);
            assert(before@ =~= name@.take(a as int));
            Some((before, matched))
        },
        None => None,
    }
}

/// The season number in a folder name such as `Season 1` or `S01`: the
/// numeric characters of the first season match, parsed.
pub open spec fn season_from_folder(folder_name: Seq<char>) -> Option<i32> {
    match split_at_match(FOLDER_SEASON@, folder_name) {
        Some((_, t)) => parse_i32(numeric_only(t)),
        None => None,
    }
}

/// The season number in a folder name (`Season 1`, `season 01`, `S01`,
/// `s1`); `None` when there is no season marker or its digits do not parse.
pub fn extract_season_from_folder(folder_name: &str) -> (r: Option<i32>)
    ensures
        r == season_from_folder(folder_name@),
{
    let v = chars_of(folder_name);
    match split_at_match_exec(FOLDER_SEASON, &v, folder_name) {
        Some((_, t)) => parse_i32_chars(&numeric_only_exec(&t)),
        None => None,
    }
}

/// Season from the name of the folder that holds `filepath`.
pub open spec fn folder_season(filepath: Seq<char>) -> Option<i32> {
    match path_parent_of(filepath) {
        Some(p) => match path_file_name_of(p) {
            Some(f) => season_from_folder(f),
            None => None,
        },
        None => None,
    }
}

fn folder_season_exec(filepath: &str) -> (r: Option<i32>)
    ensures
        r == folder_season(filepath@),
{
    match path_parent(filepath) {
        Some(p) => match path_file_name(p.as_str()) {
            Some(f) => extract_season_from_folder(f.as_str()),
            None => None,
        },
        None => None,
    }
}

/// Season and episode of an `S01E05` match: upper-cased, the digits between
/// the first `S` and the first `E`, and those after that `E`.
pub open spec fn se_numbers(t: Seq<char>) -> (Option<i32>, Option<i32>) {
    let u = unicode_uppercase(t);
    match (first_index(u, 'S'), first_index(u, 'E')) {
        (Some(s), Some(e)) => (parse_i32(u.subrange(s + 1, e)), parse_i32(u.subrange(e + 1, u.len() as int))),
        _ => (None, None),
    }
}

/// The `S` of an upper-cased `S01E05` match comes before its `E` (the
/// slice between them exists).
pub open spec fn se_numbers_defined(t: Seq<char>) -> bool {
    let u = unicode_uppercase(t);
    match (first_index(u, 'S'), first_index(u, 'E')) {
        (Some(s), Some(e)) => s + 1 <= e,
        _ => true,
    }
}

/// The two sides of a text that holds exactly one `'x'`.
pub open spec fn split_once_x(t: Seq<char>) -> Option<(Seq<char>, Seq<char>)> {
    match first_index(t, 'x') {
        Some(k) => if first_index(t.subrange(k + 1, t.len() as int), 'x') is None {
            Some((t.take(k), t.subrange(k + 1, t.len() as int)))
        } else {
            None
        },
        None => None,
    }
}

/// Episode number of an `E05` match: trimmed and upper-cased, what follows
/// the first `E`, trimmed.
pub open spec fn e_number(t: Seq<char>) -> Option<i32> {
    let u = unicode_uppercase(trim(t));
    match first_index(u, 'E') {
        Some(e) => parse_i32(trim(u.subrange(e + 1, u.len() as int))),
        None => None,
    }
}

/// The show name (before clean-up), season and episode read from a file
/// name, trying `S01E05`, `1x05`, `E05`, ` - 01`, `[01]` and `Ep. 01` in
/// turn; for the last four the season comes from the folder name.
pub open spec fn tv_show_raw(filepath: Seq<char>) -> (Seq<char>, Option<i32>, Option<i32>) {
    let name = name_without_extension(filepath);
    match split_at_match(SEASON_EPISODE_NUMBER@, name) {
        Some((before, t)) => (before, se_numbers(t).0, se_numbers(t).1),
        None => match split_at_match(SEASON_EPISODE_X_FORMAT@, name) {
            Some((before, t)) => match split_once_x(t) {
                Some((a, b)) => (before, parse_i32(a), parse_i32(b)),
                None => (before, None, None),
            },
            None => match split_at_match(EPISODE_NUMBER@, name) {
                Some((before, t)) => (before, folder_season(filepath), e_number(t)),
                None => match split_at_match(DASH_NUMBER@, name) {
                    Some((before, t)) => (before, folder_season(filepath), parse_i32(trim(trim_start_dashes(trim(t))))),
                    None => match split_at_match(BRACKETED_NUMBER@, name) {
                        Some((before, t)) => (before, folder_season(filepath), parse_i32(trim_start_non_numeric(trim_square_brackets(t)))),
                        None => match split_at_match(EP_PREFIX@, name) {
                            Some((before, t)) => (before, folder_season(filepath), parse_i32(numeric_only(t))),
                            None => (name, None, None),
                        },
                    },
                },
            },
        },
    }
}

/// A show name cleaned: trimmed, bracketed text dropped, punctuation runs
/// turned into single spaces, trimmed again.
pub open spec fn clean_show_name(s: Seq<char>) -> Seq<char> {
    trim(alphanumeric_with_spaces(trim(outside_brackets(trim(s)))))
}

/// What `get_tv_show_info_from_filename` returns.
pub open spec fn tv_show_info(filepath: Seq<char>) -> (Seq<char>, Option<i32>, Option<i32>) {
    let raw = tv_show_raw(filepath);
    (clean_show_name(raw.0), raw.1, raw.2)
}

/// The file name can be read without slicing an `S01E05` match backwards.
pub open spec fn tv_show_info_defined(filepath: Seq<char>) -> bool {
    match split_at_match(SEASON_EPISODE_NUMBER@, name_without_extension(filepath)) {
        Some((_, t)) => se_numbers_defined(t),
        None => true,
    }
}

fn se_numbers_exec(t: &Vec<char>) -> (r: Option<(Option<i32>, Option<i32>)>)
    ensures
        r matches Some(p) ==> se_numbers_defined(t@) && p == se_numbers(t@),
        r is None ==> !se_numbers_defined(t@),
{
    let ts = string_from_chars(t);
    let u = chars_of(to_uppercase(ts.as_str()).as_str());
    match (find_char(&u, 'S'), find_char(&u, 'E')) {
        (Some(s), Some(e)) => {
            if s + 1 > e {
                None
            } else {
                let season = parse_i32_chars(&slice_chars(&u, s + 1, e));
                let episode = parse_i32_chars(&slice_chars(&u, e + 1, u.len()));
                Some((season, episode))
            }
        },
        _ => Some((None, None)),
    }
}

fn split_once_x_exec(t: &Vec<char>) -> (r: Option<(Vec<char>, Vec<char>)>)
    ensures
        r matches Some(p) ==> split_once_x(t@) == Some((p.0@, p.1@)),
        r is None ==> split_once_x(t@) is None,
{
    match find_char(t, 'x') {
        Some(k) => {
            let rest = slice_chars(t, k + 1, t.len());
            match find_char(&rest, 'x') {
                Some(_) => None,
                None => {
                    let a = slice_chars(t, 0, k);
                    assert(a@ =~= t@.take(k as int));
                    Some((a, rest))
                },
            }
        },
        None => None,
    }
}

fn e_number_exec(t: &Vec<char>) -> (r: Option<i32>)
    ensures
        r == e_number(t@),
{
    let tt = string_from_chars(&trim_chars(t));
    let u = chars_of(to_uppercase(tt.as_str()).as_str());
    match find_char(&u, 'E') {
        Some(e) => parse_i32_chars(&trim_chars(&slice_chars(&u, e + 1, u.len()))),
        None => None,
    }
}

fn clean_show_name_exec(s: &Vec<char>) -> (r: String)
    ensures
        r@ == clean_show_name(s@),
{
    let a = string_from_chars(&trim_chars(s));
    let b = remove_square_bracket_text(a.as_str());
    let c = make_alphanumeric_with_spaces(b.as_str());
    string_from_chars(&trim_chars(&chars_of(c.as_str())))
}

/// `tv_show_info`, or `None` where an `S01E05` match would be sliced
/// backwards.
pub fn try_get_tv_show_info(filepath: &str) -> (r: Option<(String, Option<i32>, Option<i32>)>)
    ensures
        r is None <==> !tv_show_info_defined(filepath@),
        r matches Some(v) ==> (v.0@, v.1, v.2) == tv_show_info(filepath@),
{
    let filename = remove_extension_and_path(filepath);
    let name = chars_of(filename.as_str());
    let ns = filename.as_str();
    let (show, season, episode) = match split_at_match_exec(SEASON_EPISODE_NUMBER, &name, ns) {
        Some((before, t)) => match se_numbers_exec(&t) {
            Some((s, e)) => (before, s, e),
            None => {
                return None;
            },
        },
        None => match split_at_match_exec(SEASON_EPISODE_X_FORMAT, &name, ns) {
            Some((before, t)) => match split_once_x_exec(&t) {
                Some((a, b)) => (before, parse_i32_chars(&a), parse_i32_chars(&b)),
                None => (before, None, None),
            },
            None => match split_at_match_exec(EPISODE_NUMBER, &name, ns) {
                Some((before, t)) => (before, folder_season_exec(filepath), e_number_exec(&t)),
                None => match split_at_match_exec(DASH_NUMBER, &name, ns) {
                    Some((before, t)) => {
                        let n = trim_chars(&trim_start_dashes_exec(&trim_chars(&t)));
                        (before, folder_season_exec(filepath), parse_i32_chars(&n))
                    },
                    None => match split_at_match_exec(BRACKETED_NUMBER, &name, ns) {
                        Some((before, t)) => {
                            let n = trim_start_non_numeric_exec(&trim_square_brackets_exec(&t));
                            (before, folder_season_exec(filepath), parse_i32_chars(&n))
                        },
                        None => match split_at_match_exec(EP_PREFIX, &name, ns) {
                            Some((before, t)) => (before, folder_season_exec(filepath), parse_i32_chars(&numeric_only_exec(&t))),
                            None => (name, None, None),
                        },
                    },
                },
            },
        },
    };
    Some((clean_show_name_exec(&show), season, episode))
}

/// Show name, season and episode from a file name: `S01E05`, then `1x05`,
/// then `E05`, ` - 01`, `[01]` or `Ep. 01` with the season taken from the
/// folder name; the show name is the cleaned text before the match, or the
/// whole name when nothing matches.
pub fn get_tv_show_info_from_filename(filepath: &str) -> (r: (String, Option<i32>, Option<i32>))
    requires
        tv_show_info_defined(filepath@),
    ensures
        (r.0@, r.1, r.2) == tv_show_info(filepath@),
{
    match try_get_tv_show_info(filepath) {
        Some(v) => v,
        None => (String::new(), None, None),
    }
}

/// Years read from capture group 1 of the matches `caps` in `hay`: those
/// that parse as a year from 1888 to `current_year`, each with its match's
/// byte span and the byte offset where the year itself starts.
pub open spec fn year_entries(caps: Seq<(int, int, Option<(int, int)>)>, hay: Seq<char>, current_year: i32) -> Seq<(i32, int, int, int)>
    decreases caps.len(),
{
    if caps.len() == 0 {
        Seq::empty()
    } else {
        let rest = year_entries(caps.drop_last(), hay, current_year);
        let c = caps.last();
        match c.2 {
            Some(g) => match parse_i32(byte_slice(hay, g.0, g.1)) {
                Some(y) => if 1888 <= y && y <= current_year {
                    rest.push((y, c.0, c.1, g.0))
                } else {
                    rest
                },
                None => rest,
            },
            None => rest,
        }
    }
}

/// The plausible years that `pat` finds in `hay`.
pub open spec fn years_found(pat: Seq<char>, hay: Seq<char>, current_year: i32) -> Seq<(i32, int, int, int)> {
    year_entries(regex_all_captures(pat, hay), hay, current_year)
}

/// Plausible years (1888 up to `current_year`) found by `pattern`'s first
/// capture group in `filename`, each with the byte span of its match and
/// the byte offset where the year starts.
pub fn regex_find_year(pattern: &str, filename: &str, current_year: i32) -> (r: Vec<(i32, usize, usize, usize)>)
    ensures
        r@.map_values(|e: (i32, usize, usize, usize)| (e.0, e.1 as int, e.2 as int, e.3 as int)) == years_found(pattern@, filename@, current_year),
        forall|i: int| 0 <= i < r@.len() ==> is_span(filename@, #[trigger] r@[i].1 as int, r@[i].2 as int),
        forall|i: int| 0 <= i < r@.len() ==> is_char_boundary(filename@, #[trigger] r@[i].3 as int),
{
    let caps = regex_captures_all(pattern, filename);
    let ghost cv = caps@.map_values(|c: (usize, usize, Option<(usize, usize)>)| capture_view(c));
    let hay = chars_of(filename);
    let mut out: Vec<(i32, usize, usize, usize)> = Vec::new();
    let mut i: usize = 0;
    while i < caps.len()
        invariant
            i <= caps.len(),
            hay@ == filename@,
            cv == caps@.map_values(|c: (usize, usize, Option<(usize, usize)>)| capture_view(c)),
            cv == regex_all_captures(pattern@, filename@),
            forall|k: int| 0 <= k < caps@.len() ==> is_span(filename@, #[trigger] caps@[k].0 as int, caps@[k].1 as int),
            forall|k: int| 0 <= k < caps@.len() ==> (#[trigger] caps@[k].2 matches Some(g) ==> is_span(filename@, g.0 as int, g.1 as int)),
            out@.map_values(|e: (i32, usize, usize, usize)| (e.0, e.1 as int, e.2 as int, e.3 as int)) == year_entries(cv.take(i as int), filename@, current_year),
            forall|k: int| 0 <= k < out@.len() ==> is_span(filename@, #[trigger] out@[k].1 as int, out@[k].2 as int),
            forall|k: int| 0 <= k < out@.len() ==> is_char_boundary(filename@, #[trigger] out@[k].3 as int),
        decreases caps.len() - i,
    {
        let c = caps[i];
        proof {
            assert(cv.take(i + 1).drop_last() =~= cv.take(i as int));
            assert(cv.take(i + 1).last() == capture_view(c));
            assert(is_span(filename@, caps@[i as int].0 as int, caps@[i as int].1 as int));
        }
        let ghost before = out@;
        match c.2 {
            Some(g) => {
                assert(caps@[i as int].2 matches Some(h) ==> is_span(filename@, h.0 as int, h.1 as int));
                let (a, b) = span_chars(&hay, g.0, g.1);
                match parse_i32_chars(&slice_chars(&hay, a, b)) {
                    Some(y) => {
                        if 1888 <= y && y <= current_year {
                            out.push((y, c.0, c.1, g.0));
                            assert(out@.map_values(|e: (i32, usize, usize, usize)| (e.0, e.1 as int, e.2 as int, e.3 as int)) =~= before.map_values(
                                |e: (i32, usize, usize, usize)| (e.0, e.1 as int, e.2 as int, e.3 as int),
                            ).push((y, c.0 as int, c.1 as int, g.0 as int)));
                        }
                    },
                    None => {},
                }
            },
            None => {},
        }
        i = i + 1;
    }
    assert(cv.take(caps.len() as int) =~= cv);
    out
}

/// The end of the title: the earliest start of a noise match, at most
/// `end` (patterns applied in order, each moving the end left).
pub open spec fn noise_end(pats: Seq<Seq<char>>, f: Seq<char>, end: int) -> int
    decreases pats.len(),
{
    if pats.len() == 0 {
        end
    } else {
        let e = noise_end(pats.drop_last(), f, end);
        match regex_first_match(pats.last(), f) {
            Some(m) => if m.0 < e {
                m.0
            } else {
                e
            },
            None => e,
        }
    }
}

/// The name searched and the years found in it: years in brackets in the
/// bare name; failing that the name with bracketed text dropped and
/// punctuation turned into spaces, searched for a year between spaces and
/// then for any four digits that are not a resolution.
pub open spec fn movie_name_and_years(filename_or_path: Seq<char>, current_year: i32) -> (Seq<char>, Seq<(i32, int, int, int)>) {
    let f0 = name_without_extension(filename_or_path);
    let y0 = years_found(YEAR_IN_BRACKETS@, f0, current_year);
    if y0.len() > 0 {
        (f0, y0)
    } else {
        let f1 = alphanumeric_with_spaces(trim(outside_brackets(f0)));
        let y1 = years_found(YEAR_IN_SPACES@, f1, current_year);
        if y1.len() > 0 {
            (f1, y1)
        } else {
            (f1, years_found(YEAR_ANYWHERE@, f1, current_year))
        }
    }
}

/// The years came from the last search, for four digits anywhere in the
/// text.
pub open spec fn year_in_running_text(filename_or_path: Seq<char>, current_year: i32) -> bool {
    let f0 = name_without_extension(filename_or_path);
    let f1 = alphanumeric_with_spaces(trim(outside_brackets(f0)));
    years_found(YEAR_IN_BRACKETS@, f0, current_year).len() == 0 && years_found(YEAR_IN_SPACES@, f1, current_year).len()
        == 0
}

/// Where a title before the last year found ends: where that year's match
/// starts (the bracket or white space before the year is no part of the
/// title), but at the year itself for a year in running text, whose match
/// takes the character before it, which can be the title's last letter.
pub open spec fn year_title_end(filename_or_path: Seq<char>, current_year: i32) -> int {
    let (f, ys) = movie_name_and_years(filename_or_path, current_year);
    if year_in_running_text(filename_or_path, current_year) {
        ys.last().3
    } else {
        ys.last().1
    }
}

/// Byte offsets of the title within the searched name: before the last year
/// found if that is not at the start; otherwise from after it (or from the
/// start, without a year) to the earliest release noise.
pub open spec fn movie_title_span(filename_or_path: Seq<char>, current_year: i32) -> (int, int) {
    let (f, ys) = movie_name_and_years(filename_or_path, current_year);
    if ys.len() > 0 && year_title_end(filename_or_path, current_year) > 0 {
        (0, year_title_end(filename_or_path, current_year))
    } else {
        let start = if ys.len() > 0 {
            ys.last().2
        } else {
            0
        };
        (start, noise_end(noise_patterns(), f, utf8_len(f) as int))
    }
}

/// The title starts no later than it ends, so that slicing the name for it
/// is possible.
pub open spec fn movie_title_defined(filename_or_path: Seq<char>, current_year: i32) -> bool {
    movie_title_span(filename_or_path, current_year).0 <= movie_title_span(filename_or_path, current_year).1
}

/// Title and year estimated from a file name, with `current_year` as the
/// latest plausible year: the last year found, and the text of
/// `movie_title_span`.
pub open spec fn movie_title_and_year_of(filename_or_path: Seq<char>, current_year: i32) -> (Seq<char>, Option<i32>) {
    let (f, ys) = movie_name_and_years(filename_or_path, current_year);
    let (a, b) = movie_title_span(filename_or_path, current_year);
    (byte_slice(f, a, b), if ys.len() > 0 {
        Some(ys.last().0)
    } else {
        None
    })
}

proof fn lemma_boundaries(s: Seq<char>)
    ensures
        is_char_boundary(s, 0),
        is_char_boundary(s, utf8_len(s) as int),
{
    assert(s.take(0) =~= Seq::<char>::empty());
    assert(vstd::utf8::encode_utf8(Seq::<char>::empty()).len() == 0);
    assert(utf8_len(s.take(0)) == 0);
    assert(s.take(s.len() as int) =~= s);
    assert(utf8_len(s.take(s.len() as int)) == utf8_len(s));
}

/// `movie_title_and_year_of`, or `None` where the title would be sliced
/// backwards.
pub fn try_movie_title_and_year(filename_or_path: &str, current_year: i32) -> (r: Option<(String, Option<i32>)>)
    ensures
        r is None <==> !movie_title_defined(filename_or_path@, current_year),
        r matches Some(v) ==> (v.0@, v.1) == movie_title_and_year_of(filename_or_path@, current_year),
{
    let mut filename = remove_extension_and_path(filename_or_path);
    let mut years = regex_find_year(YEAR_IN_BRACKETS, filename.as_str(), current_year);
    let mut running = false;
    if years.len() == 0 {
        let stripped = remove_square_bracket_text(filename.as_str());
        filename = make_alphanumeric_with_spaces(stripped.as_str());
        years = regex_find_year(YEAR_IN_SPACES, filename.as_str(), current_year);
        if years.len() == 0 {
            years = regex_find_year(YEAR_ANYWHERE, filename.as_str(), current_year);
            running = true;
        }
    }
    let ghost f = filename@;
    let ghost ys = years@.map_values(|e: (i32, usize, usize, usize)| (e.0, e.1 as int, e.2 as int, e.3 as int));
    assert((f, ys) == movie_name_and_years(filename_or_path@, current_year));
    assert(running == year_in_running_text(filename_or_path@, current_year));
    let fv = chars_of(filename.as_str());
    proof {
        lemma_boundaries(f);
    }
    let mut start: usize = 0;
    let mut year: Option<i32> = None;
    if years.len() > 0 {
        let last = years[years.len() - 1];
        assert(ys.last() == (last.0, last.1 as int, last.2 as int, last.3 as int));
        assert(is_span(f, years@[years.len() - 1].1 as int, years@[years.len() - 1].2 as int));
        assert(is_char_boundary(f, years@[years.len() - 1].3 as int));
        year = Some(last.0);
        let title_end = if running {
            last.3
        } else {
            last.1
        };
        assert(title_end == year_title_end(filename_or_path@, current_year));
        if title_end > 0 {
            let (a, b) = span_chars(&fv, 0, title_end);
            return Some((string_from_chars(&slice_chars(&fv, a, b)), year));
        }
        start = last.2;
    }
    let pats = noise_pattern_list();
    let ghost np = noise_patterns();
    let mut end: usize = byte_len(filename.as_str());
    assert(np.take(0) =~= Seq::<Seq<char>>::empty());
    let mut i: usize = 0;
    while i < pats.len()
        invariant
            i <= pats.len(),
            fv@ == f,
            filename@ == f,
            np == noise_patterns(),
            pats@.map_values(|p: &str| p@) == np,
            end == noise_end(np.take(i as int), f, utf8_len(f) as int),
            is_char_boundary(f, end as int),
        decreases pats.len() - i,
    {
        assert(np.take(i + 1).drop_last() =~= np.take(i as int));
        assert(np.take(i + 1).last() == pats@[i as int]@);
        match regex_find(pats[i], filename.as_str()) {
            Some(m) => {
                if m.0 < end {
                    end = m.0;
                }
            },
            None => {},
        }
        i = i + 1;
    }
    assert(np.take(pats.len() as int) =~= np);
    if start > end {
        return None;
    }
    proof {
        if years.len() > 0 {
            assert(is_span(f, years@[years.len() - 1].1 as int, years@[years.len() - 1].2 as int));
        }
    }
    let (a, b) = span_chars(&fv, start, end);
    Some((string_from_chars(&slice_chars(&fv, a, b)), year))
}

/// Title and year estimated from a file name (see `movie_title_and_year_of`),
/// with `current_year` as the latest plausible year. The result is an
/// estimate: a title that holds a plausible year can lose that year.
pub fn movie_title_and_year(filename_or_path: &str, current_year: i32) -> (r: (String, Option<i32>))
    requires
        movie_title_defined(filename_or_path@, current_year),
    ensures
        (r.0@, r.1) == movie_title_and_year_of(filename_or_path@, current_year),
{
    match try_movie_title_and_year(filename_or_path, current_year) {
        Some(v) => v,
        None => (String::new(), None),
    }
}

/// The current calendar year in UTC (`chrono::Utc::now()` and
/// `Datelike::year`). It depends on the clock, so nothing is stated of it.
#[verifier::external_body]
pub(crate) fn current_year() -> (r: i32) {
    chrono::Datelike::year(&chrono::Utc::now())
}

/// Title and year estimated from a file name, with the current year as the
/// latest plausible one; `None` where the title would be sliced backwards.
pub fn get_movie_title_and_year_from_filename(filename_or_path: &str) -> (r: Option<(String, Option<i32>)>)
    ensures
        exists|current_year: i32|
            {
                &&& (r is None <==> !movie_title_defined(filename_or_path@, current_year))
                &&& (r matches Some(v) ==> (v.0@, v.1) == movie_title_and_year_of(filename_or_path@, current_year))
            },
{
    let cy = current_year();
    try_movie_title_and_year(filename_or_path, cy)
}

/// Text in square brackets (a release-group tag such as `[YTS]`) has no
/// part in a title read without a bracketed year: two file names whose stems
/// differ only by such text, and that hold no year in brackets, give the
/// same title and year.
pub proof fn lemma_movie_title_ignores_bracket_text(p: Seq<char>, q: Seq<char>, current_year: i32)
    requires
        name_without_extension(q) == outside_brackets(name_without_extension(p)),
        years_found(YEAR_IN_BRACKETS@, name_without_extension(p), current_year).len() == 0,
        years_found(YEAR_IN_BRACKETS@, name_without_extension(q), current_year).len() == 0,
    ensures
        movie_title_defined(p, current_year) == movie_title_defined(q, current_year),
        movie_title_and_year_of(p, current_year) == movie_title_and_year_of(q, current_year),
{
    let o = outside_brackets(name_without_extension(p));
    lemma_outside_brackets_has_none(name_without_extension(p));
    lemma_outside_brackets_of_plain(o);
    assert(outside_brackets(name_without_extension(q)) == outside_brackets(name_without_extension(p)));
    assert(movie_name_and_years(p, current_year) == movie_name_and_years(q, current_year));
    assert(year_in_running_text(p, current_year) == year_in_running_text(q, current_year));
}

/// The season of a file named by episode number only (`E05`, ` - 05`,
/// `[05]` or `Ep. 5`, with no `S01E05` or `1x05`) is the season read from
/// the name of the folder that holds it.
pub proof fn lemma_season_from_folder_for_episode_numbers(filepath: Seq<char>)
    requires
        regex_first_match(SEASON_EPISODE_NUMBER@, name_without_extension(filepath)) is None,
        regex_first_match(SEASON_EPISODE_X_FORMAT@, name_without_extension(filepath)) is None,
        regex_first_match(EPISODE_NUMBER@, name_without_extension(filepath)) is Some
            || regex_first_match(DASH_NUMBER@, name_without_extension(filepath)) is Some
            || regex_first_match(BRACKETED_NUMBER@, name_without_extension(filepath)) is Some
            || regex_first_match(EP_PREFIX@, name_without_extension(filepath)) is Some,
    ensures
        tv_show_info_defined(filepath),
        tv_show_info(filepath).1 == match path_parent_of(filepath) {
            Some(folder_path) => match path_file_name_of(folder_path) {
                Some(folder) => season_from_folder(folder),
                None => None,
            },
            None => None,
        },
{
}

} // verus!
