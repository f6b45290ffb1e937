//! Regular-expression searches, run by the `regex` crate.
//!
//! What a pattern matches is named, not written out: `regex_first_match` is
//! the leftmost-first match of a pattern in a text (`None` also when the
//! pattern does not compile) and `regex_all_captures` the successive
//! non-overlapping matches with the span of capture group 1. Spans are byte
//! offsets into the text's UTF-8 encoding.
use vstd::prelude::*;
use crate::text::{is_char_boundary, char_index_at, char_index_of_byte, lemma_utf8_prefix_monotone};

verus! {

/// Byte span of the leftmost-first match of `pattern` in `hay`; `None`
/// when there is none or the pattern does not compile.
pub uninterp spec fn regex_first_match(pattern: Seq<char>, hay: Seq<char>) -> Option<(int, int)>;

/// Successive non-overlapping matches of `pattern` in `hay`: the byte span of
/// each match and that of its capture group 1, if it took part. Empty when
/// the pattern does not compile.
pub uninterp spec fn regex_all_captures(pattern: Seq<char>, hay: Seq<char>) -> Seq<(int, int, Option<(int, int)>)>;

/// A byte span of `hay` that starts and ends between characters.
pub open spec fn is_span(hay: Seq<char>, a: int, b: int) -> bool {
    a <= b && is_char_boundary(hay, a) && is_char_boundary(hay, b)
}

/// `Regex::new(pattern)` then `Regex::find(hay)`, giving the match's byte
/// span: the result is `regex_first_match`; a match span lies on character
/// boundaries with its start not after its end (as `regex::Match` documents).
#[verifier::external_body]
pub(crate) fn regex_find(pattern: &str, hay: &str) -> (r: Option<(usize, usize)>)
    ensures
        r matches Some(m) ==> regex_first_match(pattern@, hay@) == Some((m.0 as int, m.1 as int))
            && is_span(hay@, m.0 as int, m.1 as int),
        r is None ==> regex_first_match(pattern@, hay@) is None,
{
    match regex::Regex::new(pattern) {
        Ok(re) => match re.find(hay) {
            Some(m) => Some((m.start(), m.end())),
            None => None,
        },
        Err(_) => None,
    }
}

/// `Regex::new(pattern)` then `Regex::is_match(hay)`: true exactly when
/// there is a match (when `find` would give one); false when the pattern
/// does not compile.
#[verifier::external_body]
pub(crate) fn regex_is_match(pattern: &str, hay: &str) -> (r: bool)
    ensures
        r == regex_first_match(pattern@, hay@) is Some,
{
    match regex::Regex::new(pattern) {
        Ok(re) => re.is_match(hay),
        Err(_) => false,
    }
}

pub open spec fn capture_view(c: (usize, usize, Option<(usize, usize)>)) -> (int, int, Option<(int, int)>) {
    (c.0 as int, c.1 as int, match c.2 {
        Some(g) => Some((g.0 as int, g.1 as int)),
        None => None,
    })
}

/// `Regex::new(pattern)` then `Regex::captures_iter(hay)`, giving for each
/// match the byte span of group 0 and of group 1: the result is
/// `regex_all_captures`; every span lies on character boundaries.
#[verifier::external_body]
pub(crate) fn regex_captures_all(pattern: &str, hay: &str) -> (r: Vec<(usize, usize, Option<(usize, usize)>)>)
    ensures
        r@.map_values(|c: (usize, usize, Option<(usize, usize)>)| capture_view(c))
            == regex_all_captures(pattern@, hay@),
        forall|i: int| 0 <= i < r@.len() ==> is_span(hay@, #[trigger] r@[i].0 as int, r@[i].1 as int),
        forall|i: int| 0 <= i < r@.len() ==> (#[trigger] r@[i].2 matches Some(g) ==> is_span(hay@, g.0 as int, g.1 as int)),
{
    match regex::Regex::new(pattern) {
        Ok(re) => {
            let mut out = Vec::new();
            for cap in re.captures_iter(hay) {
                let m0 = cap.get(0).unwrap();
                out.push((m0.start(), m0.end(), cap.get(1).map(|g| (g.start(), g.end()))));
            }
            out
        },
        Err(_) => Vec::new(),
    }
}

/// `hay` with the leftmost-first match of `pattern` replaced by `rep`.
pub open spec fn replace_first(pattern: Seq<char>, hay: Seq<char>, rep: Seq<char>) -> Seq<char> {
    match regex_first_match(pattern, hay) {
        Some(m) => hay.take(char_index_at(hay, m.0)) + rep + hay.skip(char_index_at(hay, m.1)),
        None => hay,
    }
}

/// `hay` from character `from` on, with the matches `ms` replaced by `rep`.
pub open spec fn replace_from(hay: Seq<char>, ms: Seq<(int, int, Option<(int, int)>)>, rep: Seq<char>, from: int) -> Seq<char>
    decreases ms.len(),
{
    if ms.len() == 0 {
        hay.subrange(from, hay.len() as int)
    } else {
        hay.subrange(from, char_index_at(hay, ms[0].0)) + rep + replace_from(
            hay,
            ms.drop_first(),
            rep,
            char_index_at(hay, ms[0].1),
        )
    }
}

/// `hay` with every match of `pattern` replaced by `rep`.
pub open spec fn replace_every(pattern: Seq<char>, hay: Seq<char>, rep: Seq<char>) -> Seq<char> {
    replace_from(hay, regex_all_captures(pattern, hay), rep, 0)
}

/// `Regex::new(pattern)` then `Regex::replace(hay, rep)` for a replacement
/// without `$` (taken literally): the leftmost-first match is replaced; the
/// text is unchanged without a match or when the pattern does not compile.
#[verifier::external_body]
pub(crate) fn regex_replace(pattern: &str, hay: &str, rep: &str) -> (r: String)
    requires
        !rep@.contains('$'),
    ensures
        r@ == replace_first(pattern@, hay@, rep@),
{
    match regex::Regex::new(pattern) {
        Ok(re) => re.replace(hay, rep).to_string(),
        Err(_) => hay.to_string(),
    }
}

/// `Regex::new(pattern)` then `Regex::replace_all(hay, rep)` for a
/// replacement without `$`: every match `captures_iter` yields is replaced.
#[verifier::external_body]
pub(crate) fn regex_replace_all(pattern: &str, hay: &str, rep: &str) -> (r: String)
    requires
        !rep@.contains('$'),
    ensures
        r@ == replace_every(pattern@, hay@, rep@),
{
    match regex::Regex::new(pattern) {
        Ok(re) => re.replace_all(hay, rep).to_string(),
        Err(_) => hay.to_string(),
    }
}

/// The character indices of a byte span of `s`.
pub fn span_chars(s: &Vec<char>, a: usize, b: usize) -> (r: (usize, usize))
    requires
        is_span(s@, a as int, b as int),
    ensures
        r.0 == char_index_at(s@, a as int),
        r.1 == char_index_at(s@, b as int),
        r.0 <= r.1 <= s.len(),
{
    let ka = char_index_of_byte(s, a);
    let kb = char_index_of_byte(s, b);
    match (ka, kb) {
        (Some(x), Some(y)) => {
            proof {
                if x > y {
                    lemma_utf8_prefix_monotone(s@, y as int, x as int);
                }
            }
            (x, y)
        },
        _ => {
            // both offsets are boundaries, so neither lookup fails
            proof {
                assert(false);
            }
            (0, 0)
        },
    }
}

} // verus!
