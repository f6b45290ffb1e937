//! Clean-up of file names before they are searched for: text in square
//! brackets dropped, punctuation turned into single spaces, white space
//! collapsed, and an edit distance to compare two names.
use vstd::prelude::*;
use crate::text::{chars_of, string_from_chars, trim, trim_chars, is_ws, is_whitespace, utf8_len, drop_lead, drop_trail, lemma_drop_lead_keeps, lemma_drop_trail_keeps, lemma_drop_lead_first, lemma_drop_trail_last, lemma_trim_ends, lemma_trim_idempotent, lemma_trim_of_trimmed};
use crate::unicode::{char_alphanumeric, char_alphabetic, extended_graphemes, graphemes, is_alphanumeric, is_alphabetic};

verus! {

/// Whether, after reading `s`, the reader is inside square brackets: the
/// last bracket character in `s` is `'['`.
pub open spec fn inside_brackets_after(s: Seq<char>) -> bool
    decreases s.len(),
{
    if s.len() == 0 {
        false
    } else if s.last() == '[' {
        true
    } else if s.last() == ']' {
        false
    } else {
        inside_brackets_after(s.drop_last())
    }
}

/// The characters of `s` that are neither brackets nor between a `'['` and
/// the next `']'` (an unclosed `'['` runs to the end).
pub open spec fn outside_brackets(s: Seq<char>) -> Seq<char>
    decreases s.len(),
{
    if s.len() == 0 {
        Seq::empty()
    } else {
        let c = s.last();
        let p = s.drop_last();
        if c == '[' || c == ']' || inside_brackets_after(p) {
            outside_brackets(p)
        } else {
            outside_brackets(p).push(c)
        }
    }
}

/// `[Commie] Neon Genesis Evangelion [BD 1080p]` becomes
/// `Neon Genesis Evangelion`: bracketed text removed, then trimmed.
pub fn remove_square_bracket_text(filename: &str) -> (r: String)
    ensures
        r@ == trim(outside_brackets(filename@)),
{
    let s = chars_of(filename);
    let mut out: Vec<char> = Vec::new();
    let mut inside = false;
    let mut i: usize = 0;
    while i < s.len()
        invariant
            i <= s.len(),
            inside == inside_brackets_after(s@.take(i as int)),
            out@ == outside_brackets(s@.take(i as int)),
        decreases s.len() - i,
    {
        let c = s[i];
        proof {
            assert(s@.take(i + 1).drop_last() =~= s@.take(i as int));
            assert(s@.take(i + 1).last() == c);
        }
        if c == '[' {
            inside = true;
        } else if c == ']' {
            inside = false;
        } else if !inside {
            out.push(c);
        }
        i = i + 1;
    }
    assert(s@.take(s.len() as int) =~= s@);
    let t = trim_chars(&out);
    string_from_chars(&t)
}

/// Some item before index `n` is kept.
pub open spec fn any_kept(items: Seq<Seq<char>>, keep: spec_fn(Seq<char>) -> bool, n: int) -> bool {
    exists|k: int| 0 <= k < n && #[trigger] keep(items[k])
}

/// The kept items concatenated, with exactly one space wherever a run of
/// dropped items separates two kept ones.
pub open spec fn spaced_join(items: Seq<Seq<char>>, keep: spec_fn(Seq<char>) -> bool) -> Seq<char>
    decreases items.len(),
{
    if items.len() == 0 {
        Seq::empty()
    } else {
        let p = items.drop_last();
        let acc = spaced_join(p, keep);
        let g = items.last();
        if !keep(g) {
            acc
        } else if p.len() > 0 && !keep(p.last()) && any_kept(p, keep, p.len() as int) {
            acc + seq![' '] + g
        } else {
            acc + g
        }
    }
}

/// A grapheme cluster holding an alphanumeric or alphabetic character.
pub open spec fn grapheme_is_word(g: Seq<char>) -> bool {
    exists|i: int| 0 <= i < g.len() && (char_alphanumeric(#[trigger] g[i]) || char_alphabetic(g[i]))
}

/// What `make_alphanumeric_with_spaces` gives: the word-like grapheme
/// clusters of `s`, runs of the others replaced by one space between them.
pub open spec fn alphanumeric_with_spaces(s: Seq<char>) -> Seq<char> {
    spaced_join(extended_graphemes(s), |g: Seq<char>| grapheme_is_word(g))
}

fn is_word_grapheme(g: &str) -> (r: bool)
    ensures
        r == grapheme_is_word(g@),
{
    let cs = chars_of(g);
    let mut i: usize = 0;
    while i < cs.len()
        invariant
            i <= cs.len(),
            cs@ == g@,
            forall|j: int| 0 <= j < i ==> !(char_alphanumeric(#[trigger] cs@[j]) || char_alphabetic(cs@[j])),
        decreases cs.len() - i,
    {
        if is_alphanumeric(cs[i]) || is_alphabetic(cs[i]) {
            return true;
        }
        i = i + 1;
    }
    false
}

proof fn lemma_any_kept_step(items: Seq<Seq<char>>, keep: spec_fn(Seq<char>) -> bool, i: int)
    requires
        0 <= i < items.len(),
    ensures
        any_kept(items, keep, i + 1) == (any_kept(items, keep, i) || keep(items[i])),
        any_kept(items.take(i + 1).drop_last(), keep, i) == any_kept(items, keep, i),
{
    assert(items.take(i + 1).drop_last() =~= items.take(i));
    if any_kept(items, keep, i + 1) && !keep(items[i]) {
        let k = choose|k: int| 0 <= k < i + 1 && #[trigger] keep(items[k]);
        assert(k < i);
    }
    if any_kept(items.take(i), keep, i) {
        let k = choose|k: int| 0 <= k < i && #[trigger] keep(items.take(i)[k]);
        assert(items.take(i)[k] == items[k]);
    }
    if any_kept(items, keep, i) {
        let k = choose|k: int| 0 <= k < i && #[trigger] keep(items[k]);
        assert(items.take(i)[k] == items[k]);
    }
}

/// `I.Do.Not.Care.2018.1080p-[YTS.MX]` becomes
/// `I Do Not Care 2018 1080p YTS MX`: every run of grapheme clusters without
/// a letter or digit becomes one space, none at either end.
pub fn make_alphanumeric_with_spaces(filename: &str) -> (r: String)
    ensures
        r@ == alphanumeric_with_spaces(filename@),
{
    let gs = graphemes(filename);
    let ghost items = extended_graphemes(filename@);
    let ghost keep = |g: Seq<char>| grapheme_is_word(g);
    let mut out: Vec<char> = Vec::new();
    let mut prev_word = false;
    let mut has_content = false;
    let mut i: usize = 0;
    while i < gs.len()
        invariant
            i <= gs.len(),
            items == gs@.map_values(|g: String| g@),
            keep == (|g: Seq<char>| grapheme_is_word(g)),
            out@ == spaced_join(items.take(i as int), keep),
            has_content == any_kept(items, keep, i as int),
            prev_word == (i > 0 && keep(items[i - 1])),
        decreases gs.len() - i,
    {
        let w = is_word_grapheme(gs[i].as_str());
        proof {
            assert(items[i as int] == gs@[i as int]@);
            let t = items.take(i + 1);
            assert(t.drop_last() =~= items.take(i as int));
            assert(t.last() == items[i as int]);
            lemma_any_kept_step(items, keep, i as int);
            if i > 0 {
                assert(t.drop_last().last() == items[i - 1]);
            }
        }
        if w {
            if !prev_word && has_content {
                out.push(' ');
            }
            let g = chars_of(gs[i].as_str());
            let mut j: usize = 0;
            let ghost before = out@;
            while j < g.len()
                invariant
                    j <= g.len(),
                    out@ == before + g@.take(j as int),
                decreases g.len() - j,
            {
                out.push(g[j]);
                j = j + 1;
            }
            assert(g@.take(g.len() as int) =~= g@);
            prev_word = true;
            has_content = true;
        } else {
            prev_word = false;
        }
        i = i + 1;
    }
    assert(items.take(gs.len() as int) =~= items);
    string_from_chars(&out)
}

/// White space collapsed: the non-white-space characters of `s`, with one
/// space wherever white space separates two of them (the words of
/// `split_whitespace` joined by single spaces).
pub open spec fn collapse_spaces(s: Seq<char>) -> Seq<char>
    decreases s.len(),
{
    if s.len() == 0 {
        Seq::empty()
    } else {
        let p = s.drop_last();
        let acc = collapse_spaces(p);
        let c = s.last();
        if is_ws(c) {
            acc
        } else if p.len() > 0 && is_ws(p.last()) && exists|k: int| 0 <= k < p.len() && !is_ws(#[trigger] p[k]) {
            acc.push(' ').push(c)
        } else {
            acc.push(c)
        }
    }
}

/// `s.split_whitespace()` joined with single spaces.
pub fn normalize_spaces(s: &str) -> (r: String)
    ensures
        r@ == collapse_spaces(s@),
{
    let cs = chars_of(s);
    let mut out: Vec<char> = Vec::new();
    let mut prev_ws = false;
    let mut has_word = false;
    let mut i: usize = 0;
    while i < cs.len()
        invariant
            i <= cs.len(),
            out@ == collapse_spaces(cs@.take(i as int)),
            has_word == exists|k: int| 0 <= k < i && !is_ws(#[trigger] cs@[k]),
            prev_ws == (i > 0 && is_ws(cs@[i - 1])),
        decreases cs.len() - i,
    {
        let c = cs[i];
        let w = is_whitespace(c);
        proof {
            let t = cs@.take(i + 1);
            assert(t.drop_last() =~= cs@.take(i as int));
            assert(t.last() == c);
            if i > 0 {
                assert(t.drop_last().last() == cs@[i - 1]);
            }
            let p = t.drop_last();
            if has_word {
                let k = choose|k: int| 0 <= k < i && !is_ws(#[trigger] cs@[k]);
                assert(p[k] == cs@[k]);
            }
            if exists|k: int| 0 <= k < p.len() && !is_ws(#[trigger] p[k]) {
                let k = choose|k: int| 0 <= k < p.len() && !is_ws(#[trigger] p[k]);
                assert(p[k] == cs@[k]);
            }
        }
        if !w {
            if prev_ws && has_word {
                out.push(' ');
            }
            out.push(c);
            has_word = true;
        }
        prev_ws = w;
        i = i + 1;
        proof {
            if !has_word {
                assert forall|k: int| 0 <= k < i implies is_ws(#[trigger] cs@[k]) by {
                    if k == i - 1 {
                    } else {
                        assert(!(exists|k: int| 0 <= k < i - 1 && !is_ws(#[trigger] cs@[k])));
                    }
                }
            }
        }
    }
    assert(cs@.take(cs.len() as int) =~= cs@);
    string_from_chars(&out)
}

/// Edit distance (insertions, deletions and substitutions of characters).
pub open spec fn edit_distance(a: Seq<char>, b: Seq<char>) -> nat
    decreases a.len() + b.len(),
{
    if a.len() == 0 {
        b.len()
    } else if b.len() == 0 {
        a.len()
    } else {
        let del = edit_distance(a.drop_last(), b) + 1;
        let ins = edit_distance(a, b.drop_last()) + 1;
        let sub = edit_distance(a.drop_last(), b.drop_last()) + if a.last() == b.last() {
            0nat
        } else {
            1nat
        };
        if del <= ins && del <= sub {
            del
        } else if ins <= sub {
            ins
        } else {
            sub
        }
    }
}

/// All characters of `s` are ASCII (its UTF-8 length is its length).
pub open spec fn all_ascii(s: Seq<char>) -> bool {
    forall|i: int| 0 <= i < s.len() ==> (#[trigger] s[i] as u32) < 0x80
}

proof fn lemma_edit_distance_bound(a: Seq<char>, b: Seq<char>)
    ensures
        edit_distance(a, b) <= if a.len() <= b.len() { b.len() } else { a.len() },
    decreases a.len() + b.len(),
{
    if a.len() > 0 && b.len() > 0 {
        lemma_edit_distance_bound(a.drop_last(), b.drop_last());
    }
}

proof fn lemma_utf8_len_ascii(s: Seq<char>)
    ensures
        utf8_len(s) >= s.len(),
        utf8_len(s) == s.len() <==> all_ascii(s),
    decreases s.len(),
{
    if s.len() > 0 {
        let p = s.drop_last();
        lemma_utf8_len_ascii(p);
        assert(p.push(s.last()) =~= s);
        crate::text::lemma_utf8_len_push(p, s.last());
        if all_ascii(s) {
            assert forall|i: int| 0 <= i < p.len() implies (#[trigger] p[i] as u32) < 0x80 by {
                assert(p[i] == s[i]);
            }
        }
        if all_ascii(p) && (s.last() as u32) < 0x80 {
            assert forall|i: int| 0 <= i < s.len() implies (#[trigger] s[i] as u32) < 0x80 by {
                if i < p.len() {
                    assert(p[i] == s[i]);
                }
            }
        }
    } else {
        assert(vstd::utf8::encode_utf8(s).len() == 0);
    }
}

/// Number of bytes of the UTF-8 encoding of `s` (`str::len`).
pub(crate) fn byte_len(s: &str) -> (r: usize)
    ensures
        r == utf8_len(s@),
{
    s.as_bytes_vec().len()
}

/// The Levenshtein (edit) distance between two texts, counted in
/// characters.
pub fn levenshtein_distance(s1: &str, s2: &str) -> (r: usize)
    ensures
        r == edit_distance(s1@, s2@),
{
    let a = chars_of(s1);
    let b = chars_of(s2);
    if a.len() == 0 {
        return b.len();
    }
    if b.len() == 0 {
        return a.len();
    }
    let n1 = a.len();
    let n2 = b.len();
    // row[j] is the distance between the first i characters of `a` and the
    // first j characters of `b`
    let mut row: Vec<usize> = Vec::new();
    row.push(0);
    assert(b@.take(0) =~= Seq::<char>::empty());
    let mut j: usize = 0;
    while j < n2
        invariant
            j <= n2 == b.len(),
            row.len() == j + 1,
            forall|k: int| 0 <= k <= j ==> #[trigger] row@[k] == edit_distance(Seq::empty(), b@.take(k)),
        decreases n2 - j,
    {
        j = j + 1;
        row.push(j);
    }
    assert(a@.take(0) =~= Seq::<char>::empty());
    let mut i: usize = 0;
    while i < n1
        invariant
            i <= n1 == a.len(),
            n2 == b.len(),
            row.len() == n2 + 1,
            forall|k: int| 0 <= k <= n2 ==> #[trigger] row@[k] == edit_distance(a@.take(i as int), b@.take(k)),
        decreases n1 - i,
    {
        let ghost ai = a@.take(i as int);
        let ghost ai1 = a@.take(i + 1);
        assert(ai1.drop_last() =~= ai);
        assert(ai1.last() == a@[i as int]);
        let mut diag: usize = row[0];
        row.set(0, i + 1);
        assert(b@.take(0) =~= Seq::<char>::empty());
        let mut k: usize = 0;
        while k < n2
            invariant
                i < n1 == a.len(),
                n2 == b.len(),
                row.len() == n2 + 1,
                k <= n2,
                ai == a@.take(i as int),
                ai1 == a@.take(i + 1),
                ai1.drop_last() == ai,
                ai1.last() == a@[i as int],
                diag == edit_distance(ai, b@.take(k as int)),
                forall|m: int| 0 <= m <= k ==> #[trigger] row@[m] == edit_distance(ai1, b@.take(m)),
                forall|m: int| k < m <= n2 ==> #[trigger] row@[m] == edit_distance(ai, b@.take(m)),
            decreases n2 - k,
        {
            let ghost bk = b@.take(k as int);
            let ghost bk1 = b@.take(k + 1);
            assert(bk1.drop_last() =~= bk);
            assert(bk1.last() == b@[k as int]);
            let up = row[k + 1];
            let left = row[k];
            proof {
                lemma_edit_distance_bound(ai, bk);
            }
            let m = if up <= left {
                up
            } else {
                left
            };
            let v = if a[i] == b[k] {
                if diag <= m {
                    diag
                } else {
                    m + 1
                }
            } else {
                if diag <= m {
                    diag + 1
                } else {
                    m + 1
                }
            };
            assert(v == edit_distance(ai1, bk1));
            diag = up;
            row.set(k + 1, v);
            k = k + 1;
        }
        i = i + 1;
    }
    assert(a@.take(n1 as int) =~= a@);
    assert(b@.take(n2 as int) =~= b@);
    row[n2]
}

/// Two names count as the same show's: equal, or both non-empty with an
/// `edit_distance` under a fifth of the longer one's UTF-8 length
/// (a normalised similarity `1 - d / max_len` above 0.8).
pub open spec fn similar(a: Seq<char>, b: Seq<char>) -> bool {
    let m = if utf8_len(a) <= utf8_len(b) { utf8_len(b) } else { utf8_len(a) };
    a == b || (a.len() > 0 && b.len() > 0 && 5 * edit_distance(a, b) < m)
}

/// Whether `s1` and `s2` are `similar`.
pub fn is_similar(s1: &str, s2: &str) -> (r: bool)
    ensures
        r == similar(s1@, s2@),
{
    let a = chars_of(s1);
    if crate::text::eq_str(&a, s2) {
        return true;
    }
    let len1 = byte_len(s1);
    let len2 = byte_len(s2);
    proof {
        lemma_utf8_len_ascii(s1@);
        lemma_utf8_len_ascii(s2@);
    }
    if len1 == 0 || len2 == 0 {
        return false;
    }
    let d = levenshtein_distance(s1, s2);
    let m = if len1 <= len2 {
        len2
    } else {
        len1
    };
    let q = (m - 1) / 5;
    assert(5 * d < m <==> d <= q) by (nonlinear_arith)
        requires
            m >= 1,
            q == (m - 1) / 5,
    ;
    d <= q
}

/// Text outside brackets holds no square bracket.
pub proof fn lemma_outside_brackets_has_none(s: Seq<char>)
    ensures
        forall|i: int| 0 <= i < outside_brackets(s).len() ==> #[trigger] outside_brackets(s)[i] != '['
            && outside_brackets(s)[i] != ']',
    decreases s.len(),
{
    if s.len() > 0 {
        lemma_outside_brackets_has_none(s.drop_last());
        let p = outside_brackets(s.drop_last());
        assert forall|i: int| 0 <= i < outside_brackets(s).len() implies #[trigger] outside_brackets(s)[i] != '['
            && outside_brackets(s)[i] != ']' by {
            if i < p.len() {
                assert(outside_brackets(s)[i] == p[i]);
            }
        }
    }
}

/// Text with its bracketed parts removed holds no square bracket and
/// neither starts nor ends with white space.
pub proof fn lemma_bracket_text_removed(s: Seq<char>)
    ensures
        forall|i: int| 0 <= i < trim(outside_brackets(s)).len() ==> #[trigger] trim(outside_brackets(s))[i] != '['
            && trim(outside_brackets(s))[i] != ']',
        trim(outside_brackets(s)).len() > 0 ==> !is_ws(trim(outside_brackets(s))[0]) && !is_ws(
            trim(outside_brackets(s)).last(),
        ),
{
    let o = outside_brackets(s);
    lemma_outside_brackets_has_none(s);
    let q = |c: char| c != '[' && c != ']';
    let w = |c: char| is_ws(c);
    assert forall|i: int| 0 <= i < o.len() implies #[trigger] q(o[i]) by {}
    lemma_drop_lead_keeps(o, w, q);
    let l = drop_lead(o, w);
    lemma_drop_trail_keeps(l, w, q);
    lemma_trim_ends(o);
    assert(trim(o) == drop_trail(l, w));
    assert forall|i: int| 0 <= i < trim(o).len() implies #[trigger] trim(o)[i] != '[' && trim(o)[i] != ']' by {
        assert(q(drop_trail(l, w)[i]));
    }
}

/// White space in `r` appears only as single spaces between two other
/// characters.
pub open spec fn single_spaced(r: Seq<char>) -> bool {
    forall|i: int|
        0 <= i < r.len() && is_ws(#[trigger] r[i]) ==> r[i] == ' ' && 0 < i < r.len() - 1 && !is_ws(r[i - 1])
            && !is_ws(r[i + 1])
}

proof fn lemma_collapse_shape(s: Seq<char>)
    ensures
        single_spaced(collapse_spaces(s)),
        collapse_spaces(s).len() > 0 <==> exists|k: int| 0 <= k < s.len() && !is_ws(#[trigger] s[k]),
        collapse_spaces(s).len() > 0 ==> !is_ws(collapse_spaces(s).last()),
    decreases s.len(),
{
    if s.len() > 0 {
        let p = s.drop_last();
        lemma_collapse_shape(p);
        let acc = collapse_spaces(p);
        let c = s.last();
        let r = collapse_spaces(s);
        if exists|k: int| 0 <= k < p.len() && !is_ws(#[trigger] p[k]) {
            let k = choose|k: int| 0 <= k < p.len() && !is_ws(#[trigger] p[k]);
            assert(s[k] == p[k]);
        }
        if exists|k: int| 0 <= k < s.len() && !is_ws(#[trigger] s[k]) {
            let k = choose|k: int| 0 <= k < s.len() && !is_ws(#[trigger] s[k]);
            if k < p.len() {
                assert(p[k] == s[k]);
            }
        }
        assert forall|i: int| 0 <= i < r.len() && is_ws(#[trigger] r[i]) implies r[i] == ' ' && 0 < i < r.len() - 1
            && !is_ws(r[i - 1]) && !is_ws(r[i + 1]) by {
            if i < acc.len() {
                assert(r[i] == acc[i]);
                if i + 1 < acc.len() {
                    assert(r[i + 1] == acc[i + 1]);
                }
                if i > 0 {
                    assert(r[i - 1] == acc[i - 1]);
                }
            }
        }
    }
}

/// Normalised white space: no white space at either end, and inside only
/// single spaces between two other characters.
pub proof fn lemma_normalized_spaces(s: Seq<char>)
    ensures
        single_spaced(collapse_spaces(s)),
        collapse_spaces(s).len() > 0 ==> !is_ws(collapse_spaces(s)[0]) && !is_ws(collapse_spaces(s).last()),
{
    lemma_collapse_shape(s);
    let r = collapse_spaces(s);
    if r.len() > 0 && is_ws(r[0]) {
        assert(0 < 0);
    }
}

/// The distance `levenshtein_distance` returns never exceeds the longer
/// text's UTF-8 length, so the similarity it yields lies between 0 and 1.
pub proof fn lemma_levenshtein_at_most_longer(a: Seq<char>, b: Seq<char>)
    ensures
        edit_distance(a, b) <= if utf8_len(a) <= utf8_len(b) { utf8_len(b) } else { utf8_len(a) },
{
    lemma_utf8_len_ascii(a);
    lemma_utf8_len_ascii(b);
    lemma_edit_distance_bound(a, b);
}

/// Text without square brackets is left as it is by `outside_brackets`.
pub proof fn lemma_outside_brackets_of_plain(s: Seq<char>)
    requires
        forall|i: int| 0 <= i < s.len() ==> #[trigger] s[i] != '[' && s[i] != ']',
    ensures
        outside_brackets(s) == s,
        !inside_brackets_after(s),
    decreases s.len(),
{
    if s.len() > 0 {
        let p = s.drop_last();
        assert forall|i: int| 0 <= i < p.len() implies #[trigger] p[i] != '[' && p[i] != ']' by {
            assert(p[i] == s[i]);
        }
        lemma_outside_brackets_of_plain(p);
        assert(s.last() == s[s.len() - 1]);
        assert(p.push(s.last()) =~= s);
    }
}

/// Removing bracketed text a second time changes nothing.
pub proof fn lemma_bracket_text_removal_idempotent(s: Seq<char>)
    ensures
        trim(outside_brackets(trim(outside_brackets(s)))) == trim(outside_brackets(s)),
{
    let r = trim(outside_brackets(s));
    lemma_bracket_text_removed(s);
    lemma_outside_brackets_of_plain(r);
    lemma_trim_of_trimmed(r);
}

} // verus!
