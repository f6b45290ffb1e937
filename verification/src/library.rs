//! Bookkeeping of a library's video files: matching the files found on disk
//! against the stored entries, and applying the differences.
use vstd::prelude::*;
use crate::ordering::{stable_sort_by, lemma_le_transitive, lemma_less_irreflexive, lemma_less_total, lemma_less_transitive, less_than, sort_by_key, sorted_by_key, str_le, str_less, SortKey};
use crate::text::{chars_of, eq_chars};
use crate::video_element::VideoElement;

verus! {

broadcast use vstd::seq_lib::group_seq_properties;

/// The file paths of a list of entries.
pub open spec fn paths_of(v: Seq<VideoElement>) -> Seq<Seq<char>> {
    v.map_values(|e: VideoElement| e.filepath@)
}

/// The views of a list of strings.
pub open spec fn strs_of(v: Seq<String>) -> Seq<Seq<char>> {
    v.map_values(|s: String| s@)
}

/// Each string comes strictly before the next.
pub open spec fn strictly_sorted(s: Seq<Seq<char>>) -> bool {
    forall|i: int, j: int| 0 <= i < j < s.len() ==> str_less(#[trigger] s[i], #[trigger] s[j])
}

/// The indices `k < n` with `p(k)`, in increasing order.
pub open spec fn index_filter(n: int, p: spec_fn(int) -> bool) -> Seq<int>
    decreases n,
{
    if n <= 0 {
        Seq::empty()
    } else if p(n - 1) {
        index_filter(n - 1, p).push(n - 1)
    } else {
        index_filter(n - 1, p)
    }
}

/// `index_filter` gives, in increasing order, exactly the indices below `n`
/// that satisfy `p`.
pub proof fn lemma_index_filter(n: int, p: spec_fn(int) -> bool)
    ensures
        forall|i: int| 0 <= i < index_filter(n, p).len() ==> 0 <= #[trigger] index_filter(n, p)[i] < n && p(index_filter(n, p)[i]),
        forall|i: int, j: int|
            0 <= i < j < index_filter(n, p).len() ==> #[trigger] index_filter(n, p)[i] < #[trigger] index_filter(n, p)[j],
        forall|k: int| 0 <= k < n && p(k) ==> #[trigger] index_filter(n, p).contains(k),
    decreases n,
{
    if n > 0 {
        lemma_index_filter(n - 1, p);
        let r = index_filter(n - 1, p);
        if p(n - 1) {
            let t = r.push(n - 1);
            assert forall|k: int| 0 <= k < n && p(k) implies #[trigger] t.contains(k) by {
                if k < n - 1 {
                    assert(r.contains(k));
                    let j = choose|j: int| 0 <= j < r.len() && r[j] == k;
                    assert(t[j] == k);
                } else {
                    assert(t[r.len() as int] == k);
                }
            }
        }
    }
}

pub open spec fn usizes(v: Seq<usize>) -> Seq<int> {
    v.map_values(|i: usize| i as int)
}

/// Found paths that no stored entry has.
pub open spec fn new_path_indices(stored: Seq<Seq<char>>, found: Seq<Seq<char>>) -> Seq<int> {
    index_filter(found.len() as int, |k: int| !stored.contains(found[k]))
}

/// Stored entries whose path was not found.
pub open spec fn missing_entry_indices(stored: Seq<Seq<char>>, found: Seq<Seq<char>>) -> Seq<int> {
    index_filter(stored.len() as int, |k: int| !found.contains(stored[k]))
}

/// Each string comes no later than the next (repeats allowed).
pub open spec fn sorted_le(s: Seq<Seq<char>>) -> bool {
    forall|i: int, j: int| 0 <= i < j < s.len() ==> str_le(#[trigger] s[i], #[trigger] s[j])
}

/// How many of the first `k` elements of `s` equal `x`.
pub open spec fn count_before(s: Seq<Seq<char>>, k: int, x: Seq<char>) -> nat
    decreases k,
{
    if k <= 0 {
        0
    } else {
        count_before(s, k - 1, x) + if s[k - 1] == x {
            1nat
        } else {
            0nat
        }
    }
}

/// The found path at `k` has no stored entry left to match it: its copies
/// among the found paths up to `k` outnumber the stored entries with that
/// path.
pub open spec fn found_is_new(stored: Seq<Seq<char>>, found: Seq<Seq<char>>, k: int) -> bool {
    count_before(found, k + 1, found[k]) > count_before(stored, stored.len() as int, found[k])
}

/// The stored entry at `j` has no found path left to match it: its copies
/// among the stored entries up to `j` outnumber the found paths equal to it.
pub open spec fn entry_is_gone(stored: Seq<Seq<char>>, found: Seq<Seq<char>>, j: int) -> bool {
    count_before(stored, j + 1, stored[j]) > count_before(found, found.len() as int, stored[j])
}

/// Indices of the found paths that are new (`found_is_new`).
pub open spec fn new_found_indices(stored: Seq<Seq<char>>, found: Seq<Seq<char>>) -> Seq<int> {
    index_filter(found.len() as int, |k: int| found_is_new(stored, found, k))
}

/// Indices of the stored entries that are gone (`entry_is_gone`).
pub open spec fn gone_entry_indices(stored: Seq<Seq<char>>, found: Seq<Seq<char>>) -> Seq<int> {
    index_filter(stored.len() as int, |j: int| entry_is_gone(stored, found, j))
}

/// Where the walk over both sorted lists stands after `fi` found paths, with
/// stored entries from `start` on still to compare: the entries before
/// `start` sort no later than the last found path, those from `start` on no
/// earlier, and of the entries equal to the last found path, as many lie
/// before `start` as could be matched so far.
pub open spec fn walk_state(e: Seq<Seq<char>>, f: Seq<Seq<char>>, fi: int, start: int) -> bool {
    &&& 0 <= fi <= f.len()
    &&& 0 <= start <= e.len()
    &&& fi == 0 ==> start == 0
    &&& fi > 0 ==> forall|k: int| 0 <= k < start ==> str_le(#[trigger] e[k], f[fi - 1])
    &&& fi > 0 ==> forall|k: int| start <= k < e.len() ==> str_le(f[fi - 1], #[trigger] e[k])
    &&& fi > 0 ==> count_before(e, start, f[fi - 1]) == min_nat(
        count_before(f, fi, f[fi - 1]),
        count_before(e, e.len() as int, f[fi - 1]),
    )
}

pub open spec fn min_nat(a: nat, b: nat) -> nat {
    if a <= b {
        a
    } else {
        b
    }
}

proof fn lemma_count_same(s: Seq<Seq<char>>, a: int, b: int, x: Seq<char>)
    requires
        0 <= a <= b <= s.len(),
        forall|k: int| a <= k < b ==> #[trigger] s[k] != x,
    ensures
        count_before(s, b, x) == count_before(s, a, x),
    decreases b - a,
{
    if a < b {
        lemma_count_same(s, a, b - 1, x);
    }
}

proof fn lemma_count_mono(s: Seq<Seq<char>>, a: int, b: int, x: Seq<char>)
    requires
        0 <= a <= b,
    ensures
        count_before(s, a, x) <= count_before(s, b, x),
    decreases b - a,
{
    if a < b {
        lemma_count_mono(s, a, b - 1, x);
    }
}

proof fn lemma_count_hit(s: Seq<Seq<char>>, a: int, k: int, b: int, x: Seq<char>)
    requires
        0 <= a <= k < b,
        s[k] == x,
    ensures
        count_before(s, a, x) < count_before(s, b, x),
{
    lemma_count_mono(s, a, k, x);
    lemma_count_mono(s, k + 1, b, x);
}

/// `x` occurs in `s` exactly when its count is positive.
proof fn lemma_count_contains(s: Seq<Seq<char>>, x: Seq<char>)
    ensures
        count_before(s, s.len() as int, x) > 0 <==> s.contains(x),
{
    if s.contains(x) {
        let k = choose|k: int| 0 <= k < s.len() && s[k] == x;
        lemma_count_hit(s, 0, k, s.len() as int, x);
    } else {
        assert forall|k: int| 0 <= k < s.len() implies #[trigger] s[k] != x by {
            if s[k] == x {
                assert(s.contains(x));
            }
        }
        lemma_count_same(s, 0, s.len() as int, x);
    }
}

proof fn lemma_less_le(a: Seq<char>, b: Seq<char>, c: Seq<char>)
    requires
        str_less(a, b),
        str_le(b, c),
    ensures
        str_less(a, c),
{
    if b != c {
        lemma_less_transitive(a, b, c);
    }
}

/// What is strictly less differs.
proof fn lemma_less_ne(a: Seq<char>, b: Seq<char>)
    requires
        str_less(a, b),
    ensures
        a != b,
{
    lemma_less_irreflexive(a);
}

/// In a sorted list, the elements before `i` sort no later than `s[i]` and
/// those after no earlier.
proof fn lemma_sorted_around(s: Seq<Seq<char>>, i: int)
    requires
        sorted_le(s),
        0 <= i < s.len(),
    ensures
        forall|k: int| 0 <= k <= i ==> str_le(#[trigger] s[k], s[i]),
        forall|k: int| i <= k < s.len() ==> str_le(s[i], #[trigger] s[k]),
{
    assert forall|k: int| 0 <= k <= i implies str_le(#[trigger] s[k], s[i]) by {
        if k < i {
            assert(str_le(s[k], s[i]));
        }
    }
    assert forall|k: int| i <= k < s.len() implies str_le(s[i], #[trigger] s[k]) by {
        if k > i {
            assert(str_le(s[i], s[k]));
        }
    }
}

/// No found path before `fi` equals `x` when `x` sorts after the last one.
proof fn lemma_found_before_below(f: Seq<Seq<char>>, fi: int, x: Seq<char>)
    requires
        sorted_le(f),
        0 < fi <= f.len(),
        str_less(f[fi - 1], x),
    ensures
        count_before(f, fi, x) == 0,
{
    lemma_sorted_around(f, fi - 1);
    assert forall|k: int| 0 <= k < fi implies #[trigger] f[k] != x by {
        lemma_le_less(f[k], f[fi - 1], x);
        lemma_less_ne(f[k], x);
    }
    lemma_count_same(f, 0, fi, x);
}

proof fn lemma_le_less(a: Seq<char>, b: Seq<char>, c: Seq<char>)
    requires
        str_le(a, b),
        str_less(b, c),
    ensures
        str_less(a, c),
{
    if a != b {
        lemma_less_transitive(a, b, c);
    }
}

/// The walk meets a stored entry that sorts before the found path: the
/// entry is gone.
proof fn lemma_walk_gone(e: Seq<Seq<char>>, f: Seq<Seq<char>>, fi: int, start: int, idx: int)
    requires
        sorted_le(e),
        sorted_le(f),
        walk_state(e, f, fi, start),
        fi < f.len(),
        start <= idx < e.len(),
        str_less(e[idx], f[fi]),
    ensures
        entry_is_gone(e, f, idx),
{
    let w = e[idx];
    let x = f[fi];
    let n = f.len() as int;
    lemma_sorted_around(f, fi);
    assert forall|k: int| fi <= k < n implies #[trigger] f[k] != w by {
        lemma_less_le(w, x, f[k]);
        lemma_less_ne(w, f[k]);
    }
    lemma_count_same(f, fi, n, w);
    if fi > 0 && w == f[fi - 1] {
        lemma_count_mono(e, start, idx, w);
        lemma_count_hit(e, idx, idx, e.len() as int, w);
    } else if fi > 0 {
        let v = f[fi - 1];
        assert(str_le(v, w));
        lemma_found_before_below(f, fi, w);
    }
}

/// The walk finds a stored entry equal to the found path: the two match.
proof fn lemma_walk_match(e: Seq<Seq<char>>, f: Seq<Seq<char>>, fi: int, start: int, idx: int)
    requires
        sorted_le(e),
        sorted_le(f),
        walk_state(e, f, fi, start),
        fi < f.len(),
        start <= idx < e.len(),
        forall|k: int| start <= k < idx ==> str_less(#[trigger] e[k], f[fi]),
        e[idx] == f[fi],
    ensures
        !found_is_new(e, f, fi),
        !entry_is_gone(e, f, idx),
        walk_state(e, f, fi + 1, idx + 1),
{
    let x = f[fi];
    let len = e.len() as int;
    let n = f.len() as int;
    lemma_sorted_around(e, idx);
    lemma_sorted_around(f, fi);
    assert forall|k: int| 0 <= k < idx + 1 implies str_le(#[trigger] e[k], x) by {
        if k < start {
            lemma_le_transitive(e[k], f[fi - 1], x);
        }
    }
    lemma_count_mono(e, idx + 1, len, x);
    lemma_count_mono(f, fi + 1, n, x);
    if fi > 0 && x == f[fi - 1] {
        if idx > start {
            assert(str_less(e[start], x));
            assert(str_le(x, e[start]));
            lemma_less_le(e[start], x, e[start]);
            lemma_less_irreflexive(e[start]);
        }
        assert(idx == start);
        lemma_count_hit(e, start, start, len, x);
        assert(count_before(e, start, x) == count_before(f, fi, x));
        assert(count_before(e, idx + 1, x) == count_before(e, idx, x) + 1);
        assert(count_before(f, fi + 1, x) == count_before(f, fi, x) + 1);
        assert(!found_is_new(e, f, fi));
        assert(!entry_is_gone(e, f, idx));
        assert(count_before(e, idx + 1, x) == min_nat(count_before(f, fi + 1, x), count_before(e, len, x)));
    } else {
        if fi > 0 {
            lemma_less_total(f[fi - 1], x);
            lemma_found_before_below(f, fi, x);
            assert forall|k: int| 0 <= k < idx implies #[trigger] e[k] != x by {
                if k < start {
                    lemma_le_less(e[k], f[fi - 1], x);
                }
                lemma_less_ne(e[k], x);
            }
        } else {
            assert forall|k: int| 0 <= k < idx implies #[trigger] e[k] != x by {
                lemma_less_ne(e[k], x);
            }
        }
        lemma_count_same(e, 0, idx, x);
        assert(count_before(f, fi, x) == 0);
        assert(count_before(e, idx + 1, x) == 1);
        assert(count_before(f, fi + 1, x) == 1);
    }
    assert(forall|k: int| idx + 1 <= k < len ==> str_le(x, #[trigger] e[k]));
}

/// The walk finds a stored entry that sorts after the found path: the found
/// path is new.
proof fn lemma_walk_new(e: Seq<Seq<char>>, f: Seq<Seq<char>>, fi: int, start: int, idx: int)
    requires
        sorted_le(e),
        sorted_le(f),
        walk_state(e, f, fi, start),
        fi < f.len(),
        start <= idx < e.len(),
        forall|k: int| start <= k < idx ==> str_less(#[trigger] e[k], f[fi]),
        str_less(f[fi], e[idx]),
    ensures
        found_is_new(e, f, fi),
        walk_state(e, f, fi + 1, idx),
{
    let x = f[fi];
    let len = e.len() as int;
    lemma_sorted_around(e, idx);
    lemma_sorted_around(f, fi);
    assert forall|k: int| 0 <= k < idx implies str_le(#[trigger] e[k], x) by {
        if k < start {
            lemma_le_transitive(e[k], f[fi - 1], x);
        }
    }
    assert forall|k: int| idx <= k < len implies str_le(x, #[trigger] e[k]) && e[k] != x by {
        lemma_less_le(x, e[idx], e[k]);
        lemma_less_ne(x, e[k]);
    }
    lemma_count_same(e, idx, len, x);
    if fi > 0 && x == f[fi - 1] {
        if idx > start {
            assert(str_less(e[start], x));
            assert(str_le(x, e[start]));
            lemma_less_le(e[start], x, e[start]);
            lemma_less_irreflexive(e[start]);
        }
    } else {
        if fi > 0 {
            lemma_less_total(f[fi - 1], x);
            assert forall|k: int| 0 <= k < idx implies #[trigger] e[k] != x by {
                if k < start {
                    lemma_le_less(e[k], f[fi - 1], x);
                }
                lemma_less_ne(e[k], x);
            }
        } else {
            assert forall|k: int| 0 <= k < idx implies #[trigger] e[k] != x by {
                lemma_less_ne(e[k], x);
            }
        }
        lemma_count_same(e, 0, idx, x);
    }
}

/// Every stored entry left sorts before the found path: they are gone and
/// the found path is new.
proof fn lemma_walk_run_out(e: Seq<Seq<char>>, f: Seq<Seq<char>>, fi: int, start: int)
    requires
        sorted_le(e),
        sorted_le(f),
        walk_state(e, f, fi, start),
        fi < f.len(),
        start < e.len(),
        forall|k: int| start <= k < e.len() ==> str_less(#[trigger] e[k], f[fi]),
    ensures
        found_is_new(e, f, fi),
        walk_state(e, f, fi + 1, e.len() as int),
{
    let x = f[fi];
    let len = e.len() as int;
    lemma_sorted_around(f, fi);
    if fi > 0 {
        lemma_le_less(f[fi - 1], e[start], x);
    }
    assert forall|k: int| 0 <= k < len implies str_le(#[trigger] e[k], x) && e[k] != x by {
        if k < start {
            lemma_le_less(e[k], f[fi - 1], x);
        }
        lemma_less_ne(e[k], x);
    }
    lemma_count_same(e, 0, len, x);
}

/// No stored entry is left: the found path is new.
proof fn lemma_walk_no_entries(e: Seq<Seq<char>>, f: Seq<Seq<char>>, fi: int)
    requires
        sorted_le(e),
        sorted_le(f),
        walk_state(e, f, fi, e.len() as int),
        fi < f.len(),
    ensures
        found_is_new(e, f, fi),
        walk_state(e, f, fi + 1, e.len() as int),
{
    let x = f[fi];
    let len = e.len() as int;
    lemma_sorted_around(f, fi);
    if fi > 0 {
        assert forall|k: int| 0 <= k < len implies str_le(#[trigger] e[k], x) by {
            lemma_le_transitive(e[k], f[fi - 1], x);
        }
        if x != f[fi - 1] {
            lemma_less_total(f[fi - 1], x);
            assert forall|k: int| 0 <= k < len implies #[trigger] e[k] != x by {
                lemma_le_less(e[k], f[fi - 1], x);
                lemma_less_ne(e[k], x);
            }
            lemma_count_same(e, 0, len, x);
        }
    }
}

/// After the last found path, every stored entry left is gone.
proof fn lemma_walk_tail(e: Seq<Seq<char>>, f: Seq<Seq<char>>, start: int, k: int)
    requires
        sorted_le(e),
        sorted_le(f),
        walk_state(e, f, f.len() as int, start),
        start <= k < e.len(),
    ensures
        entry_is_gone(e, f, k),
{
    let n = f.len() as int;
    let w = e[k];
    if n > 0 {
        let v = f[n - 1];
        if w == v {
            lemma_count_mono(e, start, k, v);
            lemma_count_hit(e, k, k, e.len() as int, v);
        } else {
            lemma_less_total(v, w);
            lemma_found_before_below(f, n, w);
        }
    }
}

/// On strictly sorted lists, a found path is new exactly when no stored
/// entry has it, and a stored entry is gone exactly when its path was not
/// found.
pub proof fn lemma_rescan_without_repeats(e: Seq<Seq<char>>, f: Seq<Seq<char>>)
    requires
        strictly_sorted(e),
        strictly_sorted(f),
    ensures
        new_found_indices(e, f) == new_path_indices(e, f),
        gone_entry_indices(e, f) == missing_entry_indices(e, f),
{
    assert forall|k: int| 0 <= k < f.len() implies #[trigger] found_is_new(e, f, k) == !e.contains(f[k]) by {
        assert forall|j: int| 0 <= j < k implies #[trigger] f[j] != f[k] by {
            lemma_less_ne(f[j], f[k]);
        }
        lemma_count_same(f, 0, k, f[k]);
        lemma_count_contains(e, f[k]);
    }
    assert forall|j: int| 0 <= j < e.len() implies #[trigger] entry_is_gone(e, f, j) == !f.contains(e[j]) by {
        assert forall|i: int| 0 <= i < j implies #[trigger] e[i] != e[j] by {
            lemma_less_ne(e[i], e[j]);
        }
        lemma_count_same(e, 0, j, e[j]);
        lemma_count_contains(f, e[j]);
    }
    lemma_index_filter_same(f.len() as int, |k: int| found_is_new(e, f, k), |k: int| !e.contains(f[k]));
    lemma_index_filter_same(e.len() as int, |j: int| entry_is_gone(e, f, j), |j: int| !f.contains(e[j]));
}

proof fn lemma_index_filter_same(n: int, p: spec_fn(int) -> bool, q: spec_fn(int) -> bool)
    requires
        forall|k: int| 0 <= k < n ==> #[trigger] p(k) == q(k),
    ensures
        index_filter(n, p) == index_filter(n, q),
    decreases n,
{
    if n > 0 {
        lemma_index_filter_same(n - 1, p, q);
    }
}

/// Indices strictly increasing and below `n`.
pub open spec fn increasing_below(s: Seq<usize>, n: int) -> bool {
    &&& forall|i: int, j: int| 0 <= i < j < s.len() ==> #[trigger] s[i] < #[trigger] s[j]
    &&& forall|i: int| 0 <= i < s.len() ==> #[trigger] s[i] < n
}

/// Compares the paths found in a library's folders with the stored entries,
/// walking both sorted lists together, and gives the indices of new found
/// paths and of stored entries whose file is gone.
///
/// Both lists are in increasing order. When both are sorted (repeats
/// allowed), equal paths are matched one for one in order: a found path is
/// new when no stored entry is left to match it (`new_found_indices`), and a
/// stored entry is gone when no found path is left to match it
/// (`gone_entry_indices`). Without repeats these are the found paths no entry
/// has and the entries whose path was not found.
pub fn compute_rescan_changes(video_files: &Vec<VideoElement>, found: &Vec<String>) -> (r: (
    Vec<usize>,
    Vec<usize>,
))
    ensures
        increasing_below(r.0@, found@.len() as int),
        increasing_below(r.1@, video_files@.len() as int),
        ({
            let e = paths_of(video_files@);
            let f = strs_of(found@);
            sorted_le(e) && sorted_le(f) ==> {
                &&& usizes(r.0@) == new_found_indices(e, f)
                &&& usizes(r.1@) == gone_entry_indices(e, f)
            }
        }),
        ({
            let e = paths_of(video_files@);
            let f = strs_of(found@);
            strictly_sorted(e) && strictly_sorted(f) ==> {
                &&& usizes(r.0@) == new_path_indices(e, f)
                &&& usizes(r.1@) == missing_entry_indices(e, f)
            }
        }),
{
    let ghost e = paths_of(video_files@);
    let ghost f = strs_of(found@);
    let ghost good = sorted_le(e) && sorted_le(f);
    let ghost newp = |k: int| found_is_new(e, f, k);
    let ghost gonep = |j: int| entry_is_gone(e, f, j);
    let len = video_files.len();
    let n = found.len();
    let mut new_idx: Vec<usize> = Vec::new();
    let mut missing: Vec<usize> = Vec::new();
    let mut start: usize = 0;
    let mut fi: usize = 0;
    while fi < n
        invariant
            len == video_files@.len() == e.len(),
            n == found@.len() == f.len(),
            e == paths_of(video_files@),
            f == strs_of(found@),
            good == (sorted_le(e) && sorted_le(f)),
            forall|k: int| #[trigger] newp(k) == found_is_new(e, f, k),
            forall|k: int| #[trigger] gonep(k) == entry_is_gone(e, f, k),
            fi <= n,
            start <= len,
            increasing_below(new_idx@, fi as int),
            increasing_below(missing@, start as int),
            good ==> usizes(new_idx@) == index_filter(fi as int, newp),
            good ==> usizes(missing@) == index_filter(start as int, gonep),
            good ==> walk_state(e, f, fi as int, start as int),
        decreases n - fi,
    {
        let fk = chars_of(found[fi].as_str());
        assert(fk@ == f[fi as int]);
        if start < len {
            let mut idx: usize = start;
            let mut settled = false;
            let mut next_start: usize = start;
            while idx < len
                invariant_except_break
                    !settled,
                    increasing_below(new_idx@, fi as int),
                    increasing_below(missing@, idx as int),
                    good ==> usizes(new_idx@) == index_filter(fi as int, newp),
                    good ==> usizes(missing@) == index_filter(idx as int, gonep),
                    good ==> forall|k: int| start <= k < idx ==> str_less(#[trigger] e[k], f[fi as int]),
                invariant
                    len == video_files@.len() == e.len(),
                    n == found@.len() == f.len(),
                    e == paths_of(video_files@),
                    f == strs_of(found@),
                    good == (sorted_le(e) && sorted_le(f)),
                    forall|k: int| #[trigger] newp(k) == found_is_new(e, f, k),
                    forall|k: int| #[trigger] gonep(k) == entry_is_gone(e, f, k),
                    fi < n,
                    fk@ == f[fi as int],
                    start <= idx <= len,
                    good ==> walk_state(e, f, fi as int, start as int),
                ensures
                    settled ==> start <= next_start <= len,
                    settled ==> increasing_below(new_idx@, fi + 1),
                    settled ==> increasing_below(missing@, next_start as int),
                    !settled ==> increasing_below(new_idx@, fi as int),
                    !settled ==> increasing_below(missing@, len as int),
                    good && settled ==> usizes(new_idx@) == index_filter(fi + 1, newp),
                    good && settled ==> usizes(missing@) == index_filter(next_start as int, gonep),
                    good && settled ==> walk_state(e, f, fi + 1, next_start as int),
                    good && !settled ==> usizes(new_idx@) == index_filter(fi as int, newp),
                    good && !settled ==> usizes(missing@) == index_filter(len as int, gonep),
                    good && !settled ==> forall|k: int| start <= k < len ==> str_less(#[trigger] e[k], f[fi as int]),
                decreases len - idx,
            {
                let ek = video_files[idx].key_chars();
                assert(ek@ == e[idx as int]);
                if eq_chars(&ek, &fk) {
                    // Match: the file is known.
                    proof {
                        if good {
                            lemma_walk_match(e, f, fi as int, start as int, idx as int);
                            assert(index_filter(fi + 1, newp) == index_filter(fi as int, newp));
                            assert(index_filter(idx + 1, gonep) == index_filter(idx as int, gonep));
                        }
                    }
                    next_start = idx + 1;
                    settled = true;
                    break;
                } else if less_than(&fk, &ek) {
                    // The found file sorts before this entry: it is new.
                    proof {
                        if good {
                            lemma_walk_new(e, f, fi as int, start as int, idx as int);
                            assert(index_filter(fi + 1, newp) == index_filter(fi as int, newp).push(fi as int));
                            assert(usizes(new_idx@.push(fi)) =~= usizes(new_idx@).push(fi as int));
                        }
                    }
                    new_idx.push(fi);
                    next_start = idx;
                    settled = true;
                    break;
                } else {
                    // This entry sorts before the found file: it is gone.
                    proof {
                        lemma_less_total(ek@, fk@);
                        if good {
                            lemma_walk_gone(e, f, fi as int, start as int, idx as int);
                            assert(index_filter(idx + 1, gonep) == index_filter(idx as int, gonep).push(idx as int));
                            assert(usizes(missing@.push(idx)) =~= usizes(missing@).push(idx as int));
                        }
                    }
                    missing.push(idx);
                }
                idx = idx + 1;
            }
            if settled {
                start = next_start;
            } else {
                // Every stored entry from `start` on sorts before the found
                // file and is gone: the found file is new.
                proof {
                    if good {
                        lemma_walk_run_out(e, f, fi as int, start as int);
                        assert(index_filter(fi + 1, newp) == index_filter(fi as int, newp).push(fi as int));
                        assert(usizes(new_idx@.push(fi)) =~= usizes(new_idx@).push(fi as int));
                    }
                }
                new_idx.push(fi);
                start = len;
            }
        } else {
            // No stored entries are left: the found file is new.
            proof {
                if good {
                    lemma_walk_no_entries(e, f, fi as int);
                    assert(index_filter(fi + 1, newp) == index_filter(fi as int, newp).push(fi as int));
                    assert(usizes(new_idx@.push(fi)) =~= usizes(new_idx@).push(fi as int));
                }
            }
            new_idx.push(fi);
        }
        fi = fi + 1;
    }
    // Stored entries after the last found file are gone.
    let mut k: usize = start;
    while k < len
        invariant
            len == video_files@.len() == e.len(),
            n == found@.len() == f.len(),
            good == (sorted_le(e) && sorted_le(f)),
            forall|k: int| #[trigger] gonep(k) == entry_is_gone(e, f, k),
            start <= k <= len,
            increasing_below(missing@, k as int),
            good ==> usizes(missing@) == index_filter(k as int, gonep),
            good ==> walk_state(e, f, n as int, start as int),
        decreases len - k,
    {
        proof {
            if good {
                lemma_walk_tail(e, f, start as int, k as int);
                assert(index_filter(k + 1, gonep) == index_filter(k as int, gonep).push(k as int));
                assert(usizes(missing@.push(k)) =~= usizes(missing@).push(k as int));
            }
        }
        missing.push(k);
        k = k + 1;
    }
    proof {
        if good {
            assert(new_found_indices(e, f) == index_filter(n as int, newp));
            assert(gone_entry_indices(e, f) == index_filter(len as int, gonep));
        }
        if strictly_sorted(e) && strictly_sorted(f) {
            assert(sorted_le(e) && sorted_le(f));
            lemma_rescan_without_repeats(e, f);
        }
    }
    (new_idx, missing)
}

/// `s` after removing the entries at the indices of `m`, the last index
/// first.
pub open spec fn remove_desc<T>(s: Seq<T>, m: Seq<int>) -> Seq<T>
    decreases m.len(),
{
    if m.len() == 0 {
        s
    } else {
        remove_desc(s.remove(m.last()), m.drop_last())
    }
}

/// Removing the indices of `m` one by one, last first, never goes out of
/// range: when `m[j]` is removed, the `m.len() - 1 - j` later ones are gone
/// already.
pub open spec fn removable(m: Seq<int>, n: int) -> bool {
    forall|j: int| 0 <= j < m.len() ==> 0 <= #[trigger] m[j] < n - (m.len() - 1 - j)
}

/// Whether `removable` holds of a list of indices.
pub fn removal_indices_valid(missing: &Vec<usize>, len: usize) -> (r: bool)
    ensures
        r == removable(usizes(missing@), len as int),
{
    let ghost u = usizes(missing@);
    let count = missing.len();
    let mut i: usize = 0;
    while i < count
        invariant
            count == missing@.len() == u.len(),
            u == usizes(missing@),
            i <= count,
            forall|j: int| 0 <= j < i ==> 0 <= #[trigger] u[j] < len - (count - 1 - j),
        decreases count - i,
    {
        assert(u[i as int] == missing@[i as int]);
        if missing[i] >= len || len - missing[i] <= count - 1 - i {
            return false;
        }
        i = i + 1;
    }
    true
}

/// Applies the changes of a rescan: the entries at `missing` are removed
/// (the last index first), `new_elements` are added, and the entries are
/// sorted by file path, entries with equal paths keeping their order.
pub fn apply_rescan_changes(
    video_files: &mut Vec<VideoElement>,
    missing: &Vec<usize>,
    new_elements: Vec<VideoElement>,
)
    requires
        removable(usizes(missing@), old(video_files)@.len() as int),
    ensures
        final(video_files)@.to_multiset() == (remove_desc(old(video_files)@, usizes(missing@))
            + new_elements@).to_multiset(),
        sorted_by_key(final(video_files)@),
        exists|p: Seq<int>|
            #[trigger] stable_sort_by(remove_desc(old(video_files)@, usizes(missing@)) + new_elements@, final(video_files)@, p),
{
    let ghost orig = video_files@;
    let mut j: usize = missing.len();
    assert(usizes(missing@).subrange(0, j as int) =~= usizes(missing@));
    while j > 0
        invariant
            j <= missing.len(),
            removable(usizes(missing@), orig.len() as int),
            video_files@.len() == orig.len() - (missing.len() - j),
            remove_desc(orig, usizes(missing@)) == remove_desc(video_files@, usizes(missing@).subrange(0, j as int)),
        decreases j,
    {
        let ghost m = usizes(missing@);
        let idx = missing[j - 1];
        proof {
            assert(m[j - 1] == idx);
            assert(idx < video_files@.len());
            let sub = m.subrange(0, j as int);
            assert(sub.last() == idx);
            assert(sub.drop_last() =~= m.subrange(0, j - 1));
        }
        video_files.remove(idx);
        j = j - 1;
    }
    proof {
        assert(usizes(missing@).subrange(0, 0) =~= Seq::<int>::empty());
    }
    let ghost kept = video_files@;
    assert(kept == remove_desc(orig, usizes(missing@)));
    let mut rest = new_elements;
    video_files.append(&mut rest);
    assert(video_files@ == kept + new_elements@);
    sort_by_key(video_files);
}

proof fn lemma_less_transitive_le(a: Seq<char>, b: Seq<char>, c: Seq<char>)
    requires
        str_le(a, b),
        str_less(b, c),
    ensures
        str_less(a, c),
{
    if a != b {
        lemma_less_transitive(a, b, c);
    }
}

/// The elements of `s` at indices below `n` that do not satisfy `p`, in
/// order.
pub open spec fn keep_where<T>(s: Seq<T>, p: spec_fn(int) -> bool, n: int) -> Seq<T>
    decreases n,
{
    if n <= 0 {
        Seq::empty()
    } else if p(n - 1) {
        keep_where(s, p, n - 1)
    } else {
        keep_where(s, p, n - 1).push(s[n - 1])
    }
}

proof fn lemma_keep_where_prefix<T>(s: Seq<T>, t: Seq<T>, p: spec_fn(int) -> bool, n: int)
    requires
        0 <= n <= s.len(),
        n <= t.len(),
        forall|i: int| 0 <= i < n ==> s[i] == t[i],
    ensures
        keep_where(s, p, n) == keep_where(t, p, n),
    decreases n,
{
    if n > 0 {
        lemma_keep_where_prefix(s, t, p, n - 1);
    }
}

/// Removing the indices `index_filter(n, p)`, last first, keeps the other
/// elements below `n` in order, followed by those from `n` on.
proof fn lemma_remove_desc_filter<T>(s: Seq<T>, p: spec_fn(int) -> bool, n: int)
    requires
        0 <= n <= s.len(),
    ensures
        remove_desc(s, index_filter(n, p)) == keep_where(s, p, n) + s.subrange(n, s.len() as int),
    decreases n,
{
    if n == 0 {
        assert(s.subrange(0, s.len() as int) =~= s);
        assert(index_filter(0, p) =~= Seq::<int>::empty());
    } else {
        let m = index_filter(n - 1, p);
        if p(n - 1) {
            let t = s.remove(n - 1);
            assert(index_filter(n, p) == m.push(n - 1));
            assert(m.push(n - 1).drop_last() =~= m);
            assert(remove_desc(s, m.push(n - 1)) == remove_desc(t, m));
            lemma_remove_desc_filter(t, p, n - 1);
            lemma_keep_where_prefix(t, s, p, n - 1);
            assert(t.subrange(n - 1, t.len() as int) =~= s.subrange(n, s.len() as int));
        } else {
            lemma_remove_desc_filter(s, p, n - 1);
            assert(keep_where(s, p, n - 1) + s.subrange(n - 1, s.len() as int) =~= keep_where(s, p, n - 1).push(s[n - 1])
                + s.subrange(n, s.len() as int));
        }
    }
}

proof fn lemma_keep_where_members<T>(s: Seq<T>, p: spec_fn(int) -> bool, n: int, x: T)
    requires
        0 <= n <= s.len(),
    ensures
        keep_where(s, p, n).contains(x) <==> exists|i: int| 0 <= i < n && !p(i) && #[trigger] s[i] == x,
    decreases n,
{
    if n > 0 {
        lemma_keep_where_members(s, p, n - 1, x);
        let k = keep_where(s, p, n - 1);
        if !p(n - 1) {
            let k2 = k.push(s[n - 1]);
            if k2.contains(x) {
                let j = choose|j: int| 0 <= j < k2.len() && k2[j] == x;
                if j < k.len() {
                    assert(k[j] == x);
                }
            }
            if k.contains(x) {
                let j = choose|j: int| 0 <= j < k.len() && k[j] == x;
                assert(k2[j] == x);
            }
            if s[n - 1] == x {
                assert(k2[k.len() as int] == x);
            }
        }
    }
}

proof fn lemma_keep_where_same_pred<T>(s: Seq<T>, p: spec_fn(int) -> bool, q: spec_fn(int) -> bool, n: int)
    requires
        forall|k: int| 0 <= k < n ==> #[trigger] p(k) == q(k),
    ensures
        keep_where(s, p, n) == keep_where(s, q, n),
    decreases n,
{
    if n > 0 {
        lemma_keep_where_same_pred(s, p, q, n - 1);
    }
}

/// The paths of `found` at the indices `idx`, in order.
pub open spec fn paths_at(found: Seq<Seq<char>>, idx: Seq<int>) -> Seq<Seq<char>> {
    idx.map_values(|k: int| found[k])
}

/// The entries of `stored` whose path is among `found`, unchanged and in
/// order.
pub open spec fn entries_still_found(stored: Seq<VideoElement>, found: Seq<Seq<char>>) -> Seq<VideoElement> {
    keep_where(stored, |k: int| !found.contains(stored[k].filepath@), stored.len() as int)
}

/// A rescan lists exactly the files found. The stored entries whose file
/// is still found are kept, unchanged and in order, and every other stored
/// entry is dropped (`missing_entry_indices`); with one new entry for each
/// found path that had none (`new_path_indices`), the library's entries,
/// in whatever order (`after`), have exactly the found paths, and an entry
/// for a path that was stored is the stored entry.
pub proof fn lemma_rescan_lists_found_files(
    stored: Seq<VideoElement>,
    found: Seq<Seq<char>>,
    new_entries: Seq<VideoElement>,
    after: Seq<VideoElement>,
)
    requires
        paths_of(new_entries) == paths_at(found, new_path_indices(paths_of(stored), found)),
        after.to_multiset() == (remove_desc(stored, missing_entry_indices(paths_of(stored), found))
            + new_entries).to_multiset(),
    ensures
        remove_desc(stored, missing_entry_indices(paths_of(stored), found)) == entries_still_found(stored, found),
        forall|x: Seq<char>| #[trigger] paths_of(after).contains(x) <==> found.contains(x),
        forall|v: VideoElement|
            #[trigger] after.contains(v) && paths_of(stored).contains(v.filepath@) ==> stored.contains(v),
{
    let e = paths_of(stored);
    let gone = |k: int| !found.contains(e[k]);
    let gone2 = |k: int| !found.contains(stored[k].filepath@);
    assert(missing_entry_indices(e, found) == index_filter(stored.len() as int, gone));
    lemma_remove_desc_filter(stored, gone, stored.len() as int);
    assert(stored.subrange(stored.len() as int, stored.len() as int) =~= Seq::<VideoElement>::empty());
    let kept = remove_desc(stored, missing_entry_indices(e, found));
    assert(kept =~= keep_where(stored, gone, stored.len() as int));
    lemma_keep_where_same_pred(stored, gone, gone2, stored.len() as int);
    let whole = kept + new_entries;
    after.to_multiset_ensures();
    whole.to_multiset_ensures();
    let newp = |k: int| !e.contains(found[k]);
    lemma_index_filter(found.len() as int, newp);
    let ni = new_path_indices(e, found);
    assert(ni == index_filter(found.len() as int, newp));
    assert(paths_of(new_entries).len() == new_entries.len());
    assert(paths_at(found, ni).len() == ni.len());
    assert(ni.len() == new_entries.len());
    assert forall|x: Seq<char>| #[trigger] paths_of(after).contains(x) <==> found.contains(x) by {
        if paths_of(after).contains(x) {
            let i = choose|i: int| 0 <= i < paths_of(after).len() && paths_of(after)[i] == x;
            let v = after[i];
            assert(after.contains(v));
            assert(after.to_multiset().count(v) > 0);
            assert(whole.to_multiset().count(v) > 0);
            assert(whole.contains(v));
            let j = choose|j: int| 0 <= j < whole.len() && whole[j] == v;
            if j < kept.len() {
                lemma_keep_where_members(stored, gone, stored.len() as int, v);
                assert(kept[j] == v);
                assert(kept.contains(v));
                let t = choose|t: int| 0 <= t < stored.len() && !gone(t) && #[trigger] stored[t] == v;
                assert(e[t] == x);
            } else {
                let q = j - kept.len();
                assert(new_entries[q] == v);
                assert(paths_of(new_entries)[q] == x);
                assert(paths_at(found, ni)[q] == found[ni[q]]);
                assert(0 <= ni[q] < found.len());
                assert(found[ni[q]] == x);
                assert(found.contains(x));
            }
        }
        if found.contains(x) {
            let k = choose|k: int| 0 <= k < found.len() && found[k] == x;
            if e.contains(x) {
                let t = choose|t: int| 0 <= t < e.len() && e[t] == x;
                assert(!gone(t));
                lemma_keep_where_members(stored, gone, stored.len() as int, stored[t]);
                assert(kept.contains(stored[t]));
                let j = choose|j: int| 0 <= j < kept.len() && kept[j] == stored[t];
                assert(whole[j] == stored[t]);
                assert(whole.contains(stored[t]));
                assert(whole.to_multiset().count(stored[t]) > 0);
                assert(after.to_multiset().count(stored[t]) > 0);
                assert(after.contains(stored[t]));
                let a = choose|a: int| 0 <= a < after.len() && after[a] == stored[t];
                assert(paths_of(after)[a] == x);
            } else {
                assert(newp(k));
                assert(ni.contains(k));
                let j = choose|j: int| 0 <= j < ni.len() && ni[j] == k;
                assert(paths_of(new_entries)[j] == x);
                let v = new_entries[j];
                assert(whole[kept.len() + j] == v);
                assert(whole.contains(v));
                assert(whole.to_multiset().count(v) > 0);
                assert(after.to_multiset().count(v) > 0);
                assert(after.contains(v));
                let a = choose|a: int| 0 <= a < after.len() && after[a] == v;
                assert(paths_of(after)[a] == x);
            }
        }
    }
    assert forall|v: VideoElement| #[trigger] after.contains(v) && e.contains(v.filepath@) implies stored.contains(v) by {
        assert(after.to_multiset().count(v) > 0);
        assert(whole.to_multiset().count(v) > 0);
        assert(whole.contains(v));
        let j = choose|j: int| 0 <= j < whole.len() && whole[j] == v;
        if j < kept.len() {
            lemma_keep_where_members(stored, gone, stored.len() as int, v);
            assert(kept[j] == v);
            assert(kept.contains(v));
            let t = choose|t: int| 0 <= t < stored.len() && !gone(t) && #[trigger] stored[t] == v;
        } else {
            let q = j - kept.len();
            assert(new_entries[q] == v);
            assert(paths_of(new_entries)[q] == v.filepath@);
            assert(paths_at(found, ni)[q] == found[ni[q]]);
            assert(ni.len() == new_entries.len());
            assert(newp(index_filter(found.len() as int, newp)[q]));
            assert(newp(ni[q]));
            assert(found[ni[q]] == v.filepath@);
            assert(false);
        }
    }
}

} // verus!
