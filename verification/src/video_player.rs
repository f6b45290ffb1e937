//! Starting a video in an external player with the chosen tracks: VLC's
//! command line, and the decisions of the MPC-HC web-interface dialogue
//! (what to ask, when the file is loaded, when to step to the next track).
use vstd::prelude::*;
use crate::text::{chars_of, push_str, push_all, string_from_chars, decimal, decimal_chars, contains, contains_chars, occurs_at, occurs_at_exec, trim, trim_chars, parse_i64, parse_i64_chars, slice_chars};
use crate::search_name_creator::{first_index, find_char};

verus! {

/// Arguments for VLC: the file, `--audio-track=N` when an audio track is
/// chosen, and `--sub-track=N` or, without a subtitle, `--no-spu`.
pub fn vlc_args(filepath: &str, audio_track: Option<usize>, subtitle_track: Option<usize>) -> (r: Vec<String>)
    ensures
        r@.len() == 2 + if audio_track is Some {
            1int
        } else {
            0int
        },
        r@[0]@ == filepath@,
        audio_track matches Some(a) ==> r@[1]@ == "--audio-track="@ + decimal(a as nat),
        r@.last()@ == match subtitle_track {
            Some(s) => "--sub-track="@ + decimal(s as nat),
            None => "--no-spu"@,
        },
{
    let mut args: Vec<String> = Vec::new();
    args.push(String::from_str(filepath));
    if let Some(a) = audio_track {
        let mut v: Vec<char> = Vec::new();
        push_str(&mut v, "--audio-track=");
        push_all(&mut v, &decimal_chars(a as u64));
        args.push(string_from_chars(&v));
    }
    match subtitle_track {
        Some(s) => {
            let mut v: Vec<char> = Vec::new();
            push_str(&mut v, "--sub-track=");
            push_all(&mut v, &decimal_chars(s as u64));
            args.push(string_from_chars(&v));
        },
        None => args.push(String::from_str("--no-spu")),
    }
    args
}

/// The argument MPC-HC is started with: the path after a space.
pub fn mpc_args(filepath: &str) -> (r: Vec<String>)
    ensures
        r@.len() == 1,
        r@[0]@ == seq![' '] + filepath@,
{
    let mut v: Vec<char> = Vec::new();
    v.push(' ');
    push_str(&mut v, filepath);
    let mut args: Vec<String> = Vec::new();
    args.push(string_from_chars(&v));
    args
}

/// The part of `path` after its last `'/'` or `'\'`.
pub open spec fn last_path_segment(path: Seq<char>) -> Seq<char>
    decreases path.len(),
{
    if path.len() == 0 {
        path
    } else if path.last() == '/' || path.last() == '\\' {
        Seq::empty()
    } else {
        last_path_segment(path.drop_last()).push(path.last())
    }
}

/// The file name MPC-HC shows for `filepath`: what follows the last slash
/// or backslash.
pub fn mpc_file_name(filepath: &str) -> (r: String)
    ensures
        r@ == last_path_segment(filepath@),
{
    let v = chars_of(filepath);
    let mut i: usize = v.len();
    assert(v@.take(v.len() as int) =~= v@);
    assert(v@.subrange(v.len() as int, v.len() as int) =~= Seq::<char>::empty());
    assert(v@ + Seq::<char>::empty() =~= v@);
    while i > 0 && v[i - 1] != '/' && v[i - 1] != '\\'
        invariant
            i <= v.len(),
            last_path_segment(v@) == last_path_segment(v@.take(i as int)) + v@.subrange(i as int, v.len() as int),
        decreases i,
    {
        proof {
            let t = v@.take(i as int);
            assert(t.drop_last() =~= v@.take(i - 1));
            assert(t.last() == v@[i - 1]);
            assert(last_path_segment(t) == last_path_segment(v@.take(i - 1)).push(v@[i - 1]));
            assert(last_path_segment(v@.take(i - 1)).push(v@[i - 1]) + v@.subrange(i as int, v.len() as int)
                =~= last_path_segment(v@.take(i - 1)) + v@.subrange(i - 1, v.len() as int));
        }
        i = i - 1;
    }
    proof {
        if i > 0 {
            let t = v@.take(i as int);
            assert(t.last() == v@[i - 1]);
        } else {
            assert(v@.take(0) =~= Seq::<char>::empty());
        }
        assert(v@.take(v.len() as int) =~= v@);
    }
    let r = slice_chars(&v, i, v.len());
    assert(last_path_segment(v@) =~= r@);
    string_from_chars(&r)
}

/// MPC-HC's variables page shows our file as the loaded one.
pub fn body_is_our_file(body: &str, file_name: &str) -> (r: bool)
    ensures
        r == contains(body@, file_name@),
{
    contains_chars(&chars_of(body), &chars_of(file_name))
}

/// The request path that sends MPC-HC command `id`.
pub fn mpc_command(id: u32) -> (r: String)
    ensures
        r@ == "/command.html?wm_command="@ + decimal(id as nat),
{
    let mut v: Vec<char> = Vec::new();
    push_str(&mut v, "/command.html?wm_command=");
    push_all(&mut v, &decimal_chars(id as u64));
    string_from_chars(&v)
}

/// The first index at which `pat` occurs in `s`.
pub open spec fn first_occurrence(s: Seq<char>, pat: Seq<char>) -> Option<int> {
    if exists|i: int| occurs_at(s, pat, i) {
        Some(choose|i: int| occurs_at(s, pat, i) && forall|j: int| 0 <= j < i ==> !occurs_at(s, pat, j))
    } else {
        None
    }
}

proof fn lemma_first_occurrence(s: Seq<char>, pat: Seq<char>, i: int)
    requires
        0 <= i,
        forall|j: int| 0 <= j < i ==> !#[trigger] occurs_at(s, pat, j),
        i + pat.len() <= s.len() ==> occurs_at(s, pat, i),
        i + pat.len() > s.len() ==> forall|j: int| !#[trigger] occurs_at(s, pat, j),
    ensures
        first_occurrence(s, pat) == if i + pat.len() <= s.len() {
            Some(i)
        } else {
            None::<int>
        },
{
    if i + pat.len() <= s.len() {
        assert(occurs_at(s, pat, i));
        let c = choose|k: int| occurs_at(s, pat, k) && forall|j: int| 0 <= j < k ==> !occurs_at(s, pat, j);
        assert(occurs_at(s, pat, c) && forall|j: int| 0 <= j < c ==> !occurs_at(s, pat, j));
        if c < i {
            assert(!occurs_at(s, pat, c));
        }
        if i < c {
            assert(!occurs_at(s, pat, i));
        }
    }
}

fn find_pattern(s: &Vec<char>, pat: &Vec<char>) -> (r: Option<usize>)
    ensures
        match first_occurrence(s@, pat@) {
            Some(k) => r matches Some(i) && i == k && i + pat.len() <= s.len(),
            None => r is None,
        },
{
    let mut i: usize = 0;
    while i <= s.len()
        invariant
            forall|j: int| 0 <= j < i ==> !#[trigger] occurs_at(s@, pat@, j),
        decreases s.len() + 1 - i,
    {
        if pat.len() > s.len() - i {
            proof {
                assert forall|j: int| !#[trigger] occurs_at(s@, pat@, j) by {}
                lemma_first_occurrence(s@, pat@, i as int);
            }
            return None;
        }
        if occurs_at_exec(s, pat, i) {
            proof {
                lemma_first_occurrence(s@, pat@, i as int);
            }
            return Some(i);
        }
        if i == s.len() {
            proof {
                assert forall|j: int| !#[trigger] occurs_at(s@, pat@, j) by {
                    if 0 <= j && j <= i {
                    }
                }
                lemma_first_occurrence(s@, pat@, i as int + pat.len() as int + 1);
            }
            return None;
        }
        i = i + 1;
    }
    None
}

/// The integer MPC-HC's variables page shows for `id`, as in
/// `<p id="duration">12345</p>`: after the first `id="{id}">`, up to the
/// next `<`, trimmed and parsed.
pub open spec fn mpc_var(body: Seq<char>, id: Seq<char>) -> Option<i64> {
    let needle = "id=\""@ + id + "\">"@;
    match first_occurrence(body, needle) {
        Some(k) => {
            let rest = body.subrange(k + needle.len(), body.len() as int);
            match first_index(rest, '<') {
                Some(e) => parse_i64(trim(rest.take(e))),
                None => None,
            }
        },
        None => None,
    }
}

/// Reads the integer variable `id` from MPC-HC's variables page.
pub fn extract_var(body: &str, id: &str) -> (r: Option<i64>)
    ensures
        r == mpc_var(body@, id@),
{
    let b = chars_of(body);
    let mut needle: Vec<char> = Vec::new();
    push_str(&mut needle, "id=\"");
    push_str(&mut needle, id);
    push_str(&mut needle, "\">");
    match find_pattern(&b, &needle) {
        Some(k) => {
            let rest = slice_chars(&b, k + needle.len(), b.len());
            match find_char(&rest, '<') {
                Some(e) => parse_i64_chars(&trim_chars(&slice_chars(&rest, 0, e))),
                None => None,
            }
        },
        None => None,
    }
}

/// Our file is loaded in MPC-HC: the page shows its name and a positive
/// duration.
pub fn mpc_file_loaded(body: &str, file_name: &str) -> (r: bool)
    ensures
        r == (contains(body@, file_name@) && (match mpc_var(body@, "duration"@) {
            Some(d) => d > 0,
            None => false,
        })),
{
    if !body_is_our_file(body, file_name) {
        return false;
    }
    match extract_var(body, "duration") {
        Some(d) => d > 0,
        None => false,
    }
}

/// Whether to step to the next track once more, given the variables page
/// just read (`None` when it could not be read) and the track numbers seen
/// so far: only while the page is ours, shows a track number, the number is
/// not the target, and it was not seen before (a repeat means a full cycle
/// without the target).
pub open spec fn converge_continues(body: Option<Seq<char>>, file_name: Seq<char>, var_id: Seq<char>, target: usize, seen: Seq<i64>) -> bool {
    match body {
        Some(b) => contains(b, file_name) && match mpc_var(b, var_id) {
            Some(current) => current != target as i64 && !seen.contains(current),
            None => false,
        },
        None => false,
    }
}

fn contains_i64(v: &Vec<i64>, x: i64) -> (r: bool)
    ensures
        r == v@.contains(x),
{
    let mut i: usize = 0;
    while i < v.len()
        invariant
            i <= v.len(),
            forall|j: int| 0 <= j < i ==> #[trigger] v@[j] != x,
        decreases v.len() - i,
    {
        if v[i] == x {
            assert(v@[i as int] == x);
            return true;
        }
        i = i + 1;
    }
    false
}

/// One step of bringing MPC-HC's audio or subtitle track to `target`:
/// `true` means send the next-track command; the track number read is then
/// remembered in `seen`.
pub fn converge_step(seen: &mut Vec<i64>, body: &Option<String>, file_name: &str, var_id: &str, target: usize) -> (r: bool)
    ensures
        r == converge_continues(
            match body {
                Some(b) => Some(b@),
                None => None,
            },
            file_name@,
            var_id@,
            target,
            old(seen)@,
        ),
        r ==> final(seen)@ == old(seen)@.push(mpc_var(body->0@, var_id@)->0),
        !r ==> final(seen)@ == old(seen)@,
        old(seen)@.no_duplicates() ==> final(seen)@.no_duplicates(),
{
    match body {
        Some(b) => {
            if !body_is_our_file(b.as_str(), file_name) {
                return false;
            }
            match extract_var(b.as_str(), var_id) {
                Some(current) => {
                    if current == target as i64 {
                        return false;
                    }
                    if contains_i64(seen, current) {
                        return false;
                    }
                    let ghost before = seen@;
                    seen.push(current);
                    proof {
                        if before.no_duplicates() {
                            assert forall|i: int, j: int| 0 <= i < j < seen@.len() implies seen@[i] != seen@[j] by {
                                if j == before.len() {
                                    assert(before.contains(before[i]));
                                }
                            }
                        }
                    }
                    true
                },
                None => false,
            }
        },
        None => false,
    }
}

} // verus!
