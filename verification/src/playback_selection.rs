//! Automatic audio/subtitle track selection.
//!
//! Picks the audio track matching the film's original language (from TMDB)
//! and, when that audio is not English, a subtitle track in the preferred
//! language (English).
use vstd::prelude::*;
use crate::lang_map::{iso_639_1, tmdb_lang_matches, tmdb_matches, to_iso_639_1};
use crate::text::{ascii_lower, chars_of, contains, contains_chars, to_ascii_lowercase};
use crate::video_element::{opt_str, str_list, PlaybackSelection, SubtitleStatus, VideoElement};

verus! {

/// Smallest `i` in `lo..n` with `p(i)`.
pub open spec fn first_from(lo: int, n: int, p: spec_fn(int) -> bool) -> Option<int>
    decreases n - lo,
{
    if lo >= n {
        None
    } else if p(lo) {
        Some(lo)
    } else {
        first_from(lo + 1, n, p)
    }
}

pub proof fn lemma_first_from(lo: int, n: int, p: spec_fn(int) -> bool, i: int)
    requires
        lo <= i <= n,
        forall|j: int| lo <= j < i ==> !#[trigger] p(j),
    ensures
        i < n && p(i) ==> first_from(lo, n, p) == Some(i),
        i == n ==> first_from(lo, n, p) is None,
    decreases i - lo,
{
    if lo < i {
        lemma_first_from(lo + 1, n, p, i);
    }
}

/// A title marks a commentary track when it contains "comment" in any case.
pub open spec fn is_commentary_title(t: Option<Seq<char>>) -> bool {
    match t {
        Some(s) => contains(ascii_lower(s), "comment"@),
        None => false,
    }
}

/// The title of audio track `i`, if the file records one.
pub open spec fn audio_title(ve: VideoElement, i: int) -> Option<Seq<char>> {
    match ve.audio_titles {
        Some(v) => if 0 <= i < v@.len() {
            opt_str(v@[i])
        } else {
            None
        },
        None => None,
    }
}

pub open spec fn audio_is_comment(ve: VideoElement, i: int) -> bool {
    is_commentary_title(audio_title(ve, i))
}

/// ISO 639-1 language of audio track `i`.
pub open spec fn audio_iso(ve: VideoElement, i: int) -> Option<Seq<char>> {
    iso_639_1(str_list(ve.audio_languages)[i])
}

/// Display label of a tag: its ISO 639-1 code, else the raw tag.
pub open spec fn display_label(tag: Seq<char>) -> Seq<char> {
    match iso_639_1(tag) {
        Some(c) => c,
        None => tag,
    }
}

/// Audio track chosen: the first non-commentary track in TMDB's original
/// language, else the first non-commentary English track, else the first
/// non-commentary track, else track 0; none when the file has no audio.
pub open spec fn chosen_audio(ve: VideoElement) -> Option<int> {
    let n = str_list(ve.audio_languages).len() as int;
    if n == 0 {
        None
    } else {
        let by_tmdb = match ve.tmdb_language {
            Some(tl) => first_from(
                0,
                n,
                |i: int|
                    audio_iso(ve, i) is Some && !audio_is_comment(ve, i) && tmdb_lang_matches(
                        tl@,
                        audio_iso(ve, i).unwrap(),
                    ),
            ),
            None => None,
        };
        match by_tmdb {
            Some(i) => Some(i),
            None => match first_from(
                0,
                n,
                |i: int| audio_iso(ve, i) == Some("en"@) && !audio_is_comment(ve, i),
            ) {
                Some(i) => Some(i),
                None => match first_from(0, n, |i: int| !audio_is_comment(ve, i)) {
                    Some(i) => Some(i),
                    None => Some(0),
                },
            },
        }
    }
}

/// Label of the chosen audio track.
pub open spec fn chosen_audio_lang(ve: VideoElement) -> Option<Seq<char>> {
    match chosen_audio(ve) {
        Some(i) => Some(display_label(str_list(ve.audio_languages)[i])),
        None => None,
    }
}

/// The chosen audio is already in the preferred language (English).
pub open spec fn audio_in_preferred(ve: VideoElement) -> bool {
    chosen_audio_lang(ve) == Some("en"@)
}

/// Subtitle `i` of `subs` is English.
pub open spec fn english_subtitle(subs: Seq<Seq<char>>) -> spec_fn(int) -> bool {
    |i: int| iso_639_1(subs[i]) == Some("en"@)
}

/// Subtitle track chosen: none when the audio is English or there are no
/// subtitles; else the first English subtitle, else subtitle 0.
pub open spec fn chosen_subtitle(ve: VideoElement) -> Option<int> {
    let subs = str_list(ve.subtitle_languages);
    if audio_in_preferred(ve) || subs.len() == 0 {
        None
    } else {
        match first_from(0, subs.len() as int, english_subtitle(subs)) {
            Some(i) => Some(i),
            None => Some(0),
        }
    }
}

pub open spec fn chosen_subtitle_status(ve: VideoElement) -> SubtitleStatus {
    if audio_in_preferred(ve) {
        SubtitleStatus::NotNeeded
    } else if str_list(ve.subtitle_languages).len() == 0 {
        SubtitleStatus::Unavailable
    } else {
        SubtitleStatus::Selected
    }
}

pub open spec fn opt_index(o: Option<usize>) -> Option<int> {
    match o {
        Some(i) => Some(i as int),
        None => None,
    }
}

fn is_commentary(title: &Option<String>) -> (r: bool)
    ensures
        r == is_commentary_title(opt_str(*title)),
{
    match title {
        Some(t) => {
            let lower = to_ascii_lowercase(&chars_of(t.as_str()));
            let pat = chars_of("comment");
            contains_chars(&lower, &pat)
        },
        None => false,
    }
}

/// Display label for a track tag: prefer ISO 639-1, fall back to the raw tag.
fn display_lang(tag: &str) -> (r: String)
    ensures
        r@ == display_label(tag@),
{
    match to_iso_639_1(tag) {
        Some(code) => String::from_str(code),
        None => String::from_str(tag),
    }
}

fn is_en(c: &str) -> (r: bool)
    ensures
        r == (c@ == "en"@),
{
    let v = chars_of(c);
    crate::text::eq_str(&v, "en")
}

fn audio_comment_at(ve: &VideoElement, i: usize) -> (r: bool)
    ensures
        r == audio_is_comment(*ve, i as int),
{
    match &ve.audio_titles {
        Some(v) => {
            if i < v.len() {
                is_commentary(&v[i])
            } else {
                false
            }
        },
        None => false,
    }
}

/// Picks the audio and subtitle tracks to play (see `chosen_audio` and
/// `chosen_subtitle`).
pub fn compute_selection(ve: &VideoElement) -> (sel: PlaybackSelection)
    ensures
        opt_index(sel.audio_index) == chosen_audio(*ve),
        opt_str(sel.audio_lang) == chosen_audio_lang(*ve),
        opt_index(sel.subtitle_index) == chosen_subtitle(*ve),
        opt_str(sel.subtitle_lang) == match chosen_subtitle(*ve) {
            Some(i) => Some(display_label(str_list(ve.subtitle_languages)[i])),
            None => None,
        },
        sel.subtitle_status == chosen_subtitle_status(*ve),
{
    let empty: Vec<String> = Vec::new();
    let audio: &Vec<String> = match &ve.audio_languages {
        Some(v) => v,
        None => &empty,
    };
    let subs: &Vec<String> = match &ve.subtitle_languages {
        Some(v) => v,
        None => &empty,
    };
    assert(str_list(ve.audio_languages).len() == audio@.len());
    assert(forall|i: int| 0 <= i < audio@.len() ==> str_list(ve.audio_languages)[i] == #[trigger] audio@[i]@);
    assert(str_list(ve.subtitle_languages).len() == subs@.len());
    assert(forall|i: int| 0 <= i < subs@.len() ==> str_list(ve.subtitle_languages)[i] == #[trigger] subs@[i]@);
    let n = audio.len();
    let ghost nn = n as int;

    // --- Audio pick (tiered) ---
    let audio_index: Option<usize> = if n == 0 {
        None
    } else {
        // 1. Match TMDB original language (skipping commentary tracks).
        let mut pick: Option<usize> = None;
        if let Some(tl) = &ve.tmdb_language {
            let ghost p = |i: int|
                audio_iso(*ve, i) is Some && !audio_is_comment(*ve, i) && tmdb_lang_matches(
                    tl@,
                    audio_iso(*ve, i).unwrap(),
                );
            let mut i: usize = 0;
            while i < n
                invariant_except_break
                    pick is None,
                invariant
                    n == audio@.len(),
                    i <= n,
                    nn == n,
                    forall|j: int| 0 <= j < i ==> !#[trigger] p(j),

                    forall|j: int| #[trigger] p(j) == (audio_iso(*ve, j) is Some && !audio_is_comment(*ve, j) && tmdb_lang_matches(tl@, audio_iso(*ve, j).unwrap())),
                    forall|k: int| 0 <= k < audio@.len() ==> str_list(ve.audio_languages)[k] == #[trigger] audio@[k]@,
                ensures
                    pick matches Some(k) ==> k < nn && p(k as int) && forall|j: int| 0 <= j < k ==> !#[trigger] p(j),
                    pick is None ==> forall|j: int| 0 <= j < nn ==> !#[trigger] p(j),
                decreases n - i,
            {
                let code = to_iso_639_1(audio[i].as_str());
                let comment = audio_comment_at(ve, i);
                assert(str_list(ve.audio_languages)[i as int] == audio@[i as int]@);
                let hit = match code {
                    Some(c) => !comment && tmdb_matches(tl.as_str(), c),
                    None => false,
                };
                assert(hit == p(i as int));
                if hit {
                    pick = Some(i);
                    break;
                }
                i = i + 1;
            }
            proof {
                match pick {
                    Some(k) => lemma_first_from(0, nn, p, k as int),
                    None => lemma_first_from(0, nn, p, nn),
                }
            }
        }
        // 2. First English track.
        if pick.is_none() {
            let ghost p = |i: int| audio_iso(*ve, i) == Some("en"@) && !audio_is_comment(*ve, i);
            let mut i: usize = 0;
            while i < n
                invariant_except_break
                    pick is None,
                invariant
                    n == audio@.len(),
                    i <= n,
                    nn == n,
                    forall|j: int| 0 <= j < i ==> !#[trigger] p(j),

                    forall|j: int| #[trigger] p(j) == (audio_iso(*ve, j) == Some("en"@) && !audio_is_comment(*ve, j)),
                    forall|k: int| 0 <= k < audio@.len() ==> str_list(ve.audio_languages)[k] == #[trigger] audio@[k]@,
                ensures
                    pick matches Some(k) ==> k < nn && p(k as int) && forall|j: int| 0 <= j < k ==> !#[trigger] p(j),
                    pick is None ==> forall|j: int| 0 <= j < nn ==> !#[trigger] p(j),
                decreases n - i,
            {
                let code = to_iso_639_1(audio[i].as_str());
                let comment = audio_comment_at(ve, i);
                assert(str_list(ve.audio_languages)[i as int] == audio@[i as int]@);
                let hit = match code {
                    Some(c) => !comment && is_en(c),
                    None => false,
                };
                assert(hit == p(i as int));
                if hit {
                    pick = Some(i);
                    break;
                }
                i = i + 1;
            }
            proof {
                match pick {
                    Some(k) => lemma_first_from(0, nn, p, k as int),
                    None => lemma_first_from(0, nn, p, nn),
                }
            }
        }
        // 3. First non-commentary track.
        if pick.is_none() {
            let ghost p = |i: int| !audio_is_comment(*ve, i);
            let mut i: usize = 0;
            while i < n
                invariant_except_break
                    pick is None,
                invariant
                    n == audio@.len(),
                    i <= n,
                    nn == n,
                    forall|j: int| 0 <= j < i ==> !#[trigger] p(j),

                    forall|j: int| #[trigger] p(j) == (!audio_is_comment(*ve, j)),
                ensures
                    pick matches Some(k) ==> k < nn && p(k as int) && forall|j: int| 0 <= j < k ==> !#[trigger] p(j),
                    pick is None ==> forall|j: int| 0 <= j < nn ==> !#[trigger] p(j),
                decreases n - i,
            {
                let hit = !audio_comment_at(ve, i);
                assert(hit == p(i as int));
                if hit {
                    pick = Some(i);
                    break;
                }
                i = i + 1;
            }
            proof {
                match pick {
                    Some(k) => lemma_first_from(0, nn, p, k as int),
                    None => lemma_first_from(0, nn, p, nn),
                }
            }
        }
        // 4. Index 0.
        match pick {
            Some(i) => Some(i),
            None => Some(0),
        }
    };
    let audio_lang: Option<String> = match audio_index {
        Some(i) => Some(display_lang(audio[i].as_str())),
        None => None,
    };
    let audio_is_preferred = match &audio_lang {
        Some(l) => {
            let lc = chars_of(l.as_str());
            crate::text::eq_str(&lc, "en")
        },
        None => false,
    };

    // --- Subtitle pick (depends on chosen audio) ---
    let mut subtitle_index: Option<usize> = None;
    let mut subtitle_lang: Option<String> = None;
    let subtitle_status;
    if audio_is_preferred {
        subtitle_status = SubtitleStatus::NotNeeded;
    } else if subs.len() == 0 {
        subtitle_status = SubtitleStatus::Unavailable;
    } else {
        let ghost sl = str_list(ve.subtitle_languages);
        let ghost p = |i: int| iso_639_1(sl[i]) == Some("en"@);
        let m = subs.len();
        let mut pref: Option<usize> = None;
        let mut i: usize = 0;
        while i < m
            invariant_except_break
                pref is None,
            invariant
                m == subs@.len(),
                sl.len() == m,
                i <= m,
                forall|j: int| 0 <= j < i ==> !#[trigger] p(j),

                forall|j: int| #[trigger] p(j) == (iso_639_1(sl[j]) == Some("en"@)),
                forall|k: int| 0 <= k < subs@.len() ==> sl[k] == #[trigger] subs@[k]@,
            ensures
                pref matches Some(k) ==> k < m && p(k as int) && forall|j: int| 0 <= j < k ==> !#[trigger] p(j),
                pref is None ==> forall|j: int| 0 <= j < m ==> !#[trigger] p(j),
            decreases m - i,
        {
            let code = to_iso_639_1(subs[i].as_str());
            assert(sl[i as int] == subs@[i as int]@);
            let hit = match code {
                Some(c) => is_en(c),
                None => false,
            };
            assert(hit == p(i as int));
            if hit {
                pref = Some(i);
                break;
            }
            i = i + 1;
        }
        proof {
            match pref {
                Some(k) => lemma_first_from(0, m as int, p, k as int),
                None => lemma_first_from(0, m as int, p, m as int),
            }
        }
        let idx = match pref {
            Some(k) => k,
            None => 0,
        };
        subtitle_index = Some(idx);
        subtitle_lang = Some(display_lang(subs[idx].as_str()));
        subtitle_status = SubtitleStatus::Selected;
    }
    PlaybackSelection { audio_index, audio_lang, subtitle_index, subtitle_lang, subtitle_status }
}

/// What `first_from` finds lies in range and satisfies `p`; it finds
/// something whenever some index in range satisfies `p`.
proof fn lemma_first_from_props(lo: int, n: int, p: spec_fn(int) -> bool)
    ensures
        (first_from(lo, n, p) matches Some(k) ==> lo <= k < n && p(k) && forall|j: int| lo <= j < k ==> !#[trigger] p(j)),
        first_from(lo, n, p) is None ==> forall|j: int| lo <= j < n ==> !#[trigger] p(j),
    decreases n - lo,
{
    if lo < n {
        lemma_first_from_props(lo + 1, n, p);
    }
}

/// The chosen tracks exist: an audio track is chosen exactly when the file
/// has one, and chosen indices lie below the numbers of tracks; a subtitle
/// is chosen exactly when the status says `Selected`.
pub proof fn lemma_selection_in_range(ve: VideoElement)
    ensures
        chosen_audio(ve) is None <==> str_list(ve.audio_languages).len() == 0,
        (chosen_audio(ve) matches Some(k) ==> 0 <= k < str_list(ve.audio_languages).len()),
        (chosen_subtitle(ve) matches Some(k) ==> 0 <= k < str_list(ve.subtitle_languages).len()),
        chosen_subtitle(ve) is Some <==> chosen_subtitle_status(ve) == SubtitleStatus::Selected,
{
    let n = str_list(ve.audio_languages).len() as int;
    if n > 0 {
        match ve.tmdb_language {
            Some(tl) => lemma_first_from_props(
                0,
                n,
                |i: int|
                    audio_iso(ve, i) is Some && !audio_is_comment(ve, i) && tmdb_lang_matches(
                        tl@,
                        audio_iso(ve, i).unwrap(),
                    ),
            ),
            None => {},
        }
        lemma_first_from_props(0, n, |i: int| audio_iso(ve, i) == Some("en"@) && !audio_is_comment(ve, i));
        lemma_first_from_props(0, n, |i: int| !audio_is_comment(ve, i));
    }
    let subs = str_list(ve.subtitle_languages);
    lemma_first_from_props(0, subs.len() as int, english_subtitle(subs));
}

/// When TMDB names the original language and some non-commentary audio
/// track is in it, the first such track is played.
pub proof fn lemma_audio_in_original_language(ve: VideoElement, i: int)
    requires
        ve.tmdb_language is Some,
        0 <= i < str_list(ve.audio_languages).len(),
        audio_iso(ve, i) is Some,
        !audio_is_comment(ve, i),
        tmdb_lang_matches(ve.tmdb_language->0@, audio_iso(ve, i)->0),
    ensures
        (chosen_audio(ve) matches Some(k) && k <= i && audio_iso(ve, k) is Some && !audio_is_comment(ve, k)
            && tmdb_lang_matches(ve.tmdb_language->0@, audio_iso(ve, k)->0)),
{
    let n = str_list(ve.audio_languages).len() as int;
    let tl = ve.tmdb_language->0;
    let p = |j: int|
        audio_iso(ve, j) is Some && !audio_is_comment(ve, j) && tmdb_lang_matches(tl@, audio_iso(ve, j).unwrap());
    lemma_first_from_props(0, n, p);
    assert(p(i));
}

/// When the chosen audio is not in the preferred language (English) and an
/// English subtitle exists, the first English subtitle is shown; when the
/// audio is English, no subtitle is.
pub proof fn lemma_subtitles_for_foreign_audio(ve: VideoElement)
    ensures
        audio_in_preferred(ve) ==> chosen_subtitle(ve) is None && chosen_subtitle_status(ve) == SubtitleStatus::NotNeeded,
        (!audio_in_preferred(ve) && exists|j: int|
            0 <= j < str_list(ve.subtitle_languages).len() && iso_639_1(#[trigger] str_list(ve.subtitle_languages)[j])
                == Some("en"@)) ==> (chosen_subtitle(ve) matches Some(k) && iso_639_1(
            str_list(ve.subtitle_languages)[k],
        ) == Some("en"@)),
{
    let subs = str_list(ve.subtitle_languages);
    lemma_first_from_props(0, subs.len() as int, english_subtitle(subs));
    if !audio_in_preferred(ve) && exists|j: int| 0 <= j < subs.len() && iso_639_1(#[trigger] subs[j]) == Some("en"@) {
        let j = choose|j: int| 0 <= j < subs.len() && iso_639_1(#[trigger] subs[j]) == Some("en"@);
        assert(english_subtitle(subs)(j));
    }
}

/// A commentary track is never played while the file has another audio
/// track.
pub proof fn lemma_commentary_played_only_as_last_resort(ve: VideoElement)
    ensures
        (exists|i: int| 0 <= i < str_list(ve.audio_languages).len() && !#[trigger] audio_is_comment(ve, i)) ==> (
        chosen_audio(ve) matches Some(k) && !audio_is_comment(ve, k)),
{
    let n = str_list(ve.audio_languages).len() as int;
    if exists|i: int| 0 <= i < n && !#[trigger] audio_is_comment(ve, i) {
        let i = choose|i: int| 0 <= i < n && !#[trigger] audio_is_comment(ve, i);
        match ve.tmdb_language {
            Some(tl) => lemma_first_from_props(
                0,
                n,
                |j: int|
                    audio_iso(ve, j) is Some && !audio_is_comment(ve, j) && tmdb_lang_matches(
                        tl@,
                        audio_iso(ve, j).unwrap(),
                    ),
            ),
            None => {},
        }
        let en = |j: int| audio_iso(ve, j) == Some("en"@) && !audio_is_comment(ve, j);
        let plain = |j: int| !audio_is_comment(ve, j);
        lemma_first_from_props(0, n, en);
        lemma_first_from_props(0, n, plain);
        assert(plain(i));
    }
}

/// Without a track in TMDB's original language, the first English track
/// that is not a commentary is played, when there is one.
pub proof fn lemma_english_audio_without_tmdb_match(ve: VideoElement, i: int)
    requires
        0 <= i < str_list(ve.audio_languages).len(),
        audio_iso(ve, i) == Some("en"@),
        !audio_is_comment(ve, i),
        ve.tmdb_language is None || forall|j: int|
            0 <= j < str_list(ve.audio_languages).len() ==> !(audio_iso(ve, j) is Some && !audio_is_comment(ve, j)
                && tmdb_lang_matches(ve.tmdb_language->0@, #[trigger] audio_iso(ve, j)->0)),
    ensures
        chosen_audio(ve) matches Some(k) && k <= i && audio_iso(ve, k) == Some("en"@) && !audio_is_comment(ve, k)
            && forall|j: int| 0 <= j < k ==> !(#[trigger] audio_iso(ve, j) == Some("en"@) && !audio_is_comment(ve, j)),
{
    let n = str_list(ve.audio_languages).len() as int;
    match ve.tmdb_language {
        Some(tl) => {
            let p = |j: int|
                audio_iso(ve, j) is Some && !audio_is_comment(ve, j) && tmdb_lang_matches(tl@, audio_iso(ve, j).unwrap());
            lemma_first_from_props(0, n, p);
            if first_from(0, n, p) is Some {
                let k = first_from(0, n, p)->0;
                assert(p(k));
                assert(!(audio_iso(ve, k) is Some && !audio_is_comment(ve, k) && tmdb_lang_matches(
                    ve.tmdb_language->0@,
                    audio_iso(ve, k)->0,
                )));
            }
        },
        None => {},
    }
    let en = |j: int| audio_iso(ve, j) == Some("en"@) && !audio_is_comment(ve, j);
    lemma_first_from_props(0, n, en);
    assert(en(i));
    let k = first_from(0, n, en)->0;
    assert forall|j: int| 0 <= j < k implies !(#[trigger] audio_iso(ve, j) == Some("en"@) && !audio_is_comment(ve, j)) by {
        assert(!en(j));
    }
}

} // verus!
