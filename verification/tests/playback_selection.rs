use ryser::playback_selection::compute_selection;
use ryser::video_element::{SubtitleStatus, VideoElement};

fn ve(tmdb: Option<&str>, audio: &[&str], titles: &[Option<&str>], subs: &[&str]) -> VideoElement {
    VideoElement {
        tmdb_language: tmdb.map(|s| s.to_string()),
        audio_languages: Some(audio.iter().map(|s| s.to_string()).collect()),
        audio_titles: Some(titles.iter().map(|t| t.map(|s| s.to_string())).collect()),
        subtitle_languages: Some(subs.iter().map(|s| s.to_string()).collect()),
        ..Default::default()
    }
}

#[test]
fn single_audio_picks_index_zero() {
    let s = compute_selection(&ve(Some("fr"), &["fre"], &[None], &["eng"]));
    assert_eq!(s.audio_index, Some(0));
    assert_eq!(s.audio_lang.as_deref(), Some("fr"));
    // non-English audio + English sub available
    assert_eq!(s.subtitle_status, SubtitleStatus::Selected);
    assert_eq!(s.subtitle_index, Some(0));
    assert_eq!(s.subtitle_lang.as_deref(), Some("en"));
}

#[test]
fn tmdb_match_over_first_track() {
    // [eng, fre]; original = fr -> pick fre at index 1
    let s = compute_selection(&ve(Some("fr"), &["eng", "fre"], &[None, None], &["eng"]));
    assert_eq!(s.audio_index, Some(1));
    assert_eq!(s.audio_lang.as_deref(), Some("fr"));
}

#[test]
fn english_audio_needs_no_subtitles() {
    let s = compute_selection(&ve(Some("en"), &["eng"], &[None], &["eng", "fre"]));
    assert_eq!(s.audio_lang.as_deref(), Some("en"));
    assert_eq!(s.subtitle_status, SubtitleStatus::NotNeeded);
    assert!(s.subtitle_index.is_none());
}

#[test]
fn non_english_audio_no_subs_is_unavailable() {
    let s = compute_selection(&ve(Some("ja"), &["jpn"], &[None], &[]));
    assert_eq!(s.subtitle_status, SubtitleStatus::Unavailable);
}

#[test]
fn commentary_track_is_skipped() {
    // English original; first eng track is commentary -> pick the second eng
    let s = compute_selection(&ve(
        Some("en"),
        &["eng", "eng"],
        &[Some("English Commentary by Director"), None],
        &[],
    ));
    assert_eq!(s.audio_index, Some(1));
}

#[test]
fn tmdb_cn_matches_chinese_track() {
    // TMDB uses 'cn' for Cantonese; ffmpeg tags 'chi' -> zh
    let s = compute_selection(&ve(Some("cn"), &["chi", "eng"], &[None, None], &["eng"]));
    assert_eq!(s.audio_index, Some(0));
    assert_eq!(s.audio_lang.as_deref(), Some("zh"));
}

#[test]
fn all_untagged_falls_back_to_first() {
    let s = compute_selection(&ve(Some("fr"), &["und", "und"], &[None, None], &[]));
    assert_eq!(s.audio_index, Some(0));
    assert_eq!(s.subtitle_status, SubtitleStatus::Unavailable);
}

#[test]
fn first_subtitle_fallback_when_no_preferred() {
    // Japanese audio, subs exist but none English -> first sub used
    let s = compute_selection(&ve(Some("ja"), &["jpn"], &[None], &["fre", "ger"]));
    assert_eq!(s.subtitle_status, SubtitleStatus::Selected);
    assert_eq!(s.subtitle_index, Some(0));
    assert_eq!(s.subtitle_lang.as_deref(), Some("fr"));
}

#[test]
fn no_audio_tracks_selects_nothing() {
    let s = compute_selection(&ve(Some("fr"), &[], &[], &["eng"]));
    assert_eq!(s.audio_index, None);
    assert_eq!(s.audio_lang, None);
    assert_eq!(s.subtitle_status, SubtitleStatus::Selected);
    assert_eq!(s.subtitle_index, Some(0));
}

#[test]
fn english_track_preferred_without_tmdb_language() {
    let s = compute_selection(&ve(None, &["ger", "eng"], &[None, None], &["ger"]));
    assert_eq!(s.audio_index, Some(1));
    assert_eq!(s.subtitle_status, SubtitleStatus::NotNeeded);
}

#[test]
fn all_commentary_falls_back_to_index_zero() {
    let s = compute_selection(&ve(Some("en"), &["eng", "eng"], &[Some("Commentary"), Some("COMMENTS")], &[]));
    assert_eq!(s.audio_index, Some(0));
}

#[test]
fn unknown_tag_is_shown_raw() {
    let s = compute_selection(&ve(None, &["xyz"], &[None], &["qqq", "eng"]));
    assert_eq!(s.audio_lang.as_deref(), Some("xyz"));
    assert_eq!(s.subtitle_index, Some(1));
    assert_eq!(s.subtitle_lang.as_deref(), Some("en"));
}
