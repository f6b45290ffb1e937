//! The first, minimal record of a video file, and the record a newly found
//! file starts with.
use vstd::prelude::*;
use crate::video_element::VideoElement;

verus! {

/// The first record of a video file: its path and a few details.
#[allow(non_camel_case_types)]
#[derive(Clone, Debug, Default)]
pub struct video_element {
    pub filepath: String,
    pub title: Option<String>,
    pub year: Option<i16>,
    pub poster_path: Option<String>,
    pub thumbnail_path: Option<String>,
    pub director: Option<String>,
    pub countries: Option<Vec<String>>,
    pub languages: Option<Vec<String>>,
    pub watched: bool,
}

/// A record holding only the file path.
pub fn create_video_element_from_file(filepath: &str) -> (r: video_element)
    ensures
        r.filepath@ == filepath@,
        r.title is None && r.year is None && r.poster_path is None && r.thumbnail_path is None,
        r.director is None && r.countries is None && r.languages is None,
        !r.watched,
{
    video_element {
        filepath: String::from_str(filepath),
        title: None,
        year: None,
        poster_path: None,
        thumbnail_path: None,
        director: None,
        countries: None,
        languages: None,
        watched: false,
    }
}

/// The record a newly found file starts with: its path, its length when it
/// could be read (else 0), its modification time in milliseconds since the
/// Unix epoch, nothing else.
pub fn video_element_for_file(filepath: &str, length_in_seconds: Option<i32>, modified_ms: i64) -> (r: VideoElement)
    ensures
        r.filepath@ == filepath@,
        r.length_in_seconds == match length_in_seconds {
            Some(l) => l,
            None => 0,
        },
        r.timestamp_modified == modified_ms,
        !r.watched,
        r.tmdb_id is None && r.poster_path is None && r.thumbnail_path is None && r.backdrop_path is None,
        r.title is None && r.original_title is None && r.release_date is None && r.director is None,
        r.countries is None && r.genre_ids is None && r.overview is None && r.tagline is None,
        r.tmdb_language is None && r.audio_languages is None && r.subtitle_languages is None,
        r.audio_titles is None && r.subtitle_titles is None && r.playback_selection is None,
        r.season is None && r.episode is None && r.index_priority == 0,
{
    VideoElement {
        filepath: String::from_str(filepath),
        watched: false,
        tmdb_id: None,
        poster_path: None,
        thumbnail_path: None,
        backdrop_path: None,
        title: None,
        original_title: None,
        release_date: None,
        director: None,
        countries: None,
        genre_ids: None,
        overview: None,
        tagline: None,
        tmdb_language: None,
        audio_languages: None,
        subtitle_languages: None,
        audio_titles: None,
        subtitle_titles: None,
        playback_selection: None,
        season: None,
        episode: None,
        index_priority: 0,
        length_in_seconds: match length_in_seconds {
            Some(l) => l,
            None => 0,
        },
        timestamp_modified: modified_ms,
    }
}

} // verus!
