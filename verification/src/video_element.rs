//! The records the library keeps: one per video file, and the libraries
//! that hold them.
use vstd::prelude::*;

verus! {

/// Outcome of the subtitle choice.
#[derive(Clone, Copy, Debug, PartialEq, Eq, Structural)]
pub enum SubtitleStatus {
    /// A subtitle track was chosen (see `subtitle_index`/`subtitle_lang`).
    Selected,
    /// Chosen audio is already in the preferred language; no subtitles wanted.
    NotNeeded,
    /// No subtitle tracks exist in the file.
    Unavailable,
}

impl Default for SubtitleStatus {
    fn default() -> (r: SubtitleStatus)
        ensures
            r == SubtitleStatus::NotNeeded,
    {
        SubtitleStatus::NotNeeded
    }
}

/// Audio and subtitle tracks picked for playback.
#[derive(Clone, Debug)]
pub struct PlaybackSelection {
    /// Type-relative ordinal of the chosen audio track (VLC `--audio-track`).
    pub audio_index: Option<usize>,
    /// Chosen audio language, ISO 639-1 when known, else the raw tag.
    pub audio_lang: Option<String>,
    pub subtitle_index: Option<usize>,
    pub subtitle_lang: Option<String>,
    pub subtitle_status: SubtitleStatus,
}

/// One video file of a library and what is known about it.
///
/// `timestamp_modified` is the file's modification time in milliseconds
/// since the Unix epoch.
#[derive(Clone, Debug, Default)]
pub struct VideoElement {
    pub filepath: String,
    pub watched: bool,
    pub tmdb_id: Option<usize>,
    pub poster_path: Option<String>,
    pub thumbnail_path: Option<String>,
    pub backdrop_path: Option<String>,
    pub title: Option<String>,
    pub original_title: Option<String>,
    pub release_date: Option<String>,
    pub director: Option<String>,
    pub countries: Option<Vec<String>>,
    pub genre_ids: Option<Vec<usize>>,
    pub overview: Option<String>,
    pub tagline: Option<String>,
    pub tmdb_language: Option<String>,
    pub audio_languages: Option<Vec<String>>,
    pub subtitle_languages: Option<Vec<String>>,
    pub audio_titles: Option<Vec<Option<String>>>,
    pub subtitle_titles: Option<Vec<Option<String>>>,
    pub playback_selection: Option<PlaybackSelection>,
    pub season: Option<i32>,
    pub episode: Option<i32>,
    pub index_priority: i32,
    pub length_in_seconds: i32,
    pub timestamp_modified: i64,
}

/// A folder that belongs to a library.
#[derive(Clone, Debug)]
pub struct LibraryPath {
    pub path: String,
    pub include_subdirectories: bool,
}

/// A named collection of folders and the video files found in them.
#[derive(Debug)]
pub struct Library {
    pub id: String,
    pub name: String,
    pub library_paths: Vec<LibraryPath>,
    pub video_files: Vec<VideoElement>,
    pub child_libraries: Vec<Library>,
}

/// The view of an optional string.
pub open spec fn opt_str(o: Option<String>) -> Option<Seq<char>> {
    match o {
        Some(s) => Some(s@),
        None => None,
    }
}

/// The views of an optional list of strings; an absent list is empty.
pub open spec fn str_list(o: Option<Vec<String>>) -> Seq<Seq<char>> {
    match o {
        Some(v) => v@.map_values(|s: String| s@),
        None => Seq::empty(),
    }
}

} // verus!
