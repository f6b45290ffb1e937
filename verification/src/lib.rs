//! Library core of a film and TV-show library browser: file-name sanitising,
//! title/season/episode recognition in file names, library bookkeeping,
//! TMDB metadata merging and automatic audio/subtitle track selection.
use vstd::prelude::*;

pub mod text;
pub mod unicode;
pub mod regex_match;
pub mod lang_map;
pub mod video_element;
pub mod playback_selection;
pub mod file_utils;
pub mod paths;
pub mod ordering;
pub mod library;
pub mod name_cleanup;
pub mod patterns;
pub mod episode_detection;
pub mod search_name_creator;
pub mod json_structs;
pub mod tmdb_client;
pub mod tmdb_requests;
pub mod library_store;
pub mod video_player;
pub mod notifications;
pub mod file_reader;

verus! {

} // verus!
