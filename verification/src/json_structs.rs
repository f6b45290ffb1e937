//! What the library reads of TMDB's answers (searches, movie, show and
//! episode details, images). Decoding the JSON into these records is done
//! around the library; the fields the library never reads (votes,
//! popularity, aspect ratios and the like) are left out.
use vstd::prelude::*;

verus! {

/// A movie as a search lists it (and the common part of its details).
#[derive(Clone, Debug, Default)]
pub struct TMDBMovie {
    pub backdrop_path: Option<String>,
    pub genre_ids: Option<Vec<usize>>,
    pub id: Option<usize>,
    pub original_language: Option<String>,
    pub original_title: Option<String>,
    pub overview: Option<String>,
    pub poster_path: Option<String>,
    pub release_date: Option<String>,
    pub title: Option<String>,
}

/// A country that produced a movie or show.
#[derive(Clone, Debug, Default)]
pub struct TMDBProductionCountries {
    pub iso_3166_1: Option<String>,
    pub name: Option<String>,
}

/// A crew member: the person's name and the job.
#[derive(Clone, Debug, Default)]
pub struct TMDBCrew {
    pub name: Option<String>,
    pub department: Option<String>,
    pub job: Option<String>,
}

/// Credits appended to a details answer.
#[derive(Clone, Debug, Default)]
pub struct TMDBCredits {
    pub crew: Option<Vec<TMDBCrew>>,
}

/// Details of one movie.
#[derive(Clone, Debug, Default)]
pub struct TMDBMovieDetails {
    pub tmdb_movie: TMDBMovie,
    pub production_countries: Option<Vec<TMDBProductionCountries>>,
    pub tagline: Option<String>,
    pub credits: Option<TMDBCredits>,
}

/// A TV show as a search lists it (and the common part of its details).
#[derive(Clone, Debug, Default)]
pub struct TMDBTVShow {
    pub backdrop_path: Option<String>,
    pub genre_ids: Option<Vec<usize>>,
    pub id: Option<usize>,
    pub original_language: Option<String>,
    pub original_name: Option<String>,
    pub overview: Option<String>,
    pub poster_path: Option<String>,
    pub first_air_date: Option<String>,
    pub name: Option<String>,
}

/// Details of one TV show.
#[derive(Clone, Debug, Default)]
pub struct TMDBTVShowDetails {
    pub tmdb_tv_show: TMDBTVShow,
    pub production_countries: Option<Vec<TMDBProductionCountries>>,
    pub tagline: Option<String>,
}

/// Details of one episode.
#[derive(Clone, Debug, Default)]
pub struct TMDBEpisodeDetails {
    pub air_date: Option<String>,
    pub episode_number: Option<i32>,
    pub id: Option<usize>,
    pub name: Option<String>,
    pub overview: Option<String>,
    pub season_number: Option<i32>,
    pub still_path: Option<String>,
    pub crew: Option<Vec<TMDBCrew>>,
}

/// One image (poster, backdrop or logo).
#[derive(Clone, Debug, Default)]
pub struct TMDBImage {
    pub height: Option<i32>,
    pub iso_639_1: Option<String>,
    pub file_path: Option<String>,
    pub width: Option<i32>,
}

} // verus!
