//! What is asked of TMDB and what is done with its answers: request
//! addresses, the lookup each library record needs, applying the answers,
//! and the order in which alternative covers are offered.
use vstd::prelude::*;
use crate::text::{chars_of, eq_str, push_all, push_str, string_from_chars, decimal, decimal_chars, signed_decimal, signed_decimal_chars};
use crate::video_element::{VideoElement, opt_str};
use crate::library::{index_filter, usizes, strs_of, lemma_index_filter};
use crate::file_utils::opt_flag;
use crate::search_name_creator::{tv_show_info, tv_show_info_defined, try_get_tv_show_info, movie_title_defined, movie_title_and_year_of, try_movie_title_and_year, current_year};
use crate::episode_detection::{FolderEntry, tv_episode, is_tv_episode};
use crate::json_structs::{TMDBMovie, TMDBTVShow, TMDBMovieDetails, TMDBTVShowDetails, TMDBEpisodeDetails, TMDBImage};
use crate::tmdb_client::{
    fill_video_element_with_search_result, fill_video_element_with_movie_details,
    fill_video_element_with_tv_show_only, fill_video_element_with_tv_episode, search_fields_filled,
    movie_details_filled, tv_show_filled, tv_episode_filled, image_url, TMDB_IMAGE_URL,
};

verus! {

/// Address of TMDB's movie resources.
pub const TMDB_API_MOVIE_URL: &'static str = "https://api.themoviedb.org/3/movie/";

/// Address of TMDB's TV resources.
pub const TMDB_API_TV_URL: &'static str = "https://api.themoviedb.org/3/tv/";

/// Address that tells whether an API token is valid.
pub const TMDB_AUTHENTICATION_URL: &'static str = "https://api.themoviedb.org/3/authentication";

/// `"true"` or `"false"`.
pub open spec fn bool_text(b: bool) -> Seq<char> {
    if b {
        "true"@
    } else {
        "false"@
    }
}

fn push_bool(v: &mut Vec<char>, b: bool)
    ensures
        final(v)@ == old(v)@ + bool_text(b),
{
    if b {
        push_str(v, "true");
    } else {
        push_str(v, "false");
    }
}

/// The query part shared by movie and show searches: include-adult flag
/// (default `false`), page (default 1), a year under `year_key`, and a
/// language.
pub open spec fn search_query_tail(
    year_key: Seq<char>,
    year: Option<i32>,
    language: Option<Seq<char>>,
    include_adult: Option<bool>,
    page: Option<i32>,
) -> Seq<char> {
    let adult = match include_adult {
        Some(b) => b,
        None => false,
    };
    let p = match page {
        Some(n) => n,
        None => 1,
    };
    "&include_adult="@ + bool_text(adult) + "&page="@ + signed_decimal(p as int) + match year {
        Some(y) => year_key + signed_decimal(y as int),
        None => Seq::empty(),
    } + match language {
        Some(l) => "&language="@ + l,
        None => Seq::empty(),
    }
}

fn push_search_query_tail(
    v: &mut Vec<char>,
    year_key: &str,
    year: Option<i32>,
    language: Option<&str>,
    include_adult: Option<bool>,
    page: Option<i32>,
)
    ensures
        final(v)@ == old(v)@ + search_query_tail(
            year_key@,
            year,
            match language {
                Some(l) => Some(l@),
                None => None,
            },
            include_adult,
            page,
        ),
{
    let adult = match include_adult {
        Some(b) => b,
        None => false,
    };
    let p = match page {
        Some(n) => n,
        None => 1,
    };
    let ghost o = v@;
    push_str(v, "&include_adult=");
    push_bool(v, adult);
    push_str(v, "&page=");
    push_all(v, &signed_decimal_chars(p as i64));
    let ghost a = "&include_adult="@ + bool_text(adult) + "&page="@ + signed_decimal(p as int);
    assert(v@ =~= o + a);
    let ghost yb: Seq<char> = match year {
        Some(y) => year_key@ + signed_decimal(y as int),
        None => Seq::empty(),
    };
    match year {
        Some(y) => {
            push_str(v, year_key);
            push_all(v, &signed_decimal_chars(y as i64));
        },
        None => {},
    }
    assert(v@ =~= o + (a + yb));
    let ghost lb: Seq<char> = match language {
        Some(l) => "&language="@ + l@,
        None => Seq::empty(),
    };
    match language {
        Some(l) => {
            push_str(v, "&language=");
            push_str(v, l);
        },
        None => {},
    }
    assert(v@ =~= o + (a + yb + lb));
}

/// Address of a movie search for `movietitle` (put in as it is).
pub fn search_movie_url(
    movietitle: &str,
    year: Option<i32>,
    language: Option<&str>,
    include_adult: Option<bool>,
    page: Option<i32>,
) -> (r: String)
    ensures
        r@ == "https://api.themoviedb.org/3/search/movie?query="@ + movietitle@ + search_query_tail(
            "&year="@,
            year,
            match language {
                Some(l) => Some(l@),
                None => None,
            },
            include_adult,
            page,
        ),
{
    let mut v: Vec<char> = Vec::new();
    push_str(&mut v, "https://api.themoviedb.org/3/search/movie?query=");
    push_str(&mut v, movietitle);
    push_search_query_tail(&mut v, "&year=", year, language, include_adult, page);
    string_from_chars(&v)
}

/// Address of a TV show search for `tv_show_name` (put in as it is).
pub fn search_tv_url(
    tv_show_name: &str,
    first_air_date_year: Option<i32>,
    language: Option<&str>,
    include_adult: Option<bool>,
    page: Option<i32>,
) -> (r: String)
    ensures
        r@ == "https://api.themoviedb.org/3/search/tv?query="@ + tv_show_name@ + search_query_tail(
            "&first_air_date_year="@,
            first_air_date_year,
            match language {
                Some(l) => Some(l@),
                None => None,
            },
            include_adult,
            page,
        ),
{
    let mut v: Vec<char> = Vec::new();
    push_str(&mut v, "https://api.themoviedb.org/3/search/tv?query=");
    push_str(&mut v, tv_show_name);
    push_search_query_tail(&mut v, "&first_air_date_year=", first_air_date_year, language, include_adult, page);
    string_from_chars(&v)
}

/// Address of a movie's details with its credits.
pub fn movie_details_url(movie_id: usize) -> (r: String)
    ensures
        r@ == TMDB_API_MOVIE_URL@ + decimal(movie_id as nat) + "?append_to_response=credits"@,
{
    let mut v: Vec<char> = Vec::new();
    push_str(&mut v, TMDB_API_MOVIE_URL);
    push_all(&mut v, &decimal_chars(movie_id as u64));
    push_str(&mut v, "?append_to_response=credits");
    string_from_chars(&v)
}

/// Address of a TV show's details with its credits.
pub fn tv_show_details_url(tv_id: usize) -> (r: String)
    ensures
        r@ == TMDB_API_TV_URL@ + decimal(tv_id as nat) + "?append_to_response=credits"@,
{
    let mut v: Vec<char> = Vec::new();
    push_str(&mut v, TMDB_API_TV_URL);
    push_all(&mut v, &decimal_chars(tv_id as u64));
    push_str(&mut v, "?append_to_response=credits");
    string_from_chars(&v)
}

/// Address of one episode's details with its credits.
pub fn tv_episode_details_url(tv_id: usize, season_number: i32, episode_number: i32) -> (r: String)
    ensures
        r@ == TMDB_API_TV_URL@ + decimal(tv_id as nat) + "/season/"@ + signed_decimal(season_number as int)
            + "/episode/"@ + signed_decimal(episode_number as int) + "?append_to_response=credits"@,
{
    let mut v: Vec<char> = Vec::new();
    push_str(&mut v, TMDB_API_TV_URL);
    push_all(&mut v, &decimal_chars(tv_id as u64));
    push_str(&mut v, "/season/");
    push_all(&mut v, &signed_decimal_chars(season_number as i64));
    push_str(&mut v, "/episode/");
    push_all(&mut v, &signed_decimal_chars(episode_number as i64));
    push_str(&mut v, "?append_to_response=credits");
    string_from_chars(&v)
}

/// The strings joined with `sep` between them.
pub open spec fn join(parts: Seq<Seq<char>>, sep: Seq<char>) -> Seq<char>
    decreases parts.len(),
{
    if parts.len() == 0 {
        Seq::empty()
    } else if parts.len() == 1 {
        parts[0]
    } else {
        join(parts.drop_last(), sep) + sep + parts.last()
    }
}

/// Address of a movie's images; when other languages are filtered out and
/// languages are given, only images in those languages are asked for.
pub open spec fn covers_url_of(tmdb_id: usize, languages: Option<Seq<Seq<char>>>, filter_other_languages: bool) -> Seq<char> {
    TMDB_API_MOVIE_URL@ + decimal(tmdb_id as nat) + "/images"@ + match languages {
        Some(ls) => if filter_other_languages && ls.len() > 0 {
            "?include_image_language="@ + join(ls, ","@)
        } else {
            Seq::empty()
        },
        None => Seq::empty(),
    }
}

/// The views of an optional list of strings.
pub open spec fn opt_langs(o: Option<Vec<String>>) -> Option<Seq<Seq<char>>> {
    match o {
        Some(v) => Some(strs_of(v@)),
        None => None,
    }
}

/// Address of a movie's images (see `covers_url_of`).
pub fn covers_url(tmdb_id: usize, sort_by_languages_in_iso_639_1: &Option<Vec<String>>, filter_other_languages: Option<bool>) -> (r: String)
    ensures
        r@ == covers_url_of(
            tmdb_id,
            opt_langs(*sort_by_languages_in_iso_639_1),
            match filter_other_languages {
                Some(b) => b,
                None => false,
            },
        ),
{
    let filter = match filter_other_languages {
        Some(b) => b,
        None => false,
    };
    let mut v: Vec<char> = Vec::new();
    push_str(&mut v, TMDB_API_MOVIE_URL);
    push_all(&mut v, &decimal_chars(tmdb_id as u64));
    push_str(&mut v, "/images");
    if filter {
        if let Some(languages) = sort_by_languages_in_iso_639_1 {
            if languages.len() > 0 {
                let ghost ls = strs_of(languages@);
                push_str(&mut v, "?include_image_language=");
                let ghost start = v@;
                let mut i: usize = 0;
                while i < languages.len()
                    invariant
                        i <= languages.len(),
                        languages.len() > 0,
                        ls == strs_of(languages@),
                        v@ == start + join(ls.take(i as int), ","@),
                    decreases languages.len() - i,
                {
                    proof {
                        assert(ls.take(i + 1).drop_last() =~= ls.take(i as int));
                        assert(ls.take(i + 1).last() == languages@[i as int]@);
                        if i == 0 {
                            assert(ls.take(0) =~= Seq::<Seq<char>>::empty());
                            assert(ls.take(1)[0] == languages@[0]@);
                        }
                    }
                    if i > 0 {
                        push_str(&mut v, ",");
                    }
                    push_str(&mut v, languages[i].as_str());
                    proof {
                        if i == 0 {
                            assert(v@ =~= start + join(ls.take(1), ","@));
                        } else {
                            assert(v@ =~= start + join(ls.take(i + 1), ","@));
                        }
                    }
                    i = i + 1;
                }
                assert(ls.take(languages.len() as int) =~= ls);
            }
        }
    }
    string_from_chars(&v)
}

/// Failures of the TMDB lookups that the library decides.
#[derive(Clone, Copy, Debug, PartialEq, Eq, Structural)]
pub enum TmdbError {
    /// No API read access token is configured.
    NoApiToken,
    /// The record has no TMDB id to fetch details for.
    NoTmdbId,
    /// TMDB lists no posters for the movie.
    NoPosters,
}

impl TmdbError {
    /// The message shown for the failure.
    pub fn message(&self) -> (r: String)
        ensures
            r@ == match self {
                TmdbError::NoApiToken => "There is no API Read Access Token! Get one at https://www.themoviedb.org/settings/api"@,
                TmdbError::NoTmdbId => "No TMDB ID specified, Implement getting it!"@,
                TmdbError::NoPosters => "Movie has no posters!"@,
            },
    {
        match self {
            TmdbError::NoApiToken => String::from_str(
                "There is no API Read Access Token! Get one at https://www.themoviedb.org/settings/api",
            ),
            TmdbError::NoTmdbId => String::from_str("No TMDB ID specified, Implement getting it!"),
            TmdbError::NoPosters => String::from_str("Movie has no posters!"),
        }
    }
}

/// A client is only made with a token: an empty one is refused.
pub fn check_api_token(api_token: &str) -> (r: Result<(), TmdbError>)
    ensures
        r is Err <==> api_token@.len() == 0,
        r matches Err(e) ==> e == TmdbError::NoApiToken,
{
    if api_token.unicode_len() == 0 {
        Err(TmdbError::NoApiToken)
    } else {
        Ok(())
    }
}

/// The TMDB id to fetch a record's details with.
pub fn details_request_id(video_element: &VideoElement) -> (r: Result<usize, TmdbError>)
    ensures
        match video_element.tmdb_id {
            Some(id) => r == Ok::<usize, TmdbError>(id),
            None => r == Err::<usize, TmdbError>(TmdbError::NoTmdbId),
        },
{
    match video_element.tmdb_id {
        Some(id) => Ok(id),
        None => Err(TmdbError::NoTmdbId),
    }
}

/// A record made from a search result alone: no file, not watched, the
/// search result's fields, nothing else.
pub open spec fn search_result_element(ve: VideoElement, m: TMDBMovie) -> bool {
    &&& ve.filepath@ == Seq::<char>::empty()
    &&& !ve.watched
    &&& ve.thumbnail_path is None
    &&& ve.audio_languages is None
    &&& ve.subtitle_languages is None
    &&& ve.audio_titles is None
    &&& ve.subtitle_titles is None
    &&& ve.playback_selection is None
    &&& ve.index_priority == 0
    &&& ve.length_in_seconds == 0
    &&& ve.timestamp_modified == 0
    &&& ve.director is None
    &&& ve.countries is None
    &&& ve.tagline is None
    &&& ve.season is None
    &&& ve.episode is None
    &&& search_fields_filled(ve, ve, m, true)
}

fn blank_video_element() -> (r: VideoElement)
    ensures
        r.filepath@ == Seq::<char>::empty(),
        !r.watched,
        r.tmdb_id is None && r.poster_path is None && r.thumbnail_path is None && r.backdrop_path is None,
        r.title is None && r.original_title is None && r.release_date is None && r.director is None,
        r.countries is None && r.genre_ids is None && r.overview is None && r.tagline is None,
        r.tmdb_language is None && r.audio_languages is None && r.subtitle_languages is None,
        r.audio_titles is None && r.subtitle_titles is None && r.playback_selection is None,
        r.season is None && r.episode is None,
        r.index_priority == 0 && r.length_in_seconds == 0 && r.timestamp_modified == 0,
{
    VideoElement {
        filepath: String::new(),
        watched: false,
        tmdb_id: None,
        poster_path: None,
        thumbnail_path: None,
        backdrop_path: None,
        title: None,
        original_title: None,
        release_date: None,
        director: None,
        countries: None,
        genre_ids: None,
        overview: None,
        tagline: None,
        tmdb_language: None,
        audio_languages: None,
        subtitle_languages: None,
        audio_titles: None,
        subtitle_titles: None,
        playback_selection: None,
        season: None,
        episode: None,
        index_priority: 0,
        length_in_seconds: 0,
        timestamp_modified: 0,
    }
}

/// One record per search result, in order, each made from that result
/// alone.
pub fn search_results_as_video_elements(results: &Vec<TMDBMovie>) -> (r: Vec<VideoElement>)
    ensures
        r.len() == results.len(),
        forall|i: int| 0 <= i < r.len() ==> search_result_element(#[trigger] r@[i], results@[i]),
{
    let mut out: Vec<VideoElement> = Vec::new();
    let mut i: usize = 0;
    while i < results.len()
        invariant
            i <= results.len(),
            out.len() == i,
            forall|k: int| 0 <= k < i ==> search_result_element(#[trigger] out@[k], results@[k]),
        decreases results.len() - i,
    {
        let mut e = blank_video_element();
        fill_video_element_with_search_result(&mut e, &results[i], None);
        out.push(e);
        i = i + 1;
    }
    out
}

/// The id of the first search result, if there is one.
pub fn best_movie_match_id(results: &Vec<TMDBMovie>) -> (r: Option<usize>)
    ensures
        r == if results.len() > 0 {
            results@[0].id
        } else {
            None
        },
{
    if results.len() > 0 {
        results[0].id
    } else {
        None
    }
}

/// The id of the first TV search result, if there is one.
pub fn best_tv_match_id(results: &Vec<TMDBTVShow>) -> (r: Option<usize>)
    ensures
        r == if results.len() > 0 {
            results@[0].id
        } else {
            None
        },
{
    if results.len() > 0 {
        results[0].id
    } else {
        None
    }
}

/// What a record needs from TMDB.
#[derive(Clone, Debug)]
pub enum TmdbLookup {
    /// Nothing: it has an id already (and no reparse is asked for), or it is
    /// an episode whose season or episode number cannot be read.
    Skip,
    /// Search the show, then fetch its and the episode's details.
    TvEpisode { show_name: String, season: i32, episode: i32 },
    /// Search the movie, then fetch its details.
    Movie { title: String, year: Option<i32> },
    /// The file name cannot be read (reading it slices a match backwards).
    Unreadable,
}

/// `r` is the lookup that record `ve` needs, with `current_year` the latest
/// plausible release year and `es` the listing of the folder that holds the
/// file.
pub open spec fn lookup_for(r: TmdbLookup, ve: VideoElement, reparse_all: bool, es: Seq<FolderEntry>, current_year: i32) -> bool {
    let fp = ve.filepath@;
    if !(reparse_all || ve.tmdb_id is None) {
        r is Skip
    } else if tv_episode(fp, es) {
        if !tv_show_info_defined(fp) {
            r is Unreadable
        } else {
            let info = tv_show_info(fp);
            if info.1 is None || info.2 is None {
                r is Skip
            } else {
                r matches TmdbLookup::TvEpisode { show_name, season, episode } && show_name@ == info.0 && season
                    == info.1->0 && episode == info.2->0
            }
        }
    } else if !movie_title_defined(fp, current_year) {
        r is Unreadable
    } else {
        r matches TmdbLookup::Movie { title, year } && (title@, year) == movie_title_and_year_of(fp, current_year)
    }
}

/// Whether a record is looked up at all: it has no TMDB id yet, or
/// `reparse_all` (default `false`) is set. When it is not, the lookup is
/// `Skip` whatever its folder holds, so the folder need not be read.
pub fn needs_tmdb_lookup(video_element: &VideoElement, reparse_all: Option<bool>) -> (r: bool)
    ensures
        r == (opt_flag(reparse_all) || video_element.tmdb_id is None),
        !r ==> forall|es: Seq<FolderEntry>, cy: i32|
            #[trigger] lookup_for(TmdbLookup::Skip, *video_element, opt_flag(reparse_all), es, cy),
{
    let reparse_all = match reparse_all {
        Some(b) => b,
        None => false,
    };
    reparse_all || video_element.tmdb_id.is_none()
}

/// The lookup a record needs (see `lookup_for`); `reparse_all` (default
/// `false`) asks again for records that have an id.
pub fn plan_tmdb_lookup(video_element: &VideoElement, reparse_all: Option<bool>, entries: &Vec<FolderEntry>, current_year: i32) -> (r: TmdbLookup)
    ensures
        lookup_for(r, *video_element, opt_flag(reparse_all), entries@, current_year),
{
    let reparse_all = match reparse_all {
        Some(b) => b,
        None => false,
    };
    if !(reparse_all || video_element.tmdb_id.is_none()) {
        return TmdbLookup::Skip;
    }
    let filename = video_element.filepath.as_str();
    if is_tv_episode(filename, entries) {
        match try_get_tv_show_info(filename) {
            Some((show_name, season, episode)) => match (season, episode) {
                (Some(s), Some(e)) => TmdbLookup::TvEpisode { show_name, season: s, episode: e },
                _ => TmdbLookup::Skip,
            },
            None => TmdbLookup::Unreadable,
        }
    } else {
        match try_movie_title_and_year(filename, current_year) {
            Some((title, year)) => TmdbLookup::Movie { title, year },
            None => TmdbLookup::Unreadable,
        }
    }
}

/// The lookup a record needs, with the current year as the latest
/// plausible release year.
pub fn tmdb_lookup(video_element: &VideoElement, reparse_all: Option<bool>, entries: &Vec<FolderEntry>) -> (r: TmdbLookup)
    ensures
        exists|cy: i32| #[trigger] lookup_for(r, *video_element, opt_flag(reparse_all), entries@, cy),
{
    let cy = current_year();
    plan_tmdb_lookup(video_element, reparse_all, entries, cy)
}

/// A movie record after its lookup: `movie_details_filled` without
/// overwriting, then the year from the file name as release date if TMDB
/// gave none.
pub open spec fn movie_lookup_applied(old: VideoElement, new: VideoElement, d: TMDBMovieDetails, year: Option<i32>) -> bool {
    exists|mid: VideoElement|
        #[trigger] movie_details_filled(old, mid, d, false) && new == (VideoElement {
            release_date: new.release_date,
            ..mid
        }) && opt_str(new.release_date) == if mid.release_date is None && year is Some {
            Some(signed_decimal(year->0 as int))
        } else {
            opt_str(mid.release_date)
        }
}

/// Applies fetched movie details to a record (see `movie_lookup_applied`).
pub fn apply_movie_details(video_element: &mut VideoElement, movie_details: &TMDBMovieDetails, year: Option<i32>)
    ensures
        movie_lookup_applied(*old(video_element), *final(video_element), *movie_details, year),
{
    fill_video_element_with_movie_details(video_element, movie_details, None);
    let ghost mid = *video_element;
    assert(movie_details_filled(*old(video_element), mid, *movie_details, false));
    if video_element.release_date.is_none() {
        if let Some(y) = year {
            video_element.release_date = Some(string_from_chars(&signed_decimal_chars(y as i64)));
        }
    }
    assert(*video_element == (VideoElement { release_date: video_element.release_date, ..mid }));
}

/// Applies fetched show details to an episode record: with the episode's
/// details when they came, else the show's data and the parsed numbers.
pub fn apply_tv_details(
    video_element: &mut VideoElement,
    tv_show_details: &TMDBTVShowDetails,
    episode_details: &Option<TMDBEpisodeDetails>,
    season: i32,
    episode: i32,
)
    ensures
        match episode_details {
            Some(ep) => tv_episode_filled(*old(video_element), *final(video_element), *tv_show_details, *ep, season, episode, false),
            None => tv_show_filled(*old(video_element), *final(video_element), *tv_show_details, season, episode),
        },
{
    match episode_details {
        Some(ep) => fill_video_element_with_tv_episode(video_element, tv_show_details, ep, season, episode, None),
        None => fill_video_element_with_tv_show_only(video_element, tv_show_details, season, episode),
    }
}

/// Index of the last occurrence of `c` in `ls`.
pub open spec fn last_index_of(ls: Seq<Seq<char>>, c: Seq<char>) -> Option<int>
    decreases ls.len(),
{
    if ls.len() == 0 {
        None
    } else if ls.last() == c {
        Some(ls.len() - 1)
    } else {
        last_index_of(ls.drop_last(), c)
    }
}

/// Where a poster in language `code` goes: the (last) position of its
/// language among the preferred ones, or after all of them.
pub open spec fn cover_rank(ls: Seq<Seq<char>>, code: Option<String>) -> int {
    match code {
        Some(c) => match last_index_of(ls, c@) {
            Some(i) => i,
            None => usize::MAX as int,
        },
        None => usize::MAX as int,
    }
}

/// The rank of each poster.
pub open spec fn cover_ranks(ls: Seq<Seq<char>>, posters: Seq<TMDBImage>) -> Seq<int> {
    posters.map_values(|p: TMDBImage| cover_rank(ls, p.iso_639_1))
}

pub open spec fn rank_is(ranks: Seq<int>, k: int) -> spec_fn(int) -> bool {
    |i: int| ranks[i] == k
}

/// Positions with rank `k`, in order.
pub open spec fn with_rank(ranks: Seq<int>, k: int) -> Seq<int> {
    index_filter(ranks.len() as int, rank_is(ranks, k))
}

/// Positions with ranks `0` to `k - 1`, rank by rank.
pub open spec fn ranks_below(ranks: Seq<int>, k: int) -> Seq<int>
    decreases k,
{
    if k <= 0 {
        Seq::empty()
    } else {
        ranks_below(ranks, k - 1) + with_rank(ranks, k - 1)
    }
}

/// The positions ordered by rank, keeping the original order among equal
/// ranks (a stable sort by rank, as ranks are below `n_langs` or maximal).
pub open spec fn rank_order(ranks: Seq<int>, n_langs: int) -> Seq<int> {
    ranks_below(ranks, n_langs) + with_rank(ranks, usize::MAX as int)
}

/// The order in which posters are offered: by preferred language when
/// languages are given (unless other languages are filtered out and only
/// one is given), else as TMDB lists them.
pub open spec fn cover_order(posters: Seq<TMDBImage>, languages: Option<Seq<Seq<char>>>, filter_other_languages: bool) -> Seq<int> {
    match languages {
        Some(ls) => if !filter_other_languages || ls.len() > 1 {
            rank_order(cover_ranks(ls, posters), ls.len() as int)
        } else {
            Seq::new(posters.len(), |i: int| i)
        },
        None => Seq::new(posters.len(), |i: int| i),
    }
}

/// The image addresses of the posters at `order` that have a file path.
pub open spec fn cover_paths(posters: Seq<TMDBImage>, order: Seq<int>) -> Seq<Seq<char>>
    decreases order.len(),
{
    if order.len() == 0 {
        Seq::empty()
    } else {
        let r = cover_paths(posters, order.drop_last());
        match posters[order.last()].file_path {
            Some(f) => r.push(image_url(f@)),
            None => r,
        }
    }
}

fn cover_rank_exec(languages: &Vec<String>, code: &Option<String>) -> (r: usize)
    ensures
        r as int == cover_rank(strs_of(languages@), *code),
{
    let ghost ls = strs_of(languages@);
    match code {
        Some(c) => {
            let cv = chars_of(c.as_str());
            let mut i: usize = languages.len();
            assert(ls.take(languages.len() as int) =~= ls);
            while i > 0
                invariant
                    i <= languages.len(),
                    ls == strs_of(languages@),
                    cv@ == c@,
                    *code == Some(*c),
                    last_index_of(ls, c@) == last_index_of(ls.take(i as int), c@),
                decreases i,
            {
                assert(ls.take(i as int).drop_last() =~= ls.take(i - 1));
                assert(ls.take(i as int).last() == languages@[i - 1]@);
                if eq_str(&cv, languages[i - 1].as_str()) {
                    assert(ls.take(i as int).last() == c@);
                    assert(last_index_of(ls.take(i as int), c@) == Some(i - 1));
                    return i - 1;
                }
                i = i - 1;
            }
            assert(ls.take(0) =~= Seq::<Seq<char>>::empty());
            usize::MAX
        },
        None => usize::MAX,
    }
}

fn push_with_rank(order: &mut Vec<usize>, ranks: &Vec<usize>, k: usize)
    ensures
        usizes(final(order)@) == usizes(old(order)@) + with_rank(
            usizes(ranks@),
            k as int,
        ),
        forall|j: int| 0 <= j < final(order)@.len() ==> (#[trigger] final(order)@[j] < ranks.len() || j < old(order)@.len()),
        old(order)@.len() <= final(order)@.len(),
        forall|j: int| 0 <= j < old(order)@.len() ==> #[trigger] final(order)@[j] == old(order)@[j],
{
    let ghost rs = usizes(ranks@);
    let ghost start = usizes(order@);
    let ghost p = rank_is(rs, k as int);
    let mut i: usize = 0;
    while i < ranks.len()
        invariant
            i <= ranks.len(),
            rs == usizes(ranks@),
            p == rank_is(rs, k as int),
            usizes(order@) == start + index_filter(i as int, p),
            start == usizes(old(order)@),
            forall|j: int| 0 <= j < order@.len() ==> (#[trigger] order@[j] < ranks.len() || j < old(order)@.len()),
            old(order)@.len() <= order@.len(),
            forall|j: int| 0 <= j < old(order)@.len() ==> #[trigger] order@[j] == old(order)@[j],
        decreases ranks.len() - i,
    {
        let ghost before = order@;
        if ranks[i] == k {
            order.push(i);
            assert(usizes(order@) =~= usizes(before).push(i as int));
        }
        i = i + 1;
    }
}

/// Poster addresses in the order `cover_order` gives, skipping posters
/// without a file path.
pub fn order_cover_paths(posters: &Vec<TMDBImage>, sort_by_languages_in_iso_639_1: &Option<Vec<String>>, filter_other_languages: bool) -> (r: Vec<String>)
    ensures
        strs_of(r@) == cover_paths(
            posters@,
            cover_order(posters@, opt_langs(*sort_by_languages_in_iso_639_1), filter_other_languages),
        ),
{
    let ghost order_spec = cover_order(posters@, opt_langs(*sort_by_languages_in_iso_639_1), filter_other_languages);
    let mut order: Vec<usize> = Vec::new();
    let mut sorted = false;
    if let Some(languages) = sort_by_languages_in_iso_639_1 {
        if !filter_other_languages || languages.len() > 1 {
            let ghost ls = strs_of(languages@);
            let mut ranks: Vec<usize> = Vec::new();
            let mut i: usize = 0;
            while i < posters.len()
                invariant
                    i <= posters.len(),
                    ls == strs_of(languages@),
                    ranks.len() == i,
                    forall|k: int| 0 <= k < i ==> #[trigger] ranks@[k] as int == cover_ranks(ls, posters@)[k],
                decreases posters.len() - i,
            {
                let rk = cover_rank_exec(languages, &posters[i].iso_639_1);
                assert(cover_ranks(ls, posters@)[i as int] == cover_rank(ls, posters@[i as int].iso_639_1));
                ranks.push(rk);
                i = i + 1;
            }
            assert(usizes(ranks@) =~= cover_ranks(ls, posters@));
            let ghost rs = cover_ranks(ls, posters@);
            let mut k: usize = 0;
            while k < languages.len()
                invariant
                    k <= languages.len(),
                    ranks.len() == posters.len(),
                    rs == usizes(ranks@),
                    usizes(order@) == ranks_below(rs, k as int),
                    forall|j: int| 0 <= j < order@.len() ==> #[trigger] order@[j] < posters.len(),
                decreases languages.len() - k,
            {
                push_with_rank(&mut order, &ranks, k);
                k = k + 1;
            }
            push_with_rank(&mut order, &ranks, usize::MAX);
            sorted = true;
        }
    }
    if !sorted {
        let mut i: usize = 0;
        while i < posters.len()
            invariant
                i <= posters.len(),
                order.len() == i,
                forall|j: int| 0 <= j < order@.len() ==> #[trigger] order@[j] == j,
            decreases posters.len() - i,
        {
            order.push(i);
            i = i + 1;
        }
        assert(usizes(order@) =~= Seq::new(posters.len() as nat, |j: int| j));
    }
    assert(usizes(order@) == order_spec);
    let ghost ov = usizes(order@);
    let mut out: Vec<String> = Vec::new();
    let mut j: usize = 0;
    while j < order.len()
        invariant
            j <= order.len(),
            ov == usizes(order@),
            forall|t: int| 0 <= t < order@.len() ==> #[trigger] order@[t] < posters.len(),
            strs_of(out@) == cover_paths(posters@, ov.take(j as int)),
        decreases order.len() - j,
    {
        assert(ov.take(j + 1).drop_last() =~= ov.take(j as int));
        assert(ov.take(j + 1).last() == order@[j as int] as int);
        let idx = order[j];
        match &posters[idx].file_path {
            Some(f) => {
                let ghost before = out@;
                let mut u = String::from_str(TMDB_IMAGE_URL);
                u.append(f.as_str());
                out.push(u);
                assert(strs_of(out@) =~= strs_of(before).push(image_url(f@)));
            },
            None => {},
        }
        j = j + 1;
    }
    assert(ov.take(order.len() as int) =~= ov);
    out
}

/// The addresses of a movie's posters in the order to offer them (see
/// `order_cover_paths`); an answer without a poster list is an error.
pub fn covers_from_images(
    posters: Option<Vec<TMDBImage>>,
    sort_by_languages_in_iso_639_1: &Option<Vec<String>>,
    filter_other_languages: Option<bool>,
) -> (r: Result<Vec<String>, TmdbError>)
    ensures
        match posters {
            Some(ps) => r matches Ok(v) && strs_of(v@) == cover_paths(
                ps@,
                cover_order(ps@, opt_langs(*sort_by_languages_in_iso_639_1), opt_flag(filter_other_languages)),
            ),
            None => r == Err::<Vec<String>, TmdbError>(TmdbError::NoPosters),
        },
{
    match posters {
        Some(ps) => Ok(order_cover_paths(&ps, sort_by_languages_in_iso_639_1, opt_flag_exec(filter_other_languages))),
        None => Err(TmdbError::NoPosters),
    }
}

fn opt_flag_exec(o: Option<bool>) -> (r: bool)
    ensures
        r == opt_flag(o),
{
    match o {
        Some(b) => b,
        None => false,
    }
}

/// Position `a` comes before position `b`: a lower rank, or the same rank
/// and an earlier position.
pub open spec fn ranked_before(ranks: Seq<int>, a: int, b: int) -> bool {
    ranks[a] < ranks[b] || (ranks[a] == ranks[b] && a < b)
}

proof fn lemma_ranks_below(ranks: Seq<int>, k: int)
    ensures
        forall|i: int|
            0 <= i < ranks_below(ranks, k).len() ==> 0 <= #[trigger] ranks_below(ranks, k)[i] < ranks.len() && 0
                <= ranks[ranks_below(ranks, k)[i]] < k,
        forall|i: int, j: int|
            0 <= i < j < ranks_below(ranks, k).len() ==> ranked_before(
                ranks,
                #[trigger] ranks_below(ranks, k)[i],
                #[trigger] ranks_below(ranks, k)[j],
            ),
        forall|x: int| 0 <= x < ranks.len() && 0 <= ranks[x] < k ==> #[trigger] ranks_below(ranks, k).contains(x),
    decreases k,
{
    if k > 0 {
        lemma_ranks_below(ranks, k - 1);
        let a = ranks_below(ranks, k - 1);
        let p = rank_is(ranks, k - 1);
        lemma_index_filter(ranks.len() as int, p);
        let b = with_rank(ranks, k - 1);
        let r = a + b;
        assert(r == ranks_below(ranks, k));
        assert forall|i: int| 0 <= i < r.len() implies 0 <= #[trigger] r[i] < ranks.len() && 0 <= ranks[r[i]] < k by {
            if i < a.len() {
                assert(r[i] == a[i]);
            } else {
                assert(r[i] == b[i - a.len()]);
                assert(p(b[i - a.len()]));
            }
        }
        assert forall|i: int, j: int| 0 <= i < j < r.len() implies ranked_before(ranks, #[trigger] r[i], #[trigger] r[j]) by {
            if j < a.len() {
                assert(r[i] == a[i] && r[j] == a[j]);
            } else if i < a.len() {
                assert(r[i] == a[i] && r[j] == b[j - a.len()]);
                assert(p(b[j - a.len()]));
            } else {
                assert(r[i] == b[i - a.len()] && r[j] == b[j - a.len()]);
                assert(p(b[i - a.len()]) && p(b[j - a.len()]));
            }
        }
        assert forall|x: int| 0 <= x < ranks.len() && 0 <= ranks[x] < k implies #[trigger] r.contains(x) by {
            if ranks[x] < k - 1 {
                assert(a.contains(x));
                let t = choose|t: int| 0 <= t < a.len() && a[t] == x;
                assert(r[t] == x);
            } else {
                assert(p(x));
                assert(b.contains(x));
                let t = choose|t: int| 0 <= t < b.len() && b[t] == x;
                assert(r[a.len() + t] == x);
            }
        }
    }
}

proof fn lemma_last_index_of(ls: Seq<Seq<char>>, c: Seq<char>)
    ensures
        last_index_of(ls, c) matches Some(i) ==> 0 <= i < ls.len(),
    decreases ls.len(),
{
    if ls.len() > 0 {
        lemma_last_index_of(ls.drop_last(), c);
    }
}

/// Covers are offered as a stable sort of TMDB's posters by preferred
/// language: every poster exactly once; when sorting applies, a poster in a
/// language earlier in the preference list comes first, posters of equal
/// rank keep TMDB's order, and posters in other languages come last;
/// otherwise TMDB's order is kept.
pub proof fn lemma_cover_order_is_stable_sort(posters: Seq<TMDBImage>, languages: Option<Vec<String>>, filter_other_languages: bool)
    ensures
        ({
            let o = cover_order(posters, opt_langs(languages), filter_other_languages);
            &&& forall|i: int| 0 <= i < o.len() ==> 0 <= #[trigger] o[i] < posters.len()
            &&& forall|i: int, j: int| 0 <= i < j < o.len() ==> #[trigger] o[i] != #[trigger] o[j]
            &&& forall|x: int| 0 <= x < posters.len() ==> #[trigger] o.contains(x)
            &&& match languages {
                Some(v) => if !filter_other_languages || v.len() > 1 {
                    forall|i: int, j: int|
                        0 <= i < j < o.len() ==> ranked_before(
                            cover_ranks(strs_of(v@), posters),
                            #[trigger] o[i],
                            #[trigger] o[j],
                        )
                } else {
                    o == Seq::new(posters.len(), |i: int| i)
                },
                None => o == Seq::new(posters.len(), |i: int| i),
            }
        }),
{
    let o = cover_order(posters, opt_langs(languages), filter_other_languages);
    let id = Seq::new(posters.len(), |i: int| i);
    match languages {
        Some(v) => {
            let ls = strs_of(v@);
            assert(opt_langs(languages) == Some(ls));
            if !filter_other_languages || v.len() > 1 {
                let ranks = cover_ranks(ls, posters);
                let n_langs = ls.len() as int;
                assert(n_langs == v.len() && v.len() <= usize::MAX);
                assert forall|x: int| 0 <= x < ranks.len() implies (0 <= #[trigger] ranks[x] < n_langs || ranks[x]
                    == usize::MAX as int) by {
                    lemma_last_index_of(ls, posters[x].iso_639_1->0@);
                }
                lemma_ranks_below(ranks, n_langs);
                let a = ranks_below(ranks, n_langs);
                let p = rank_is(ranks, usize::MAX as int);
                lemma_index_filter(ranks.len() as int, p);
                let b = with_rank(ranks, usize::MAX as int);
                assert(o == a + b);
                assert forall|i: int| 0 <= i < o.len() implies 0 <= #[trigger] o[i] < posters.len() by {
                    if i < a.len() {
                        assert(o[i] == a[i]);
                    } else {
                        assert(o[i] == b[i - a.len()]);
                    }
                }
                assert forall|i: int, j: int| 0 <= i < j < o.len() implies ranked_before(ranks, #[trigger] o[i], #[trigger] o[j]) by {
                    if j < a.len() {
                        assert(o[i] == a[i] && o[j] == a[j]);
                    } else if i < a.len() {
                        assert(o[i] == a[i] && o[j] == b[j - a.len()]);
                        assert(p(b[j - a.len()]));
                    } else {
                        assert(o[i] == b[i - a.len()] && o[j] == b[j - a.len()]);
                        assert(p(b[i - a.len()]) && p(b[j - a.len()]));
                    }
                }
                assert forall|i: int, j: int| 0 <= i < j < o.len() implies #[trigger] o[i] != #[trigger] o[j] by {
                    assert(ranked_before(ranks, o[i], o[j]));
                }
                assert forall|x: int| 0 <= x < posters.len() implies #[trigger] o.contains(x) by {
                    if ranks[x] < n_langs {
                        assert(a.contains(x));
                        let t = choose|t: int| 0 <= t < a.len() && a[t] == x;
                        assert(o[t] == x);
                    } else {
                        assert(p(x));
                        assert(b.contains(x));
                        let t = choose|t: int| 0 <= t < b.len() && b[t] == x;
                        assert(o[a.len() + t] == x);
                    }
                }
            } else {
                assert(o == id);
                assert forall|x: int| 0 <= x < posters.len() implies #[trigger] o.contains(x) by {
                    assert(o[x] == x);
                }
            }
        },
        None => {
            assert(o == id);
            assert forall|x: int| 0 <= x < posters.len() implies #[trigger] o.contains(x) by {
                assert(o[x] == x);
            }
        },
    }
}

} // verus!
