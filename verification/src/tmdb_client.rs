//! Merging TMDB metadata into a library's video records.
//!
//! Each `fill_*` function states, field by field, what the record holds
//! afterwards; fields it does not name are unchanged (`keeps_file_fields`).
use vstd::prelude::*;
use crate::text::{chars_of, eq_str, push_all, push_str, string_from_chars, padded2, padded2_chars};
use crate::video_element::{VideoElement, opt_str};
use crate::file_utils::opt_flag;
use crate::json_structs::{
    TMDBMovie, TMDBMovieDetails, TMDBTVShowDetails, TMDBEpisodeDetails, TMDBCrew,
    TMDBProductionCountries, TMDBTVShow,
};

verus! {

/// Prefix of every image address TMDB gives a path for.
pub const TMDB_IMAGE_URL: &'static str = "https://image.tmdb.org/t/p/original";

/// Address of the image at TMDB path `p`.
pub open spec fn image_url(p: Seq<char>) -> Seq<char> {
    TMDB_IMAGE_URL@ + p
}

/// `image_url` of an optional path.
pub open spec fn opt_image_url(o: Option<String>) -> Option<Seq<char>> {
    match o {
        Some(p) => Some(image_url(p@)),
        None => None,
    }
}

/// The fields that TMDB data never touches are equal in `a` and `b`.
pub open spec fn keeps_file_fields(a: VideoElement, b: VideoElement) -> bool {
    &&& b.filepath == a.filepath
    &&& b.watched == a.watched
    &&& b.thumbnail_path == a.thumbnail_path
    &&& b.audio_languages == a.audio_languages
    &&& b.subtitle_languages == a.subtitle_languages
    &&& b.audio_titles == a.audio_titles
    &&& b.subtitle_titles == a.subtitle_titles
    &&& b.playback_selection == a.playback_selection
    &&& b.index_priority == a.index_priority
    &&& b.length_in_seconds == a.length_in_seconds
    &&& b.timestamp_modified == a.timestamp_modified
}

/// `new` if the field is to be overwritten or is empty, else `old`.
pub open spec fn fill<T>(overwrite: bool, old: Option<T>, new: Option<T>) -> Option<T> {
    if overwrite || old is None {
        new
    } else {
        old
    }
}

fn clone_opt_string(o: &Option<String>) -> (r: Option<String>)
    ensures
        r == *o,
{
    match o {
        Some(s) => Some(s.clone()),
        None => None,
    }
}

/// The view of an optional list of ids.
pub open spec fn opt_ids(o: Option<Vec<usize>>) -> Option<Seq<usize>> {
    match o {
        Some(v) => Some(v@),
        None => None,
    }
}

fn clone_opt_ids(o: &Option<Vec<usize>>) -> (r: Option<Vec<usize>>)
    ensures
        opt_ids(r) == opt_ids(*o),
{
    match o {
        Some(v) => {
            let c = v.clone();
            assert(c@ =~= v@);
            Some(c)
        },
        None => None,
    }
}

/// The address of the image at `path`.
fn image_url_of(path: &String) -> (r: String)
    ensures
        r@ == image_url(path@),
{
    let mut s = String::from_str(TMDB_IMAGE_URL);
    s.append(path.as_str());
    s
}

fn opt_image_url_of(o: &Option<String>) -> (r: Option<String>)
    ensures
        opt_str(r) == opt_image_url(*o),
{
    match o {
        Some(p) => Some(image_url_of(p)),
        None => None,
    }
}

/// The fields a search result sets: the TMDB id always; title, original
/// title, language, genres, overview, release date, poster and backdrop (as
/// image addresses) where overwriting or empty.
pub open spec fn search_fields_filled(old: VideoElement, new: VideoElement, m: TMDBMovie, overwrite: bool) -> bool {
    &&& new.tmdb_id == m.id
    &&& new.title == fill(overwrite, old.title, m.title)
    &&& new.original_title == fill(overwrite, old.original_title, m.original_title)
    &&& new.tmdb_language == fill(overwrite, old.tmdb_language, m.original_language)
    &&& opt_ids(new.genre_ids) == fill(overwrite, opt_ids(old.genre_ids), opt_ids(m.genre_ids))
    &&& new.overview == fill(overwrite, old.overview, m.overview)
    &&& new.release_date == fill(overwrite, old.release_date, m.release_date)
    &&& opt_str(new.poster_path) == if overwrite || old.poster_path is None {
        opt_image_url(m.poster_path)
    } else {
        opt_str(old.poster_path)
    }
    &&& opt_str(new.backdrop_path) == if overwrite || old.backdrop_path is None {
        opt_image_url(m.backdrop_path)
    } else {
        opt_str(old.backdrop_path)
    }
}

/// A movie record after `fill_video_element_with_search_result`: the
/// `search_fields_filled`, everything else as it was.
pub open spec fn search_result_filled(old: VideoElement, new: VideoElement, m: TMDBMovie, overwrite: bool) -> bool {
    &&& keeps_file_fields(old, new)
    &&& search_fields_filled(old, new, m, overwrite)
    &&& new.director == old.director
    &&& new.countries == old.countries
    &&& new.tagline == old.tagline
    &&& new.season == old.season
    &&& new.episode == old.episode
}

/// Copies a movie search result into a record; `overwrite` (default
/// `false`) replaces fields that are already set.
pub fn fill_video_element_with_search_result(video_element: &mut VideoElement, movie_search_result: &TMDBMovie, overwrite: Option<bool>)
    ensures
        search_result_filled(*old(video_element), *final(video_element), *movie_search_result, opt_flag(overwrite)),
{
    let overwrite = match overwrite {
        Some(b) => b,
        None => false,
    };
    video_element.tmdb_id = movie_search_result.id;
    if overwrite || video_element.title.is_none() {
        video_element.title = clone_opt_string(&movie_search_result.title);
    }
    if overwrite || video_element.original_title.is_none() {
        video_element.original_title = clone_opt_string(&movie_search_result.original_title);
    }
    if overwrite || video_element.tmdb_language.is_none() {
        video_element.tmdb_language = clone_opt_string(&movie_search_result.original_language);
    }
    if overwrite || video_element.genre_ids.is_none() {
        video_element.genre_ids = clone_opt_ids(&movie_search_result.genre_ids);
    }
    if overwrite || video_element.overview.is_none() {
        video_element.overview = clone_opt_string(&movie_search_result.overview);
    }
    if overwrite || video_element.release_date.is_none() {
        video_element.release_date = clone_opt_string(&movie_search_result.release_date);
    }
    if overwrite || video_element.poster_path.is_none() {
        video_element.poster_path = opt_image_url_of(&movie_search_result.poster_path);
    }
    if overwrite || video_element.backdrop_path.is_none() {
        video_element.backdrop_path = opt_image_url_of(&movie_search_result.backdrop_path);
    }
}

/// The ISO 3166-1 codes of the countries that have one, in order.
pub open spec fn country_codes(cs: Seq<TMDBProductionCountries>) -> Seq<Seq<char>>
    decreases cs.len(),
{
    if cs.len() == 0 {
        Seq::empty()
    } else {
        let r = country_codes(cs.drop_last());
        match cs.last().iso_3166_1 {
            Some(c) => r.push(c@),
            None => r,
        }
    }
}

/// The view of an optional list of strings.
pub open spec fn opt_strs(o: Option<Vec<String>>) -> Option<Seq<Seq<char>>> {
    match o {
        Some(v) => Some(v@.map_values(|s: String| s@)),
        None => None,
    }
}

/// Countries after an update from `pc`: its codes when it lists at least
/// one, else `old`.
pub open spec fn countries_from(old: Option<Seq<Seq<char>>>, pc: Option<Vec<TMDBProductionCountries>>) -> Option<Seq<Seq<char>>> {
    match pc {
        Some(v) => if country_codes(v@).len() > 0 {
            Some(country_codes(v@))
        } else {
            old
        },
        None => old,
    }
}

fn country_codes_of(v: &Vec<TMDBProductionCountries>) -> (r: Vec<String>)
    ensures
        r@.map_values(|s: String| s@) == country_codes(v@),
{
    let mut r: Vec<String> = Vec::new();
    let mut i: usize = 0;
    while i < v.len()
        invariant
            i <= v.len(),
            r@.map_values(|s: String| s@) == country_codes(v@.take(i as int)),
        decreases v.len() - i,
    {
        assert(v@.take(i + 1).drop_last() =~= v@.take(i as int));
        assert(v@.take(i + 1).last() == v@[i as int]);
        match &v[i].iso_3166_1 {
            Some(c) => {
                let ghost before = r@;
                r.push(c.clone());
                assert(r@.map_values(|s: String| s@) =~= before.map_values(|s: String| s@).push(c@));
            },
            None => {},
        }
        i = i + 1;
    }
    assert(v@.take(v.len() as int) =~= v@);
    r
}

/// Applies `countries_from` to the record's countries.
fn update_countries(video_element: &mut VideoElement, pc: &Option<Vec<TMDBProductionCountries>>)
    ensures
        opt_strs(final(video_element).countries) == countries_from(opt_strs(old(video_element).countries), *pc),
        final(video_element).countries == old(video_element).countries || country_codes(pc->0@).len() > 0,
        *final(video_element) == (VideoElement { countries: final(video_element).countries, ..*old(video_element) }),
{
    if let Some(production_countries) = pc {
        let codes = country_codes_of(production_countries);
        if codes.len() > 0 {
            video_element.countries = Some(codes);
        }
    }
}

/// A crew member whose job is `Director`.
pub open spec fn is_director(c: TMDBCrew) -> bool {
    c.job matches Some(j) && j@ == "Director"@
}

/// The name of the last director in `crew`, if there is one.
pub open spec fn last_director(crew: Seq<TMDBCrew>) -> Option<Option<String>>
    decreases crew.len(),
{
    if crew.len() == 0 {
        None
    } else if is_director(crew.last()) {
        Some(crew.last().name)
    } else {
        last_director(crew.drop_last())
    }
}

/// The name of the first director in `crew`, if there is one.
pub open spec fn first_director(crew: Seq<TMDBCrew>) -> Option<Option<String>>
    decreases crew.len(),
{
    if crew.len() == 0 {
        None
    } else if is_director(crew[0]) {
        Some(crew[0].name)
    } else {
        first_director(crew.drop_first())
    }
}

/// `old` unless a director was found.
pub open spec fn director_from(old: Option<String>, found: Option<Option<String>>) -> Option<String> {
    match found {
        Some(n) => n,
        None => old,
    }
}

/// The crew of an optional crew list (empty when absent).
pub open spec fn crew_list(o: Option<Vec<TMDBCrew>>) -> Seq<TMDBCrew> {
    match o {
        Some(v) => v@,
        None => Seq::empty(),
    }
}

/// The crew appended to movie details.
pub open spec fn movie_crew(d: TMDBMovieDetails) -> Seq<TMDBCrew> {
    match d.credits {
        Some(c) => crew_list(c.crew),
        None => Seq::empty(),
    }
}

fn check_director(c: &TMDBCrew) -> (r: bool)
    ensures
        r == is_director(*c),
{
    match &c.job {
        Some(j) => eq_str(&chars_of(j.as_str()), "Director"),
        None => false,
    }
}

fn find_last_director(crew: &Vec<TMDBCrew>) -> (r: Option<Option<String>>)
    ensures
        r == last_director(crew@),
{
    let mut found: Option<Option<String>> = None;
    let mut i: usize = 0;
    while i < crew.len()
        invariant
            i <= crew.len(),
            found == last_director(crew@.take(i as int)),
        decreases crew.len() - i,
    {
        assert(crew@.take(i + 1).drop_last() =~= crew@.take(i as int));
        assert(crew@.take(i + 1).last() == crew@[i as int]);
        if check_director(&crew[i]) {
            found = Some(clone_opt_string(&crew[i].name));
        }
        i = i + 1;
    }
    assert(crew@.take(crew.len() as int) =~= crew@);
    found
}

proof fn lemma_first_director(crew: Seq<TMDBCrew>, i: int)
    requires
        0 <= i <= crew.len(),
        forall|j: int| 0 <= j < i ==> !is_director(#[trigger] crew[j]),
        i < crew.len() ==> is_director(crew[i]),
    ensures
        first_director(crew) == if i < crew.len() {
            Some(crew[i].name)
        } else {
            None::<Option<String>>
        },
    decreases crew.len(),
{
    if crew.len() > 0 && i > 0 {
        assert forall|j: int| 0 <= j < i - 1 implies !is_director(#[trigger] crew.drop_first()[j]) by {
            assert(crew.drop_first()[j] == crew[j + 1]);
        }
        if i < crew.len() {
            assert(crew.drop_first()[i - 1] == crew[i]);
        }
        assert(!is_director(crew[0]));
        lemma_first_director(crew.drop_first(), i - 1);
    }
}

fn find_first_director(crew: &Vec<TMDBCrew>) -> (r: Option<Option<String>>)
    ensures
        r == first_director(crew@),
{
    let mut i: usize = 0;
    while i < crew.len()
        invariant
            i <= crew.len(),
            forall|j: int| 0 <= j < i ==> !is_director(#[trigger] crew@[j]),
        decreases crew.len() - i,
    {
        if check_director(&crew[i]) {
            proof {
                lemma_first_director(crew@, i as int);
            }
            return Some(clone_opt_string(&crew[i].name));
        }
        i = i + 1;
    }
    proof {
        lemma_first_director(crew@, crew.len() as int);
    }
    None
}

fn details_crew(d: &TMDBMovieDetails) -> (r: Option<&Vec<TMDBCrew>>)
    ensures
        match r {
            Some(v) => v@ == movie_crew(*d),
            None => movie_crew(*d) == Seq::<TMDBCrew>::empty(),
        },
{
    match &d.credits {
        Some(c) => match &c.crew {
            Some(v) => Some(v),
            None => None,
        },
        None => None,
    }
}

/// A movie record after `fill_video_element_with_movie_details`: the
/// search-result fields as `search_result_filled`; the tagline where
/// overwriting or empty; the production countries' codes where overwriting
/// or empty and there is at least one; the last director of the crew, if
/// any.
pub open spec fn movie_details_filled(old: VideoElement, new: VideoElement, d: TMDBMovieDetails, overwrite: bool) -> bool {
    &&& keeps_file_fields(old, new)
    &&& search_fields_filled(old, new, d.tmdb_movie, overwrite)
    &&& new.season == old.season
    &&& new.episode == old.episode
    &&& new.tagline == fill(overwrite, old.tagline, d.tagline)
    &&& opt_strs(new.countries) == if overwrite || old.countries is None {
        countries_from(opt_strs(old.countries), d.production_countries)
    } else {
        opt_strs(old.countries)
    }
    &&& new.director == director_from(old.director, last_director(movie_crew(d)))
}

/// Copies movie details into a record: the search-result part, then
/// tagline and countries (where overwriting or empty) and the director.
pub fn fill_video_element_with_movie_details(video_element: &mut VideoElement, movie_details: &TMDBMovieDetails, overwrite: Option<bool>)
    ensures
        movie_details_filled(*old(video_element), *final(video_element), *movie_details, opt_flag(overwrite)),
{
    let ow = match overwrite {
        Some(b) => b,
        None => false,
    };
    fill_video_element_with_search_result(video_element, &movie_details.tmdb_movie, Some(ow));
    if ow || video_element.tagline.is_none() {
        video_element.tagline = clone_opt_string(&movie_details.tagline);
    }
    if ow || video_element.countries.is_none() {
        update_countries(video_element, &movie_details.production_countries);
    }
    match details_crew(movie_details) {
        Some(crew) => {
            match find_last_director(crew) {
                Some(n) => {
                    video_element.director = n;
                },
                None => {},
            }
        },
        None => {
            assert(last_director(Seq::<TMDBCrew>::empty()) is None);
        },
    }
}

/// A movie record after `fill_video_element_with_movie_details_preserve_covers`:
/// all search-result fields overwritten, except that poster and backdrop
/// stay where they were set; tagline replaced; countries from the
/// production countries when there is at least one; the first director of
/// the crew, if any.
pub open spec fn movie_details_refreshed(old: VideoElement, new: VideoElement, d: TMDBMovieDetails) -> bool {
    let m = d.tmdb_movie;
    &&& keeps_file_fields(old, new)
    &&& new.tmdb_id == m.id
    &&& new.title == m.title
    &&& new.original_title == m.original_title
    &&& new.tmdb_language == m.original_language
    &&& opt_ids(new.genre_ids) == opt_ids(m.genre_ids)
    &&& new.overview == m.overview
    &&& new.release_date == m.release_date
    &&& opt_str(new.poster_path) == if old.poster_path is Some {
        opt_str(old.poster_path)
    } else {
        opt_image_url(m.poster_path)
    }
    &&& opt_str(new.backdrop_path) == if old.backdrop_path is Some {
        opt_str(old.backdrop_path)
    } else {
        opt_image_url(m.backdrop_path)
    }
    &&& new.tagline == d.tagline
    &&& opt_strs(new.countries) == countries_from(opt_strs(old.countries), d.production_countries)
    &&& new.director == director_from(old.director, first_director(movie_crew(d)))
    &&& new.season == old.season
    &&& new.episode == old.episode
}

/// Refreshes a movie record from its details, keeping the covers it has.
pub fn fill_video_element_with_movie_details_preserve_covers(video_element: &mut VideoElement, movie_details: &TMDBMovieDetails)
    ensures
        movie_details_refreshed(*old(video_element), *final(video_element), *movie_details),
{
    let existing_poster = clone_opt_string(&video_element.poster_path);
    let existing_backdrop = clone_opt_string(&video_element.backdrop_path);
    let existing_thumbnail = clone_opt_string(&video_element.thumbnail_path);
    fill_video_element_with_search_result(video_element, &movie_details.tmdb_movie, Some(true));
    if existing_poster.is_some() {
        video_element.poster_path = existing_poster;
    }
    if existing_backdrop.is_some() {
        video_element.backdrop_path = existing_backdrop;
    }
    if existing_thumbnail.is_some() {
        video_element.thumbnail_path = existing_thumbnail;
    }
    video_element.tagline = clone_opt_string(&movie_details.tagline);
    update_countries(video_element, &movie_details.production_countries);
    match details_crew(movie_details) {
        Some(crew) => {
            match find_first_director(crew) {
                Some(n) => {
                    video_element.director = n;
                },
                None => {},
            }
        },
        None => {
            assert(first_director(Seq::<TMDBCrew>::empty()) is None);
        },
    }
}

/// The text of an optional name, or `default`.
pub open spec fn name_or(o: Option<String>, default: Seq<char>) -> Seq<char> {
    match o {
        Some(n) => n@,
        None => default,
    }
}

/// `{show} S{season:02}E{episode:02}`, with `Unknown Show` for a show
/// without a name.
pub open spec fn tv_title(show_name: Option<String>, season: i32, episode: i32) -> Seq<char> {
    name_or(show_name, "Unknown Show"@) + seq![' ', 'S'] + padded2(season as int) + seq!['E'] + padded2(
        episode as int,
    )
}

fn tv_title_chars(show_name: &Option<String>, season: i32, episode: i32) -> (r: Vec<char>)
    ensures
        r@ == tv_title(*show_name, season, episode),
{
    let mut v: Vec<char> = Vec::new();
    match show_name {
        Some(n) => push_str(&mut v, n.as_str()),
        None => push_str(&mut v, "Unknown Show"),
    }
    v.push(' ');
    v.push('S');
    push_all(&mut v, &padded2_chars(season as i64));
    v.push('E');
    push_all(&mut v, &padded2_chars(episode as i64));
    v
}

/// A record after `fill_video_element_with_tv_show_only`.
pub open spec fn tv_show_filled(old: VideoElement, new: VideoElement, show: TMDBTVShowDetails, season: i32, episode: i32) -> bool {
    let t = show.tmdb_tv_show;
    &&& keeps_file_fields(old, new)
    &&& new.tmdb_id == t.id
    &&& new.season == Some(season)
    &&& new.episode == Some(episode)
    &&& opt_str(new.title) == Some(tv_title(t.name, season, episode))
    &&& opt_str(new.original_title) == Some(tv_title(t.name, season, episode))
    &&& new.tmdb_language == t.original_language
    &&& opt_ids(new.genre_ids) == opt_ids(t.genre_ids)
    &&& new.tagline == show.tagline
    &&& opt_strs(new.countries) == countries_from(opt_strs(old.countries), show.production_countries)
    &&& opt_str(new.poster_path) == if t.poster_path is Some {
        opt_image_url(t.poster_path)
    } else {
        opt_str(old.poster_path)
    }
    &&& opt_str(new.backdrop_path) == if t.backdrop_path is Some {
        opt_image_url(t.backdrop_path)
    } else {
        opt_str(old.backdrop_path)
    }
    &&& new.overview == old.overview
    &&& new.release_date == old.release_date
    &&& new.director == old.director
}

/// Fills a record with show data only (no episode details were found):
/// the show's id, the given season and episode, `{show} SxxEyy` as titles,
/// and the show's language, genres, tagline, countries, poster and
/// backdrop.
pub fn fill_video_element_with_tv_show_only(
    video_element: &mut VideoElement,
    tv_show_details: &TMDBTVShowDetails,
    season_number: i32,
    episode_number: i32,
)
    ensures
        tv_show_filled(*old(video_element), *final(video_element), *tv_show_details, season_number, episode_number),
{
    let t = &tv_show_details.tmdb_tv_show;
    video_element.tmdb_id = t.id;
    video_element.season = Some(season_number);
    video_element.episode = Some(episode_number);
    let title = string_from_chars(&tv_title_chars(&t.name, season_number, episode_number));
    video_element.title = Some(title.clone());
    video_element.original_title = Some(title);
    video_element.tmdb_language = clone_opt_string(&t.original_language);
    video_element.genre_ids = clone_opt_ids(&t.genre_ids);
    video_element.tagline = clone_opt_string(&tv_show_details.tagline);
    update_countries(video_element, &tv_show_details.production_countries);
    if let Some(poster_path) = &t.poster_path {
        video_element.poster_path = Some(image_url_of(poster_path));
    }
    if let Some(backdrop_path) = &t.backdrop_path {
        video_element.backdrop_path = Some(image_url_of(backdrop_path));
    }
}

/// `{show} S{season:02}E{episode:02} {episode name}` with TMDB's season and
/// episode numbers where it has them, else the parsed ones.
pub open spec fn episode_title(show: TMDBTVShowDetails, ep: TMDBEpisodeDetails, parsed_season: i32, parsed_episode: i32) -> Seq<char> {
    let s = match ep.season_number {
        Some(n) => n,
        None => parsed_season,
    };
    let e = match ep.episode_number {
        Some(n) => n,
        None => parsed_episode,
    };
    tv_title(show.tmdb_tv_show.name, s, e) + seq![' '] + name_or(ep.name, "Unknown Episode"@)
}

proof fn lemma_fill_opt_str(overwrite: bool, a: Option<String>, b: Option<String>)
    ensures
        opt_str(fill(overwrite, a, b)) == fill(overwrite, opt_str(a), opt_str(b)),
{
}

fn fill_exec<T>(overwrite: bool, old: Option<T>, new: Option<T>) -> (r: Option<T>)
    ensures
        r == fill(overwrite, old, new),
{
    if overwrite || old.is_none() {
        new
    } else {
        old
    }
}

fn fill_ids(overwrite: bool, old: &Option<Vec<usize>>, new: &Option<Vec<usize>>) -> (r: Option<Vec<usize>>)
    ensures
        opt_ids(r) == fill(overwrite, opt_ids(*old), opt_ids(*new)),
{
    if overwrite || old.is_none() {
        clone_opt_ids(new)
    } else {
        clone_opt_ids(old)
    }
}

/// `new` where overwriting or empty, but only if there is a `new`.
pub open spec fn fill_present<T>(overwrite: bool, old: Option<T>, new: Option<T>) -> Option<T> {
    if (overwrite || old is None) && new is Some {
        new
    } else {
        old
    }
}

fn fill_if_some(overwrite: bool, old: Option<String>, new: Option<String>) -> (r: Option<String>)
    ensures
        r == fill_present(overwrite, old, new),
{
    if (overwrite || old.is_none()) && new.is_some() {
        new
    } else {
        old
    }
}

/// The image an episode record shows: the episode still, else the show
/// poster.
pub open spec fn episode_poster_url(ep: TMDBEpisodeDetails, t: TMDBTVShow) -> Option<Seq<char>> {
    if ep.still_path is Some {
        opt_image_url(ep.still_path)
    } else {
        opt_image_url(t.poster_path)
    }
}

fn episode_poster(ep: &TMDBEpisodeDetails, t: &TMDBTVShow) -> (r: Option<String>)
    ensures
        opt_str(r) == episode_poster_url(*ep, *t),
{
    if let Some(still_path) = &ep.still_path {
        Some(image_url_of(still_path))
    } else {
        opt_image_url_of(&t.poster_path)
    }
}

/// A record after `fill_video_element_with_tv_episode`.
pub open spec fn tv_episode_filled(
    old: VideoElement,
    new: VideoElement,
    show: TMDBTVShowDetails,
    ep: TMDBEpisodeDetails,
    parsed_season: i32,
    parsed_episode: i32,
    overwrite: bool,
) -> bool {
    let t = show.tmdb_tv_show;
    let title = episode_title(show, ep, parsed_season, parsed_episode);
    &&& keeps_file_fields(old, new)
    &&& new.tmdb_id == t.id
    &&& new.season == fill(overwrite, old.season, Some(match ep.season_number {
        Some(n) => n,
        None => parsed_season,
    }))
    &&& new.episode == fill(overwrite, old.episode, Some(match ep.episode_number {
        Some(n) => n,
        None => parsed_episode,
    }))
    &&& opt_str(new.title) == fill(overwrite, opt_str(old.title), Some(title))
    &&& opt_str(new.original_title) == fill(overwrite, opt_str(old.original_title), Some(title))
    &&& new.release_date == fill(overwrite, old.release_date, ep.air_date)
    &&& new.tmdb_language == fill(overwrite, old.tmdb_language, t.original_language)
    &&& opt_ids(new.genre_ids) == fill(overwrite, opt_ids(old.genre_ids), opt_ids(t.genre_ids))
    &&& new.overview == fill(overwrite, old.overview, ep.overview)
    &&& new.tagline == fill(overwrite, old.tagline, show.tagline)
    &&& opt_strs(new.countries) == if overwrite || old.countries is None {
        countries_from(opt_strs(old.countries), show.production_countries)
    } else {
        opt_strs(old.countries)
    }
    &&& opt_str(new.poster_path) == fill_present(overwrite, opt_str(old.poster_path), episode_poster_url(ep, t))
    &&& opt_str(new.backdrop_path) == if overwrite || old.backdrop_path is None {
        opt_image_url(t.backdrop_path)
    } else {
        opt_str(old.backdrop_path)
    }
    &&& new.director == director_from(old.director, first_director(crew_list(ep.crew)))
}

/// Fills a record with episode details: the show's id; season and episode
/// (TMDB's, else the parsed ones), the `{show} SxxEyy {name}` titles, air
/// date, language, genres, overview, tagline, countries, poster (the
/// episode still, else the show poster) and backdrop where overwriting
/// (default `false`) or empty; the episode's first director.
pub fn fill_video_element_with_tv_episode(
    video_element: &mut VideoElement,
    tv_show_details: &TMDBTVShowDetails,
    episode_details: &TMDBEpisodeDetails,
    parsed_season: i32,
    parsed_episode: i32,
    overwrite: Option<bool>,
)
    ensures
        tv_episode_filled(
            *old(video_element),
            *final(video_element),
            *tv_show_details,
            *episode_details,
            parsed_season,
            parsed_episode,
            opt_flag(overwrite),
        ),
{
    let overwrite = match overwrite {
        Some(b) => b,
        None => false,
    };
    let t = &tv_show_details.tmdb_tv_show;
    let season_num = match episode_details.season_number {
        Some(n) => n,
        None => parsed_season,
    };
    let episode_num = match episode_details.episode_number {
        Some(n) => n,
        None => parsed_episode,
    };
    let mut title = tv_title_chars(&t.name, season_num, episode_num);
    title.push(' ');
    match &episode_details.name {
        Some(n) => push_str(&mut title, n.as_str()),
        None => push_str(&mut title, "Unknown Episode"),
    }
    let combined = string_from_chars(&title);
    assert(combined@ == episode_title(*tv_show_details, *episode_details, parsed_season, parsed_episode));
    proof {
        lemma_fill_opt_str(overwrite, video_element.title, Some(combined));
        lemma_fill_opt_str(overwrite, video_element.original_title, Some(combined));
    }
    let poster = episode_poster(episode_details, t);
    let director = match &episode_details.crew {
        Some(crew) => find_first_director(crew),
        None => None,
    };
    video_element.tmdb_id = t.id;
    video_element.season = fill_exec(overwrite, video_element.season, Some(season_num));
    video_element.episode = fill_exec(overwrite, video_element.episode, Some(episode_num));
    video_element.title = fill_exec(overwrite, clone_opt_string(&video_element.title), Some(combined.clone()));
    video_element.original_title = fill_exec(overwrite, clone_opt_string(&video_element.original_title), Some(combined));
    video_element.release_date = fill_exec(overwrite, clone_opt_string(&video_element.release_date), clone_opt_string(&episode_details.air_date));
    video_element.tmdb_language = fill_exec(overwrite, clone_opt_string(&video_element.tmdb_language), clone_opt_string(&t.original_language));
    video_element.genre_ids = fill_ids(overwrite, &video_element.genre_ids, &t.genre_ids);
    video_element.overview = fill_exec(overwrite, clone_opt_string(&video_element.overview), clone_opt_string(&episode_details.overview));
    video_element.tagline = fill_exec(overwrite, clone_opt_string(&video_element.tagline), clone_opt_string(&tv_show_details.tagline));
    if overwrite || video_element.countries.is_none() {
        update_countries(video_element, &tv_show_details.production_countries);
    }
    video_element.poster_path = fill_if_some(overwrite, clone_opt_string(&video_element.poster_path), poster);
    video_element.backdrop_path = fill_exec(overwrite, clone_opt_string(&video_element.backdrop_path), opt_image_url_of(&t.backdrop_path));
    match director {
        Some(n) => {
            video_element.director = n;
        },
        None => {},
    }
}

/// Filling a record from an episode's details takes the episode's own
/// overview and air date (not the show's) wherever the record had none or
/// overwriting is asked for, and keeps the record's own otherwise; the TMDB
/// id is the show's.
pub proof fn lemma_episode_fill_uses_episode_details(
    old: VideoElement,
    new: VideoElement,
    show: TMDBTVShowDetails,
    ep: TMDBEpisodeDetails,
    parsed_season: i32,
    parsed_episode: i32,
    overwrite: bool,
)
    requires
        tv_episode_filled(old, new, show, ep, parsed_season, parsed_episode, overwrite),
    ensures
        new.tmdb_id == show.tmdb_tv_show.id,
        overwrite || old.overview is None ==> new.overview == ep.overview,
        !overwrite && old.overview is Some ==> new.overview == old.overview,
        overwrite || old.release_date is None ==> new.release_date == ep.air_date,
        overwrite || old.episode is None ==> new.episode == Some(
            match ep.episode_number {
                Some(k) => k,
                None => parsed_episode,
            },
        ),
{
}

} // verus!
