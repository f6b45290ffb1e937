use ryser::json_structs::{
    TMDBCredits, TMDBCrew, TMDBEpisodeDetails, TMDBImage, TMDBMovie, TMDBMovieDetails, TMDBProductionCountries,
    TMDBTVShow, TMDBTVShowDetails,
};
use ryser::tmdb_client::{
    fill_video_element_with_movie_details, fill_video_element_with_movie_details_preserve_covers,
    fill_video_element_with_search_result, fill_video_element_with_tv_episode, fill_video_element_with_tv_show_only,
};
use ryser::tmdb_requests::{
    apply_movie_details, apply_tv_details, best_movie_match_id, check_api_token, covers_from_images, covers_url,
    details_request_id, movie_details_url, needs_tmdb_lookup, order_cover_paths, plan_tmdb_lookup, search_movie_url,
    search_results_as_video_elements, search_tv_url, tv_episode_details_url, tv_show_details_url, TmdbError,
    TmdbLookup,
};
use ryser::video_element::VideoElement;

fn s(x: &str) -> Option<String> {
    Some(x.to_string())
}

fn movie() -> TMDBMovie {
    TMDBMovie {
        backdrop_path: s("/b.jpg"),
        genre_ids: Some(vec![18, 878]),
        id: Some(603),
        original_language: s("en"),
        original_title: s("The Matrix"),
        overview: s("A hacker."),
        poster_path: s("/p.jpg"),
        release_date: s("1999-03-30"),
        title: s("Matrix"),
    }
}

fn crew(name: &str, job: &str) -> TMDBCrew {
    TMDBCrew { name: s(name), department: None, job: s(job) }
}

fn details() -> TMDBMovieDetails {
    TMDBMovieDetails {
        tmdb_movie: movie(),
        production_countries: Some(vec![
            TMDBProductionCountries { iso_3166_1: s("US"), name: None },
            TMDBProductionCountries { iso_3166_1: None, name: s("Nowhere") },
            TMDBProductionCountries { iso_3166_1: s("AU"), name: None },
        ]),
        tagline: s("Welcome"),
        credits: Some(TMDBCredits {
            crew: Some(vec![crew("Lana", "Director"), crew("Joel", "Producer"), crew("Lilly", "Director")]),
        }),
    }
}

fn show() -> TMDBTVShowDetails {
    TMDBTVShowDetails {
        tmdb_tv_show: TMDBTVShow {
            backdrop_path: s("/sb.jpg"),
            genre_ids: Some(vec![35]),
            id: Some(2316),
            original_language: s("en"),
            original_name: s("The Office"),
            overview: None,
            poster_path: s("/sp.jpg"),
            first_air_date: None,
            name: s("The Office"),
        },
        production_countries: Some(vec![TMDBProductionCountries { iso_3166_1: s("US"), name: None }]),
        tagline: None,
    }
}

fn episode() -> TMDBEpisodeDetails {
    TMDBEpisodeDetails {
        air_date: s("2005-03-24"),
        episode_number: Some(1),
        id: Some(1),
        name: s("Pilot"),
        overview: s("First."),
        season_number: Some(1),
        still_path: s("/still.jpg"),
        crew: Some(vec![crew("Ken", "Director"), crew("Greg", "Director")]),
    }
}

#[test]
fn search_result_fills_empty_fields() {
    let mut ve = VideoElement { filepath: "/m/matrix.mkv".to_string(), title: s("Kept"), ..Default::default() };
    fill_video_element_with_search_result(&mut ve, &movie(), None);
    assert_eq!(ve.tmdb_id, Some(603));
    assert_eq!(ve.title.as_deref(), Some("Kept"));
    assert_eq!(ve.original_title.as_deref(), Some("The Matrix"));
    assert_eq!(ve.poster_path.as_deref(), Some("https://image.tmdb.org/t/p/original/p.jpg"));
    assert_eq!(ve.backdrop_path.as_deref(), Some("https://image.tmdb.org/t/p/original/b.jpg"));
    assert_eq!(ve.genre_ids, Some(vec![18, 878]));
    assert_eq!(ve.filepath, "/m/matrix.mkv");
    fill_video_element_with_search_result(&mut ve, &movie(), Some(true));
    assert_eq!(ve.title.as_deref(), Some("Matrix"));
}

#[test]
fn movie_details_take_the_last_director_and_countries() {
    let mut ve = VideoElement::default();
    fill_video_element_with_movie_details(&mut ve, &details(), None);
    assert_eq!(ve.director.as_deref(), Some("Lilly"));
    assert_eq!(ve.countries, Some(vec!["US".to_string(), "AU".to_string()]));
    assert_eq!(ve.tagline.as_deref(), Some("Welcome"));
}

#[test]
fn refresh_keeps_covers_and_takes_the_first_director() {
    let mut ve = VideoElement { poster_path: s("/mine.jpg"), title: s("Old"), ..Default::default() };
    fill_video_element_with_movie_details_preserve_covers(&mut ve, &details());
    assert_eq!(ve.poster_path.as_deref(), Some("/mine.jpg"));
    assert_eq!(ve.backdrop_path.as_deref(), Some("https://image.tmdb.org/t/p/original/b.jpg"));
    assert_eq!(ve.title.as_deref(), Some("Matrix"));
    assert_eq!(ve.director.as_deref(), Some("Lana"));
}

#[test]
fn show_only_titles() {
    let mut ve = VideoElement::default();
    fill_video_element_with_tv_show_only(&mut ve, &show(), 2, 11);
    assert_eq!(ve.title.as_deref(), Some("The Office S02E11"));
    assert_eq!(ve.original_title.as_deref(), Some("The Office S02E11"));
    assert_eq!(ve.season, Some(2));
    assert_eq!(ve.episode, Some(11));
    assert_eq!(ve.tmdb_id, Some(2316));
    assert_eq!(ve.poster_path.as_deref(), Some("https://image.tmdb.org/t/p/original/sp.jpg"));
    let mut unnamed = show();
    unnamed.tmdb_tv_show.name = None;
    let mut ve2 = VideoElement::default();
    fill_video_element_with_tv_show_only(&mut ve2, &unnamed, 10, -3);
    assert_eq!(ve2.title.as_deref(), Some("Unknown Show S10E-3"));
}

#[test]
fn episode_titles_and_still() {
    let mut ve = VideoElement::default();
    fill_video_element_with_tv_episode(&mut ve, &show(), &episode(), 9, 9, None);
    assert_eq!(ve.title.as_deref(), Some("The Office S01E01 Pilot"));
    assert_eq!(ve.season, Some(1));
    assert_eq!(ve.poster_path.as_deref(), Some("https://image.tmdb.org/t/p/original/still.jpg"));
    assert_eq!(ve.release_date.as_deref(), Some("2005-03-24"));
    assert_eq!(ve.director.as_deref(), Some("Ken"));
    let mut bare = episode();
    bare.name = None;
    bare.season_number = None;
    bare.still_path = None;
    let mut ve2 = VideoElement::default();
    fill_video_element_with_tv_episode(&mut ve2, &show(), &bare, 4, 9, None);
    assert_eq!(ve2.title.as_deref(), Some("The Office S04E01 Unknown Episode"));
    assert_eq!(ve2.poster_path.as_deref(), Some("https://image.tmdb.org/t/p/original/sp.jpg"));
}

#[test]
fn request_addresses() {
    assert_eq!(
        search_movie_url("Alien", Some(1979), None, None, None),
        "https://api.themoviedb.org/3/search/movie?query=Alien&include_adult=false&page=1&year=1979"
    );
    assert_eq!(
        search_tv_url("Lost", None, Some("de-DE"), Some(true), Some(2)),
        "https://api.themoviedb.org/3/search/tv?query=Lost&include_adult=true&page=2&language=de-DE"
    );
    assert_eq!(movie_details_url(603), "https://api.themoviedb.org/3/movie/603?append_to_response=credits");
    assert_eq!(tv_show_details_url(1399), "https://api.themoviedb.org/3/tv/1399?append_to_response=credits");
    assert_eq!(
        tv_episode_details_url(1399, 1, 2),
        "https://api.themoviedb.org/3/tv/1399/season/1/episode/2?append_to_response=credits"
    );
    let langs = Some(vec!["en".to_string(), "de".to_string()]);
    assert_eq!(
        covers_url(603, &langs, Some(true)),
        "https://api.themoviedb.org/3/movie/603/images?include_image_language=en,de"
    );
    assert_eq!(covers_url(603, &langs, None), "https://api.themoviedb.org/3/movie/603/images");
}

fn img(lang: Option<&str>, path: Option<&str>) -> TMDBImage {
    TMDBImage { height: None, iso_639_1: lang.map(|x| x.to_string()), file_path: path.map(|x| x.to_string()), width: None }
}

#[test]
fn covers_sorted_by_preferred_language() {
    let posters = vec![img(Some("de"), Some("/a")), img(None, Some("/b")), img(Some("en"), Some("/c")), img(Some("en"), None)];
    let langs = Some(vec!["en".to_string(), "de".to_string()]);
    assert_eq!(
        order_cover_paths(&posters, &langs, false),
        vec![
            "https://image.tmdb.org/t/p/original/c".to_string(),
            "https://image.tmdb.org/t/p/original/a".to_string(),
            "https://image.tmdb.org/t/p/original/b".to_string(),
        ]
    );
    let one = Some(vec!["en".to_string()]);
    assert_eq!(
        order_cover_paths(&posters, &one, true),
        vec![
            "https://image.tmdb.org/t/p/original/a".to_string(),
            "https://image.tmdb.org/t/p/original/b".to_string(),
            "https://image.tmdb.org/t/p/original/c".to_string(),
        ]
    );
    assert_eq!(covers_from_images(None, &langs, None).unwrap_err(), TmdbError::NoPosters);
    assert_eq!(TmdbError::NoPosters.message(), "Movie has no posters!");
}

#[test]
fn duplicate_language_ranks_by_its_last_position() {
    let posters = vec![img(Some("fr"), Some("/fr")), img(Some("en"), Some("/en"))];
    let langs = Some(vec!["fr".to_string(), "en".to_string(), "fr".to_string()]);
    assert_eq!(
        order_cover_paths(&posters, &langs, false),
        vec!["https://image.tmdb.org/t/p/original/en".to_string(), "https://image.tmdb.org/t/p/original/fr".to_string()]
    );
}

#[test]
fn lookups_planned_per_record() {
    let known = VideoElement { filepath: "/m/Alien (1979).mkv".to_string(), tmdb_id: Some(348), ..Default::default() };
    assert!(matches!(plan_tmdb_lookup(&known, None, &vec![], 2024), TmdbLookup::Skip));
    match plan_tmdb_lookup(&known, Some(true), &vec![], 2024) {
        TmdbLookup::Movie { title, year } => {
            assert_eq!(title, "Alien ");
            assert_eq!(year, Some(1979));
        },
        _ => panic!("expected a movie lookup"),
    }
    let ep = VideoElement { filepath: "/tv/Show/Show S01E02.mkv".to_string(), ..Default::default() };
    match plan_tmdb_lookup(&ep, None, &vec![], 2024) {
        TmdbLookup::TvEpisode { show_name, season, episode } => {
            assert_eq!(show_name, "Show");
            assert_eq!((season, episode), (1, 2));
        },
        _ => panic!("expected an episode lookup"),
    }
    let unreadable = VideoElement { filepath: "/m/1999 HQ.mkv".to_string(), ..Default::default() };
    assert!(matches!(plan_tmdb_lookup(&unreadable, None, &vec![], 2024), TmdbLookup::Unreadable));
}

#[test]
fn answers_applied() {
    let mut d = details();
    d.tmdb_movie.release_date = None;
    let mut ve = VideoElement::default();
    apply_movie_details(&mut ve, &d, Some(1999));
    assert_eq!(ve.release_date.as_deref(), Some("1999"));
    let mut tv = VideoElement::default();
    apply_tv_details(&mut tv, &show(), &None, 3, 4);
    assert_eq!(tv.title.as_deref(), Some("The Office S03E04"));
    assert_eq!(best_movie_match_id(&vec![movie()]), Some(603));
    assert_eq!(best_movie_match_id(&vec![]), None);
    let els = search_results_as_video_elements(&vec![movie()]);
    assert_eq!(els.len(), 1);
    assert_eq!(els[0].filepath, "");
    assert_eq!(els[0].title.as_deref(), Some("Matrix"));
    assert!(check_api_token("").is_err());
    assert!(check_api_token("token").is_ok());
    assert_eq!(details_request_id(&VideoElement::default()).unwrap_err(), TmdbError::NoTmdbId);
}

#[test]
fn records_with_an_id_are_looked_up_only_when_reparsing() {
    let known = VideoElement { filepath: "/m/Alien (1979).mkv".to_string(), tmdb_id: Some(348), ..Default::default() };
    let fresh = VideoElement { filepath: "/m/Alien (1979).mkv".to_string(), ..Default::default() };
    assert!(!needs_tmdb_lookup(&known, None));
    assert!(needs_tmdb_lookup(&known, Some(true)));
    assert!(needs_tmdb_lookup(&fresh, Some(false)));
    assert!(matches!(plan_tmdb_lookup(&known, None, &vec![], 2024), TmdbLookup::Skip));
}
