use ryser::search_name_creator::{
    extract_season_from_folder, get_movie_title_and_year_from_filename, get_tv_show_info_from_filename,
    movie_title_and_year, regex_find_year, try_get_tv_show_info, try_movie_title_and_year,
};
use ryser::patterns::YEAR_IN_SPACES;

#[test]
fn season_from_folder_names() {
    assert_eq!(extract_season_from_folder("Season 2"), Some(2));
    assert_eq!(extract_season_from_folder("season 01"), Some(1));
    assert_eq!(extract_season_from_folder("S03"), Some(3));
    assert_eq!(extract_season_from_folder("Extras"), None);
}

#[test]
fn season_episode_format() {
    let (show, s, e) = get_tv_show_info_from_filename("/tv/The Office/The.Office.S02E05.mkv");
    assert_eq!(show, "The Office");
    assert_eq!(s, Some(2));
    assert_eq!(e, Some(5));
}

#[test]
fn x_format() {
    assert_eq!(get_tv_show_info_from_filename("Show 1x05.mkv"), ("Show".to_string(), Some(1), Some(5)));
}

#[test]
fn episode_format_takes_season_from_folder() {
    assert_eq!(
        get_tv_show_info_from_filename("/tv/Show/Season 3/Show E07.mkv"),
        ("Show".to_string(), Some(3), Some(7))
    );
}

#[test]
fn dash_bracket_and_ep_formats() {
    assert_eq!(get_tv_show_info_from_filename("Show - 12.mkv"), ("Show".to_string(), None, Some(12)));
    assert_eq!(get_tv_show_info_from_filename("[Group] Show [05].mkv"), ("Show".to_string(), None, Some(5)));
    assert_eq!(get_tv_show_info_from_filename("[Group] Show [CM07].mkv"), ("Show".to_string(), None, Some(7)));
    assert_eq!(get_tv_show_info_from_filename("Show Ep. 3.mkv"), ("Show".to_string(), None, Some(3)));
}

#[test]
fn name_without_markers_is_the_show() {
    assert_eq!(get_tv_show_info_from_filename("Just A Movie.mkv"), ("Just A Movie".to_string(), None, None));
    assert!(try_get_tv_show_info("Show S01E02.mkv").is_some());
}

#[test]
fn year_in_brackets() {
    assert_eq!(movie_title_and_year("Persona (1966).mkv", 2024), ("Persona ".to_string(), Some(1966)));
}

#[test]
fn year_between_spaces() {
    assert_eq!(movie_title_and_year("Caché 2005.mkv", 2024), ("Caché".to_string(), Some(2005)));
}

#[test]
fn year_glued_to_the_title() {
    // the non-digit before the year belongs to the match
    assert_eq!(movie_title_and_year("Nostalghia1983.mkv", 2024), ("Nostalghia".to_string(), Some(1983)));
}

#[test]
fn last_of_two_years() {
    assert_eq!(
        movie_title_and_year("2001 - A Space Odyssey 1968.mkv", 2024),
        ("2001 A Space Odyssey".to_string(), Some(1968))
    );
}

#[test]
fn noise_ends_the_title() {
    assert_eq!(movie_title_and_year("The Matrix 1080p BluRay.mkv", 2024), ("The Matrix ".to_string(), None));
}

#[test]
fn future_years_are_not_years() {
    assert_eq!(movie_title_and_year("Film 2030.mkv", 2024), ("Film 2030".to_string(), None));
    assert_eq!(movie_title_and_year("Film 2030.mkv", 2030), ("Film".to_string(), Some(2030)));
}

#[test]
fn year_at_start_then_noise_before_it_ends_is_unreadable() {
    assert_eq!(try_movie_title_and_year("1999 HQ.mkv", 2024), None);
    assert_eq!(try_movie_title_and_year("1999 Title HQ.mkv", 2024), Some(("Title".to_string(), Some(1999))));
}

#[test]
fn years_found_with_spans() {
    assert_eq!(regex_find_year(YEAR_IN_SPACES, "1999 and 2001 and 1700", 2024), vec![(1999, 0, 5, 0), (2001, 8, 14, 9)]);
}

#[test]
fn clock_based_title_reading() {
    assert_eq!(
        get_movie_title_and_year_from_filename("Persona (1966).mkv"),
        Some(("Persona ".to_string(), Some(1966)))
    );
}
