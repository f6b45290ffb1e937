use ryser::episode_detection::{
    count_video_files_in_folder, is_tv_episode, verify_bracketed_number_with_folder_context,
    verify_dash_number_with_folder_context, verify_special_with_folder_context, verify_with_folder_context, FolderEntry,
};

fn file(name: &str) -> FolderEntry {
    FolderEntry { name: name.to_string(), name_is_utf8: true, is_file: true }
}

#[test]
fn season_episode_markers_are_episodes() {
    assert!(is_tv_episode("/shows/Show/Show S01E02.mkv", &vec![]));
    assert!(is_tv_episode("/shows/Show/show.s1e2.mkv", &vec![]));
    assert!(is_tv_episode("/shows/Show/Show 1x05.mkv", &vec![]));
}

#[test]
fn a_film_is_no_episode() {
    assert!(!is_tv_episode("/movies/Movie (1999).mkv", &vec![]));
}

#[test]
fn season_folder_with_several_videos() {
    let two = vec![file("Pilot.mkv"), file("Second.mp4"), file("notes.txt")];
    assert!(is_tv_episode("/tv/Show/Season 1/Pilot.mkv", &two));
    let one = vec![file("Pilot.mkv"), file("notes.txt")];
    assert!(!is_tv_episode("/tv/Show/Season 1/Pilot.mkv", &one));
    assert_eq!(count_video_files_in_folder(&two), 2);
}

#[test]
fn episode_number_needs_a_sibling_or_season_folder() {
    let siblings = vec![file("Show E01.mkv"), file("Show E02.mkv")];
    assert!(verify_with_folder_context("Show E01", &siblings));
    assert!(is_tv_episode("/tv/Show/Show E01.mkv", &siblings));
    assert!(!is_tv_episode("/tv/Show/Show E01.mkv", &vec![file("Show E01.mkv")]));
    assert!(is_tv_episode("/tv/Show/S02/Show E01.mkv", &vec![]));
}

#[test]
fn dash_numbers_need_three_similar_siblings() {
    let three = vec![file("Show - 01.mkv"), file("Show - 02.mkv"), file("Show - 03.mkv"), file("Show - 04.mkv")];
    assert!(verify_dash_number_with_folder_context("Show - 01", &three, 3));
    assert!(is_tv_episode("/a/Show - 01.mkv", &three));
    let two = vec![file("Show - 01.mkv"), file("Show - 02.mkv"), file("Show - 03.mkv")];
    assert!(!is_tv_episode("/a/Show - 01.mkv", &two));
    assert!(verify_dash_number_with_folder_context("Show - 01", &two, 0));
}

#[test]
fn bracketed_numbers_need_one_sibling() {
    let sib = vec![file("[Grp] Show [01].mkv"), file("[Grp] Show [02].mkv")];
    assert!(verify_bracketed_number_with_folder_context("[Grp] Show [01]", &sib));
    assert!(is_tv_episode("/a/[Grp] Show [01].mkv", &sib));
    assert!(!is_tv_episode("/a/[Grp] Show [01].mkv", &vec![]));
}

#[test]
fn special_with_a_similar_episode() {
    let sib = vec![file("Show S01E01.mkv")];
    assert!(verify_special_with_folder_context("Show Special", &sib));
    assert!(is_tv_episode("/a/Show Special.mkv", &sib));
    assert!(!verify_special_with_folder_context("Show Special", &vec![file("Other Thing.mkv")]));
}

#[test]
fn directories_and_foreign_names_are_ignored() {
    let entries = vec![
        FolderEntry { name: "Show E02.mkv".to_string(), name_is_utf8: true, is_file: false },
        FolderEntry { name: "Show E03.mkv".to_string(), name_is_utf8: false, is_file: true },
    ];
    assert!(!verify_with_folder_context("Show E01", &entries));
}
