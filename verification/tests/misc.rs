use ryser::file_reader::{create_video_element_from_file, video_element_for_file};
use ryser::file_utils::create_valid_filename;
use ryser::notifications::{send_msg, show_msg_gui};
use ryser::paths::{file_extension, file_stem, is_video_file, remove_extension_and_path};

#[test]
fn messages_get_ids_and_durations() {
    let m = send_msg("Header", "Body", None, None);
    assert_eq!(m.header, "Header");
    assert_eq!(m.duration_ms, 3000);
    assert_eq!(m.id.len(), 36);
    assert_eq!(m.id.chars().nth(8), Some('-'));
    let n = send_msg("H", "B", Some("fixed".to_string()), Some(10));
    assert_eq!(n.id, "fixed");
    assert_eq!(n.duration_ms, 10);
    let g = show_msg_gui("H", "B", Some("x".to_string()), Some(10));
    assert_eq!(g.duration_ms, 3000);
    assert_eq!(g.id, "x");
}

#[test]
fn records_for_files() {
    let old = create_video_element_from_file("/a.mkv");
    assert_eq!(old.filepath, "/a.mkv");
    assert!(old.title.is_none() && !old.watched);
    let ve = video_element_for_file("/b.mkv", Some(5400), 1_700_000_000_000);
    assert_eq!(ve.filepath, "/b.mkv");
    assert_eq!(ve.length_in_seconds, 5400);
    assert_eq!(ve.timestamp_modified, 1_700_000_000_000);
    assert_eq!(video_element_for_file("/c.mkv", None, 0).length_in_seconds, 0);
}

#[test]
fn valid_file_names() {
    assert_eq!(create_valid_filename("con", None, None), "_con");
    assert_eq!(create_valid_filename("a/b:c", None, None), "a_b_c");
    assert_eq!(create_valid_filename("  ..name.. ", None, None), "name");
    assert_eq!(create_valid_filename("", None, None), "unnamed");
    assert_eq!(create_valid_filename("a b", Some(true), None), "a_b");
    assert_eq!(create_valid_filename("é", None, Some(true)), "_");
    assert_eq!(create_valid_filename(&"x".repeat(300), None, None).chars().count(), 255);
}

#[test]
fn stems_and_extensions() {
    assert_eq!(remove_extension_and_path("/a/b/movie.name.mkv"), "movie.name");
    assert_eq!(remove_extension_and_path("/a/b/.hidden"), ".hidden");
    assert_eq!(file_stem("/x/y.tar.gz"), Some("y.tar".to_string()));
    assert_eq!(file_extension("/x/y.tar.gz"), Some("gz".to_string()));
    assert_eq!(file_extension("/x/.bashrc"), None);
    assert!(is_video_file("/x/a.MKV"));
    assert!(!is_video_file("/x/a.txt"));
}

#[test]
fn cleaning_a_file_name_twice_changes_nothing() {
    for name in ["  My Films ", "con", "a<b>c", "Über Film", "", "\t"] {
        for (rw, ao) in [(Some(true), Some(true)), (None, None), (Some(false), Some(true))] {
            let once = create_valid_filename(name, rw, ao);
            assert_eq!(create_valid_filename(&once, rw, ao), once);
        }
    }
}
