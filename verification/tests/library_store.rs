use ryser::library::{apply_rescan_changes, compute_rescan_changes, removal_indices_valid};
use ryser::library_store::{
    add_library, create_library, delete_library, get_all_library_ids, get_all_library_names, get_available_libraries,
    get_library_index_by_id, get_library_name, get_library_videos, update_library_entry, update_library_entry_by_index,
    LibraryError,
};
use ryser::video_element::{Library, LibraryPath, VideoElement};

fn lib(id: &str, name: &str) -> Library {
    Library { id: id.to_string(), name: name.to_string(), library_paths: vec![], video_files: vec![], child_libraries: vec![] }
}

fn entry(path: &str) -> VideoElement {
    VideoElement { filepath: path.to_string(), ..Default::default() }
}

#[test]
fn new_library_ids_count_up() {
    let paths = vec![LibraryPath { path: "/films".to_string(), include_subdirectories: true }];
    let a = create_library(&vec![], "My Films", paths.clone(), false).unwrap();
    assert_eq!(a.id, "My_Films");
    assert_eq!(a.name, "My Films");
    assert_eq!(a.library_paths.len(), 1);
    assert!(a.video_files.is_empty());
    let b = create_library(&vec![lib("My_Films", "x")], "My Films", paths.clone(), false).unwrap();
    assert_eq!(b.id, "My_Films2");
    let c = create_library(&vec![lib("My_Films", "x"), lib("My_Films2", "y")], "My Films", paths, false).unwrap();
    assert_eq!(c.id, "My_Films3");
}

#[test]
fn duplicate_names_are_checked_against_names() {
    let libs = vec![lib("Films", "Other")];
    assert_eq!(create_library(&libs, "Films", vec![], false).unwrap().id, "Films2");
    assert_eq!(create_library(&libs, "Films", vec![], true).unwrap().id, "Films2");
    let named = vec![lib("films_id", "Films")];
    assert!(matches!(create_library(&named, "Films", vec![], false), Err(LibraryError::DuplicateName)));
    assert_eq!(create_library(&named, "Films", vec![], true).unwrap().id, "Films");
    assert_eq!(get_all_library_names(&named), vec!["Films".to_string()]);
    assert_eq!(get_all_library_ids(&named), vec!["films_id".to_string()]);
}

#[test]
fn id_numbers_past_nine_keep_the_name() {
    let mut libs = vec![lib("ab", "x")];
    for k in 2..10 {
        libs.push(lib(&format!("ab{}", k), "x"));
    }
    assert_eq!(create_library(&libs, "ab", vec![], true).unwrap().id, "ab10");
    libs.push(lib("ab10", "x"));
    assert_eq!(create_library(&libs, "ab", vec![], true).unwrap().id, "ab11");
}

#[test]
fn lookups_by_id() {
    let mut libs = vec![lib("b", "Beta"), lib("a", "Alpha")];
    libs[1].video_files.push(entry("/x.mkv"));
    assert_eq!(get_library_index_by_id(&libs, "a").unwrap(), 1);
    assert_eq!(get_library_name(&libs, "b").unwrap(), "Beta");
    assert_eq!(get_library_videos(&libs, "a").unwrap().len(), 1);
    let err = get_library_name(&libs, "zzz").unwrap_err();
    assert_eq!(err.message(), "Library zzz not found!");
    assert_eq!(
        get_available_libraries(&libs),
        vec![("b".to_string(), "Beta".to_string()), ("a".to_string(), "Alpha".to_string())]
    );
}

#[test]
fn libraries_stay_sorted_by_name() {
    let mut libs = vec![lib("1", "Alpha"), lib("3", "Gamma")];
    add_library(&mut libs, lib("2", "Beta"));
    let names: Vec<String> = libs.iter().map(|l| l.name.clone()).collect();
    assert_eq!(names, vec!["Alpha", "Beta", "Gamma"]);
}

#[test]
fn deleting_libraries() {
    let mut libs = vec![lib("a", "A"), lib("b", "B"), lib("a", "A2")];
    assert!(delete_library(&mut libs, "a").is_ok());
    assert_eq!(libs.len(), 1);
    assert_eq!(libs[0].id, "b");
    let err = delete_library(&mut libs, "a").unwrap_err();
    assert_eq!(err.message(), "Did not find Library ID 'a', no removal occurred!");
    assert_eq!(libs.len(), 1);
}

#[test]
fn updating_entries() {
    let mut l = lib("lib", "Lib");
    l.video_files = vec![entry("/a.mkv"), entry("/b.mkv")];
    let mut updated = entry("/b.mkv");
    updated.watched = true;
    assert!(update_library_entry(&mut l, updated).is_ok());
    assert!(l.video_files[1].watched);
    let err = update_library_entry(&mut l, entry("/c.mkv")).unwrap_err();
    assert_eq!(err.message(), "Could not find '/c.mkv' in 'lib'");
    assert!(update_library_entry_by_index(&mut l, entry("/z.mkv"), 0).is_ok());
    assert_eq!(l.video_files[0].filepath, "/z.mkv");
    let err = update_library_entry_by_index(&mut l, entry("/z.mkv"), 5).unwrap_err();
    assert_eq!(err.message(), "Index 5 out of range of library elements (2)");
}

#[test]
fn rescan_finds_new_and_missing_files() {
    let stored = vec![entry("/a.mkv"), entry("/c.mkv"), entry("/d.mkv")];
    let found = vec!["/a.mkv".to_string(), "/b.mkv".to_string(), "/d.mkv".to_string()];
    let (new_idx, missing) = compute_rescan_changes(&stored, &found);
    assert_eq!(new_idx, vec![1]);
    assert_eq!(missing, vec![1]);
    let mut files = stored.clone();
    assert!(removal_indices_valid(&missing, files.len()));
    apply_rescan_changes(&mut files, &missing, vec![entry("/b.mkv")]);
    let paths: Vec<String> = files.iter().map(|e| e.filepath.clone()).collect();
    assert_eq!(paths, vec!["/a.mkv", "/b.mkv", "/d.mkv"]);
}

#[test]
fn rescan_of_an_emptied_folder() {
    let stored = vec![entry("/a.mkv"), entry("/b.mkv")];
    let (new_idx, missing) = compute_rescan_changes(&stored, &vec![]);
    assert!(new_idx.is_empty());
    assert_eq!(missing, vec![0, 1]);
}

#[test]
fn rescan_past_the_last_stored_entry() {
    // the last stored entry is gone and a later file was found
    let stored = vec![entry("/a.mkv"), entry("/b.mkv")];
    let found = vec!["/a.mkv".to_string(), "/c.mkv".to_string()];
    let (new_idx, missing) = compute_rescan_changes(&stored, &found);
    assert_eq!(new_idx, vec![1]);
    assert_eq!(missing, vec![1]);
    assert!(removal_indices_valid(&missing, stored.len()));
    let (new_idx, missing) = compute_rescan_changes(&vec![entry("/a.mkv")], &vec!["/b.mkv".to_string()]);
    assert_eq!(new_idx, vec![0]);
    assert_eq!(missing, vec![0]);
    let (new_idx, missing) = compute_rescan_changes(
        &vec![entry("/a.mkv"), entry("/b.mkv")],
        &vec!["/c.mkv".to_string(), "/d.mkv".to_string()],
    );
    assert_eq!(new_idx, vec![0, 1]);
    assert_eq!(missing, vec![0, 1]);
}

#[test]
fn deleted_library_is_not_found() {
    let mut libs = vec![lib("a", "Alpha"), lib("b", "Beta"), lib("a", "Again")];
    assert!(delete_library(&mut libs, "a").is_ok());
    assert!(matches!(get_library_index_by_id(&libs, "a"), Err(LibraryError::NotFound(_))));
    assert_eq!(get_library_index_by_id(&libs, "b").unwrap(), 0);
}

#[test]
fn created_library_is_found_after_adding() {
    let mut libs = vec![lib("Zed", "Zed"), lib("Films", "Films")];
    let created = create_library(&libs, "Films", vec![], true).unwrap();
    assert_eq!(created.id, "Films2");
    add_library(&mut libs, created);
    let i = get_library_index_by_id(&libs, "Films2").unwrap();
    assert_eq!(libs[i].id, "Films2");
    assert_eq!(libs[i].name, "Films");
}

#[test]
fn repeated_removal_indices_remove_later_entries() {
    // removing index 1 twice, last first, takes the entries at 1 and then 2
    assert!(removal_indices_valid(&vec![1, 1], 3));
    assert!(!removal_indices_valid(&vec![1, 1], 2));
    assert!(!removal_indices_valid(&vec![3], 3));
    let mut files = vec![entry("/a.mkv"), entry("/b.mkv"), entry("/c.mkv")];
    apply_rescan_changes(&mut files, &vec![1, 1], vec![]);
    let paths: Vec<String> = files.iter().map(|e| e.filepath.clone()).collect();
    assert_eq!(paths, vec!["/a.mkv"]);
}

#[test]
fn rescan_with_repeated_paths_matches_one_for_one() {
    let a = || "/a.mkv".to_string();
    let (new_idx, missing) = compute_rescan_changes(&vec![entry("/a.mkv")], &vec![a(), a()]);
    assert_eq!(new_idx, vec![1]);
    assert!(missing.is_empty());
    let (new_idx, missing) = compute_rescan_changes(&vec![entry("/a.mkv"), entry("/a.mkv")], &vec![a(), a()]);
    assert!(new_idx.is_empty());
    assert!(missing.is_empty());
    let (new_idx, missing) = compute_rescan_changes(&vec![entry("/a.mkv"), entry("/a.mkv")], &vec![a()]);
    assert!(new_idx.is_empty());
    assert_eq!(missing, vec![1]);
    let stored = vec![entry("/a.mkv"), entry("/a.mkv"), entry("/b.mkv")];
    let found = vec![a(), "/b.mkv".to_string(), "/b.mkv".to_string()];
    let (new_idx, missing) = compute_rescan_changes(&stored, &found);
    assert_eq!(new_idx, vec![2]);
    assert_eq!(missing, vec![1]);
}
