use ryser::video_player::{body_is_our_file, converge_step, extract_var, mpc_args, mpc_command, mpc_file_loaded, mpc_file_name, vlc_args};

#[test]
fn vlc_arguments() {
    assert_eq!(vlc_args("a.mkv", Some(2), None), vec!["a.mkv", "--audio-track=2", "--no-spu"]);
    assert_eq!(vlc_args("a.mkv", None, Some(0)), vec!["a.mkv", "--sub-track=0"]);
}

#[test]
fn mpc_arguments_and_names() {
    assert_eq!(mpc_args("C:/v/a.mkv"), vec![" C:/v/a.mkv"]);
    assert_eq!(mpc_file_name("C:\\Videos/sub\\file.mkv"), "file.mkv");
    assert_eq!(mpc_file_name("file.mkv"), "file.mkv");
    assert_eq!(mpc_file_name("dir/"), "");
    assert_eq!(mpc_command(952), "/command.html?wm_command=952");
}

#[test]
fn variables_page_values() {
    let body = "<p id=\"file\">a.mkv</p><p id=\"duration\">12345</p><p id=\"audiotrack\"> 2 </p>";
    assert_eq!(extract_var(body, "duration"), Some(12345));
    assert_eq!(extract_var(body, "audiotrack"), Some(2));
    assert_eq!(extract_var(body, "position"), None);
    assert_eq!(extract_var("<p id=\"x\">abc</p>", "x"), None);
    assert_eq!(extract_var("<p id=\"x\">-7", "x"), None);
    assert!(body_is_our_file(body, "a.mkv"));
    assert!(mpc_file_loaded(body, "a.mkv"));
    assert!(!mpc_file_loaded(body, "b.mkv"));
    assert!(!mpc_file_loaded("<p id=\"duration\">0</p> a.mkv", "a.mkv"));
}

#[test]
fn track_convergence_steps() {
    let body = Some("a.mkv <p id=\"audiotrack\">1</p>".to_string());
    let mut seen: Vec<i64> = vec![];
    assert!(converge_step(&mut seen, &body, "a.mkv", "audiotrack", 2));
    assert_eq!(seen, vec![1]);
    assert!(!converge_step(&mut seen, &body, "a.mkv", "audiotrack", 2));
    assert_eq!(seen, vec![1]);
    let mut fresh: Vec<i64> = vec![];
    assert!(!converge_step(&mut fresh, &body, "a.mkv", "audiotrack", 1));
    assert!(!converge_step(&mut fresh, &body, "b.mkv", "audiotrack", 2));
    assert!(!converge_step(&mut fresh, &None, "a.mkv", "audiotrack", 2));
    assert!(fresh.is_empty());
}
