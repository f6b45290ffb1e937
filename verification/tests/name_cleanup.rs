use ryser::name_cleanup::{is_similar, levenshtein_distance, make_alphanumeric_with_spaces, normalize_spaces, remove_square_bracket_text};

#[test]
fn bracketed_release_tags_are_removed() {
    let out = remove_square_bracket_text(
        "[Commie] Neon Genesis Evangelion - The End of Evangelion [BD 1080p AAC] [9EF369E6]",
    );
    assert_eq!(out, "Neon Genesis Evangelion - The End of Evangelion");
}

#[test]
fn unclosed_bracket_runs_to_the_end() {
    assert_eq!(remove_square_bracket_text("Title [unclosed tag"), "Title");
    assert_eq!(remove_square_bracket_text("a]b"), "ab");
    assert_eq!(remove_square_bracket_text(""), "");
}

#[test]
fn punctuation_becomes_single_spaces() {
    let out = make_alphanumeric_with_spaces(
        "I.Do.Not.Care.If.We.Go.Down.In.History.As.Barbarians.2018.1080p.BluRay.x264.AAC5.1-[YTS.MX]",
    );
    assert_eq!(out, "I Do Not Care If We Go Down In History As Barbarians 2018 1080p BluRay x264 AAC5 1 YTS MX");
}

#[test]
fn punctuation_at_the_ends_leaves_no_space() {
    assert_eq!(make_alphanumeric_with_spaces("..Caché!!"), "Caché");
    assert_eq!(make_alphanumeric_with_spaces("--"), "");
}

#[test]
fn white_space_is_collapsed_and_trimmed() {
    assert_eq!(normalize_spaces("  Show \t  Name  "), "Show Name");
    assert_eq!(normalize_spaces("   "), "");
    assert_eq!(normalize_spaces("a"), "a");
}

#[test]
fn edit_distance_of_ascii_text() {
    assert_eq!(levenshtein_distance("kitten", "sitting"), 3);
    assert_eq!(levenshtein_distance("flaw", "lawn"), 2);
    assert_eq!(levenshtein_distance("same", "same"), 0);
}

#[test]
fn empty_text_gives_the_other_length_in_characters() {
    assert_eq!(levenshtein_distance("", "abc"), 3);
    assert_eq!(levenshtein_distance("abc", ""), 3);
    assert_eq!(levenshtein_distance("", "é"), 1);
}

#[test]
fn non_ascii_text_counts_characters() {
    assert_eq!(levenshtein_distance("é", "e"), 1);
    assert_eq!(levenshtein_distance("über", "uber"), 1);
    assert_eq!(levenshtein_distance("abc", "é"), 3);
}

#[test]
fn similarity_threshold() {
    assert!(is_similar("Show Name", "Show Name"));
    assert!(is_similar("abcdefghij", "abcdefghix"));
    assert!(!is_similar("abcde", "abcdf"));
    assert!(!is_similar("", "a"));
    assert!(is_similar("", ""));
    assert!(!is_similar("Ähnlich", "Völlig anders"));
    assert!(is_similar("Pokémon Reisen", "Pokemon Reisen"));
}

#[test]
fn removing_bracket_text_twice_changes_nothing() {
    for name in ["[Commie] Neon Genesis Evangelion [BD 1080p]", "[a[b]c]d", " plain ", "open [ end", "]x["] {
        let once = remove_square_bracket_text(name);
        assert!(!once.contains('[') && !once.contains(']'));
        assert_eq!(once, once.trim());
        assert_eq!(remove_square_bracket_text(&once), once);
    }
    assert_eq!(remove_square_bracket_text("[a[b]c]d"), "cd");
}
