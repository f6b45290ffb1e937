use ryser::lang_map::{tmdb_matches, to_iso_639_1};

#[test]
fn bibliographic_and_terminologic_tags_agree() {
    assert_eq!(to_iso_639_1("fre"), Some("fr"));
    assert_eq!(to_iso_639_1("fra"), Some("fr"));
    assert_eq!(to_iso_639_1("ger"), Some("de"));
    assert_eq!(to_iso_639_1("deu"), Some("de"));
    assert_eq!(to_iso_639_1("gem"), Some("de"));
    assert_eq!(to_iso_639_1("rum"), Some("ro"));
    assert_eq!(to_iso_639_1("phi"), Some("tl"));
    assert_eq!(to_iso_639_1("grc"), Some("grc"));
}

#[test]
fn tags_are_trimmed_and_case_folded() {
    assert_eq!(to_iso_639_1("  ENG "), Some("en"));
    assert_eq!(to_iso_639_1("Jpn"), Some("ja"));
    assert_eq!(to_iso_639_1("en"), Some("en"));
}

#[test]
fn non_language_tags_have_no_code() {
    assert_eq!(to_iso_639_1("und"), None);
    assert_eq!(to_iso_639_1("zxx"), None);
    assert_eq!(to_iso_639_1("mul"), None);
    assert_eq!(to_iso_639_1("mis"), None);
    assert_eq!(to_iso_639_1("klingon"), None);
    assert_eq!(to_iso_639_1(""), None);
}

#[test]
fn tmdb_cn_matches_chinese_codes() {
    assert!(tmdb_matches("cn", "zh"));
    assert!(tmdb_matches(" CN", "yue"));
    assert!(!tmdb_matches("cn", "en"));
    assert!(tmdb_matches("FR", "fr"));
    assert!(!tmdb_matches("fr", "de"));
}

#[test]
fn normalised_codes_normalise_to_themselves() {
    for tag in ["fre", " GER ", "zho", "rum", "phi", "grc", "en", "nob"] {
        let code = to_iso_639_1(tag).unwrap();
        assert_eq!(to_iso_639_1(code), Some(code));
    }
    assert_eq!(to_iso_639_1("und"), None);
}

#[test]
fn cantonese_tracks_match_tmdb_cn() {
    assert_eq!(to_iso_639_1("yue"), Some("zh"));
    assert!(tmdb_matches("cn", to_iso_639_1("yue").unwrap()));
}

#[test]
fn tags_normalise_as_their_trimmed_lower_form() {
    for tag in ["  FRE ", "Ger", "ZHO\t", "xx", " Und"] {
        let plain = tag.trim().to_ascii_lowercase();
        assert_eq!(to_iso_639_1(tag), to_iso_639_1(&plain));
    }
}
