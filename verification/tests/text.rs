use now_playing_flagger::text::{collapse_whitespace_chars, names_match, normalize_artist_name};

#[test]
fn strips_diacritics_and_case() {
    assert_eq!(normalize_artist_name("Beyoncé"), "beyonce");
    assert_eq!(normalize_artist_name("  Sigur   Rós  "), "sigur ros");
}

#[test]
fn matches_ignoring_case_and_accents() {
    assert!(names_match("Beyoncé", "beyonce"));
    assert!(!names_match("Beyonce", "Beyond"));
}

#[test]
fn collapses_unicode_whitespace_and_compatibility_forms() {
    assert_eq!(normalize_artist_name("\u{3000}Ｍｏｔｏｒ\t\n Head\u{00A0}"), "motor head");
    assert_eq!(normalize_artist_name(""), "");
    assert_eq!(normalize_artist_name(" \t "), "");
}

#[test]
fn collapsing_whitespace_twice_changes_nothing() {
    let raw: Vec<char> = "\u{2003} Sigur \u{0085}\u{2028}  Rós\u{205F}".chars().collect();
    let once = collapse_whitespace_chars(&raw);
    assert_eq!(once.iter().collect::<String>(), "Sigur Rós");
    assert_eq!(collapse_whitespace_chars(&once), once);
}

#[test]
fn normalizing_a_normalized_name_changes_nothing() {
    for name in ["  Sigur   Rós  ", "Beyoncé", "\u{3000}Ｍｏｔｏｒ\t\n Head\u{00A0}"] {
        let once = normalize_artist_name(name);
        assert_eq!(normalize_artist_name(&once), once);
    }
}
