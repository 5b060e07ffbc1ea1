use lazy_modman_cli::text::{chars_of, is_modpack_file, same_opt_string, text_contains};

#[test]
fn contains_finds_substring() {
    assert!(text_contains("sodium-extra", "extra"));
    assert!(text_contains("sodium", "sod"));
    assert!(text_contains("sodium", "sodium"));
    assert!(!text_contains("sodium", "iris"));
    assert!(!text_contains("sod", "sodium"));
}

#[test]
fn contains_empty_needle() {
    assert!(text_contains("anything", ""));
    assert!(text_contains("", ""));
    assert!(!text_contains("", "a"));
}

#[test]
fn contains_non_ascii() {
    assert!(text_contains("pâquerette", "âq"));
    assert!(!text_contains("pâquerette", "aq"));
}

#[test]
fn chars_of_keeps_order() {
    assert_eq!(chars_of("aé1"), vec!['a', 'é', '1']);
    assert_eq!(chars_of(""), Vec::<char>::new());
}

#[test]
fn modpack_file_extension() {
    assert!(is_modpack_file("pack.jsonc"));
    assert!(is_modpack_file("my.pack.jsonc"));
    assert!(is_modpack_file(".hidden.jsonc"));
    assert!(!is_modpack_file(".jsonc"));
    assert!(!is_modpack_file("pack.json"));
    assert!(!is_modpack_file("pack.jsonc.bak"));
    assert!(!is_modpack_file("jsonc"));
    assert!(!is_modpack_file(".."));
    assert!(!is_modpack_file("pack."));
}

#[test]
fn optional_string_equality() {
    assert!(same_opt_string(&None, &None));
    assert!(same_opt_string(&Some("a".to_string()), &Some("a".to_string())));
    assert!(!same_opt_string(&Some("a".to_string()), &None));
    assert!(!same_opt_string(&Some("a".to_string()), &Some("b".to_string())));
}
