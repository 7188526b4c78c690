use hangar::install::{build_app_directories, display_name_from_filename, display_stem};
use hangar::text::{contains_substr, split_on, str_eq};

#[test]
fn app_directories_sit_under_home() {
    let info = build_app_directories("/home/pilot");
    assert_eq!(info.install, "/home/pilot/.hangar");
    assert_eq!(info.data, "/home/pilot/.hangar/data");
}

#[test]
fn display_name_title_cases_the_stem() {
    assert_eq!(display_name_from_filename("sample-hangar.json"), "Sample Hangar");
    assert_eq!(display_name_from_filename("multi-word-name.json"), "Multi Word Name");
}

#[test]
fn display_name_is_deterministic() {
    let first = display_name_from_filename("sample-hangar.json");
    let second = display_name_from_filename("sample-hangar.json");
    assert_eq!(first, second);
}

#[test]
fn test_path_loading() {
    let tmp_path = "/tmp/sample-hangar.json";
    let hangar_name: String = display_name_from_filename(tmp_path);
    assert_eq!(String::from("Sample Hangar"), hangar_name);
}

#[test]
fn display_stem_keeps_only_the_file_name() {
    assert_eq!(display_stem("/home/pilot/.hangar/data/dev-box.json"), "dev box");
    assert_eq!(display_stem("dev-box.json"), "dev box");
    assert_eq!(display_stem("no-suffix"), "no suffix");
    assert_eq!(display_stem("ends-in-slash/"), "");
    assert_eq!(display_stem(""), "");
}

#[test]
fn split_on_keeps_empty_pieces() {
    let pieces = split_on("a|b|c", '|');
    assert_eq!(pieces, vec!["a".to_string(), "b".to_string(), "c".to_string()]);
    assert_eq!(split_on("", '|'), vec![String::new()]);
    assert_eq!(split_on("plain", '|'), vec!["plain".to_string()]);
    assert_eq!(split_on("|", '|'), vec![String::new(), String::new()]);
    assert_eq!(split_on("a||b", '|'), vec!["a".to_string(), String::new(), "b".to_string()]);
}

#[test]
fn str_eq_compares_characters() {
    assert!(str_eq("stdout", "stdout"));
    assert!(!str_eq("stdout", "stderr"));
    assert!(!str_eq("a", "ab"));
    assert!(str_eq("", ""));
}

#[test]
fn contains_substr_is_literal_and_unanchored() {
    assert!(contains_substr("pip 21.1.1 from /usr/lib", "pip"));
    assert!(contains_substr("pip 21.1.1", "21.1"));
    assert!(!contains_substr("pip 21.1.1", "PIP"));
    assert!(contains_substr("anything", ""));
    assert!(contains_substr("", ""));
    assert!(!contains_substr("", "x"));
}
