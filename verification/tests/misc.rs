use pollen::cwd::Cwd;
use pollen::diff::diff;
use pollen::dirs::{PollenConfig, PollenDirs};
use pollen::error::PollenError;
use pollen::paths::{is_absolute, path_join};
use pollen::text::dec_string;

#[test]
fn joining_paths_inserts_exactly_one_separator() {
    assert_eq!(path_join("/a/b", "c"), "/a/b/c");
    assert_eq!(path_join("/a/b/", "c"), "/a/b/c");
    assert_eq!(path_join("", "c"), "c");
    assert_eq!(path_join("/a", "/abs"), "/abs");
}

#[test]
fn absolute_paths_start_with_a_separator() {
    assert!(is_absolute("/x"));
    assert!(!is_absolute("x"));
    assert!(!is_absolute(""));
}

#[test]
fn numbers_render_in_decimal() {
    assert_eq!(dec_string(0), "0");
    assert_eq!(dec_string(7), "7");
    assert_eq!(dec_string(1234), "1234");
    assert_eq!(dec_string(18446744073709551615), "18446744073709551615");
}

#[test]
fn the_working_directory_joins_paths() {
    let cwd = Cwd::new("/work".to_string());
    assert_eq!(cwd.join("track.yaml"), "/work/track.yaml");
}

#[test]
fn default_settings_match_the_documented_values() {
    let c = PollenConfig::default();
    assert_eq!(c.default_track_file.as_deref(), Some("track.yaml"));
    assert_eq!(c.verbose, Some(false));
    assert!(c.home_override.is_none());
    assert_eq!(c.cache_expiration, Some(86400));
    assert_eq!(c.max_cache_entries, Some(100));
    assert_eq!(c.auto_commit, Some(false));
    assert_eq!(c.auto_commit_message.as_deref(), Some("Pollen auto-sync"));
}

#[test]
fn directories_lay_out_under_the_base() {
    let d = PollenDirs::new(None, Some("/home/u".to_string())).unwrap();
    assert_eq!(d.config_dir, "/home/u/.config/pollen");
    assert_eq!(d.cache_dir, "/home/u/.config/pollen/cache");
    assert_eq!(d.files_dir, "/home/u/.config/pollen/files");
    assert_eq!(d.track_file, "/home/u/.config/pollen/track.yaml");
    assert_eq!(d.pollen_config_file, "/home/u/.config/pollen/pollen.yaml");
}

#[test]
fn an_explicit_base_directory_wins() {
    let d = PollenDirs::new(Some("/custom".to_string()), Some("/home/u".to_string())).unwrap();
    assert_eq!(d.config_dir, "/custom");
    assert_eq!(d.cache_dir, "/custom/cache");
}

#[test]
fn no_base_and_no_home_fails() {
    let err = PollenDirs::new(None, None).unwrap_err();
    assert!(matches!(err, PollenError::HomeDirectoryNotSet));
}

#[test]
fn the_track_file_honours_the_settings() {
    let d = PollenDirs::new(Some("/p".to_string()), None).unwrap();
    let mut c = PollenConfig::default();
    assert_eq!(d.get_track_file_path(&c), "/p/track.yaml");
    c.default_track_file = Some("/abs/track.yaml".to_string());
    assert_eq!(d.get_track_file_path(&c), "/abs/track.yaml");
    c.default_track_file = None;
    assert_eq!(d.get_track_file_path(&c), "/p/track.yaml");
}

#[test]
fn cache_and_files_paths_are_derived() {
    let d = PollenDirs::new(Some("/p".to_string()), None).unwrap();
    assert_eq!(d.get_cache_file_path("k"), "/p/cache/k.cache");
    assert_eq!(d.get_files_path("f"), "/p/files/f");
}

#[test]
fn error_messages_name_the_offender() {
    assert_eq!(
        PollenError::InvalidOption("frobnicate".to_string()).message(),
        "Unknown option: frobnicate"
    );
    assert_eq!(
        PollenError::MissingDependency { entry: "bat".to_string(), token: "x".to_string() }
            .message(),
        "Entry 'bat' depends on 'x' which does not exist"
    );
    assert_eq!(
        PollenError::CircularDependency(vec!["a".to_string(), "b".to_string()]).message(),
        "Circular dependency detected involving entries: a, b"
    );
    assert_eq!(
        PollenError::HomeDirectoryNotSet.message(),
        "HOME environment variable is not set"
    );
}

#[test]
fn diffs_count_added_and_removed_lines() {
    let r = diff("a\nb\n", "a\nc\nd\n");
    assert_eq!(r.plus_value(), 2);
    assert_eq!(r.plus(), "+2");
    assert_eq!(r.minus(), "-1");
}

#[test]
fn equal_texts_diff_to_nothing() {
    let r = diff("same\ntext\n", "same\ntext\n");
    assert_eq!(r.plus_value(), 0);
    assert_eq!(r.minus(), "-0");
}
