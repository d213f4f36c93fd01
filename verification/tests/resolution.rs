use pollen::config::{ConfigParser, verify_order};
use pollen::entry::{Entry, EntryArgument};
use pollen::error::PollenError;

fn parser() -> ConfigParser {
    ConfigParser::new(Some("/home/u".to_string())).unwrap()
}

fn entry(name: &str) -> Entry {
    Entry::new(EntryArgument { name: name.to_string(), path: format!("/home/u/{}", name) })
}

#[test]
fn dependencies_precede_their_dependents() {
    let entries = vec![
        entry("c").with_dependencies(vec!["b".to_string()]),
        entry("b").add_dependency("a".to_string()),
        entry("a"),
    ];
    let sorted = parser().topological_sort(entries).unwrap();
    let names: Vec<&str> = sorted.iter().map(|e| e.name.as_str()).collect();
    assert_eq!(names, vec!["a", "b", "c"]);
    assert!(verify_order(&sorted));
}

#[test]
fn ties_break_by_input_order() {
    let entries = vec![entry("z"), entry("m"), entry("a")];
    let sorted = parser().topological_sort(entries).unwrap();
    let names: Vec<&str> = sorted.iter().map(|e| e.name.as_str()).collect();
    assert_eq!(names, vec!["z", "m", "a"]);
}

#[test]
fn dependencies_resolve_through_aliases() {
    let entries = vec![
        entry("bat").add_dependency("shell".to_string()),
        entry("fish").with_alias("shell".to_string()),
    ];
    let sorted = parser().topological_sort(entries).unwrap();
    let names: Vec<&str> = sorted.iter().map(|e| e.name.as_str()).collect();
    assert_eq!(names, vec!["fish", "bat"]);
}

#[test]
fn an_alias_equal_to_a_name_is_a_conflict() {
    let entries = vec![entry("fish"), entry("bat").with_alias("fish".to_string())];
    let err = parser().topological_sort(entries).unwrap_err();
    match err {
        PollenError::AliasConflict(a) => assert_eq!(a, "fish"),
        other => panic!("unexpected error: {}", other.message()),
    }
}

#[test]
fn a_shared_alias_is_a_duplicate() {
    let entries = vec![
        entry("fish").with_alias("x".to_string()),
        entry("bat").with_alias("x".to_string()),
    ];
    let err = parser().topological_sort(entries).unwrap_err();
    match err {
        PollenError::DuplicateAlias(a) => assert_eq!(a, "x"),
        other => panic!("unexpected error: {}", other.message()),
    }
}

#[test]
fn validate_aliases_accepts_distinct_aliases() {
    let entries = vec![
        entry("fish").with_alias("f".to_string()),
        entry("bat").with_alias("b".to_string()),
    ];
    assert!(parser().validate_aliases(&entries).is_ok());
}

#[test]
fn an_unknown_dependency_is_reported_with_its_token() {
    let entries = vec![entry("bat").add_dependency("nothing".to_string())];
    let err = parser().topological_sort(entries).unwrap_err();
    match err {
        PollenError::MissingDependency { entry, token } => {
            assert_eq!(entry, "bat");
            assert_eq!(token, "nothing");
        },
        other => panic!("unexpected error: {}", other.message()),
    }
}

#[test]
fn a_mutual_dependency_fails_naming_both() {
    let entries = vec![
        entry("a").add_dependency("b".to_string()),
        entry("b").add_dependency("a".to_string()),
    ];
    let err = parser().topological_sort(entries).unwrap_err();
    match err {
        PollenError::CircularDependency(names) => {
            assert!(names.contains(&"a".to_string()));
            assert!(names.contains(&"b".to_string()));
            assert_eq!(names.len(), 2);
        },
        other => panic!("unexpected error: {}", other.message()),
    }
}

#[test]
fn entries_reachable_only_through_a_cycle_are_named_too() {
    let entries = vec![
        entry("a").add_dependency("b".to_string()),
        entry("b").add_dependency("a".to_string()),
        entry("c").add_dependency("a".to_string()),
        entry("free"),
    ];
    let err = parser().topological_sort(entries).unwrap_err();
    match err {
        PollenError::CircularDependency(names) => {
            assert_eq!(names, vec!["a".to_string(), "b".to_string(), "c".to_string()]);
        },
        other => panic!("unexpected error: {}", other.message()),
    }
}

#[test]
fn a_self_dependency_is_a_cycle() {
    let entries = vec![entry("a").add_dependency("a".to_string())];
    let err = parser().topological_sort(entries).unwrap_err();
    assert!(matches!(err, PollenError::CircularDependency(_)));
}

#[test]
fn find_entry_by_name_prefers_the_first_match_and_sees_aliases() {
    let entries = vec![entry("fish").with_alias("shell".to_string()), entry("bat")];
    let p = parser();
    assert_eq!(p.find_entry_by_name(&entries, "shell").unwrap().name, "fish");
    assert_eq!(p.find_entry_by_name(&entries, "bat").unwrap().name, "bat");
    assert!(p.find_entry_by_name(&entries, "none").is_none());
    assert_eq!(p.resolve_dependency_name(&entries, "shell").unwrap(), "fish");
    assert!(p.resolve_dependency_name(&entries, "none").is_none());
}

#[test]
fn list_aliases_pairs_each_alias_with_its_path() {
    let entries = vec![
        entry("fish").with_alias("shell".to_string()),
        entry("bat"),
        entry("nvim").with_alias("editor".to_string()),
    ];
    let aliases = parser().list_aliases(&entries);
    assert_eq!(
        aliases,
        vec![
            ("shell".to_string(), "/home/u/fish".to_string()),
            ("editor".to_string(), "/home/u/nvim".to_string()),
        ]
    );
}

#[test]
fn verify_order_detects_a_violated_ordering() {
    let bad = vec![entry("bat").add_dependency("fish".to_string()), entry("fish")];
    assert!(!verify_order(&bad));
    let good = vec![entry("fish"), entry("bat").add_dependency("fish".to_string())];
    assert!(verify_order(&good));
}

#[test]
fn entry_accessors_report_alias_and_matches() {
    let e = entry("fish").with_alias("shell".to_string());
    assert_eq!(e.get_display_name(), "shell");
    assert!(e.matches_name("fish"));
    assert!(e.matches_name("shell"));
    assert!(!e.matches_name("bat"));
    let plain = entry("bat");
    assert_eq!(plain.get_display_name(), "bat");
}
