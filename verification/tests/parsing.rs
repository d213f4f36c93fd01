use pollen::config::{ConfigParser, verify_order};
use pollen::error::PollenError;
use pollen::tree::ConfigNode;

fn parser(home: &str) -> ConfigParser {
    ConfigParser::new(Some(home.to_string())).unwrap()
}

fn leaf(s: &str) -> ConfigNode {
    ConfigNode::Leaf(s.to_string())
}

fn pair(k: &str, v: ConfigNode) -> (String, ConfigNode) {
    (k.to_string(), v)
}

fn option_item(k: &str, v: ConfigNode) -> ConfigNode {
    ConfigNode::Mapping(vec![pair(k, v)])
}

#[test]
fn plain_names_become_entries_under_their_directory() {
    let root = ConfigNode::Mapping(vec![pair(
        ".config",
        ConfigNode::Sequence(vec![leaf("fish"), leaf("nvim")]),
    )]);
    let entries = parser("/home/u").parse_content(&root).unwrap();
    assert_eq!(entries.len(), 2);
    assert_eq!(entries[0].name, "fish");
    assert_eq!(entries[0].path, "/home/u/.config/fish");
    assert_eq!(entries[1].name, "nvim");
    assert_eq!(entries[1].path, "/home/u/.config/nvim");
}

#[test]
fn home_tokens_anchor_at_the_base_directory() {
    let root = ConfigNode::Mapping(vec![
        pair("HOME", ConfigNode::Sequence(vec![leaf(".bashrc")])),
        pair("~", ConfigNode::Sequence(vec![leaf(".vimrc")])),
    ]);
    let entries = parser("/home/u").parse_content(&root).unwrap();
    assert_eq!(entries[0].path, "/home/u/.bashrc");
    assert_eq!(entries[1].path, "/home/u/.vimrc");
}

#[test]
fn a_string_value_under_a_mapping_ignores_its_key() {
    let root = ConfigNode::Mapping(vec![pair("whatever", leaf(".profile"))]);
    let entries = parser("/home/u").parse_content(&root).unwrap();
    assert_eq!(entries.len(), 1);
    assert_eq!(entries[0].name, ".profile");
    assert_eq!(entries[0].path, "/home/u/.profile");
}

#[test]
fn endpoint_options_are_applied() {
    let opts = ConfigNode::Sequence(vec![
        option_item("run_before", leaf("echo before")),
        option_item("run_after", leaf("echo after")),
        option_item("alias_as", leaf("neovim")),
        option_item("depends_on", leaf("fish")),
    ]);
    let root = ConfigNode::Mapping(vec![pair(
        ".config",
        ConfigNode::Sequence(vec![
            leaf("fish"),
            ConfigNode::Mapping(vec![pair("nvim", opts)]),
        ]),
    )]);
    let entries = parser("/home/u").parse_content(&root).unwrap();
    let nvim = entries.iter().find(|e| e.name == "nvim").unwrap();
    assert_eq!(nvim.path, "/home/u/.config/nvim");
    assert_eq!(nvim.run_before.as_deref(), Some("echo before"));
    assert_eq!(nvim.run_after.as_deref(), Some("echo after"));
    assert_eq!(nvim.alias_as.as_deref(), Some("neovim"));
    assert_eq!(nvim.depends_on, vec!["fish".to_string()]);
}

#[test]
fn depends_on_accepts_a_list_of_names() {
    let opts = ConfigNode::Sequence(vec![option_item(
        "depends_on",
        ConfigNode::Sequence(vec![leaf("fish"), leaf("git")]),
    )]);
    let root = ConfigNode::Mapping(vec![pair(
        ".config",
        ConfigNode::Sequence(vec![
            leaf("fish"),
            leaf("git"),
            ConfigNode::Mapping(vec![pair("bat", opts)]),
        ]),
    )]);
    let entries = parser("/home/u").parse_content(&root).unwrap();
    let bat = entries.iter().find(|e| e.name == "bat").unwrap();
    assert_eq!(bat.depends_on, vec!["fish".to_string(), "git".to_string()]);
}

#[test]
fn an_unknown_option_key_makes_an_intermediate_level() {
    // A single-key mapping whose sequence holds a non-option mapping is a
    // subdirectory, not an endpoint.
    let root = ConfigNode::Mapping(vec![pair(
        ".config",
        ConfigNode::Sequence(vec![ConfigNode::Mapping(vec![pair(
            "nvim",
            ConfigNode::Sequence(vec![leaf("init.lua")]),
        )])]),
    )]);
    let entries = parser("/home/u").parse_content(&root).unwrap();
    assert_eq!(entries.len(), 1);
    assert_eq!(entries[0].name, "init.lua");
    assert_eq!(entries[0].path, "/home/u/.config/nvim/init.lua");
}

#[test]
fn a_non_mapping_root_is_rejected() {
    let err = parser("/h").parse_content(&leaf("x")).unwrap_err();
    assert!(matches!(err, PollenError::InvalidMapping(_)));
}

#[test]
fn a_mapping_value_directly_under_a_mapping_is_rejected() {
    let root = ConfigNode::Mapping(vec![pair(
        "top",
        ConfigNode::Mapping(vec![pair("inner", leaf("x"))]),
    )]);
    let err = parser("/h").parse_content(&root).unwrap_err();
    match err {
        PollenError::InvalidMapping(k) => assert_eq!(k, "top"),
        other => panic!("unexpected error: {:?}", other.message()),
    }
}

#[test]
fn a_sequence_inside_a_sequence_is_rejected() {
    let root = ConfigNode::Mapping(vec![pair(
        "top",
        ConfigNode::Sequence(vec![ConfigNode::Sequence(vec![leaf("x")])]),
    )]);
    let err = parser("/h").parse_content(&root).unwrap_err();
    assert!(matches!(err, PollenError::InvalidMapping(_)));
}

#[test]
fn a_non_string_dependency_is_rejected() {
    let opts = ConfigNode::Sequence(vec![option_item(
        "depends_on",
        ConfigNode::Sequence(vec![ConfigNode::Sequence(vec![])]),
    )]);
    let root = ConfigNode::Mapping(vec![pair(
        ".config",
        ConfigNode::Sequence(vec![ConfigNode::Mapping(vec![pair("bat", opts)])]),
    )]);
    let err = parser("/h").parse_content(&root).unwrap_err();
    match err {
        PollenError::InvalidEndpoint(k) => assert_eq!(k, "depends_on"),
        other => panic!("unexpected error: {:?}", other.message()),
    }
}

#[test]
fn missing_home_directory_fails_construction() {
    let err = ConfigParser::new(None).unwrap_err();
    assert!(matches!(err, PollenError::HomeDirectoryNotSet));
}

#[test]
fn parsed_order_respects_dependencies_and_is_checkable() {
    let opts = ConfigNode::Sequence(vec![option_item("depends_on", leaf("fish"))]);
    let root = ConfigNode::Mapping(vec![pair(
        ".config",
        ConfigNode::Sequence(vec![
            ConfigNode::Mapping(vec![pair("bat", opts)]),
            leaf("fish"),
        ]),
    )]);
    let entries = parser("/home/u").parse_content(&root).unwrap();
    assert_eq!(entries[0].name, "fish");
    assert_eq!(entries[1].name, "bat");
    assert!(verify_order(&entries));
}
