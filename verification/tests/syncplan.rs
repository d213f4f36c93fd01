use pollen::entry::{Entry, EntryArgument};
use pollen::history::OperationType;
use pollen::sync::{
    EntryOutcome, UndoOutcome, classify_undo, filter_entries, flatten_name, make_operation,
    managed_path, matches_selector, plan_transfer, plan_undo, record_entry, summarize_sync,
    summarize_undo,
};

fn entry(name: &str, path: &str) -> Entry {
    Entry::new(EntryArgument { name: name.to_string(), path: path.to_string() })
}

#[test]
fn flattening_collapses_separators() {
    assert_eq!(flatten_name("a/b\\c"), "a_b_c");
    assert_eq!(flatten_name("plain"), "plain");
    assert_eq!(flatten_name(""), "");
}

#[test]
fn managed_paths_live_under_the_files_directory() {
    assert_eq!(managed_path("/p/files", "nvim"), "/p/files/nvim");
    assert_eq!(managed_path("/p/files", ".config/fish"), "/p/files/.config_fish");
}

#[test]
fn a_gather_plan_moves_system_content_into_the_managed_directory() {
    let e = entry(".vimrc", "/home/u/.vimrc");
    let plan = plan_transfer(&e, OperationType::Gather, "/p/files", "/p/cache", false, 7);
    assert_eq!(plan.source, "/home/u/.vimrc");
    assert_eq!(plan.target, "/p/files/.vimrc");
    assert!(plan.backup.is_none());
    assert!(plan.run_before.is_none());
    assert!(plan.run_after.is_none());
}

#[test]
fn an_existing_target_is_backed_up_under_a_timestamped_name() {
    let e = entry(".config/fish", "/home/u/.config/fish");
    let plan = plan_transfer(&e, OperationType::Gather, "/p/files", "/p/cache", true, 1234);
    assert_eq!(plan.target, "/p/files/.config_fish");
    assert_eq!(plan.backup.as_deref(), Some("/p/cache/.config_fish_1234.backup"));
}

#[test]
fn a_scatter_plan_reverses_the_sides() {
    let e = entry(".vimrc", "/home/u/.vimrc");
    let plan = plan_transfer(&e, OperationType::Scatter, "/p/files", "/p/cache", false, 7);
    assert_eq!(plan.source, "/p/files/.vimrc");
    assert_eq!(plan.target, "/home/u/.vimrc");
}

#[test]
fn hooks_are_carried_into_the_plan() {
    let e = entry("bat", "/home/u/bat")
        .with_run_before("echo pre".to_string())
        .with_run_after("echo post".to_string());
    let plan = plan_transfer(&e, OperationType::Gather, "/f", "/c", false, 0);
    assert_eq!(plan.run_before.as_deref(), Some("echo pre"));
    assert_eq!(plan.run_after.as_deref(), Some("echo post"));
}

#[test]
fn records_always_name_the_system_and_managed_sides() {
    let e = entry(".vimrc", "/home/u/.vimrc");
    let rec = record_entry(&e, "/p/files", Some("/p/cache/b".to_string()));
    assert_eq!(rec.entry_name, ".vimrc");
    assert_eq!(rec.source_path, "/home/u/.vimrc");
    assert_eq!(rec.target_path, "/p/files/.vimrc");
    assert_eq!(rec.backup_path.as_deref(), Some("/p/cache/b"));
}

#[test]
fn undoing_a_gather_clears_the_managed_side() {
    let e = entry(".vimrc", "/home/u/.vimrc");
    let rec = record_entry(&e, "/p/files", None);
    let plan = plan_undo(&rec, OperationType::Gather);
    assert_eq!(plan.location, "/p/files/.vimrc");
    assert!(plan.backup.is_none());
}

#[test]
fn undoing_a_scatter_clears_the_system_side() {
    let e = entry(".vimrc", "/home/u/.vimrc");
    let rec = record_entry(&e, "/p/files", Some("/p/cache/b".to_string()));
    let plan = plan_undo(&rec, OperationType::Scatter);
    assert_eq!(plan.location, "/home/u/.vimrc");
    assert_eq!(plan.backup.as_deref(), Some("/p/cache/b"));
}

#[test]
fn undo_outcomes_follow_the_backup_state() {
    assert_eq!(classify_undo(true, true), UndoOutcome::Restored);
    assert_eq!(classify_undo(true, false), UndoOutcome::NoBackup);
    assert_eq!(classify_undo(false, true), UndoOutcome::Removed);
    assert_eq!(classify_undo(false, false), UndoOutcome::Removed);
}

#[test]
fn an_empty_run_is_never_recorded() {
    assert!(make_operation(OperationType::Gather, 1, vec![]).is_none());
    let e = entry("a", "/a");
    let rec = record_entry(&e, "/f", None);
    let op = make_operation(OperationType::Scatter, 9, vec![rec]).unwrap();
    assert!(matches!(op.operation_type, OperationType::Scatter));
    assert_eq!(op.timestamp, 9);
    assert_eq!(op.entries.len(), 1);
}

#[test]
fn selectors_pick_by_name_alias_or_display_name() {
    let e = entry("fish", "/f").with_alias("shell".to_string());
    assert!(matches_selector(&e, "fish"));
    assert!(matches_selector(&e, "shell"));
    assert!(!matches_selector(&e, "bat"));
}

#[test]
fn filtering_keeps_matches_in_order_and_ignores_unmatched_selectors() {
    let entries = vec![
        entry("fish", "/1").with_alias("shell".to_string()),
        entry("bat", "/2"),
        entry("nvim", "/3"),
    ];
    let picked = filter_entries(entries, &vec!["nvim".to_string(), "shell".to_string(), "nope".to_string()]);
    let names: Vec<&str> = picked.iter().map(|e| e.name.as_str()).collect();
    assert_eq!(names, vec!["fish", "nvim"]);
}

#[test]
fn an_empty_selector_list_keeps_everything() {
    let entries = vec![entry("a", "/1"), entry("b", "/2")];
    let picked = filter_entries(entries, &vec![]);
    assert_eq!(picked.len(), 2);
}

#[test]
fn sync_reports_count_each_outcome() {
    let outcomes = vec![
        EntryOutcome::Transferred { backed_up: true },
        EntryOutcome::Transferred { backed_up: false },
        EntryOutcome::Failed,
        EntryOutcome::Transferred { backed_up: true },
    ];
    let r = summarize_sync(&outcomes);
    assert_eq!(r.transferred, 3);
    assert_eq!(r.backed_up, 2);
    assert_eq!(r.failed, 1);
}

#[test]
fn undo_reports_count_each_outcome() {
    let outcomes = vec![
        Some(UndoOutcome::Restored),
        Some(UndoOutcome::Removed),
        None,
        Some(UndoOutcome::NoBackup),
        Some(UndoOutcome::Removed),
    ];
    let r = summarize_undo(&outcomes);
    assert_eq!(r.restored, 1);
    assert_eq!(r.removed, 2);
    assert_eq!(r.no_backup, 1);
    assert_eq!(r.failed, 1);
}

#[test]
fn gather_then_undo_scenario_restores_the_managed_directory() {
    // Two entries: fish's managed copy already exists, bat's does not.
    let fish = entry("fish", "/home/u/fish");
    let bat = entry("bat", "/home/u/bat");
    let fish_plan = plan_transfer(&fish, OperationType::Gather, "/p/files", "/p/cache", true, 50);
    let bat_plan = plan_transfer(&bat, OperationType::Gather, "/p/files", "/p/cache", false, 50);
    assert_eq!(fish_plan.backup.as_deref(), Some("/p/cache/fish_50.backup"));
    assert!(bat_plan.backup.is_none());

    let recs = vec![
        record_entry(&fish, "/p/files", fish_plan.backup.clone()),
        record_entry(&bat, "/p/files", bat_plan.backup.clone()),
    ];
    let op = make_operation(OperationType::Gather, 50, recs).unwrap();

    // Undo: fish's managed copy is restored from its backup, bat's is
    // simply removed.
    let fish_undo = plan_undo(&op.entries[0], OperationType::Gather);
    let bat_undo = plan_undo(&op.entries[1], OperationType::Gather);
    assert_eq!(fish_undo.location, "/p/files/fish");
    assert_eq!(fish_undo.backup.as_deref(), Some("/p/cache/fish_50.backup"));
    assert_eq!(classify_undo(fish_undo.backup.is_some(), true), UndoOutcome::Restored);
    assert_eq!(bat_undo.location, "/p/files/bat");
    assert!(bat_undo.backup.is_none());
    assert_eq!(classify_undo(bat_undo.backup.is_some(), false), UndoOutcome::Removed);
}

#[test]
fn gather_then_scatter_round_trip_uses_the_same_locations() {
    let e = entry(".config/fish", "/home/u/.config/fish");
    let gather = plan_transfer(&e, OperationType::Gather, "/p/files", "/p/cache", false, 1);
    let scatter = plan_transfer(&e, OperationType::Scatter, "/p/files", "/p/cache", false, 2);
    assert_eq!(gather.target, scatter.source);
    assert_eq!(gather.source, scatter.target);
}
