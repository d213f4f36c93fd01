use pollen::history::{Journal, Operation, OperationEntry, OperationType};

fn op(ts: u64) -> Operation {
    Operation {
        operation_type: OperationType::Gather,
        timestamp: ts,
        entries: vec![OperationEntry {
            entry_name: format!("e{}", ts),
            source_path: "/s".to_string(),
            target_path: "/t".to_string(),
            backup_path: None,
        }],
    }
}

#[test]
fn appending_past_the_cap_evicts_exactly_the_oldest() {
    let mut j = Journal::new(3);
    j.append(op(1));
    j.append(op(2));
    j.append(op(3));
    assert_eq!(j.len(), 3);
    j.append(op(4));
    assert_eq!(j.len(), 3);
    let stamps: Vec<u64> = j.records().iter().map(|o| o.timestamp).collect();
    assert_eq!(stamps, vec![2, 3, 4]);
}

#[test]
fn appending_under_the_cap_keeps_everything_in_order() {
    let mut j = Journal::new(10);
    j.append(op(1));
    j.append(op(2));
    let stamps: Vec<u64> = j.records().iter().map(|o| o.timestamp).collect();
    assert_eq!(stamps, vec![1, 2]);
}

#[test]
fn a_zero_cap_journal_keeps_nothing() {
    let mut j = Journal::new(0);
    j.append(op(1));
    assert_eq!(j.len(), 0);
}

#[test]
fn peek_and_pop_take_the_most_recent_record() {
    let mut j = Journal::new(5);
    assert!(j.peek_last().is_none());
    assert!(j.pop_last().is_none());
    j.append(op(1));
    j.append(op(2));
    assert_eq!(j.peek_last().unwrap().timestamp, 2);
    let popped = j.pop_last().unwrap();
    assert_eq!(popped.timestamp, 2);
    assert_eq!(popped.entries[0].entry_name, "e2");
    assert_eq!(j.len(), 1);
    assert_eq!(j.peek_last().unwrap().timestamp, 1);
}

#[test]
fn loaded_records_are_trimmed_to_the_cap() {
    let j = Journal::from_records(vec![op(1), op(2), op(3), op(4)], 2);
    let stamps: Vec<u64> = j.records().iter().map(|o| o.timestamp).collect();
    assert_eq!(stamps, vec![3, 4]);
    let j2 = Journal::from_records(vec![op(1)], 2);
    assert_eq!(j2.len(), 1);
}
