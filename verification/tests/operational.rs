use itir_dioxus::workbench::operational::{
    first_entry_of_each_event, linked_target_count, operational_timeline_order, sorted_entry_order, OperationalEntryKey,
};

fn key(date: &str, start: &str, event: &str, targets: &[&str]) -> OperationalEntryKey {
    OperationalEntryKey {
        state_date: date.into(),
        start_time_ref: start.into(),
        operational_event_ref: event.into(),
        target_refs: targets.iter().map(|t| t.to_string()).collect(),
    }
}

fn loaded() -> Vec<OperationalEntryKey> {
    vec![
        key("2024-01-02", "09:00", "op:b", &["target:1"]),
        key("2024-01-01", "10:00", "op:a", &["target:2", "target:1"]),
        key("2024-01-01", "10:00", "op:a", &[]),
        key("2024-01-01", "08:00", "op:c", &["target:3"]),
        key("2024-01-03", "07:00", "op:c", &[]),
    ]
}

#[test]
fn operational_entries_sort_by_date_start_and_event_keeping_load_order() {
    assert_eq!(sorted_entry_order(&loaded()), vec![3, 1, 2, 0, 4]);
}

#[test]
fn only_neighbouring_repeats_of_an_event_are_dropped() {
    let keys = loaded();
    let order = sorted_entry_order(&keys);
    assert_eq!(first_entry_of_each_event(&keys, &order), vec![3, 1, 0, 4]);
}

#[test]
fn operational_timeline_counts_distinct_linked_targets() {
    let keys = loaded();
    assert_eq!(linked_target_count(&keys), 3);
    let timeline = operational_timeline_order(&keys);
    assert_eq!(timeline.entries, vec![3, 1, 0, 4]);
    assert_eq!(timeline.linked_target_count, 3);
    let empty = operational_timeline_order(&vec![]);
    assert!(empty.entries.is_empty());
    assert_eq!(empty.linked_target_count, 0);
}
