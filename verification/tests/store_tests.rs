use timetracker::store::{StoreError, TimerEntry, TimerStore};

#[test]
fn new_store_is_empty() {
    let store = TimerStore::new();
    assert_eq!(store.len(), 0);
}

#[test]
fn add_appends_inactive_entry_with_zero_total() {
    let mut store = TimerStore::new();
    store.add("Work".to_string());
    assert_eq!(store.len(), 1);
    assert_eq!(store.entries[0].name, "Work");
    assert!(!store.entries[0].active);
    assert_eq!(store.entries[0].total, 0);
}

#[test]
fn add_allows_empty_and_duplicate_names() {
    let mut store = TimerStore::new();
    store.add(String::new());
    store.add("same".to_string());
    store.add("same".to_string());
    assert_eq!(store.len(), 3);
    assert_eq!(store.entries[0].name, "");
    assert_eq!(store.entries[1].name, store.entries[2].name);
}

#[test]
fn work_session_accumulates_ninety_seconds() {
    let mut store = TimerStore::new();
    store.add("Work".to_string());
    let t0: u64 = 1_600_000_000;
    assert_eq!(store.toggle(0, t0), Ok(()));
    assert!(store.entries[0].active);
    assert_eq!(store.entries[0].active_since, t0);
    assert_eq!(store.toggle(0, t0 + 90), Ok(()));
    assert!(!store.entries[0].active);
    assert_eq!(store.entries[0].total, 90);
    assert_eq!(store.entries[0].name, "Work");
}

#[test]
fn toggle_out_of_range_is_an_error() {
    let mut store = TimerStore::new();
    store.add("a".to_string());
    assert_eq!(store.toggle(1, 10), Err(StoreError::IndexOutOfRange));
    assert_eq!(store.len(), 1);
    assert!(!store.entries[0].active);
}

#[test]
fn toggle_keeps_earlier_total() {
    let mut store = TimerStore::new();
    store.add("a".to_string());
    assert_eq!(store.toggle(0, 100), Ok(()));
    assert_eq!(store.toggle(0, 130), Ok(()));
    assert_eq!(store.toggle(0, 200), Ok(()));
    assert_eq!(store.toggle(0, 212), Ok(()));
    assert_eq!(store.entries[0].total, 42);
}

#[test]
fn remove_shifts_later_entries_down() {
    let mut store = TimerStore::new();
    store.add("first".to_string());
    store.add("second".to_string());
    store.add("third".to_string());
    assert_eq!(store.remove(1), Ok(()));
    assert_eq!(store.len(), 2);
    assert_eq!(store.entries[0].name, "first");
    assert_eq!(store.entries[1].name, "third");
}

#[test]
fn remove_only_entry_leaves_empty_store() {
    let mut store = TimerStore::new();
    store.add("only".to_string());
    assert_eq!(store.remove(0), Ok(()));
    assert_eq!(store.len(), 0);
}

#[test]
fn remove_out_of_range_is_an_error() {
    let mut store = TimerStore::new();
    assert_eq!(store.remove(0), Err(StoreError::IndexOutOfRange));
}

#[test]
fn elapsed_inactive_ignores_now() {
    let store = TimerStore {
        entries: vec![TimerEntry {
            name: "idle".to_string(),
            active: false,
            total: 77,
            active_since: 5,
        }],
    };
    assert_eq!(store.elapsed(0, 0), 77);
    assert_eq!(store.elapsed(0, 1_000_000), 77);
}

#[test]
fn elapsed_active_adds_running_interval() {
    let store = TimerStore {
        entries: vec![TimerEntry {
            name: "busy".to_string(),
            active: true,
            total: 10,
            active_since: 1000,
        }],
    };
    assert_eq!(store.elapsed(0, 1000), 10);
    assert_eq!(store.elapsed(0, 1060), 70);
    assert!(store.elapsed(0, 1060) <= store.elapsed(0, 1061));
}
