use timetracker::codec::{load, save, LoadError};
use timetracker::store::{TimerEntry, TimerStore};

fn entry(name: &str, active: bool, total: u64, active_since: u64) -> TimerEntry {
    TimerEntry { name: name.to_string(), active, total, active_since }
}

fn assert_round_trips(store: &TimerStore) {
    let text = save(store);
    let back = load(&text).expect("saved text must load");
    assert_eq!(back.len(), store.len());
    for i in 0..store.entries.len() {
        assert_eq!(back.entries[i].name, store.entries[i].name);
        assert_eq!(back.entries[i].active, store.entries[i].active);
        assert_eq!(back.entries[i].total, store.entries[i].total);
        assert_eq!(back.entries[i].active_since, store.entries[i].active_since);
    }
}

#[test]
fn empty_store_saves_as_empty_array() {
    let store = TimerStore::new();
    assert_eq!(save(&store), "[]");
}

#[test]
fn empty_array_loads_as_empty_store() {
    let store = load("[]").expect("an empty array is a valid store");
    assert_eq!(store.len(), 0);
}

#[test]
fn one_entry_saves_with_every_field_named() {
    let store = TimerStore { entries: vec![entry("Work", false, 90, 1_600_000_000)] };
    assert_eq!(
        save(&store),
        "[{\"name\":\"Work\",\"active\":false,\"total\":90,\"active_since\":1600000000}]"
    );
}

#[test]
fn handwritten_entry_loads() {
    let text = "[{\"name\":\"A\",\"active\":true,\"total\":5,\"active_since\":7}]";
    let store = load(text).expect("well-formed text must load");
    assert_eq!(store.len(), 1);
    assert_eq!(store.entries[0].name, "A");
    assert!(store.entries[0].active);
    assert_eq!(store.entries[0].total, 5);
    assert_eq!(store.entries[0].active_since, 7);
}

#[test]
fn round_trip_single_entry() {
    assert_round_trips(&TimerStore { entries: vec![entry("Work", true, 12, 34)] });
}

#[test]
fn round_trip_several_entries() {
    assert_round_trips(&TimerStore {
        entries: vec![
            entry("Work", false, 90, 0),
            entry("", true, 0, 1_600_000_000),
            entry("Pause", false, u64::MAX, 0),
        ],
    });
}

#[test]
fn round_trip_non_ascii_names() {
    assert_round_trips(&TimerStore {
        entries: vec![entry("café", false, 1, 0), entry("日本語のタイマー", true, 2, 3)],
    });
}

#[test]
fn round_trip_names_needing_escapes() {
    assert_round_trips(&TimerStore {
        entries: vec![entry("say \"hi\"", false, 0, 0), entry("back\\slash", false, 0, 0)],
    });
}

#[test]
fn empty_text_is_malformed() {
    assert_eq!(load("").unwrap_err(), LoadError::Malformed);
}

#[test]
fn unclosed_array_is_malformed() {
    assert_eq!(load("[").unwrap_err(), LoadError::Malformed);
}

#[test]
fn prose_is_malformed() {
    assert_eq!(load("not a store").unwrap_err(), LoadError::Malformed);
}

#[test]
fn entry_missing_fields_is_malformed() {
    assert_eq!(load("[{}]").unwrap_err(), LoadError::Malformed);
}

#[test]
fn trailing_text_is_malformed() {
    assert_eq!(load("[] ").unwrap_err(), LoadError::Malformed);
}

#[test]
fn oversized_total_is_malformed() {
    let text = "[{\"name\":\"x\",\"active\":false,\"total\":18446744073709551616,\"active_since\":0}]";
    assert_eq!(load(text).unwrap_err(), LoadError::Malformed);
}

#[test]
fn unterminated_name_is_malformed() {
    assert_eq!(load("[{\"name\":\"oops").unwrap_err(), LoadError::Malformed);
}
