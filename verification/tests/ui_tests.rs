use timetracker::store::{StoreError, TimerEntry, TimerStore};
use timetracker::ui::{apply_intent, build_frame, exit_requested, InputEvent, UiIntent};

fn entry(name: &str, active: bool, total: u64, active_since: u64) -> TimerEntry {
    TimerEntry { name: name.to_string(), active, total, active_since }
}

#[test]
fn frame_shows_title_rows_and_pending_text() {
    let store = TimerStore {
        entries: vec![entry("Work", false, 3661, 0), entry("Play", true, 0, 1000)],
    };
    let pending = "Enter name".to_string();
    let frame = build_frame(&store, 1061, &pending);
    assert_eq!(frame.title, "Time tracker");
    assert_eq!(frame.pending_name, "Enter name");
    assert_eq!(frame.rows.len(), 2);
    assert_eq!(frame.rows[0].label, "01:01:01");
    assert_eq!(frame.rows[0].name, "Work");
    assert!(!frame.rows[0].active);
    assert_eq!(frame.rows[1].label, "00:01:01");
    assert_eq!(frame.rows[1].name, "Play");
    assert!(frame.rows[1].active);
}

#[test]
fn active_row_label_follows_the_clock() {
    let store = TimerStore { entries: vec![entry("Work", true, 0, 1000)] };
    let pending = String::new();
    assert_eq!(build_frame(&store, 1000, &pending).rows[0].label, "00:00:00");
    assert_eq!(build_frame(&store, 1090, &pending).rows[0].label, "00:01:30");
}

#[test]
fn set_pending_name_updates_only_the_field() {
    let mut store = TimerStore::new();
    let mut pending = String::new();
    let r = apply_intent(&mut store, &mut pending, UiIntent::SetPendingName("Read".to_string()), 0);
    assert_eq!(r, Ok(()));
    assert_eq!(pending, "Read");
    assert_eq!(store.len(), 0);
}

#[test]
fn submit_appends_timer_and_keeps_field_text() {
    let mut store = TimerStore::new();
    let mut pending = "Read".to_string();
    let r = apply_intent(&mut store, &mut pending, UiIntent::SubmitName, 0);
    assert_eq!(r, Ok(()));
    assert_eq!(store.len(), 1);
    assert_eq!(store.entries[0].name, "Read");
    assert!(!store.entries[0].active);
    assert_eq!(pending, "Read");
}

#[test]
fn toggle_intent_drives_the_store() {
    let mut store = TimerStore::new();
    let mut pending = String::new();
    store.add("Work".to_string());
    assert_eq!(apply_intent(&mut store, &mut pending, UiIntent::ToggleTimer(0), 50), Ok(()));
    assert!(store.entries[0].active);
    assert_eq!(
        apply_intent(&mut store, &mut pending, UiIntent::ToggleTimer(1), 60),
        Err(StoreError::IndexOutOfRange)
    );
}

#[test]
fn remove_intent_drives_the_store() {
    let mut store = TimerStore::new();
    let mut pending = String::new();
    store.add("Work".to_string());
    assert_eq!(
        apply_intent(&mut store, &mut pending, UiIntent::RemoveTimer(3), 0),
        Err(StoreError::IndexOutOfRange)
    );
    assert_eq!(apply_intent(&mut store, &mut pending, UiIntent::RemoveTimer(0), 0), Ok(()));
    assert_eq!(store.len(), 0);
}

#[test]
fn escape_or_close_requests_exit() {
    assert!(exit_requested(&vec![InputEvent::Other, InputEvent::EscapePressed]));
    assert!(exit_requested(&vec![InputEvent::CloseRequested]));
}

#[test]
fn other_events_do_not_request_exit() {
    assert!(!exit_requested(&vec![]));
    assert!(!exit_requested(&vec![InputEvent::Other, InputEvent::Other]));
}
