use timetracker::clock::{current_time, toggle_at_current_time, ClockError};
use timetracker::store::{TimerEntry, TimerStore};

#[test]
fn clock_reads_a_post_epoch_time() {
    // Seconds since 2000-01-01; a machine with its clock set at all
    // reports well past this.
    assert!(current_time() > 946_684_800);
}

#[test]
fn toggling_now_starts_and_stops_a_timer() {
    let mut store = TimerStore::new();
    store.add("Work".to_string());
    let started = toggle_at_current_time(&mut store, 0).expect("a fresh entry can start");
    assert!(store.entries[0].active);
    assert_eq!(store.entries[0].active_since, started);
    let stopped = toggle_at_current_time(&mut store, 0).expect("a running entry can stop");
    assert!(!store.entries[0].active);
    assert_eq!(store.entries[0].total, stopped - started);
}

#[test]
fn toggling_now_out_of_range_is_an_error() {
    let mut store = TimerStore::new();
    assert_eq!(toggle_at_current_time(&mut store, 0), Err(ClockError::IndexOutOfRange));
}

#[test]
fn entry_started_in_the_far_future_cannot_stop_now() {
    let mut store = TimerStore {
        entries: vec![TimerEntry {
            name: "odd".to_string(),
            active: true,
            total: 0,
            active_since: u64::MAX,
        }],
    };
    assert_eq!(toggle_at_current_time(&mut store, 0), Err(ClockError::ClockSkew));
    assert!(store.entries[0].active);
    assert_eq!(store.entries[0].total, 0);
}
