//! The per-frame face of the application: a view model saying what one
//! frame shows, the user gestures a frame can emit, and the decision to
//! exit. Gestures are applied to the store after a frame is built, so a
//! removal never skips the rows that follow it within the same frame.

use vstd::prelude::*;
use vstd::string::StringExecFns;

use crate::store::{
    elapsed_model, entry_time_ok, fresh_entry_model, toggled_entry, EntryModel, StoreError,
    TimerStore,
};
use crate::timefmt::{clock_format, format_duration};

verus! {

/// What one row of the timer list shows: the entry's elapsed time as clock
/// text, its name, and whether it is running.
pub struct RowView {
    pub label: String,
    pub name: String,
    pub active: bool,
}

/// What one frame shows: the window title, one row per timer entry, and
/// the text currently sitting in the new-timer name field.
pub struct FrameView {
    pub title: String,
    pub rows: Vec<RowView>,
    pub pending_name: String,
}

/// Whether every active entry of the store can be read at time `now`
/// without running its interval backwards or overflowing its total.
pub open spec fn store_time_ok(entries: Seq<EntryModel>, now: u64) -> bool {
    forall|i: int| 0 <= i < entries.len() ==> entry_time_ok(#[trigger] entries[i], now)
}

/// Declares what one frame shows at time `now`: one row per entry, labelled
/// with its elapsed time recomputed from the store, so an active row's
/// label follows the clock from frame to frame.
pub fn build_frame(store: &TimerStore, now: u64, pending_name: &String) -> (frame: FrameView)
    requires
        store_time_ok(store@, now),
    ensures
        frame.title@ == "Time tracker"@,
        frame.pending_name@ == pending_name@,
        frame.rows@.len() == store@.len(),
        forall|i: int|
            0 <= i < store@.len() ==> {
                &&& (#[trigger] frame.rows@[i]).name@ == store@[i].name
                &&& frame.rows@[i].active == store@[i].active
                &&& frame.rows@[i].label@ == clock_format(elapsed_model(store@[i], now) as u64)
            },
{
    let mut rows: Vec<RowView> = Vec::new();
    let mut i: usize = 0;
    let n = store.len();
    while i < n
        invariant
            n == store@.len(),
            store_time_ok(store@, now),
            i <= n,
            rows@.len() == i,
            forall|k: int|
                0 <= k < i ==> {
                    &&& (#[trigger] rows@[k]).name@ == store@[k].name
                    &&& rows@[k].active == store@[k].active
                    &&& rows@[k].label@ == clock_format(elapsed_model(store@[k], now) as u64)
                },
        decreases n - i,
    {
        let seconds = store.elapsed(i, now);
        let row = RowView {
            label: format_duration(seconds),
            name: store.entries[i].name.clone(),
            active: store.entries[i].active,
        };
        rows.push(row);
        i = i + 1;
    }
    FrameView {
        title: String::from_str("Time tracker"),
        rows,
        pending_name: pending_name.clone(),
    }
}

/// One user gesture reported by a frame.
pub enum UiIntent {
    SetPendingName(String),
    SubmitName,
    ToggleTimer(usize),
    RemoveTimer(usize),
}

/// Applies one gesture to the store and the name field. Submitting appends
/// a timer named by the field and leaves the field's text in place, as the
/// interface shows it. Toggle and removal report an out-of-range row.
pub fn apply_intent(
    store: &mut TimerStore,
    pending_name: &mut String,
    intent: UiIntent,
    now: u64,
) -> (result: Result<(), StoreError>)
    requires
        intent matches UiIntent::ToggleTimer(i) ==> (i < old(store)@.len() ==> entry_time_ok(
            old(store)@[i as int],
            now,
        )),
    ensures
        match intent {
            UiIntent::SetPendingName(text) => final(pending_name)@ == text@ && final(store)@ == old(
                store,
            )@ && result is Ok,
            UiIntent::SubmitName => final(store)@ == old(store)@.push(
                fresh_entry_model(old(pending_name)@),
            ) && final(pending_name)@ == old(pending_name)@ && result is Ok,
            UiIntent::ToggleTimer(i) => final(pending_name)@ == old(pending_name)@ && match result {
                Ok(()) => i < old(store)@.len() && final(store)@ == old(store)@.update(
                    i as int,
                    toggled_entry(old(store)@[i as int], now),
                ),
                Err(StoreError::IndexOutOfRange) => i >= old(store)@.len() && final(store)@ == old(
                    store,
                )@,
            },
            UiIntent::RemoveTimer(i) => final(pending_name)@ == old(pending_name)@ && match result {
                Ok(()) => i < old(store)@.len() && final(store)@ == old(store)@.remove(i as int),
                Err(StoreError::IndexOutOfRange) => i >= old(store)@.len() && final(store)@ == old(
                    store,
                )@,
            },
        },
{
    match intent {
        UiIntent::SetPendingName(text) => {
            *pending_name = text;
            Ok(())
        },
        UiIntent::SubmitName => {
            let name = pending_name.clone();
            store.add(name);
            Ok(())
        },
        UiIntent::ToggleTimer(i) => store.toggle(i, now),
        UiIntent::RemoveTimer(i) => store.remove(i),
    }
}

/// One input event at the window boundary. Closing the window or pressing
/// the exit key asks the application to save and leave; everything else is
/// handed to widget hit-testing unread.
#[derive(Debug, Clone, Copy, PartialEq, Eq, Structural)]
pub enum InputEvent {
    CloseRequested,
    EscapePressed,
    Other,
}

/// Whether `event` asks the application to exit.
pub open spec fn is_exit_event(event: InputEvent) -> bool {
    event == InputEvent::CloseRequested || event == InputEvent::EscapePressed
}

/// Whether any event of this tick asks the application to exit.
pub fn exit_requested(events: &Vec<InputEvent>) -> (r: bool)
    ensures
        r == exists|i: int| 0 <= i < events@.len() && is_exit_event(#[trigger] events@[i]),
{
    let mut i: usize = 0;
    while i < events.len()
        invariant
            i <= events@.len(),
            forall|k: int| 0 <= k < i ==> !is_exit_event(#[trigger] events@[k]),
        decreases events@.len() - i,
    {
        let hit = match events[i] {
            InputEvent::CloseRequested => true,
            InputEvent::EscapePressed => true,
            InputEvent::Other => false,
        };
        if hit {
            proof {
                assert(is_exit_event(events@[i as int]));
            }
            return true;
        }
        i = i + 1;
    }
    false
}

} // verus!
