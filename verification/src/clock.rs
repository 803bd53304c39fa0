//! Wall-clock access, and toggling a timer at the present moment.

use vstd::prelude::*;

use crate::store::{entry_time_ok, toggled_entry, TimerStore};

verus! {

/// Error returned when toggling at the present moment cannot proceed.
#[derive(Debug, Clone, Copy, PartialEq, Eq, Structural)]
pub enum ClockError {
    IndexOutOfRange,
    ClockSkew,
}

/// Relies on chrono::Utc::now paired with chrono::DateTime::timestamp: the
/// current wall clock as whole seconds since the Unix epoch. Nothing is
/// assumed of the value; clocks can be set freely.
#[verifier::external_body]
fn now_unix_timestamp() -> i64 {
    chrono::Utc::now().timestamp()
}

/// The current wall clock as seconds since the Unix epoch, clamped to zero
/// for clocks set before the epoch. Nothing is known of the value: callers
/// must treat every reading as possible.
pub fn current_time() -> u64 {
    let t = now_unix_timestamp();
    if t < 0 {
        0
    } else {
        t as u64
    }
}

/// Reads the clock and toggles entry `index` of the store at that moment,
/// returning the timestamp that was used. Whatever the clock reported: a
/// reading that would run an active entry's interval backwards, or overflow
/// its total, is refused and leaves the store unchanged.
pub fn toggle_at_current_time(store: &mut TimerStore, index: usize) -> (result: Result<
    u64,
    ClockError,
>)
    ensures
        match result {
            Ok(now) => index < old(store)@.len() && entry_time_ok(old(store)@[index as int], now)
                && final(store)@ == old(store)@.update(
                index as int,
                toggled_entry(old(store)@[index as int], now),
            ),
            Err(ClockError::IndexOutOfRange) => index >= old(store)@.len() && final(store)@ == old(
                store,
            )@,
            Err(ClockError::ClockSkew) => index < old(store)@.len() && old(
                store,
            )@[index as int].active && final(store)@ == old(store)@,
        },
{
    let now = current_time();
    if index >= store.len() {
        return Err(ClockError::IndexOutOfRange);
    }
    let active = store.entries[index].active;
    let total = store.entries[index].total;
    let active_since = store.entries[index].active_since;
    proof {
        assert(store@[index as int] == store.entries@[index as int]@);
    }
    if active {
        if now < active_since || now - active_since > u64::MAX - total {
            return Err(ClockError::ClockSkew);
        }
    }
    match store.toggle(index, now) {
        Ok(()) => Ok(now),
        Err(_) => {
            proof {
                assert(false);
            }
            Err(ClockError::IndexOutOfRange)
        },
    }
}

} // verus!
