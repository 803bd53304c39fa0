//! The timer record store: an ordered sequence of named timers, each either
//! inactive (its accumulated time is `total`) or active since some timestamp.
//!
//! All timestamps are seconds since the Unix epoch; all durations are seconds.

use vstd::prelude::*;

verus! {

/// Mathematical model of one timer entry.
#[verifier::ext_equal]
pub ghost struct EntryModel {
    pub name: Seq<char>,
    pub active: bool,
    pub total: u64,
    pub active_since: u64,
}

/// One named timer. While `active` is false, `active_since` carries no
/// meaning and elapsed time is `total`; while `active` is true, elapsed
/// time is `total` plus the current active interval.
#[derive(Debug)]
pub struct TimerEntry {
    pub name: String,
    pub active: bool,
    pub total: u64,
    pub active_since: u64,
}

impl View for TimerEntry {
    type V = EntryModel;

    open spec fn view(&self) -> EntryModel {
        EntryModel {
            name: self.name@,
            active: self.active,
            total: self.total,
            active_since: self.active_since,
        }
    }
}

/// Error returned when an operation names a position outside the store.
#[derive(Debug, Clone, Copy, PartialEq, Eq, Structural)]
pub enum StoreError {
    IndexOutOfRange,
}

/// The model of a freshly added entry: inactive, with no accumulated time.
pub open spec fn fresh_entry_model(name: Seq<char>) -> EntryModel {
    EntryModel { name: name, active: false, total: 0, active_since: 0 }
}

/// The model of an entry after one toggle at time `now`: an inactive entry
/// starts running at `now`; an active one stops and folds the interval
/// since `active_since` into `total`.
pub open spec fn toggled_entry(e: EntryModel, now: u64) -> EntryModel {
    if e.active {
        EntryModel {
            name: e.name,
            active: false,
            total: (e.total + now - e.active_since) as u64,
            active_since: e.active_since,
        }
    } else {
        EntryModel { name: e.name, active: true, total: e.total, active_since: now }
    }
}

/// Elapsed time shown for an entry at time `now`: `total` while inactive,
/// `total` plus the running interval while active.
pub open spec fn elapsed_model(e: EntryModel, now: u64) -> int {
    if e.active {
        e.total + now - e.active_since
    } else {
        e.total as int
    }
}

/// The side condition under which toggling or querying an active entry at
/// time `now` neither runs time backwards nor overflows the accumulator.
pub open spec fn entry_time_ok(e: EntryModel, now: u64) -> bool {
    e.active ==> e.active_since <= now && e.total + now - e.active_since <= u64::MAX
}

/// An ordered sequence of timer entries; order is insertion order.
#[derive(Debug)]
pub struct TimerStore {
    pub entries: Vec<TimerEntry>,
}

impl View for TimerStore {
    type V = Seq<EntryModel>;

    open spec fn view(&self) -> Seq<EntryModel> {
        self.entries@.map_values(|e: TimerEntry| e@)
    }
}

impl TimerStore {
    /// An empty store.
    pub fn new() -> (result: TimerStore)
        ensures
            result@ == Seq::<EntryModel>::empty(),
    {
        let store = TimerStore { entries: Vec::new() };
        proof {
            assert(store@ =~= Seq::<EntryModel>::empty());
        }
        store
    }

    /// How many entries the store holds.
    pub fn len(&self) -> (n: usize)
        ensures
            n == self@.len(),
    {
        self.entries.len()
    }

    /// Appends a new inactive timer named `name`. Names are not validated:
    /// empty and duplicate names are allowed.
    pub fn add(&mut self, name: String)
        ensures
            final(self)@ == old(self)@.push(fresh_entry_model(name@)),
    {
        let ghost before = self@;
        let entry = TimerEntry { name: name, active: false, total: 0, active_since: 0 };
        self.entries.push(entry);
        proof {
            assert(final(self)@ =~= before.push(fresh_entry_model(name@)));
        }
    }

    /// Flips entry `index` between active and inactive at time `now`.
    /// Starting records `now`; stopping folds the interval since
    /// `active_since` into `total`. An out-of-range index is an error and
    /// leaves the store unchanged.
    pub fn toggle(&mut self, index: usize, now: u64) -> (result: Result<(), StoreError>)
        requires
            index < old(self)@.len() ==> entry_time_ok(old(self)@[index as int], now),
        ensures
            match result {
                Ok(()) => index < old(self)@.len() && final(self)@ == old(self)@.update(
                    index as int,
                    toggled_entry(old(self)@[index as int], now),
                ),
                Err(StoreError::IndexOutOfRange) => index >= old(self)@.len() && final(self)@
                    == old(self)@,
            },
    {
        let ghost before = self@;
        if index >= self.entries.len() {
            return Err(StoreError::IndexOutOfRange);
        }
        let entry = &mut self.entries[index];
        if entry.active {
            entry.total = entry.total + (now - entry.active_since);
            entry.active = false;
        } else {
            entry.active_since = now;
            entry.active = true;
        }
        proof {
            assert(final(self)@ =~= before.update(
                index as int,
                toggled_entry(before[index as int], now),
            ));
        }
        Ok(())
    }

    /// Removes entry `index`; every later entry shifts down by one place.
    /// An out-of-range index is an error and leaves the store unchanged.
    pub fn remove(&mut self, index: usize) -> (result: Result<(), StoreError>)
        ensures
            match result {
                Ok(()) => index < old(self)@.len() && final(self)@ == old(self)@.remove(
                    index as int,
                ),
                Err(StoreError::IndexOutOfRange) => index >= old(self)@.len() && final(self)@
                    == old(self)@,
            },
    {
        let ghost before = self@;
        if index >= self.entries.len() {
            return Err(StoreError::IndexOutOfRange);
        }
        self.entries.remove(index);
        proof {
            assert(final(self)@ =~= before.remove(index as int));
        }
        Ok(())
    }

    /// Elapsed time of entry `index` at time `now`: `total` while inactive
    /// (whatever `now` is), `total` plus the running interval while active.
    pub fn elapsed(&self, index: usize, now: u64) -> (seconds: u64)
        requires
            index < self@.len(),
            entry_time_ok(self@[index as int], now),
        ensures
            seconds == elapsed_model(self@[index as int], now),
            !self@[index as int].active ==> seconds == self@[index as int].total,
    {
        let entry = &self.entries[index];
        if entry.active {
            entry.total + (now - entry.active_since)
        } else {
            entry.total
        }
    }
}

/// Toggling an entry on at `t1` and off at `t2 > t1`, starting from an
/// inactive entry with no accumulated time, accumulates exactly `t2 - t1`
/// and leaves the entry inactive with its name unchanged.
pub proof fn lemma_toggle_accumulates(s: Seq<EntryModel>, i: int, t1: u64, t2: u64)
    requires
        0 <= i < s.len(),
        !s[i].active,
        s[i].total == 0,
        t1 < t2,
    ensures
        ({
            let after = s.update(i, toggled_entry(s[i], t1)).update(
                i,
                toggled_entry(s.update(i, toggled_entry(s[i], t1))[i], t2),
            );
            &&& after[i].total == t2 - t1
            &&& !after[i].active
            &&& after[i].name == s[i].name
            &&& after.len() == s.len()
        }),
{
}

/// While an entry is active, elapsed time never decreases as `now` increases.
pub proof fn lemma_elapsed_monotonic(e: EntryModel, now1: u64, now2: u64)
    requires
        now1 <= now2,
    ensures
        elapsed_model(e, now1) <= elapsed_model(e, now2),
{
}

} // verus!
