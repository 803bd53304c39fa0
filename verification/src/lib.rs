//! A small time-tracking library: a store of named timers that can be
//! toggled active and inactive, accumulating elapsed wall-clock time,
//! together with a textual persistence format, a duration formatter and
//! a per-frame view model for a user interface.

mod chars;
pub mod clock;
pub mod codec;
pub mod digits;
pub mod store;
pub mod timefmt;
pub mod ui;
