//! A verified core for a small task tracker: the record codec (a strict
//! line-oriented text format for tasks), calendar-date validation, urgency
//! banding for display, filename derivation, and the all-or-nothing decoding
//! of a set of record files.

pub mod codec;
pub mod date;
pub mod numerals;
pub mod store;
pub mod task;
pub mod urgency;
