//! Elapsed-time durations written the way a stopwatch shows them.
//!
//! A [`duration::Duration`] counts whole seconds and nanoseconds. It is read
//! from "digital" strings such as `8:22`, `2:25:36.7` or `05`, and written
//! back in the same family of strings, padded to a field width on request.
//!
//! - [`grammar`] says in mathematical terms which strings are durations, and
//!   [`parser`] reads them accordingly.
//! - [`text`] says what a duration looks like in writing, and [`format`]
//!   writes it accordingly.
//! - [`round_trip`] proves that what is written reads back.

pub mod duration;
pub mod format;
pub mod grammar;
pub mod option_display;
pub mod order;
pub mod parser;
pub mod round_trip;
pub mod scan;
pub mod text;
