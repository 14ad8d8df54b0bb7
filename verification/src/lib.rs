//! Calendar-feed filtering.
//!
//! The library takes the text of an iCalendar feed, removes every block
//! whose text carries the cancellation marker, and repairs the closing
//! `END:VCALENDAR` tag when removing the final block dropped it.

pub mod marks;
pub mod search;
pub mod segments;
pub mod trim;
pub mod filter;
pub mod laws;

pub use filter::ensure_ending_tag;
pub use filter::filter_calendar;
