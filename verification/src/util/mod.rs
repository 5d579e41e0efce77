//! Helpers that know nothing of downloads: text, numbers, paths, colours and the calendar.

pub mod number;
pub mod path;
pub mod stamp;
pub mod style;
pub mod text;
