//! A verified core for converting a plain-text, column-aligned soccer league
//! schedule into calendar events for one team.
//!
//! The library recognises year-declaration lines and game lines, resolves the
//! calendar year across a season that spans a year boundary, matches team
//! names case-insensitively, normalises the display form of team names, and
//! builds calendar event records with a fixed duration and venue. Reading the
//! schedule text and serialising the finished events are left to the caller.

pub mod casing;
pub mod chars;
pub mod convert;
pub mod datetime;
pub mod parse;
pub mod strutil;
