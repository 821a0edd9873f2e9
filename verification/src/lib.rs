//! An in-memory query model of a national railway timetable.
//!
//! The library parses the industry-standard timetable archive (a ZIP of
//! CRLF-terminated ASCII files: delivery header, timetable, footnote
//! validity, company list), splits its records into per-ride-number
//! journeys, joins them against station and inter-station link datasets,
//! and answers which rides run at a moment, over a window, or on a date.
//! A route-planner response can be mapped back onto the local rides, and
//! each ride serializes to the JSON payload the query endpoints serve.

pub mod api;
pub mod date;
pub mod dayoffset;
pub mod iff;
pub mod legs;
pub mod links;
pub mod locations;
pub mod model;
pub mod parsing;
pub mod planner;
pub mod platform;
pub mod repo;
pub mod serialize;
pub mod stations;
pub mod util;
pub mod validity;
