//! Fair assignment of people to recurring duty slots.
//!
//! A schedule is a grid of dates and places. Every slot of the grid gets
//! one person, chosen by an ordered list of rules from the ledgers that
//! record who has served when and where. The engine and its ledgers are in
//! [`schedule`]; [`config`] holds what a run is configured with, [`date`]
//! and [`dates`] the calendar, [`grid`] and [`csv`] the schedule as a
//! table and as text, and [`gui`] the decisions of the interactive front
//! end.

pub mod config;
pub mod csv;
pub mod date;
pub mod dates;
pub mod grid;
pub mod gui;
pub mod order;
pub mod schedule;
pub mod text;

pub use schedule::PersonState;
