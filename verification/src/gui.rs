//! What the interactive front end decides and computes, without its
//! widgets.

use vstd::prelude::*;

pub mod app;
pub mod assignment;
pub mod config;
pub mod state;
pub mod summary;
pub mod table;
pub mod utils;

pub use app::{Action, DutyRosterApp, Message};
pub use assignment::swap_assignments;

verus! {

/// The two views of a schedule.
#[derive(Debug, Clone, Copy, PartialEq, Eq, Structural)]
pub enum Tab {
    Schedule,
    Summary,
}

/// A cell of the schedule table. Row 0 is the header and column 0 holds the
/// dates.
#[derive(Debug, Clone, Copy, PartialEq, Eq, Structural)]
pub struct CellPosition {
    pub row: usize,
    pub column: usize,
}

} // verus!
