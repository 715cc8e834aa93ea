//! The schedule as a table with one selectable cell.

use vstd::prelude::*;
use crate::date::Date;
use crate::grid::{
    cell_at, cell_of, cell_view, columns, copy_assignments, date_rows, place_columns, rows, texts,
};
use crate::gui::CellPosition;
use crate::schedule::Assignment;

verus! {

/// The assignments laid out as a table, and the cell that is selected.
#[derive(Debug)]
pub struct TableState {
    selected_cell: Option<CellPosition>,
    cells: Vec<Assignment>,
    dates: Vec<Date>,
    places: Vec<String>,
}

impl TableState {
    #[verifier::type_invariant]
    spec fn laid_out(self) -> bool {
        texts(self.places@) == columns(self.cells@) && self.dates@ == rows(self.cells@)
    }

    /// The assignments that the table shows.
    pub closed spec fn assignments(&self) -> Seq<Assignment> {
        self.cells@
    }

    /// The selected cell.
    pub closed spec fn selection(&self) -> Option<CellPosition> {
        self.selected_cell
    }

    /// The table of the given assignments, with no cell selected. Its rows
    /// are the dates and its columns the places of the assignments, each
    /// once, in ascending order.
    pub fn new(assignments: &[Assignment]) -> (r: Self)
        ensures
            r.assignments() == assignments@,
            r.selection().is_none(),
    {
        let cells = copy_assignments(assignments);
        let places = place_columns(assignments);
        let dates = date_rows(assignments);
        TableState { selected_cell: None, cells, dates, places }
    }

    /// Selects a cell, or clears the selection where that cell is selected
    /// already. Returns the selection as it was before.
    pub fn select_cell(&mut self, position: CellPosition) -> (r: Option<CellPosition>)
        ensures
            r == old(self).selection(),
            final(self).selection() == if old(self).selection() == Some(position) {
                None
            } else {
                Some(position)
            },
            final(self).assignments() == old(self).assignments(),
    {
        proof {
            use_type_invariant(&*self);
        }
        let prev_selected = self.selected_cell;
        let same = match prev_selected {
            Some(held) => held == position,
            None => false,
        };
        if same {
            self.selected_cell = None;
        } else {
            self.selected_cell = Some(position);
        }
        prev_selected
    }

    /// What the table shows at a position: the date of the row, the place
    /// of the column and the person in that slot.
    pub fn get_cell_info(&self, pos: CellPosition) -> (r: Option<(Date, String, String)>)
        ensures
            cell_view(r) == cell_of(self.assignments(), pos.row as int, pos.column as int),
    {
        proof {
            use_type_invariant(self);
        }
        cell_at(self.cells.as_slice(), &self.dates, &self.places, pos.row, pos.column)
    }

    /// The selected cell.
    pub fn selected_cell(&self) -> (r: Option<&CellPosition>)
        ensures
            r.is_some() == self.selection().is_some(),
            r matches Some(position) ==> self.selection() == Some(*position),
    {
        self.selected_cell.as_ref()
    }

    /// How many rows the table has below the header.
    pub fn row_count(&self) -> (r: usize)
        ensures
            r == rows(self.assignments()).len(),
    {
        proof {
            use_type_invariant(self);
        }
        self.dates.len()
    }

    /// How many columns the table has after the dates.
    pub fn column_count(&self) -> (r: usize)
        ensures
            r == columns(self.assignments()).len(),
    {
        proof {
            use_type_invariant(self);
        }
        self.places.len()
    }
}

} // verus!
