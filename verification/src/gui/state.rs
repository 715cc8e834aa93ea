//! The state of the front end and what its events make of it.

use vstd::prelude::*;
use crate::date::Date;
use crate::grid::{cell_of, cell_view, shown_cell};
use crate::gui::assignment::{is_swap, swap_assignments};
use crate::gui::summary::{highlight_slot_for_person, slot_holding};
use crate::gui::{CellPosition, Tab};
use crate::config::Config;
use crate::schedule::person_state::count_limit;
use crate::schedule::{
    Assignment, GroupState, PersonState, all_have_room_for, as_int, can_replay, fit_together,
    grouped, replay_assignments, replayed, roster, views,
};

verus! {

/// How long a success message stays, in milliseconds.
pub const MESSAGE_LIFETIME: u64 = 3000;

/// Everything the front end shows and remembers.
#[derive(Debug)]
pub struct AppState {
    pub config_files: Vec<String>,
    pub selected_config: Option<String>,
    pub assignments: Vec<Assignment>,
    pub people: Vec<PersonState>,
    pub groups: Vec<GroupState>,
    pub error: Option<String>,
    pub success_message: Option<String>,
    /// When the success message goes away, in milliseconds on the clock of
    /// the front end.
    pub success_message_expires_at: Option<u64>,
    pub active_tab: Tab,
    pub selected_cell: Option<CellPosition>,
    pub hovered_cell: Option<CellPosition>,
    pub highlighted_names: [Option<String>; 4],
}

impl Default for AppState {
    fn default() -> (r: Self)
        ensures
            r.is_empty(),
    {
        AppState {
            config_files: Vec::new(),
            selected_config: None,
            assignments: Vec::new(),
            people: Vec::new(),
            groups: Vec::new(),
            error: None,
            success_message: None,
            success_message_expires_at: None,
            active_tab: Tab::Schedule,
            selected_cell: None,
            hovered_cell: None,
            highlighted_names: [None, None, None, None],
        }
    }
}

/// No slot holds a name.
pub open spec fn none_highlighted(names: Seq<Option<String>>) -> bool {
    forall|i: int| 0 <= i < names.len() ==> (#[trigger] names[i]).is_none()
}

/// The first of the four slots that holds nothing, if any does.
pub open spec fn slot_free(names: Seq<Option<String>>) -> Option<int> {
    if names[0].is_none() {
        Some(0)
    } else if names[1].is_none() {
        Some(1)
    } else if names[2].is_none() {
        Some(2)
    } else if names[3].is_none() {
        Some(3)
    } else {
        None
    }
}

/// What a toggle of `person` makes of the highlight slots: the first slot
/// that holds the name is cleared; if none does, the first free slot takes
/// it; if none is free, nothing changes.
pub open spec fn toggled(names: Seq<Option<String>>, person: String) -> Seq<Option<String>> {
    match slot_holding(names, person@) {
        Some(held) => names.update(held, None),
        None => match slot_free(names) {
            Some(free) => names.update(free, Some(person)),
            None => names,
        },
    }
}

/// The first of the four slots that holds nothing.
fn free_slot(names: &[Option<String>; 4]) -> (r: Option<usize>)
    ensures
        as_int(r) == slot_free(names@),
{
    let mut i: usize = 0;
    while i < 4
        invariant
            i <= 4,
            forall|j: int| 0 <= j < i ==> (#[trigger] names@[j]).is_some(),
        decreases 4 - i,
    {
        if names[i].is_none() {
            return Some(i);
        }
        i += 1;
    }
    None
}

/// Toggles the highlight of a person in the four slots.
pub fn toggle_name(names: &mut [Option<String>; 4], person: String)
    ensures
        final(names)@ == toggled(old(names)@, person),
{
    match highlight_slot_for_person(names, person.as_str()) {
        Some(slot) => {
            names[slot] = None;
        },
        None => {
            match free_slot(names) {
                Some(slot) => {
                    names[slot] = Some(person);
                },
                None => {},
            }
        },
    }
}

impl AppState {
    /// Nothing is loaded, selected, highlighted or reported, and the
    /// schedule is the tab on show.
    pub open spec fn is_empty(&self) -> bool {
        &&& self.config_files@.len() == 0
        &&& self.selected_config.is_none()
        &&& self.assignments@.len() == 0
        &&& self.people@.len() == 0
        &&& self.groups@.len() == 0
        &&& self.error.is_none()
        &&& self.success_message.is_none()
        &&& self.success_message_expires_at.is_none()
        &&& self.active_tab == Tab::Schedule
        &&& self.selected_cell.is_none()
        &&& self.hovered_cell.is_none()
        &&& none_highlighted(self.highlighted_names@)
    }

    /// The ledgers and the groups fit together, and every ledger has room
    /// for the two services of an exchange.
    pub open spec fn ready_for_swap(&self) -> bool {
        grouped(self.people@, self.groups@) && all_have_room_for(self.people@, 2)
    }

    /// Whether the ledgers and the groups fit together and every ledger has
    /// room for the two services of an exchange.
    pub fn is_ready_for_swap(&self) -> (r: bool)
        ensures
            r == self.ready_for_swap(),
    {
        fit_together(&self.people, &self.groups, 2)
    }

    /// The empty state.
    pub fn new() -> (r: Self)
        ensures
            r.is_empty(),
    {
        AppState::default()
    }

    /// Toggles the highlight of a person.
    pub fn toggle_highlighted_name(&mut self, person: String)
        ensures
            final(self).highlighted_names@ == toggled(old(self).highlighted_names@, person),
            *final(self) == (AppState {
                highlighted_names: final(self).highlighted_names,
                ..*old(self)
            }),
    {
        toggle_name(&mut self.highlighted_names, person);
    }

    /// What the table of the schedule shows at a position: the date of the
    /// row, the place of the column and the person in that slot.
    pub fn get_cell_info(&self, pos: CellPosition) -> (r: Option<(Date, String, String)>)
        ensures
            cell_view(r) == cell_of(self.assignments@, pos.row as int, pos.column as int),
    {
        shown_cell(self.assignments.as_slice(), pos.row, pos.column)
    }

    /// Answers a click on a cell of the table.
    ///
    /// A click on the header row does nothing. With no cell selected, the
    /// clicked cell becomes the selection. With a cell selected, the
    /// selection is cleared; and if the click went to another cell, and both
    /// cells show someone, the two exchange their slots.
    pub fn handle_cell_click(&mut self, position: CellPosition)
        requires
            old(self).ready_for_swap(),
        ensures
            is_click(*old(self), *final(self), position),
    {
        if position.row == 0 {
            return ;
        }
        match self.selected_cell {
            None => {
                self.selected_cell = Some(position);
            },
            Some(prev_selected) => {
                self.selected_cell = None;
                if prev_selected != position && prev_selected.row > 0 {
                    let cell1 = self.get_cell_info(prev_selected);
                    let cell2 = self.get_cell_info(position);
                    match (cell1, cell2) {
                        (Some((date1, place1, person1)), Some((date2, place2, person2))) => {
                            let _ = swap_assignments(
                                &mut self.assignments,
                                &mut self.people,
                                &mut self.groups,
                                date1,
                                place1.as_str(),
                                person1.as_str(),
                                date2,
                                place2.as_str(),
                                person2.as_str(),
                            );
                        },
                        _ => {},
                    }
                }
            },
        }
    }

    /// Answers a click with the other button: the person in the cell is
    /// toggled among the highlights; a click on a cell that shows nobody
    /// clears all highlights.
    pub fn handle_cell_right_click(&mut self, position: CellPosition)
        ensures
            match cell_of(old(self).assignments@, position.row as int, position.column as int) {
                Some(cell) => exists|person: String|
                    person@ == cell.2 && final(self).highlighted_names@ == #[trigger] toggled(
                        old(self).highlighted_names@,
                        person,
                    ),
                None => none_highlighted(final(self).highlighted_names@),
            },
            *final(self) == (AppState {
                highlighted_names: final(self).highlighted_names,
                ..*old(self)
            }),
    {
        match self.get_cell_info(position) {
            Some((_, _, person)) => {
                self.toggle_highlighted_name(person);
            },
            None => {
                self.highlighted_names = [None, None, None, None];
            },
        }
    }

    /// Takes the list of configuration files that were found. Where none
    /// was selected before, the first of the list is.
    pub fn configs_loaded(&mut self, files: Vec<String>)
        ensures
            final(self).config_files == files,
            match old(self).selected_config {
                Some(path) => final(self).selected_config == Some(path),
                None => if files@.len() > 0 {
                    final(self).selected_config matches Some(path) && path@ == files@[0]@
                } else {
                    final(self).selected_config.is_none()
                },
            },
            *final(self) == (AppState {
                config_files: final(self).config_files,
                selected_config: final(self).selected_config,
                ..*old(self)
            }),
    {
        self.config_files = files;
        if self.config_files.len() > 0 && self.selected_config.is_none() {
            let selected = self.config_files[0].clone();
            self.selected_config = Some(selected);
        }
    }

    /// Selects a configuration file: the schedule, the ledgers and the
    /// error of the one before are dropped.
    pub fn select_config(&mut self, config_path: String)
        ensures
            final(self).selected_config == Some(config_path),
            final(self).assignments@.len() == 0,
            final(self).people@.len() == 0,
            final(self).groups@.len() == 0,
            final(self).error.is_none(),
            *final(self) == (AppState {
                selected_config: final(self).selected_config,
                assignments: final(self).assignments,
                people: final(self).people,
                groups: final(self).groups,
                error: None,
                ..*old(self)
            }),
    {
        self.selected_config = Some(config_path);
        self.assignments = Vec::new();
        self.people = Vec::new();
        self.groups = Vec::new();
        self.error = None;
    }

    /// Takes a schedule that was generated: it replaces the one on show and
    /// clears the selection.
    pub fn schedule_generated(&mut self, assignments: Vec<Assignment>)
        ensures
            *final(self) == (AppState { assignments, selected_cell: None, ..*old(self) }),
    {
        self.assignments = assignments;
        self.selected_cell = None;
    }

    /// Takes the configuration of the schedule on show: the ledgers and the
    /// groups are rebuilt from the configured members and the schedule.
    /// A schedule with more assignments than a ledger can count leaves them
    /// as they are.
    pub fn people_loaded(&mut self, config: &Config)
        ensures
            if old(self).assignments@.len() <= count_limit() {
                &&& (views(final(self).people@), final(self).groups@) == replayed(
                    roster(config.group@),
                    Seq::new(config.group@.len(), |g: int| GroupState { last_service: None }),
                    old(self).assignments@,
                )
                &&& grouped(final(self).people@, final(self).groups@)
                &&& *final(self) == (AppState {
                    people: final(self).people,
                    groups: final(self).groups,
                    ..*old(self)
                })
            } else {
                *final(self) == *old(self)
            },
    {
        if can_replay(&self.assignments) {
            let (people, groups) = replay_assignments(config, &self.assignments);
            self.people = people;
            self.groups = groups;
        }
    }

    /// Shows a success message until `MESSAGE_LIFETIME` milliseconds after
    /// `now`, or until the end of the clock if that comes first.
    pub fn show_success_message(&mut self, message: String, now: u64)
        ensures
            *final(self) == (AppState {
                success_message: Some(message),
                success_message_expires_at: Some(
                    if now + MESSAGE_LIFETIME <= u64::MAX {
                        (now + MESSAGE_LIFETIME) as u64
                    } else {
                        u64::MAX
                    },
                ),
                ..*old(self)
            }),
    {
        self.success_message = Some(message);
        let expires_at: u64 = if now <= u64::MAX - MESSAGE_LIFETIME {
            now + MESSAGE_LIFETIME
        } else {
            u64::MAX
        };
        self.success_message_expires_at = Some(expires_at);
    }

    /// Takes the success message away once its time has come.
    pub fn check_message_expiry(&mut self, now: u64)
        ensures
            *final(self) == match old(self).success_message_expires_at {
                Some(expires_at) => if now >= expires_at {
                    AppState {
                        success_message: None,
                        success_message_expires_at: None,
                        ..*old(self)
                    }
                } else {
                    *old(self)
                },
                None => *old(self),
            },
    {
        let due = match self.success_message_expires_at {
            Some(expires_at) => now >= expires_at,
            None => false,
        };
        if due {
            self.success_message = None;
            self.success_message_expires_at = None;
        }
    }
}

/// What a click on a cell makes of the state.
pub open spec fn is_click(before: AppState, after: AppState, position: CellPosition) -> bool {
    if position.row == 0 {
        after == before
    } else {
        match before.selected_cell {
            None => after == (AppState { selected_cell: Some(position), ..before }),
            Some(selected) => {
                &&& after == (AppState {
                    selected_cell: None,
                    assignments: after.assignments,
                    people: after.people,
                    groups: after.groups,
                    ..before
                })
                &&& match (
                    cell_of(before.assignments@, selected.row as int, selected.column as int),
                    cell_of(before.assignments@, position.row as int, position.column as int),
                ) {
                    (Some(first), Some(second)) => if selected != position && selected.row > 0 {
                        is_swap(
                            before.assignments@,
                            after.assignments@,
                            views(before.people@),
                            views(after.people@),
                            before.groups@,
                            after.groups@,
                            first.0,
                            first.1,
                            first.2,
                            second.0,
                            second.1,
                            second.2,
                        )
                    } else {
                        after == (AppState { selected_cell: None, ..before })
                    },
                    _ => after == (AppState { selected_cell: None, ..before }),
                }
            },
        }
    }
}

} // verus!
