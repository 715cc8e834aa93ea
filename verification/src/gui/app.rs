//! The front end as a machine: every event changes the state and asks for
//! at most one piece of work from outside, whose outcome comes back as the
//! next event.

use vstd::prelude::*;
use vstd::string::*;
use crate::csv::{BACKSLASH, COMMA, QUOTE, assignments_to_csv, csv_document, table_records};
use crate::grid::cell_of;
use crate::gui::state::{AppState, is_click, none_highlighted, toggled};
use crate::gui::summary::{summary_content, summary_text};
use crate::gui::{CellPosition, Tab};
use crate::schedule::{Assignment, views};

verus! {

/// What can happen to the front end.
#[derive(Debug)]
pub enum Message {
    ConfigSelected(String),
    RefreshConfigList,
    GenerateSchedule,
    SaveScheduleWithDate,
    /// Save the schedule to the file of this name.
    SaveSchedule(String),
    ConfigsLoaded(Result<Vec<String>, String>),
    ScheduleGenerated(Result<Vec<Assignment>, String>),
    ScheduleSaved(Result<(), String>),
    TabSelected(Tab),
    SummaryPersonClicked(String),
    CellClicked(CellPosition),
    CellRightClicked(CellPosition),
    CellHovered(CellPosition),
    MouseEntered(CellPosition),
    MouseLeft,
    Error(String),
    CheckMessageExpiry,
    ShowSuccessMessage(String),
}

impl Clone for Message {
    fn clone(&self) -> (r: Self) {
        match self {
            Message::ConfigSelected(path) => Message::ConfigSelected(path.clone()),
            Message::RefreshConfigList => Message::RefreshConfigList,
            Message::GenerateSchedule => Message::GenerateSchedule,
            Message::SaveScheduleWithDate => Message::SaveScheduleWithDate,
            Message::SaveSchedule(filename) => Message::SaveSchedule(filename.clone()),
            Message::ConfigsLoaded(Ok(files)) => Message::ConfigsLoaded(Ok(files.clone())),
            Message::ConfigsLoaded(Err(e)) => Message::ConfigsLoaded(Err(e.clone())),
            Message::ScheduleGenerated(Ok(assignments)) => Message::ScheduleGenerated(
                Ok(assignments.clone()),
            ),
            Message::ScheduleGenerated(Err(e)) => Message::ScheduleGenerated(Err(e.clone())),
            Message::ScheduleSaved(Ok(_)) => Message::ScheduleSaved(Ok(())),
            Message::ScheduleSaved(Err(e)) => Message::ScheduleSaved(Err(e.clone())),
            Message::TabSelected(tab) => Message::TabSelected(*tab),
            Message::SummaryPersonClicked(person) => Message::SummaryPersonClicked(person.clone()),
            Message::CellClicked(position) => Message::CellClicked(*position),
            Message::CellRightClicked(position) => Message::CellRightClicked(*position),
            Message::CellHovered(position) => Message::CellHovered(*position),
            Message::MouseEntered(position) => Message::MouseEntered(*position),
            Message::MouseLeft => Message::MouseLeft,
            Message::Error(e) => Message::Error(e.clone()),
            Message::CheckMessageExpiry => Message::CheckMessageExpiry,
            Message::ShowSuccessMessage(text) => Message::ShowSuccessMessage(text.clone()),
        }
    }
}

/// The work that the front end asks for from outside.
#[derive(Debug)]
pub enum Action {
    /// No work at all.
    Nothing,
    /// Look for configuration files and come back with `ConfigsLoaded`.
    FindConfigFiles,
    /// Generate a schedule from the configuration at this path and come
    /// back with `ScheduleGenerated`.
    GenerateSchedule(String),
    /// Read the configuration at this path and hand it to `people_loaded`.
    LoadPeople(String),
    /// Name a file for the schedule of the configuration at this path and
    /// come back with `SaveSchedule`.
    NameScheduleFile(String),
    /// Write the schedule and the summary to the file and come back with
    /// what `map_save_file_result` makes of the outcome.
    SaveFile { filename: String, csv_content: String, summary_content: String },
    /// Wait as long as a success message stays and come back with
    /// `CheckMessageExpiry`.
    WaitForExpiry,
}

/// The event that follows an attempt to save the schedule to a file.
pub fn map_save_file_result(filename_for_message: String, result: Result<(), String>) -> (r:
    Message)
    ensures
        match result {
            Ok(_) => r matches Message::ShowSuccessMessage(text) && text@ == "Schedule saved to "@
                + filename_for_message@,
            Err(_) => r == Message::ScheduleSaved(result),
        },
{
    if result.is_ok() {
        Message::ShowSuccessMessage(
            "Schedule saved to ".to_owned().concat(filename_for_message.as_str()),
        )
    } else {
        Message::ScheduleSaved(result)
    }
}

/// The state with an error on show that starts with `start` and goes on
/// with `detail`.
pub open spec fn with_error(before: AppState, after: AppState, start: Seq<char>, detail: Seq<char>) -> bool {
    &&& after == (AppState { error: after.error, ..before })
    &&& after.error matches Some(text) && text@ == start + detail
}

/// What an event makes of the state, and the work it asks for.
pub open spec fn is_update(
    before: AppState,
    message: Message,
    now: u64,
    after: AppState,
    action: Action,
) -> bool {
    match message {
        Message::ConfigsLoaded(Ok(files)) => {
            &&& after == (AppState {
                config_files: files,
                selected_config: after.selected_config,
                ..before
            })
            &&& match before.selected_config {
                Some(path) => after.selected_config == Some(path),
                None => if files@.len() > 0 {
                    after.selected_config matches Some(path) && path@ == files@[0]@
                } else {
                    after.selected_config.is_none()
                },
            }
            &&& action == Action::Nothing
        },
        Message::ConfigsLoaded(Err(e)) => with_error(before, after, "Error loading configs: "@, e@)
            && action == Action::Nothing,
        Message::ConfigSelected(config_path) => {
            &&& after == (AppState {
                selected_config: Some(config_path),
                assignments: after.assignments,
                people: after.people,
                groups: after.groups,
                error: None,
                ..before
            })
            &&& after.assignments@.len() == 0
            &&& after.people@.len() == 0
            &&& after.groups@.len() == 0
            &&& action == Action::GenerateSchedule(config_path)
        },
        Message::RefreshConfigList => after == before && action == Action::FindConfigFiles,
        Message::GenerateSchedule => after == before && action == match before.selected_config {
            Some(config_path) => Action::GenerateSchedule(config_path),
            None => Action::Nothing,
        },
        Message::ScheduleGenerated(Ok(assignments)) => {
            &&& after == (AppState { assignments, selected_cell: None, ..before })
            &&& action == match before.selected_config {
                Some(config_path) => Action::LoadPeople(config_path),
                None => Action::Nothing,
            }
        },
        Message::ScheduleGenerated(Err(e)) => with_error(
            before,
            after,
            "Error generating schedule: "@,
            e@,
        ) && action == Action::Nothing,
        Message::SaveScheduleWithDate => match before.selected_config {
            Some(config_path) => if before.assignments@.len() > 0 {
                after == before && action == Action::NameScheduleFile(config_path)
            } else {
                with_error(before, after, "No schedule to save"@, ""@) && action
                    == Action::Nothing
            },
            None => after == before && action == Action::Nothing,
        },
        Message::SaveSchedule(filename) => match csv_document(
            table_records(before.assignments@),
            COMMA,
            QUOTE,
            BACKSLASH,
            false,
        ) {
            Ok(csv) => {
                &&& after == before
                &&& action matches Action::SaveFile { filename: name, csv_content, summary_content }
                &&& name == filename
                &&& csv_content@ == csv
                &&& summary_content@ == summary_text(
                    views(before.people@),
                    before.people@.len() as int,
                )
            },
            Err(e) => with_error(before, after, "Failed to create CSV: "@, e) && action
                == Action::Nothing,
        },
        Message::ScheduleSaved(Ok(_)) => after == before && action == Action::Nothing,
        Message::ScheduleSaved(Err(e)) => with_error(before, after, "Error saving schedule: "@, e@)
            && action == Action::Nothing,
        Message::ShowSuccessMessage(text) => {
            &&& after == (AppState {
                success_message: Some(text),
                success_message_expires_at: Some(
                    if now + crate::gui::state::MESSAGE_LIFETIME <= u64::MAX {
                        (now + crate::gui::state::MESSAGE_LIFETIME) as u64
                    } else {
                        u64::MAX
                    },
                ),
                ..before
            })
            &&& action == Action::WaitForExpiry
        },
        Message::CheckMessageExpiry => {
            &&& after == match before.success_message_expires_at {
                Some(expires_at) => if now >= expires_at {
                    AppState { success_message: None, success_message_expires_at: None, ..before }
                } else {
                    before
                },
                None => before,
            }
            &&& action == Action::Nothing
        },
        Message::TabSelected(tab) => after == (AppState { active_tab: tab, ..before }) && action
            == Action::Nothing,
        Message::SummaryPersonClicked(person) => {
            &&& after == (AppState { highlighted_names: after.highlighted_names, ..before })
            &&& after.highlighted_names@ == toggled(before.highlighted_names@, person)
            &&& action == Action::Nothing
        },
        Message::CellClicked(position) => {
            &&& if before.ready_for_swap() {
                is_click(before, after, position)
            } else {
                after == before
            }
            &&& action == Action::Nothing
        },
        Message::CellRightClicked(position) => {
            &&& after == (AppState { highlighted_names: after.highlighted_names, ..before })
            &&& match cell_of(before.assignments@, position.row as int, position.column as int) {
                Some(cell) => exists|person: String|
                    person@ == cell.2 && after.highlighted_names@ == #[trigger] toggled(
                        before.highlighted_names@,
                        person,
                    ),
                None => none_highlighted(after.highlighted_names@),
            }
            &&& action == Action::Nothing
        },
        Message::CellHovered(position) => after == (AppState {
            hovered_cell: Some(position),
            ..before
        }) && action == Action::Nothing,
        Message::MouseEntered(position) => after == (AppState {
            hovered_cell: Some(position),
            ..before
        }) && action == Action::Nothing,
        Message::MouseLeft => after == (AppState { hovered_cell: None, ..before }) && action
            == Action::Nothing,
        Message::Error(e) => after == (AppState { error: Some(e), ..before }) && action
            == Action::Nothing,
    }
}

/// The front end without its window.
#[derive(Debug)]
pub struct DutyRosterApp {
    pub state: AppState,
}

impl DutyRosterApp {
    /// The front end at its start: the state is empty and the first piece
    /// of work is to look for configuration files.
    pub fn new() -> (r: (Self, Action))
        ensures
            r.0.state.is_empty(),
            r.1 == Action::FindConfigFiles,
    {
        (DutyRosterApp { state: AppState::new() }, Action::FindConfigFiles)
    }

    /// The title of the window.
    pub fn title(&self) -> (r: String)
        ensures
            r@ == "Duty Roster"@,
    {
        "Duty Roster".to_owned()
    }

    /// Answers an event at `now`, in milliseconds on the clock of the front
    /// end: the state changes, and the result is the work to do outside.
    pub fn update(&mut self, message: Message, now: u64) -> (action: Action)
        ensures
            is_update(old(self).state, message, now, final(self).state, action),
    {
        match message {
            Message::ConfigsLoaded(Ok(files)) => {
                self.state.configs_loaded(files);
                Action::Nothing
            },
            Message::ConfigsLoaded(Err(e)) => {
                set_error(&mut self.state, "Error loading configs: ", e.as_str());
                Action::Nothing
            },
            Message::ConfigSelected(config_path) => {
                self.state.select_config(config_path.clone());
                Action::GenerateSchedule(config_path)
            },
            Message::RefreshConfigList => Action::FindConfigFiles,
            Message::GenerateSchedule => {
                match &self.state.selected_config {
                    Some(config_path) => Action::GenerateSchedule(config_path.clone()),
                    None => Action::Nothing,
                }
            },
            Message::ScheduleGenerated(Ok(assignments)) => {
                self.state.schedule_generated(assignments);
                match &self.state.selected_config {
                    Some(config_path) => Action::LoadPeople(config_path.clone()),
                    None => Action::Nothing,
                }
            },
            Message::ScheduleGenerated(Err(e)) => {
                set_error(&mut self.state, "Error generating schedule: ", e.as_str());
                Action::Nothing
            },
            Message::SaveScheduleWithDate => {
                let selected = match &self.state.selected_config {
                    Some(config_path) => Some(config_path.clone()),
                    None => None,
                };
                match selected {
                    Some(config_path) => {
                        if self.state.assignments.len() > 0 {
                            Action::NameScheduleFile(config_path)
                        } else {
                            set_error(&mut self.state, "No schedule to save", "");
                            Action::Nothing
                        }
                    },
                    None => Action::Nothing,
                }
            },
            Message::SaveSchedule(filename) => {
                match assignments_to_csv(&self.state.assignments) {
                    Ok(csv_content) => {
                        let summary_content = summary_content(&self.state.people);
                        Action::SaveFile { filename, csv_content, summary_content }
                    },
                    Err(e) => {
                        set_error(&mut self.state, "Failed to create CSV: ", e.as_str());
                        Action::Nothing
                    },
                }
            },
            Message::ScheduleSaved(Ok(_)) => Action::Nothing,
            Message::ScheduleSaved(Err(e)) => {
                set_error(&mut self.state, "Error saving schedule: ", e.as_str());
                Action::Nothing
            },
            Message::ShowSuccessMessage(text) => {
                self.state.show_success_message(text, now);
                Action::WaitForExpiry
            },
            Message::CheckMessageExpiry => {
                self.state.check_message_expiry(now);
                Action::Nothing
            },
            Message::TabSelected(tab) => {
                self.state.active_tab = tab;
                Action::Nothing
            },
            Message::SummaryPersonClicked(person) => {
                self.state.toggle_highlighted_name(person);
                Action::Nothing
            },
            Message::CellClicked(position) => {
                if self.state.is_ready_for_swap() {
                    self.state.handle_cell_click(position);
                }
                Action::Nothing
            },
            Message::CellRightClicked(position) => {
                self.state.handle_cell_right_click(position);
                Action::Nothing
            },
            Message::CellHovered(position) => {
                self.state.hovered_cell = Some(position);
                Action::Nothing
            },
            Message::MouseEntered(position) => {
                self.state.hovered_cell = Some(position);
                Action::Nothing
            },
            Message::MouseLeft => {
                self.state.hovered_cell = None;
                Action::Nothing
            },
            Message::Error(e) => {
                self.state.error = Some(e);
                Action::Nothing
            },
        }
    }
}

/// Puts an error on show.
fn set_error(state: &mut AppState, start: &str, detail: &str)
    ensures
        with_error(*old(state), *final(state), start@, detail@),
{
    state.error = Some(start.to_owned().concat(detail));
}

} // verus!
