//! Writing a schedule and its summary to a sink.

use vstd::prelude::*;
use vstd::string::*;

verus! {

/// The three parts that are written, in their order.
#[derive(Debug, Clone, Copy, PartialEq, Eq, Structural)]
pub enum WriteStep {
    Csv,
    Newline,
    Summary,
}

/// What is reported when a part could not be written: which part it was,
/// then what the sink said.
pub open spec fn failure_text(step: WriteStep, error: Seq<char>) -> Seq<char> {
    match step {
        WriteStep::Csv => "Failed to write CSV content: "@ + error,
        WriteStep::Newline => "Failed to write newline: "@ + error,
        WriteStep::Summary => "Failed to write summary content: "@ + error,
    }
}

/// What is reported when a part could not be written.
pub fn describe_failure(step: WriteStep, error: &str) -> (r: String)
    ensures
        r@ == failure_text(step, error@),
{
    let start = match step {
        WriteStep::Csv => "Failed to write CSV content: ",
        WriteStep::Newline => "Failed to write newline: ",
        WriteStep::Summary => "Failed to write summary content: ",
    };
    start.to_owned().concat(error)
}

/// Calls `std::io::Write::write_all` with the text's bytes. Where the sink
/// fails, the error comes back as the text of its `Display` impl. Nothing
/// is claimed of when a sink fails.
#[verifier::external_body]
fn write_text<W: std::io::Write>(writer: &mut W, text: &str) -> (r: Result<(), String>) {
    match writer.write_all(text.as_bytes()) {
        Ok(()) => Ok(()),
        Err(error) => Err(error.to_string()),
    }
}

/// Writes the schedule, a line break and the summary, in this order, and
/// stops at the first part that the sink refuses. The error then names that
/// part and repeats what the sink said; whether the sink takes a part is
/// for the sink to say.
pub fn write_schedule_and_summary<W: std::io::Write>(
    mut writer: W,
    csv_content: &str,
    summary_content: &str,
) -> (r: Result<(), String>)
    ensures
        r matches Err(message) ==> exists|step: WriteStep, error: Seq<char>|
            message@ == #[trigger] failure_text(step, error),
{
    match write_outcome(WriteStep::Csv, write_text(&mut writer, csv_content)) {
        Err(message) => {
            return Err(message);
        },
        Ok(()) => {},
    }
    match write_outcome(WriteStep::Newline, write_text(&mut writer, "\n")) {
        Err(message) => {
            return Err(message);
        },
        Ok(()) => {},
    }
    write_outcome(WriteStep::Summary, write_text(&mut writer, summary_content))
}

/// What the sink's answer to one part makes of the whole: a part that was
/// taken lets the writing go on, a part that was refused ends it with the
/// report of that part.
pub open spec fn outcome_of(step: WriteStep, written: Result<(), String>) -> Result<(), Seq<char>> {
    match written {
        Ok(_) => Ok(()),
        Err(error) => Err(failure_text(step, error@)),
    }
}

/// What the sink's answer to one part makes of the whole.
pub fn write_outcome(step: WriteStep, written: Result<(), String>) -> (r: Result<(), String>)
    ensures
        match r {
            Ok(_) => outcome_of(step, written) == Ok::<(), Seq<char>>(()),
            Err(message) => outcome_of(step, written) == Err::<(), Seq<char>>(message@),
        },
{
    match written {
        Ok(()) => Ok(()),
        Err(error) => Err(describe_failure(step, error.as_str())),
    }
}

} // verus!
