//! Which files count as configurations, and what a saved schedule is called.

use vstd::prelude::*;
use vstd::string::*;
use crate::text::str_equal;

verus! {

/// The file name belongs to the tooling of the project and is no
/// configuration of a schedule.
pub open spec fn excluded(file_name: Seq<char>) -> bool {
    file_name == "Cargo.toml"@ || file_name == "deny.toml"@ || file_name == "cargo-deny.toml"@
}

/// Whether a file of this name is passed over when configurations are
/// looked for.
pub fn is_excluded_file(file_name: &str) -> (r: bool)
    ensures
        r == excluded(file_name@),
{
    str_equal(file_name, "Cargo.toml") || str_equal(file_name, "deny.toml") || str_equal(
        file_name,
        "cargo-deny.toml",
    )
}

/// The outcome of a search for configurations: the files that were found,
/// or the report that there are none.
pub fn found_config_files(config_files: Vec<String>) -> (r: Result<Vec<String>, String>)
    ensures
        match r {
            Ok(files) => config_files@.len() > 0 && files == config_files,
            Err(report) => config_files@.len() == 0 && report@ == "No config files found"@,
        },
{
    if config_files.len() == 0 {
        Err("No config files found".to_owned())
    } else {
        Ok(config_files)
    }
}

/// The name of the file that a schedule is saved to: the stem of the
/// configuration's file name (`schedule` where it has none), an underscore,
/// the time stamp, and the ending `.csv`.
pub open spec fn schedule_file_name(file_stem: Option<Seq<char>>, stamp: Seq<char>) -> Seq<char> {
    let stem = match file_stem {
        Some(stem) => stem,
        None => "schedule"@,
    };
    stem + "_"@ + stamp + ".csv"@
}

/// The name of the file that a schedule is saved to.
pub fn name_schedule_file(file_stem: Option<&str>, stamp: &str) -> (r: String)
    ensures
        r@ == schedule_file_name(
            match file_stem {
                Some(stem) => Some(stem@),
                None => None,
            },
            stamp@,
        ),
{
    let stem = match file_stem {
        Some(stem) => stem,
        None => "schedule",
    };
    stem.to_owned().concat("_").concat(stamp).concat(".csv")
}

} // verus!
