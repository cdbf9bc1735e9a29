//! Run configuration: how the program under analysis is run and how the
//! analysis is reported.

use vstd::prelude::*;

verus! {

/// Run the program to collect a profile, or analyse a given profile.
#[derive(Debug, Clone, Copy, PartialEq, Eq, Structural)]
pub enum RunningMode {
    Normal,
    Profdata,
}

#[derive(Debug, Clone, Copy, PartialEq, Eq, Structural)]
pub enum OutputFormat {
    Json,
    Text,
    Hybrid,
}

/// The program to run and one argument list per run.
#[derive(Debug)]
pub struct RunningOptions {
    pub binary: String,
    pub args_list: Vec<Vec<String>>,
}

#[derive(Debug, Clone, Copy, PartialEq, Eq)]
pub struct AnalysisOptions {
    pub extract_all_functions: bool,
    pub output_format: OutputFormat,
}

#[derive(Debug)]
pub struct Config {
    pub running_mode: RunningMode,
    pub running_options: RunningOptions,
    pub analysis_options: AnalysisOptions,
    pub profdata_file: Option<String>,
}

/// A given profile means no run is needed.
pub fn running_mode_for(profdata_file: &Option<String>) -> (r: RunningMode)
    ensures
        r == (if profdata_file is Some {
            RunningMode::Profdata
        } else {
            RunningMode::Normal
        }),
{
    match profdata_file {
        Some(_) => RunningMode::Profdata,
        None => RunningMode::Normal,
    }
}

/// The analysis options for the command-line flags; text output wins over
/// hybrid output, and JSON is the default.
pub fn analysis_options_from_flags(all: bool, text: bool, hybrid: bool) -> (r: AnalysisOptions)
    ensures
        r.extract_all_functions == all,
        r.output_format == (if text {
            OutputFormat::Text
        } else if hybrid {
            OutputFormat::Hybrid
        } else {
            OutputFormat::Json
        }),
{
    let output_format = if text {
        OutputFormat::Text
    } else if hybrid {
        OutputFormat::Hybrid
    } else {
        OutputFormat::Json
    };
    AnalysisOptions { extract_all_functions: all, output_format }
}

} // verus!
