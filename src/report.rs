//! The coverage report as the analysis reads it: one analysed program, its
//! functions, their source regions and branches, and the overall summary.

use vstd::prelude::*;

verus! {

/// What a source region stands for; only `Code` regions carry executable code.
#[derive(Debug, Clone, Copy, PartialEq, Eq, Structural)]
pub enum RegionKind {
    Code,
    Expansion,
    Skipped,
    Gap,
    Branch,
}

/// A source region of a function with its execution count; `file_id` indexes
/// the function's file list and the end column is exclusive.
#[derive(Debug, Clone, Copy, PartialEq, Eq)]
pub struct SourceRegion {
    pub line_start: u64,
    pub column_start: u64,
    pub line_end: u64,
    pub column_end: u64,
    pub execution_count: u64,
    pub file_id: u64,
    pub expanded_file_id: u64,
    pub kind: RegionKind,
}

/// A branch: how often its condition held (`execution_count`) and how often
/// it did not (`false_execution_count`).
#[derive(Debug, Clone, Copy, PartialEq, Eq)]
pub struct BranchRecord {
    pub line_start: u64,
    pub column_start: u64,
    pub line_end: u64,
    pub column_end: u64,
    pub execution_count: u64,
    pub false_execution_count: u64,
    pub file_id: u64,
    pub expanded_file_id: u64,
}

/// One function of the report: its name, call count, file list, regions and branches.
#[derive(Debug)]
pub struct FunctionRecord {
    pub name: String,
    pub count: u64,
    pub filenames: Vec<String>,
    pub regions: Vec<SourceRegion>,
    pub branches: Vec<BranchRecord>,
}

/// Covered and total branch and function counts, as the report states them.
#[derive(Debug, Clone, Copy, PartialEq, Eq)]
pub struct Coverage {
    pub covered_branches: u64,
    pub total_branches: u64,
    pub covered_functions: u64,
    pub total_functions: u64,
}

/// The report of one analysed program.
#[derive(Debug)]
pub struct ProgramReport {
    pub functions: Vec<FunctionRecord>,
    pub summary: Coverage,
}

} // verus!
