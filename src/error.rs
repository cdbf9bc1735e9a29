//! The library's error type.

use vstd::prelude::*;

verus! {

#[verifier::external_type_specification]
#[verifier::external_body]
pub struct ExGoblinError(goblin::error::Error);

/// What can go wrong while collecting or analysing coverage.
#[derive(Debug)]
pub enum GetCovError {
    Io(String),
    Goblin(goblin::error::Error),
    Coverage(String),
    ArgParse(String),
    LlvmCovParse(String),
    JsonParse(String),
    /// A branch or region names a file index outside its function's file list.
    FileIndexOutOfRange(u64),
}

} // verus!
