//! Coverage-gap analysis: classifies partially covered branches and merges
//! never-executed source spans into a minimal, non-overlapping set.

pub mod region;
pub mod merge;
pub mod merge_laws;
pub mod error;
pub mod report;
pub mod classify;
pub mod analyzer;
pub mod comment;
pub mod config;
pub mod args;
pub mod covmap;
pub mod file_part;
pub mod collector;
