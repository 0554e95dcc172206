//! Analyses over scanned records: commit trends, code churn, contributors and
//! file types.

pub mod code_churn;
pub mod contributors;
pub mod file_types;
pub mod grouping;
pub mod ranking;
pub mod trends;
