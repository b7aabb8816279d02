//! A mutation-testing engine for Cairo projects.
//!
//! The library holds the verified core: the operator catalog, the scan that
//! collects mutation candidates, the single-line rewrite that turns a
//! candidate into a mutant, the classification of build and test outcomes,
//! and the ordered aggregation of verdicts into a report.

pub mod cli;
pub mod collector;
pub mod error;
pub mod file_manager;
pub mod mutant;
pub mod runner;
pub mod test_runner;
pub mod text;
