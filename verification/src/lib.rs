//! Structural code intelligence: the verified core of domain-scan.
//!
//! The library holds the intermediate representation of scanned code, the
//! pure path and string logic it relies on, manifest validation and matching,
//! heuristic manifest bootstrapping, prompt generation, input validation, the
//! interactive tree model and the text listings of the command line.

pub mod text;
pub mod path;
pub mod ir;
pub mod lang;
pub mod manifest;
pub mod integrity;
pub mod error;
pub mod glob;

pub use error::DomainScanError;
pub mod index;
pub mod matching;
pub mod writeback;
pub mod builder;
pub mod connections;
pub mod prompt;
pub mod coverage;
pub mod prompt_text;
pub mod input_validation;
pub mod config;
pub mod json;
pub mod field_mask;
pub mod queries;
pub mod stats;
pub mod tui;
pub mod build_status;
pub mod hash;
pub mod output;
pub mod cache;
pub mod doctor;
pub mod report;
