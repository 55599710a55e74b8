//! The crate-wide error type.

use vstd::prelude::*;
use crate::ir::Language;

verus! {

/// Crate-wide error type. Each variant carries a human-readable message.
#[derive(Debug, PartialEq)]
pub enum DomainScanError {
    Io(String),
    Walk(String),
    TreeSitterLanguage(String),
    ParseFailed(String),
    UnsupportedLanguage(Language),
    Serialization(String),
    QueryCompile(String),
    Config(String),
    Cache(String),
    FieldMask(String),
    InvalidPath(String),
    InvalidInput(String),
    InvalidResourceId(String),
    InvalidRegex(String),
    InvalidJson(String),
}

/// The content of an error: its kind and message.
pub enum ErrorSpec {
    Io(Seq<char>),
    Walk(Seq<char>),
    TreeSitterLanguage(Seq<char>),
    ParseFailed(Seq<char>),
    UnsupportedLanguage(Language),
    Serialization(Seq<char>),
    QueryCompile(Seq<char>),
    Config(Seq<char>),
    Cache(Seq<char>),
    FieldMask(Seq<char>),
    InvalidPath(Seq<char>),
    InvalidInput(Seq<char>),
    InvalidResourceId(Seq<char>),
    InvalidRegex(Seq<char>),
    InvalidJson(Seq<char>),
}

impl View for DomainScanError {
    type V = ErrorSpec;

    open spec fn view(&self) -> ErrorSpec {
        match self {
            DomainScanError::Io(m) => ErrorSpec::Io(m@),
            DomainScanError::Walk(m) => ErrorSpec::Walk(m@),
            DomainScanError::TreeSitterLanguage(m) => ErrorSpec::TreeSitterLanguage(m@),
            DomainScanError::ParseFailed(m) => ErrorSpec::ParseFailed(m@),
            DomainScanError::UnsupportedLanguage(l) => ErrorSpec::UnsupportedLanguage(*l),
            DomainScanError::Serialization(m) => ErrorSpec::Serialization(m@),
            DomainScanError::QueryCompile(m) => ErrorSpec::QueryCompile(m@),
            DomainScanError::Config(m) => ErrorSpec::Config(m@),
            DomainScanError::Cache(m) => ErrorSpec::Cache(m@),
            DomainScanError::FieldMask(m) => ErrorSpec::FieldMask(m@),
            DomainScanError::InvalidPath(m) => ErrorSpec::InvalidPath(m@),
            DomainScanError::InvalidInput(m) => ErrorSpec::InvalidInput(m@),
            DomainScanError::InvalidResourceId(m) => ErrorSpec::InvalidResourceId(m@),
            DomainScanError::InvalidRegex(m) => ErrorSpec::InvalidRegex(m@),
            DomainScanError::InvalidJson(m) => ErrorSpec::InvalidJson(m@),
        }
    }
}

} // verus!
