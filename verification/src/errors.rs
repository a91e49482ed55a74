//! The error taxonomy of the pipeline.
//!
//! Configuration and schema errors are produced by the verified
//! functions of this crate; file and network errors are produced by the
//! I/O layer around it, which maps its observations into these types.

use vstd::prelude::*;

verus! {

#[derive(Clone, Copy, PartialEq, Eq, Structural, Debug)]
pub enum ConfigError {
    /// No flow of the requested name is loaded.
    NotFound,
    /// The persisted store could not be read or parsed.
    LoadFailure,
}

#[derive(Clone, Copy, PartialEq, Eq, Structural, Debug)]
pub enum FileError {
    /// The file does not exist.
    NotFound,
    /// The file exists but could not be fully read.
    ReadFailure,
}

#[derive(Clone, Copy, PartialEq, Eq, Structural, Debug)]
pub enum ParseError {
    /// Inline upsert JSON was malformed.
    InvalidInlineJson,
    /// A backend response did not match the engine's schema.
    SchemaMismatch,
}

#[derive(PartialEq, Eq, Debug)]
pub enum DispatchError {
    /// The exchange failed before a status was received.
    NetworkError(String),
    /// A non-2xx status, with its code and response body.
    HttpError(u16, String),
}

impl ConfigError {
    pub fn message(&self) -> (r: String)
        ensures
            *self == ConfigError::NotFound ==> r@ == "flow not found"@,
            *self == ConfigError::LoadFailure ==> r@ == "could not load the flow store"@,
    {
        match self {
            ConfigError::NotFound => "flow not found".to_owned(),
            ConfigError::LoadFailure => "could not load the flow store".to_owned(),
        }
    }
}

impl FileError {
    pub fn message(&self) -> (r: String)
        ensures
            *self == FileError::NotFound ==> r@ == "file not found"@,
            *self == FileError::ReadFailure ==> r@ == "file could not be read"@,
    {
        match self {
            FileError::NotFound => "file not found".to_owned(),
            FileError::ReadFailure => "file could not be read".to_owned(),
        }
    }
}

impl ParseError {
    pub fn message(&self) -> (r: String)
        ensures
            *self == ParseError::InvalidInlineJson ==> r@ == "invalid inline JSON"@,
            *self == ParseError::SchemaMismatch ==> r@ == "response did not match the engine schema"@,
    {
        match self {
            ParseError::InvalidInlineJson => "invalid inline JSON".to_owned(),
            ParseError::SchemaMismatch => "response did not match the engine schema".to_owned(),
        }
    }
}

} // verus!
