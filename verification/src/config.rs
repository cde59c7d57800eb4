//! Plain records for the manager's persisted configuration.
//!
//! Encoding these records to disk and decoding them back is the job of an
//! unverified persistence collaborator around the library; the library only
//! works on the decoded values and reports, through [`ConfigParseError`],
//! which of the collaborator's two failure modes it was handed.
use vstd::prelude::*;

pub mod game;
pub mod known_games;
pub mod settings;

verus! {

/// Why a persisted configuration record could not be produced.
#[derive(Debug, Clone, Copy, PartialEq, Eq, Structural)]
pub enum ConfigParseError {
    /// The backing file was present but its contents did not decode.
    DeserializeError,
    /// The backing file could not be read at all.
    IOError,
}

} // verus!
