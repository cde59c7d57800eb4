//! The persisted set of folder paths previously confirmed as games.
use vstd::prelude::*;

verus! {

/// The record behind the known-games file: the root paths of every game the
/// registry has confirmed. The registry keeps it equal, path for path, to
/// its in-memory game list.
#[derive(Debug, PartialEq)]
pub struct KnownGamesData {
    pub games: Vec<String>,
}

impl Default for KnownGamesData {
    /// A fresh record knows no games.
    fn default() -> (d: Self)
        ensures
            d.games@.len() == 0,
    {
        KnownGamesData { games: Vec::new() }
    }
}

} // verus!
