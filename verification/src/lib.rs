//! Discovery-and-registry core of a game mod manager.
//!
//! The library decides which filesystem folders are installations of known
//! games (a composable boolean requirement tree evaluated against a folder),
//! keeps a de-duplicated, sorted registry of discovered games in sync with a
//! persisted set of known paths, and offers a keyed mutual-exclusion table
//! used to serialize operations on the same path.
//!
//! All decision logic is verified over explicit models of what the
//! filesystem reported; the few places that touch the disk or the platform
//! directory service stand behind small trusted wrappers. Persisting
//! records to disk and decoding the per-game configuration file belong to
//! unverified collaborators around the library, which hand their outcomes
//! in as plain values.
use vstd::prelude::*;

pub mod config;
pub mod dirs;
pub mod game;
pub mod game_discovery;
pub mod game_search;
pub mod samples;
pub mod task_guard;

use crate::config::known_games::KnownGamesData;
use crate::game::{Game, SupportedGames};

verus! {

/// Placeholder for the manager's future per-session game bookkeeping.
pub struct ModManagerGames {}

/// Where the manager stands in its start-up sequence.
pub enum ModManagerState {
    /// Game metadata is still being assembled.
    FetchingMetadata,
    /// The catalog is ready and folders are being classified against it.
    DiscoveringGames { library: SupportedGames },
    /// The registry is rebuilt and in sync with the persisted known paths.
    Ready { library: SupportedGames, known_games: KnownGamesData, games: Vec<Game> },
}

} // verus!
