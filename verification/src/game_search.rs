//! Scanning a folder for games among its immediate children.
//!
//! Enumerating the children is the host's job: it hands the scanner a
//! [`ScanRoot`] describing what it saw — whether the root existed and was a
//! directory, and for each child what discovery and the configuration
//! collaborator saw of it. The scanner then decides, exactly and without
//! further effects, which children are games: files are skipped, a child
//! that matches no signature is skipped, and a child whose classification
//! failed is skipped too — bulk discovery favours robustness over
//! per-folder diagnostics. It never looks deeper than one level.
use crate::config::game::GameConfig;
use crate::config::ConfigParseError;
use crate::game::{Game, SupportedGames};
use crate::game_discovery::FolderSnapshot;
use vstd::prelude::*;

verus! {

/// An error describing why a folder scan could not start.
#[derive(Debug, Clone, Copy, PartialEq, Eq, Structural)]
pub enum SearchFolderError {
    /// A filesystem error occurred.
    IOError,
    /// The folder does not exist.
    FolderDoesNotExist,
    /// The path is not a folder.
    NotAFolder,
}

/// What the scanner saw of one immediate child of the scan root.
pub struct CandidateFolder {
    /// The child's own path.
    pub path: String,
    /// Whether the child is a directory; files are never games.
    pub is_dir: bool,
    /// The relative paths present under the child, as discovery sees them.
    pub snapshot: FolderSnapshot,
    /// The configuration collaborator's report for the child.
    pub probe: Result<Option<GameConfig>, ConfigParseError>,
}

/// What the scanner saw of the scan root itself.
pub struct ScanRoot {
    pub exists: bool,
    pub is_dir: bool,
    pub children: Vec<CandidateFolder>,
}

/// The children a scan turns into games: directories whose snapshot
/// matches some signature and whose configuration probe succeeded.
pub open spec fn kept_children(cat: SupportedGames, children: Seq<CandidateFolder>) -> Seq<
    CandidateFolder,
> {
    children.filter(
        |c: CandidateFolder| c.is_dir && cat.first_match(c.snapshot@) is Some && c.probe is Ok,
    )
}

/// How `kept_children` grows when one more child is scanned.
proof fn lemma_kept_children_push(cat: SupportedGames, s: Seq<CandidateFolder>, c: CandidateFolder)
    ensures
        kept_children(cat, s.push(c)) == if c.is_dir && cat.first_match(c.snapshot@) is Some
            && c.probe is Ok {
            kept_children(cat, s).push(c)
        } else {
            kept_children(cat, s)
        },
{
    reveal(Seq::filter);
    assert(s.push(c).drop_last() =~= s);
    assert(s.push(c).last() == c);
}

/// A scan of a folder with no children yields no games.
pub proof fn lemma_scan_of_empty_folder(cat: SupportedGames)
    ensures
        kept_children(cat, Seq::<CandidateFolder>::empty()).len() == 0,
{
    reveal(Seq::filter);
}

/// Search a folder and discover games in child folders, ignoring all
/// per-child discovery errors. Fails fast when the root is absent or not
/// a directory, before any child is considered.
#[verifier::loop_isolation(false)]
pub fn search_folder(root: ScanRoot, library: &SupportedGames) -> (r: Result<
    Vec<Game>,
    SearchFolderError,
>)
    ensures
        !root.exists ==> r == Err::<Vec<Game>, SearchFolderError>(
            SearchFolderError::FolderDoesNotExist,
        ),
        root.exists && !root.is_dir ==> r == Err::<Vec<Game>, SearchFolderError>(
            SearchFolderError::NotAFolder,
        ),
        root.exists && root.is_dir ==> (r matches Ok(gs) && gs@.len() == kept_children(
            *library,
            root.children@,
        ).len() && (forall|j: int|
            0 <= j < gs@.len() ==> {
                let c = kept_children(*library, root.children@)[j];
                &&& (#[trigger] gs@[j]).path@ == c.path@
                &&& gs@[j].state.matches_probe(c.probe->Ok_0)
                &&& library.first_match(c.snapshot@) matches Some(s)
                    && gs@[j].metadata.like(library.games@[s])
            })),
{
    if !root.exists {
        return Err(SearchFolderError::FolderDoesNotExist);
    }
    if !root.is_dir {
        return Err(SearchFolderError::NotAFolder);
    }
    let mut children = root.children;
    let ghost all = children@;
    let ghost n = all.len() as int;
    let ghost mut done: int = 0;
    let mut games: Vec<Game> = Vec::new();
    while children.len() > 0
        invariant
            0 <= done,
            done + children@.len() == n,
            all.subrange(done, n) == children@,
            games@.len() == kept_children(*library, all.take(done)).len(),
            forall|j: int|
                0 <= j < games@.len() ==> {
                    let c = kept_children(*library, all.take(done))[j];
                    &&& (#[trigger] games@[j]).path@ == c.path@
                    &&& games@[j].state.matches_probe(c.probe->Ok_0)
                    &&& library.first_match(c.snapshot@) matches Some(s)
                        && games@[j].metadata.like(library.games@[s])
                },
        decreases children@.len(),
    {
        let ghost before = children@;
        let child = children.remove(0);
        let ghost c = all[done];
        proof {
            assert(all.subrange(done, n)[0] == c);
            assert(before.remove(0) =~= all.subrange(done + 1, n));
            assert(all.take(done + 1) =~= all.take(done).push(c));
            lemma_kept_children_push(*library, all.take(done), c);
        }
        if child.is_dir {
            let CandidateFolder { path, is_dir: _, snapshot, probe } = child;
            match library.classify_in(&path, &snapshot, probe) {
                Ok(Some(game)) => {
                    proof {
                        SupportedGames::lemma_first_match_from(library.games@, snapshot@, 0);
                    }
                    games.push(game);
                },
                _ => {
                    proof {
                        SupportedGames::lemma_first_match_from(library.games@, snapshot@, 0);
                    }
                },
            }
        }
        proof {
            done = done + 1;
        }
    }
    proof {
        assert(all.take(done) =~= all);
    }
    Ok(games)
}

} // verus!
