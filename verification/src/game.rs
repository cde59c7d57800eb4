//! Game signatures, discovered games, and the registry that keeps the
//! discovered list in sync with the persisted set of known paths.
//!
//! Reading the disk and decoding the per-game configuration file are done by
//! collaborators around the library: classification takes the configuration
//! probe's outcome as a value, and the only filesystem touch here is the
//! existence probing inherited from the discovery module.
use crate::config::game::GameConfig;
use crate::config::known_games::KnownGamesData;
use crate::config::ConfigParseError;
use crate::game_discovery::{
    snapshot_of_rel_paths, FolderSnapshot, GameDiscoveryError, GameDiscoveryRequirement,
};
use vstd::prelude::*;

verus! {

broadcast use vstd::seq_lib::group_to_multiset_ensures;

/// The representation of a game's metadata, such as the name, internal
/// content folder, icon, etc.
#[derive(Debug)]
pub struct GameMetadata {
    /// Relative path of the game's content folder inside its root folder.
    pub contentpath_relative: String,
    /// The display name of the game.
    pub name: String,
    /// The game slug.
    pub internal_name: String,
    /// The manifest for the modloader, often unique to each game.
    pub modloader_manifest: String,
    /// The discovery requirements that identify a folder as this game.
    pub discovery: GameDiscoveryRequirement,
    pub icon: (),
}

impl GameMetadata {
    /// `self` describes the same game as `other`: every text field reads the
    /// same and the discovery trees are the same requirement.
    pub open spec fn like(self, other: Self) -> bool {
        &&& self.contentpath_relative@ == other.contentpath_relative@
        &&& self.name@ == other.name@
        &&& self.internal_name@ == other.internal_name@
        &&& self.modloader_manifest@ == other.modloader_manifest@
        &&& self.discovery.same_req(other.discovery)
    }
}

impl Clone for GameMetadata {
    /// The clone describes the same game.
    fn clone(&self) -> (res: Self)
        ensures
            res.like(*self),
    {
        GameMetadata {
            contentpath_relative: self.contentpath_relative.clone(),
            name: self.name.clone(),
            internal_name: self.internal_name.clone(),
            modloader_manifest: self.modloader_manifest.clone(),
            discovery: self.discovery.clone(),
            icon: (),
        }
    }
}

/// The state the manager found inside a discovered game's folder.
#[derive(Debug)]
pub enum GameState {
    /// No manager-owned configuration was present.
    Unpatched,
    /// The manager's configuration was present and decoded to this value.
    Patched(GameConfig),
}

impl GameState {
    /// The state a successful configuration probe maps to.
    pub open spec fn matches_probe(self, probe: Option<GameConfig>) -> bool {
        match probe {
            Option::None => self is Unpatched,
            Option::Some(c) => self is Patched && self->Patched_0 == c,
        }
    }

    /// Fold the configuration collaborator's report for a game folder into
    /// the game's state: no configuration means unpatched, a decoded
    /// configuration means patched with it, and a failed probe fails.
    pub fn parse_in_path(probe: Result<Option<GameConfig>, ConfigParseError>) -> (r: Result<
        GameState,
        ConfigParseError,
    >)
        ensures
            probe matches Ok(p) ==> r matches Ok(s) && s.matches_probe(p),
            probe matches Err(e) ==> r == Err::<GameState, ConfigParseError>(e),
    {
        match probe {
            Ok(None) => Ok(GameState::Unpatched),
            Ok(Some(config)) => Ok(GameState::Patched(config)),
            Err(e) => Err(e),
        }
    }
}

/// The representation of a game folder, with the metadata of the signature
/// it matched and the manager-related state found inside it.
#[derive(Debug)]
pub struct Game {
    /// The root path of the game folder.
    pub path: String,
    pub metadata: GameMetadata,
    pub state: GameState,
}

impl Game {
    /// Build the game discovered at `path` from its matched signature and
    /// the configuration probe's outcome for that folder.
    pub fn from_path(
        path: &String,
        metadata: GameMetadata,
        probe: Result<Option<GameConfig>, ConfigParseError>,
    ) -> (r: Result<Game, ConfigParseError>)
        ensures
            probe matches Ok(p) ==> r matches Ok(g) && g.path@ == path@ && g.metadata == metadata
                && g.state.matches_probe(p),
            probe matches Err(e) ==> r == Err::<Game, ConfigParseError>(e),
    {
        match GameState::parse_in_path(probe) {
            Ok(state) => Ok(Game { path: path.clone(), metadata, state }),
            Err(e) => Err(e),
        }
    }
}

/// All known games that the mod manager can discover.
#[derive(Debug)]
pub struct SupportedGames {
    pub games: Vec<GameMetadata>,
}

impl SupportedGames {
    /// Create a new catalog of supported games. Catalog order is
    /// significant: classification reports the first signature that
    /// matches, so authors order from most to least specific.
    pub fn new(games: Vec<GameMetadata>) -> (s: Self)
        ensures
            s.games == games,
    {
        SupportedGames { games }
    }

    /// The least catalog index at or after `from` whose discovery
    /// requirement holds of `present`.
    pub open spec fn first_match_from(
        catalog: Seq<GameMetadata>,
        present: Set<Seq<char>>,
        from: int,
    ) -> Option<int>
        decreases catalog.len() - from
        when 0 <= from <= catalog.len()
    {
        if from >= catalog.len() {
            Option::None
        } else if catalog[from].discovery.holds(present) {
            Option::Some(from)
        } else {
            Self::first_match_from(catalog, present, from + 1)
        }
    }

    /// The catalog index classification reports for a folder that looks
    /// like `present`, if any signature matches.
    pub open spec fn first_match(self, present: Set<Seq<char>>) -> Option<int> {
        Self::first_match_from(self.games@, present, 0)
    }

    /// What `first_match_from` returns: the least matching index at or
    /// after `from`, or nothing when no index at or after `from` matches.
    pub proof fn lemma_first_match_from(
        catalog: Seq<GameMetadata>,
        present: Set<Seq<char>>,
        from: int,
    )
        requires
            0 <= from <= catalog.len(),
        ensures
            match Self::first_match_from(catalog, present, from) {
                Option::Some(i) => from <= i < catalog.len() && catalog[i].discovery.holds(present)
                    && forall|k: int|
                        from <= k < i ==> !(#[trigger] catalog[k].discovery).holds(present),
                Option::None => forall|k: int|
                    from <= k < catalog.len() ==> !(#[trigger] catalog[k].discovery).holds(present),
            },
        decreases catalog.len() - from,
    {
        if from < catalog.len() && !catalog[from].discovery.holds(present) {
            Self::lemma_first_match_from(catalog, present, from + 1);
        }
    }

    /// Classification order is deterministic: of two signatures that both
    /// match a folder, classification reports the one listed first.
    pub proof fn lemma_classification_prefers_first(
        catalog: Seq<GameMetadata>,
        present: Set<Seq<char>>,
    )
        requires
            catalog.len() == 2,
            catalog[0].discovery.holds(present),
            catalog[1].discovery.holds(present),
        ensures
            Self::first_match_from(catalog, present, 0) == Option::Some(0int),
    {
    }

    /// The full classification table for a folder that looks like
    /// `present`: no match is `Ok(None)`, a failed probe under a match is
    /// that error, and a successful probe under a match is the game of the
    /// first matching signature, at the folder's path, in the probed
    /// state.
    pub open spec fn classification_result(
        self,
        path: Seq<char>,
        present: Set<Seq<char>>,
        probe: Result<Option<GameConfig>, ConfigParseError>,
        r: Result<Option<Game>, GameDiscoveryError>,
    ) -> bool {
        &&& (self.first_match(present) is None ==> r == Ok::<Option<Game>, GameDiscoveryError>(
            None,
        ))
        &&& (probe matches Err(e) ==> self.first_match(present) is Some ==> r == Err::<
            Option<Game>,
            GameDiscoveryError,
        >(GameDiscoveryError::GameConfigParseError(e)))
        &&& (probe matches Ok(p) ==> self.first_match(present) matches Some(i) ==> (r matches Ok(
            og,
        ) && og matches Some(g) && g.path@ == path && g.metadata.like(self.games@[i])
            && g.state.matches_probe(p)))
    }

    /// A folder this catalog's probing could have seen: one under which
    /// only paths some signature mentions are present.
    pub open spec fn admissible_snapshot(self, present: Set<Seq<char>>) -> bool {
        forall|p: Seq<char>| #[trigger] present.contains(p) ==> Self::from_some_signature(
            p,
            self.games@,
        )
    }

    /// Classify one folder against the catalog, given what the folder
    /// looked like (`snap`) and what the configuration collaborator
    /// reported for it (`probe`): the first matching signature wins, a
    /// folder matching no signature is no error, and a failed probe
    /// surfaces only when some signature matched.
    #[verifier::loop_isolation(false)]
    pub fn classify_in(
        &self,
        path: &String,
        snap: &FolderSnapshot,
        probe: Result<Option<GameConfig>, ConfigParseError>,
    ) -> (r: Result<Option<Game>, GameDiscoveryError>)
        ensures
            self.classification_result(path@, snap@, probe, r),
    {
        let n = self.games.len();
        let mut i: usize = 0;
        while i < n
            invariant
                i <= n,
                forall|k: int| 0 <= k < i ==> !(#[trigger] self.games@[k].discovery).holds(snap@),
            decreases n - i,
        {
            if self.games[i].discovery.eval_in(snap) {
                proof {
                    Self::lemma_first_match_from(self.games@, snap@, 0);
                }
                let metadata = self.games[i].clone();
                return match Game::from_path(path, metadata, probe) {
                    Ok(game) => Ok(Some(game)),
                    Err(e) => Err(GameDiscoveryError::GameConfigParseError(e)),
                };
            }
            i += 1;
        }
        proof {
            Self::lemma_first_match_from(self.games@, snap@, 0);
        }
        Ok(None)
    }

    /// `p` is one of the relative paths some signature's requirement
    /// mentions.
    pub open spec fn from_some_signature(p: Seq<char>, catalog: Seq<GameMetadata>) -> bool {
        exists|i: int|
            0 <= i < catalog.len() && (#[trigger] catalog[i]).discovery.rel_paths().contains(p)
    }

    /// Every relative path any signature's requirement mentions.
    #[verifier::loop_isolation(false)]
    pub fn all_rel_paths(&self) -> (rels: Vec<String>)
        ensures
            forall|k: int|
                0 <= k < rels@.len() ==> Self::from_some_signature(
                    (#[trigger] rels@[k])@,
                    self.games@,
                ),
    {
        let mut rels: Vec<String> = Vec::new();
        let n = self.games.len();
        let mut i: usize = 0;
        while i < n
            invariant
                i <= n,
                forall|k: int|
                    0 <= k < rels@.len() ==> Self::from_some_signature(
                        (#[trigger] rels@[k])@,
                        self.games@,
                    ),
            decreases n - i,
        {
            let ghost mid = rels@;
            self.games[i].discovery.collect_rel_paths(&mut rels);
            proof {
                let ghost blk = self.games@[i as int].discovery.rel_paths();
                assert forall|k: int| 0 <= k < rels@.len() implies Self::from_some_signature(
                    (#[trigger] rels@[k])@,
                    self.games@,
                ) by {
                    if k >= mid.len() {
                        let k2 = k - mid.len();
                        assert(rels@[mid.len() + k2]@ == blk[k2]);
                        assert(blk.contains(rels@[k]@));
                    }
                }
            }
            i += 1;
        }
        rels
    }

    /// Probe the folder at `path` for every path any signature mentions,
    /// capturing what classification will see of it: only paths some
    /// signature mentions are recorded, those the disk reported present.
    pub fn snapshot_under(&self, path: &String) -> (snap: FolderSnapshot)
        ensures
            forall|k: int|
                0 <= k < snap.present@.len() ==> Self::from_some_signature(
                    (#[trigger] snap.present@[k])@,
                    self.games@,
                ),
    {
        let rels = self.all_rel_paths();
        let snap = snapshot_of_rel_paths(path, &rels);
        proof {
            assert forall|k: int| 0 <= k < snap.present@.len() implies Self::from_some_signature(
                (#[trigger] snap.present@[k])@,
                self.games@,
            ) by {
                assert(crate::game_discovery::mentioned_in(snap.present@[k]@, rels@));
                let i = choose|i: int|
                    0 <= i < rels@.len() && snap.present@[k]@ == (#[trigger] rels@[i])@;
                assert(Self::from_some_signature(rels@[i]@, self.games@));
            }
        }
        snap
    }

    /// Discover whether the folder at `path` is a supported game: probe the
    /// disk once, then classify. The configuration collaborator's report
    /// for this folder is handed in as `probe`. Which of the mentioned
    /// paths the disk reports present is the disk's choice, but the result
    /// follows the full classification table against some admissible
    /// snapshot — first match wins, no match is no error, and a failed
    /// probe surfaces exactly when some signature matched.
    pub fn discover_folder(
        &self,
        path: &String,
        probe: Result<Option<GameConfig>, ConfigParseError>,
    ) -> (r: Result<Option<Game>, GameDiscoveryError>)
        ensures
            exists|present: Set<Seq<char>>|
                self.admissible_snapshot(present) && self.classification_result(
                    path@,
                    present,
                    probe,
                    r,
                ),
            r matches Ok(og) ==> og matches Some(g) ==> (probe matches Ok(p) && g.path@ == path@
                && g.state.matches_probe(p) && (exists|i: int|
                0 <= i < self.games@.len() && g.metadata.like(#[trigger] self.games@[i]))),
            r matches Err(e) ==> (probe matches Err(pe) && e
                == GameDiscoveryError::GameConfigParseError(pe)),
    {
        let snap = self.snapshot_under(path);
        let r = self.classify_in(path, &snap, probe);
        proof {
            Self::lemma_first_match_from(self.games@, snap@, 0);
            assert forall|p: Seq<char>| snap@.contains(p) implies Self::from_some_signature(
                p,
                self.games@,
            ) by {
                let t = choose|t: int| 0 <= t < snap.present@.len() && snap.present@[t]@ == p;
                assert(Self::from_some_signature(snap.present@[t]@, self.games@));
            }
            assert(self.admissible_snapshot(snap@) && self.classification_result(
                path@,
                snap@,
                probe,
                r,
            ));
        }
        r
    }
}

/// Lexicographic character order on text: the order the registry sorts by.
pub open spec fn lex_le(a: Seq<char>, b: Seq<char>) -> bool
    decreases a.len(),
{
    if a.len() == 0 {
        true
    } else if b.len() == 0 {
        false
    } else if a[0] < b[0] {
        true
    } else if b[0] < a[0] {
        false
    } else {
        lex_le(a.skip(1), b.skip(1))
    }
}

pub proof fn lemma_lex_le_refl(a: Seq<char>)
    ensures
        lex_le(a, a),
    decreases a.len(),
{
    if a.len() > 0 {
        lemma_lex_le_refl(a.skip(1));
    }
}

pub proof fn lemma_lex_le_total(a: Seq<char>, b: Seq<char>)
    ensures
        lex_le(a, b) || lex_le(b, a),
    decreases a.len(),
{
    if a.len() > 0 && b.len() > 0 && !(a[0] < b[0]) && !(b[0] < a[0]) {
        lemma_lex_le_total(a.skip(1), b.skip(1));
    }
}

pub proof fn lemma_lex_le_antisym(a: Seq<char>, b: Seq<char>)
    requires
        lex_le(a, b),
        lex_le(b, a),
    ensures
        a == b,
    decreases a.len(),
{
    if a.len() == 0 {
        assert(b.len() == 0);
        assert(a =~= b);
    } else {
        assert(b.len() > 0);
        assert(!(a[0] < b[0]) && !(b[0] < a[0]));
        lemma_lex_le_antisym(a.skip(1), b.skip(1));
        assert forall|i: int| 0 <= i < a.len() implies a[i] == b[i] by {
            if i > 0 {
                assert(a.skip(1)[i - 1] == b.skip(1)[i - 1]);
            }
        }
        assert(a =~= b);
    }
}

pub proof fn lemma_lex_le_trans(a: Seq<char>, b: Seq<char>, c: Seq<char>)
    requires
        lex_le(a, b),
        lex_le(b, c),
    ensures
        lex_le(a, c),
    decreases a.len(),
{
    if a.len() > 0 {
        assert(b.len() > 0);
        assert(c.len() > 0);
        if !(a[0] < c[0]) && !(c[0] < a[0]) {
            if !(a[0] < b[0]) && !(b[0] < a[0]) && !(b[0] < c[0]) && !(c[0] < b[0]) {
                lemma_lex_le_trans(a.skip(1), b.skip(1), c.skip(1));
            }
        }
    }
}

/// Registry order on games: by display name, ties broken by root path, so
/// that presentation is deterministic.
pub open spec fn game_le(g1: Game, g2: Game) -> bool {
    ||| (lex_le(g1.metadata.name@, g2.metadata.name@) && g1.metadata.name@ != g2.metadata.name@)
    ||| (g1.metadata.name@ == g2.metadata.name@ && lex_le(g1.path@, g2.path@))
}

pub proof fn lemma_game_le_total(g1: Game, g2: Game)
    ensures
        game_le(g1, g2) || game_le(g2, g1),
{
    lemma_lex_le_total(g1.metadata.name@, g2.metadata.name@);
    lemma_lex_le_total(g1.path@, g2.path@);
    if lex_le(g1.metadata.name@, g2.metadata.name@) && lex_le(
        g2.metadata.name@,
        g1.metadata.name@,
    ) {
        lemma_lex_le_antisym(g1.metadata.name@, g2.metadata.name@);
    }
}

pub proof fn lemma_game_le_trans(g1: Game, g2: Game, g3: Game)
    requires
        game_le(g1, g2),
        game_le(g2, g3),
    ensures
        game_le(g1, g3),
{
    let n1 = g1.metadata.name@;
    let n2 = g2.metadata.name@;
    let n3 = g3.metadata.name@;
    if n1 == n2 {
        lemma_lex_le_refl(n1);
    }
    if n2 == n3 {
        lemma_lex_le_refl(n2);
    }
    lemma_lex_le_trans(n1, n2, n3);
    if n1 == n3 {
        if n1 != n2 {
            lemma_lex_le_antisym(n1, n2);
        }
        lemma_lex_le_trans(g1.path@, g2.path@, g3.path@);
    }
}

/// Compare two pieces of text in lexicographic character order.
#[verifier::loop_isolation(false)]
pub fn str_le(a: &str, b: &str) -> (r: bool)
    ensures
        r == lex_le(a@, b@),
{
    let na = a.unicode_len();
    let nb = b.unicode_len();
    let mut i: usize = 0;
    proof {
        assert(a@.skip(0) =~= a@);
        assert(b@.skip(0) =~= b@);
    }
    while i < na && i < nb
        invariant
            i <= na,
            i <= nb,
            na == a@.len(),
            nb == b@.len(),
            lex_le(a@, b@) == lex_le(a@.skip(i as int), b@.skip(i as int)),
        decreases na - i,
    {
        let ca = a.get_char(i);
        let cb = b.get_char(i);
        proof {
            assert(a@.skip(i as int)[0] == a@[i as int]);
            assert(b@.skip(i as int)[0] == b@[i as int]);
        }
        if ca < cb {
            return true;
        }
        if cb < ca {
            return false;
        }
        proof {
            assert(a@.skip(i as int).skip(1) =~= a@.skip(i + 1));
            assert(b@.skip(i as int).skip(1) =~= b@.skip(i + 1));
        }
        i += 1;
    }
    if i >= na {
        assert(a@.skip(i as int).len() == 0);
        true
    } else {
        assert(b@.skip(i as int).len() == 0);
        assert(a@.skip(i as int).len() > 0);
        false
    }
}

/// Compare two games in registry order.
pub fn game_le_exec(g1: &Game, g2: &Game) -> (r: bool)
    ensures
        r == game_le(*g1, *g2),
{
    let names_eq = g1.metadata.name == g2.metadata.name;
    if names_eq {
        str_le(g1.path.as_str(), g2.path.as_str())
    } else {
        str_le(g1.metadata.name.as_str(), g2.metadata.name.as_str())
    }
}

/// The registry's comparator: games are ordered by display name, with ties
/// broken by root path.
pub fn game_sorting_fn(g1: &Game, g2: &Game) -> (r: std::cmp::Ordering)
    ensures
        r is Equal <==> (g1.metadata.name@ == g2.metadata.name@ && g1.path@ == g2.path@),
        r is Less ==> game_le(*g1, *g2),
        r is Greater ==> !game_le(*g1, *g2),
{
    let names_eq = g1.metadata.name == g2.metadata.name;
    let paths_eq = g1.path == g2.path;
    if names_eq && paths_eq {
        proof {
            lemma_lex_le_refl(g1.path@);
        }
        std::cmp::Ordering::Equal
    } else if game_le_exec(g1, g2) {
        proof {
            if g1.metadata.name@ == g2.metadata.name@ && g1.path@ == g2.path@ {
                assert(false);
            }
        }
        std::cmp::Ordering::Less
    } else {
        std::cmp::Ordering::Greater
    }
}

/// The games are in registry order.
pub open spec fn sorted_games(s: Seq<Game>) -> bool {
    forall|i: int, j: int| 0 <= i < j < s.len() ==> game_le(#[trigger] s[i], #[trigger] s[j])
}

/// Index of a least game (in registry order) in a non-empty list.
#[verifier::loop_isolation(false)]
fn find_min_index(v: &Vec<Game>) -> (m: usize)
    requires
        v@.len() > 0,
    ensures
        m < v@.len(),
        forall|j: int| 0 <= j < v@.len() ==> game_le(v@[m as int], #[trigger] v@[j]),
{
    let mut m: usize = 0;
    proof {
        lemma_game_le_total(v@[0], v@[0]);
    }
    let mut i: usize = 1;
    while i < v.len()
        invariant
            m < i <= v@.len(),
            forall|j: int| 0 <= j < i ==> game_le(v@[m as int], #[trigger] v@[j]),
        decreases v@.len() - i,
    {
        if game_le_exec(&v[i], &v[m]) {
            proof {
                assert forall|j: int| 0 <= j < i + 1 implies game_le(
                    v@[i as int],
                    #[trigger] v@[j],
                ) by {
                    if j < i {
                        lemma_game_le_trans(v@[i as int], v@[m as int], v@[j]);
                    } else {
                        lemma_game_le_total(v@[i as int], v@[i as int]);
                    }
                }
            }
            m = i;
        } else {
            proof {
                lemma_game_le_total(v@[m as int], v@[i as int]);
            }
        }
        i += 1;
    }
    m
}

/// Sort games into registry order, keeping exactly the same games.
#[verifier::loop_isolation(false)]
fn sort_games(input: Vec<Game>) -> (out: Vec<Game>)
    ensures
        out@.to_multiset() == input@.to_multiset(),
        sorted_games(out@),
{
    let mut rem = input;
    let mut out: Vec<Game> = Vec::new();
    while rem.len() > 0
        invariant
            out@.to_multiset().add(rem@.to_multiset()) == input@.to_multiset(),
            sorted_games(out@),
            forall|i: int, j: int|
                0 <= i < out@.len() && 0 <= j < rem@.len() ==> game_le(
                    #[trigger] out@[i],
                    #[trigger] rem@[j],
                ),
        decreases rem@.len(),
    {
        let m = find_min_index(&rem);
        let ghost old_out = out@;
        let ghost old_rem = rem@;
        let g = rem.remove(m);
        out.push(g);
        proof {
            assert(out@.to_multiset().add(rem@.to_multiset()) =~= input@.to_multiset()) by {
                assert(out@.to_multiset() =~= old_out.to_multiset().insert(g));
                assert(rem@.to_multiset() =~= old_rem.to_multiset().remove(g));
                assert(old_rem.to_multiset().count(g) > 0);
            }
            assert forall|i: int, j: int|
                0 <= i < j < out@.len() implies game_le(
                #[trigger] out@[i],
                #[trigger] out@[j],
            ) by {
                if j == out@.len() - 1 {
                    assert(out@[j] == old_rem[m as int]);
                }
            }
            assert forall|i: int, j: int|
                0 <= i < out@.len() && 0 <= j < rem@.len() implies game_le(
                #[trigger] out@[i],
                #[trigger] rem@[j],
            ) by {
                let jj: int = if j < m { j } else { j + 1 };
                assert(rem@[j] == old_rem[jj]);
                if i < out@.len() - 1 {
                    assert(game_le(old_out[i], old_rem[jj]));
                } else {
                    assert(out@[i] == old_rem[m as int]);
                    assert(game_le(old_rem[m as int], old_rem[jj]));
                }
            }
        }
    }
    out
}

/// The authoritative registry: the list of discovered games together with
/// the persisted record of known game paths, kept equal to the list.
pub struct GameLibrary {
    pub games: Vec<Game>,
    pub known_games: KnownGamesData,
}

impl GameLibrary {
    /// No two registered games share a root path.
    pub open spec fn distinct_paths(s: Seq<Game>) -> bool {
        forall|i: int, j: int| 0 <= i < j < s.len() ==> s[i].path@ != s[j].path@
    }

    /// The persisted known-path record lists exactly the registered games'
    /// paths, in order: no orphans, no missing entries.
    pub open spec fn in_sync(self) -> bool {
        &&& self.known_games.games@.len() == self.games@.len()
        &&& forall|i: int|
            0 <= i < self.games@.len() ==> self.known_games.games@[i]@ == (
            #[trigger] self.games@[i]).path@
    }

    /// Registry invariant: at most one game per root path, and the
    /// persisted path record in sync with the list.
    pub open spec fn wf(self) -> bool {
        &&& Self::distinct_paths(self.games@)
        &&& self.in_sync()
    }

    /// The game list after an add-or-replace of `g`: games with `g`
    /// substituted for the entry sharing its path, or appended when no
    /// entry shares it.
    pub open spec fn updated_games(s: Seq<Game>, g: Game) -> Seq<Game> {
        if exists|i: int| 0 <= i < s.len() && (#[trigger] s[i]).path@ == g.path@ {
            s.update(choose|i: int| 0 <= i < s.len() && (#[trigger] s[i]).path@ == g.path@, g)
        } else {
            s.push(g)
        }
    }

    /// The ordered, read-only list of discovered games.
    pub fn games(&self) -> (r: &Vec<Game>)
        ensures
            r == self.games,
    {
        &self.games
    }

    /// Register a discovered game: the entry with the same root path is
    /// replaced in place (latest state wins), otherwise the game is
    /// appended; then the registry order is restored and the known-path
    /// record rewritten to match.
    #[verifier::loop_isolation(false)]
    pub fn add_game(&mut self, game: Game)
        requires
            old(self).wf(),
        ensures
            final(self).wf(),
            sorted_games(final(self).games@),
            final(self).games@.to_multiset() == Self::updated_games(
                old(self).games@,
                game,
            ).to_multiset(),
    {
        let ghost orig = self.games@;
        let n = self.games.len();
        let mut idx: Option<usize> = None;
        let mut i: usize = 0;
        while i < n
            invariant
                i <= n,
                match idx {
                    Option::None => forall|k: int| 0 <= k < i ==> orig[k].path@ != game.path@,
                    Option::Some(j) => j < i && orig[j as int].path@ == game.path@,
                },
                self.games@ == orig,
                self.known_games == old(self).known_games,
            decreases n - i,
        {
            if idx.is_none() {
                if self.games[i].path == game.path {
                    idx = Some(i);
                }
            }
            i += 1;
        }
        match idx {
            Some(j) => {
                proof {
                    let w = choose|k: int|
                        0 <= k < orig.len() && (#[trigger] orig[k]).path@ == game.path@;
                    assert(w == j);
                }
                self.games[j] = game;
                assert(self.games@ == Self::updated_games(orig, game));
            },
            None => {
                self.games.push(game);
                assert(self.games@ == Self::updated_games(orig, game));
            },
        }
        proof {
            lemma_multiset_keeps_distinct_paths(self.games@, self.games@);
            assert(Self::distinct_paths(self.games@)) by {
                assert forall|a: int, b: int|
                    0 <= a < b < self.games@.len() implies self.games@[a].path@
                    != self.games@[b].path@ by {
                    if self.games@ == orig.push(game) {
                        if b == orig.len() {
                            assert(orig[a].path@ != game.path@);
                        }
                    }
                }
            }
        }
        self.normalize_from_games();
    }

    /// Restore registry order and rewrite the known-path record to list
    /// exactly the current games.
    #[verifier::loop_isolation(false)]
    fn normalize_from_games(&mut self)
        requires
            Self::distinct_paths(old(self).games@),
        ensures
            final(self).wf(),
            sorted_games(final(self).games@),
            final(self).games@.to_multiset() == old(self).games@.to_multiset(),
    {
        let mut taken: Vec<Game> = Vec::new();
        core::mem::swap(&mut taken, &mut self.games);
        let sorted = sort_games(taken);
        proof {
            lemma_multiset_keeps_distinct_paths(old(self).games@, sorted@);
        }
        self.games = sorted;
        let mut paths: Vec<String> = Vec::new();
        let n = self.games.len();
        let mut i: usize = 0;
        while i < n
            invariant
                i <= n,
                paths@.len() == i,
                forall|k: int| 0 <= k < i ==> paths@[k]@ == (#[trigger] self.games@[k]).path@,
            decreases n - i,
        {
            let p = self.games[i].path.clone();
            paths.push(p);
            i += 1;
        }
        self.known_games = KnownGamesData { games: paths };
    }

    /// The stated outcome of a registry rebuild from `entries`: a
    /// well-formed registry holding, in order, exactly the kept entries'
    /// games — each at its entry's path, in its entry's probed state, with
    /// the metadata of the first signature its entry's snapshot matches.
    pub open spec fn rebuild_result(
        supported: SupportedGames,
        entries: Seq<(String, FolderSnapshot, Result<Option<GameConfig>, ConfigParseError>)>,
        lib: GameLibrary,
    ) -> bool {
        &&& lib.wf()
        &&& lib.games@.len() == Self::kept_entries(supported, entries).len()
        &&& forall|j: int|
            0 <= j < lib.games@.len() ==> {
                let e = Self::kept_entries(supported, entries)[j];
                &&& (#[trigger] lib.games@[j]).path@ == e.0@
                &&& lib.games@[j].state.matches_probe(e.2->Ok_0)
                &&& supported.first_match(e.1@) matches Some(s) && lib.games@[j].metadata.like(
                    supported.games@[s],
                )
            }
    }

    /// Rebuild the registry from what discovery saw of each known path.
    /// Each entry carries a previously known root path, the snapshot the
    /// catalog's requirements see of that folder, and the configuration
    /// collaborator's report for it. Paths that no longer classify as a
    /// game are dropped; the known-path record is left equal to what
    /// survived. The list keeps classification order: callers wanting
    /// registry order add games through `add_game`.
    #[verifier::loop_isolation(false)]
    pub fn init_in(
        supported: &SupportedGames,
        entries: Vec<(String, FolderSnapshot, Result<Option<GameConfig>, ConfigParseError>)>,
    ) -> (lib: GameLibrary)
        requires
            forall|i: int, j: int|
                0 <= i < j < entries@.len() ==> (#[trigger] entries@[i]).0@ != (
                #[trigger] entries@[j]).0@,
        ensures
            Self::rebuild_result(*supported, entries@, lib),
    {
        let mut entries = entries;
        let ghost all = entries@;
        let mut games: Vec<Game> = Vec::new();
        let ghost mut done: int = 0;
        let ghost n = all.len() as int;
        while entries.len() > 0
            invariant
                0 <= done,
                done + entries@.len() == n,
                all.subrange(done, n) == entries@,
                games@.len() == Self::kept_entries(*supported, all.take(done)).len(),
                forall|j: int|
                    0 <= j < games@.len() ==> {
                        let e = Self::kept_entries(*supported, all.take(done))[j];
                        &&& (#[trigger] games@[j]).path@ == e.0@
                        &&& games@[j].state.matches_probe(e.2->Ok_0)
                        &&& supported.first_match(e.1@) matches Some(s)
                            && games@[j].metadata.like(supported.games@[s])
                    },
                forall|j: int|
                    0 <= j < games@.len() ==> exists|k: int|
                        0 <= k < done && (#[trigger] games@[j]).path@ == all[k].0@,
            decreases entries@.len(),
        {
            let ghost before = entries@;
            let (path, snap, probe) = entries.remove(0);
            let ghost e = all[done];
            proof {
                assert(all.subrange(done, n)[0] == e);
                assert(before.remove(0) =~= all.subrange(done + 1, n));
                assert(all.take(done + 1) =~= all.take(done).push(e));
                lemma_kept_entries_push(*supported, all.take(done), e);
            }
            match supported.classify_in(&path, &snap, probe) {
                Ok(Some(game)) => {
                    proof {
                        SupportedGames::lemma_first_match_from(supported.games@, snap@, 0);
                    }
                    games.push(game);
                },
                _ => {
                    proof {
                        SupportedGames::lemma_first_match_from(supported.games@, snap@, 0);
                    }
                },
            }
            proof {
                done = done + 1;
            }
        }
        proof {
            assert(all.take(done) =~= all);
        }
        let mut paths: Vec<String> = Vec::new();
        let m = games.len();
        let mut i: usize = 0;
        while i < m
            invariant
                i <= m,
                paths@.len() == i,
                forall|k: int| 0 <= k < i ==> paths@[k]@ == (#[trigger] games@[k]).path@,
            decreases m - i,
        {
            let p = games[i].path.clone();
            paths.push(p);
            i += 1;
        }
        let lib = GameLibrary { games, known_games: KnownGamesData { games: paths } };
        proof {
            assert forall|a: int, b: int|
                0 <= a < b < lib.games@.len() implies lib.games@[a].path@
                != lib.games@[b].path@ by {
                lemma_kept_entries_distinct(*supported, all, a, b);
            }
        }
        lib
    }

    /// The entries a registry rebuild keeps: those whose folder still
    /// matches some signature and whose configuration probe succeeded.
    pub open spec fn kept_entries(
        supported: SupportedGames,
        entries: Seq<(String, FolderSnapshot, Result<Option<GameConfig>, ConfigParseError>)>,
    ) -> Seq<(String, FolderSnapshot, Result<Option<GameConfig>, ConfigParseError>)> {
        entries.filter(
            |e: (String, FolderSnapshot, Result<Option<GameConfig>, ConfigParseError>)|
                supported.first_match(e.1@) is Some && e.2 is Ok,
        )
    }

    /// Rebuild the registry from the persisted known paths, probing the
    /// disk for each: paths whose folder no longer matches, or whose
    /// configuration probe failed, are silently dropped. `probes[i]` is
    /// the configuration collaborator's report for `known.games[i]`.
    #[verifier::loop_isolation(false)]
    pub fn init(
        supported: &SupportedGames,
        known: &KnownGamesData,
        probes: Vec<Result<Option<GameConfig>, ConfigParseError>>,
    ) -> (lib: GameLibrary)
        requires
            probes@.len() == known.games@.len(),
            forall|i: int, j: int|
                0 <= i < j < known.games@.len() ==> known.games@[i]@ != known.games@[j]@,
        ensures
            lib.wf(),
            forall|j: int|
                0 <= j < lib.games@.len() ==> Self::path_known(
                    #[trigger] lib.games@[j],
                    known.games@,
                ),
            exists|entries: Seq<(String, FolderSnapshot, Result<Option<GameConfig>, ConfigParseError>)>|
                Self::entries_for(entries, known.games@, probes@, *supported)
                    && Self::rebuild_result(*supported, entries, lib),
    {
        let mut probes = probes;
        let ghost all_probes = probes@;
        let mut entries: Vec<(String, FolderSnapshot, Result<Option<GameConfig>, ConfigParseError>)> =
            Vec::new();
        let n = known.games.len();
        let mut i: usize = 0;
        while i < n
            invariant
                i <= n,
                probes@ == all_probes.subrange(i as int, n as int),
                entries@.len() == i,
                forall|k: int| 0 <= k < i ==> (#[trigger] entries@[k]).0@ == known.games@[k]@,
                forall|k: int| 0 <= k < i ==> (#[trigger] entries@[k]).2 == all_probes[k],
                forall|k: int|
                    0 <= k < i ==> supported.admissible_snapshot((#[trigger] entries@[k]).1@),
            decreases n - i,
        {
            let ghost probes_before = probes@;
            let probe = probes.remove(0);
            proof {
                assert(probes_before[0] == all_probes[i as int]);
                assert(probes_before.remove(0) =~= all_probes.subrange(i + 1, n as int));
            }
            let path = known.games[i].clone();
            let snap = supported.snapshot_under(&path);
            proof {
                assert forall|p: Seq<char>| snap@.contains(
                    p,
                ) implies SupportedGames::from_some_signature(p, supported.games@) by {
                    let t = choose|t: int|
                        0 <= t < snap.present@.len() && snap.present@[t]@ == p;
                    assert(SupportedGames::from_some_signature(
                        snap.present@[t]@,
                        supported.games@,
                    ));
                }
                assert(supported.admissible_snapshot(snap@));
            }
            entries.push((path, snap, probe));
            i += 1;
        }
        let ghost ev = entries@;
        let lib = Self::init_in(supported, entries);
        proof {
            assert(Self::entries_for(ev, known.games@, all_probes, *supported)
                && Self::rebuild_result(*supported, ev, lib));
        }
        assert forall|j: int| 0 <= j < lib.games@.len() implies Self::path_known(
            lib.games@[j],
            known.games@,
        ) by {
            let kept = Self::kept_entries(*supported, ev);
            assert(lib.games@[j].path@ == kept[j].0@);
            lemma_kept_entries_from(*supported, ev, j);
            let i = choose|i: int| 0 <= i < ev.len() && ev[i] == kept[j];
            assert(0 <= i < known.games@.len());
            assert(lib.games@[j].path@ == known.games@[i]@);
        }
        lib
    }

    /// `entries` is what probing the known paths handed the rebuild: one
    /// entry per known path, in order, with that path's probe report and
    /// an admissible snapshot of its folder.
    pub open spec fn entries_for(
        entries: Seq<(String, FolderSnapshot, Result<Option<GameConfig>, ConfigParseError>)>,
        known: Seq<String>,
        probes: Seq<Result<Option<GameConfig>, ConfigParseError>>,
        supported: SupportedGames,
    ) -> bool {
        &&& entries.len() == known.len()
        &&& forall|i: int| 0 <= i < entries.len() ==> (#[trigger] entries[i]).0@ == known[i]@
        &&& forall|i: int| 0 <= i < entries.len() ==> (#[trigger] entries[i]).2 == probes[i]
        &&& forall|i: int|
            0 <= i < entries.len() ==> supported.admissible_snapshot((#[trigger] entries[i]).1@)
    }

    /// `g` stands at one of the known root paths.
    pub open spec fn path_known(g: Game, known: Seq<String>) -> bool {
        exists|i: int| 0 <= i < known.len() && g.path@ == (#[trigger] known[i])@
    }
}

/// A list made of the same games as a list without duplicate paths has no
/// duplicate paths either.
proof fn lemma_multiset_keeps_distinct_paths(s1: Seq<Game>, s2: Seq<Game>)
    requires
        s1.to_multiset() == s2.to_multiset(),
        GameLibrary::distinct_paths(s1),
    ensures
        GameLibrary::distinct_paths(s2),
{
    assert forall|i: int, j: int|
        0 <= i < j < s2.len() implies s2[i].path@ != s2[j].path@ by {
        let x = s2[i];
        let y = s2[j];
        assert(s2.to_multiset().count(x) > 0) by {
            assert(s2.contains(x));
        }
        assert(s2.to_multiset().count(y) > 0) by {
            assert(s2.contains(y));
        }
        if x == y {
            s2.remove_ensures(i);
            assert(s2.remove(i).to_multiset() =~= s2.to_multiset().remove(x));
            assert(s2.remove(i)[j - 1] == y);
            assert(s2.remove(i).contains(y));
            assert(s2.remove(i).to_multiset().count(y) > 0);
            assert(s2.to_multiset().count(x) >= 2);
            assert(s1.to_multiset().count(x) >= 2);
            assert(s1.contains(x));
            let a = choose|a: int| 0 <= a < s1.len() && s1[a] == x;
            s1.remove_ensures(a);
            assert(s1.remove(a).to_multiset() =~= s1.to_multiset().remove(x));
            assert(s1.remove(a).to_multiset().count(x) > 0);
            assert(s1.remove(a).contains(x));
            let b0 = choose|b: int| 0 <= b < s1.remove(a).len() && s1.remove(a)[b] == x;
            let b = if b0 < a {
                b0
            } else {
                b0 + 1
            };
            assert(s1[b] == x);
            if a < b {
                assert(s1[a].path@ != s1[b].path@);
            } else {
                assert(s1[b].path@ != s1[a].path@);
            }
            assert(false);
        } else {
            if x.path@ == y.path@ {
                assert(s1.to_multiset().count(x) > 0);
                assert(s1.to_multiset().count(y) > 0);
                assert(s1.contains(x));
                assert(s1.contains(y));
                let a = choose|a: int| 0 <= a < s1.len() && s1[a] == x;
                let b = choose|b: int| 0 <= b < s1.len() && s1[b] == y;
                assert(a != b);
                if a < b {
                    assert(s1[a].path@ != s1[b].path@);
                } else {
                    assert(s1[b].path@ != s1[a].path@);
                }
                assert(false);
            }
        }
    }
}

/// How `kept_entries` grows when one more entry is scanned.
proof fn lemma_kept_entries_push(
    supported: SupportedGames,
    s: Seq<(String, FolderSnapshot, Result<Option<GameConfig>, ConfigParseError>)>,
    e: (String, FolderSnapshot, Result<Option<GameConfig>, ConfigParseError>),
)
    ensures
        GameLibrary::kept_entries(supported, s.push(e)) == if supported.first_match(e.1@) is Some
            && e.2 is Ok {
            GameLibrary::kept_entries(supported, s).push(e)
        } else {
            GameLibrary::kept_entries(supported, s)
        },
{
    reveal(Seq::filter);
    assert(s.push(e).drop_last() =~= s);
    assert(s.push(e).last() == e);
}

/// Two distinct positions in the kept entries come from entries with
/// distinct paths.
proof fn lemma_kept_entries_distinct(
    supported: SupportedGames,
    s: Seq<(String, FolderSnapshot, Result<Option<GameConfig>, ConfigParseError>)>,
    a: int,
    b: int,
)
    requires
        forall|i: int, j: int|
            0 <= i < j < s.len() ==> (#[trigger] s[i]).0@ != (#[trigger] s[j]).0@,
        0 <= a < b < GameLibrary::kept_entries(supported, s).len(),
    ensures
        GameLibrary::kept_entries(supported, s)[a].0@ != GameLibrary::kept_entries(
            supported,
            s,
        )[b].0@,
    decreases s.len(),
{
    let kept = GameLibrary::kept_entries(supported, s);
    if s.len() == 0 {
        reveal(Seq::filter);
    } else {
        let prefix = s.drop_last();
        let e = s.last();
        assert(s =~= prefix.push(e));
        lemma_kept_entries_push(supported, prefix, e);
        let kp = GameLibrary::kept_entries(supported, prefix);
        if supported.first_match(e.1@) is Some && e.2 is Ok {
            if b < kp.len() {
                lemma_kept_entries_distinct(supported, prefix, a, b);
            } else {
                assert(kept[b] == e);
                assert(kp[a] == kept[a]);
                lemma_kept_entries_from(supported, prefix, a);
                let i = choose|i: int| 0 <= i < prefix.len() && prefix[i] == kp[a];
                assert(s[i] == kept[a]);
                assert(s[s.len() - 1] == e);
                assert(s[i].0@ != s[s.len() - 1].0@);
            }
        } else {
            lemma_kept_entries_distinct(supported, prefix, a, b);
        }
    }
}

/// Every kept entry is one of the scanned entries.
proof fn lemma_kept_entries_from(
    supported: SupportedGames,
    s: Seq<(String, FolderSnapshot, Result<Option<GameConfig>, ConfigParseError>)>,
    j: int,
)
    requires
        0 <= j < GameLibrary::kept_entries(supported, s).len(),
    ensures
        exists|i: int|
            0 <= i < s.len() && s[i] == GameLibrary::kept_entries(supported, s)[j],
    decreases s.len(),
{
    let kept = GameLibrary::kept_entries(supported, s);
    if s.len() == 0 {
        reveal(Seq::filter);
    } else {
        let prefix = s.drop_last();
        let e = s.last();
        assert(s =~= prefix.push(e));
        lemma_kept_entries_push(supported, prefix, e);
        let kp = GameLibrary::kept_entries(supported, prefix);
        if supported.first_match(e.1@) is Some && e.2 is Ok && j == kp.len() {
            assert(s[s.len() - 1] == kept[j]);
        } else {
            assert(kept[j] == kp[j]);
            lemma_kept_entries_from(supported, prefix, j);
            let i = choose|i: int| 0 <= i < prefix.len() && prefix[i] == kp[j];
            assert(s[i] == kept[j]);
        }
    }
}

/// A known path whose folder no longer matches any signature, or whose
/// configuration probe failed, is dropped by a registry rebuild: no kept
/// entry carries its path.
pub proof fn lemma_reload_prunes(
    supported: SupportedGames,
    s: Seq<(String, FolderSnapshot, Result<Option<GameConfig>, ConfigParseError>)>,
    i: int,
)
    requires
        forall|a: int, b: int|
            0 <= a < b < s.len() ==> (#[trigger] s[a]).0@ != (#[trigger] s[b]).0@,
        0 <= i < s.len(),
        !(supported.first_match(s[i].1@) is Some && s[i].2 is Ok),
    ensures
        forall|j: int|
            0 <= j < GameLibrary::kept_entries(supported, s).len() ==> (
            #[trigger] GameLibrary::kept_entries(supported, s)[j]).0@ != s[i].0@,
{
    let kept = GameLibrary::kept_entries(supported, s);
    assert forall|j: int| 0 <= j < kept.len() implies (#[trigger] kept[j]).0@ != s[i].0@ by {
        lemma_kept_entries_from(supported, s, j);
        let a = choose|a: int| 0 <= a < s.len() && s[a] == kept[j];
        assert(supported.first_match(kept[j].1@) is Some && kept[j].2 is Ok) by {
            Seq::lemma_filter_pred(
                s,
                |e: (String, FolderSnapshot, Result<Option<GameConfig>, ConfigParseError>)|
                    supported.first_match(e.1@) is Some && e.2 is Ok,
                j,
            );
        }
        assert(a != i);
        if a < i {
            assert(s[a].0@ != s[i].0@);
        } else {
            assert(s[i].0@ != s[a].0@);
        }
    }
}

/// A known path whose folder still matches some signature, with a
/// successful configuration probe, survives a registry rebuild: some kept
/// entry is exactly that entry.
pub proof fn lemma_reload_keeps(
    supported: SupportedGames,
    s: Seq<(String, FolderSnapshot, Result<Option<GameConfig>, ConfigParseError>)>,
    i: int,
)
    requires
        0 <= i < s.len(),
        supported.first_match(s[i].1@) is Some,
        s[i].2 is Ok,
    ensures
        GameLibrary::kept_entries(supported, s).contains(s[i]),
{
    Seq::lemma_filter_contains(
        s,
        |e: (String, FolderSnapshot, Result<Option<GameConfig>, ConfigParseError>)|
            supported.first_match(e.1@) is Some && e.2 is Ok,
        i,
    );
}

/// Adding a game the registry already holds (same path) does not grow the
/// list: the second identical `add_game` replaces instead of appending, so
/// the list after it has the same length.
pub proof fn lemma_add_or_replace_idempotent(s0: Seq<Game>, s1: Seq<Game>, g: Game)
    requires
        s1.to_multiset() == GameLibrary::updated_games(s0, g).to_multiset(),
    ensures
        GameLibrary::updated_games(s1, g).len() == s1.len(),
{
    let u = GameLibrary::updated_games(s0, g);
    assert(u.to_multiset().count(g) > 0) by {
        if exists|i: int| 0 <= i < s0.len() && (#[trigger] s0[i]).path@ == g.path@ {
            let i = choose|i: int| 0 <= i < s0.len() && (#[trigger] s0[i]).path@ == g.path@;
            assert(u[i] == g);
            assert(u.contains(g));
        } else {
            assert(u[u.len() - 1] == g);
            assert(u.contains(g));
        }
    }
    assert(s1.to_multiset().count(g) > 0);
    assert(s1.contains(g));
    let i = choose|i: int| 0 <= i < s1.len() && s1[i] == g;
    assert(s1[i].path@ == g.path@);
}

} // verus!
