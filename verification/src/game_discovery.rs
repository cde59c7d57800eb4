//! The boolean requirement tree that decides whether a folder is an
//! installation of a specific game.
//!
//! A requirement is evaluated against what the filesystem reported about one
//! folder, captured as a [`FolderSnapshot`]: the set of relative paths that
//! existed under it at the instant it was probed.
//! [`GameDiscoveryRequirement::eval_in`] carries the exact semantics;
//! [`GameDiscoveryRequirement::verify`] probes the disk and then evaluates.
//! An existence probe folds an inaccessible path into "absent", so probing
//! itself never fails and an evaluation never aborts half-way; the `Result`
//! stays so that callers are insulated from that choice.
use crate::config::ConfigParseError;
use vstd::prelude::*;

verus! {

/// A requirement to verify that a folder belongs to a specific game,
/// e.g. that a specific game executable is inside the folder.
#[derive(Debug)]
pub enum GameDiscoveryRequirement {
    /// A file or directory exists at this path, relative to the folder under test.
    FileExists(String),
    /// At least one of the inner requirements is met; an empty list is never met.
    Or(Vec<GameDiscoveryRequirement>),
    /// All of the inner requirements are met; an empty list is always met.
    And(Vec<GameDiscoveryRequirement>),
}

impl GameDiscoveryRequirement {
    /// Whether the requirement holds of a folder under which exactly the
    /// relative paths in `present` exist.
    pub open spec fn holds(self, present: Set<Seq<char>>) -> bool
        decreases self,
        via Self::holds_decreases
    {
        match self {
            GameDiscoveryRequirement::FileExists(p) => present.contains(p@),
            GameDiscoveryRequirement::Or(rs) => exists|i: int|
                0 <= i < rs@.len() && (#[trigger] rs@[i]).holds(present),
            GameDiscoveryRequirement::And(rs) => forall|i: int|
                0 <= i < rs@.len() ==> (#[trigger] rs@[i]).holds(present),
        }
    }

    #[via_fn]
    proof fn holds_decreases(self, present: Set<Seq<char>>) {
        match self {
            GameDiscoveryRequirement::Or(rs) => {
                assert(decreases_to!(self => self->Or_0));
                assert(decreases_to!(self->Or_0 => self->Or_0@));
                assert forall|i: int| 0 <= i < rs@.len() implies decreases_to!(
                    self => rs@[i]
                ) by {
                    assert(decreases_to!(self->Or_0@ => self->Or_0@[i]));
                }
            },
            GameDiscoveryRequirement::And(rs) => {
                assert(decreases_to!(self => self->And_0));
                assert(decreases_to!(self->And_0 => self->And_0@));
                assert forall|i: int| 0 <= i < rs@.len() implies decreases_to!(
                    self => rs@[i]
                ) by {
                    assert(decreases_to!(self->And_0@ => self->And_0@[i]));
                }
            },
            _ => {},
        }
    }

    /// Structural equality of two requirement trees, comparing paths by
    /// their characters. Cloning establishes it; equal trees hold of
    /// exactly the same folders (`lemma_same_req_same_holds`).
    pub open spec fn same_req(self, other: Self) -> bool
        decreases self,
        via Self::same_req_decreases
    {
        match self {
            GameDiscoveryRequirement::FileExists(p) => other is FileExists && p@
                == other->FileExists_0@,
            GameDiscoveryRequirement::Or(rs) => other is Or && rs@.len() == other->Or_0@.len()
                && forall|i: int|
                    0 <= i < rs@.len() ==> (#[trigger] rs@[i]).same_req(other->Or_0@[i]),
            GameDiscoveryRequirement::And(rs) => other is And && rs@.len()
                == other->And_0@.len() && forall|i: int|
                    0 <= i < rs@.len() ==> (#[trigger] rs@[i]).same_req(other->And_0@[i]),
        }
    }

    #[via_fn]
    proof fn same_req_decreases(self, other: Self) {
        match self {
            GameDiscoveryRequirement::Or(rs) => {
                assert(decreases_to!(self => self->Or_0));
                assert(decreases_to!(self->Or_0 => self->Or_0@));
                assert forall|i: int| 0 <= i < rs@.len() implies decreases_to!(
                    self => rs@[i]
                ) by {
                    assert(decreases_to!(self->Or_0@ => self->Or_0@[i]));
                }
            },
            GameDiscoveryRequirement::And(rs) => {
                assert(decreases_to!(self => self->And_0));
                assert(decreases_to!(self->And_0 => self->And_0@));
                assert forall|i: int| 0 <= i < rs@.len() implies decreases_to!(
                    self => rs@[i]
                ) by {
                    assert(decreases_to!(self->And_0@ => self->And_0@[i]));
                }
            },
            _ => {},
        }
    }

    /// Every relative path the tree mentions, in evaluation order.
    pub open spec fn rel_paths(self) -> Seq<Seq<char>>
        decreases self, 1int,
        via Self::rel_paths_decreases
    {
        match self {
            GameDiscoveryRequirement::FileExists(p) => seq![p@],
            GameDiscoveryRequirement::Or(rs) => Self::rel_paths_of(rs@),
            GameDiscoveryRequirement::And(rs) => Self::rel_paths_of(rs@),
        }
    }

    /// The paths of a list of trees, concatenated in order.
    pub open spec fn rel_paths_of(rs: Seq<GameDiscoveryRequirement>) -> Seq<Seq<char>>
        decreases rs, 0int,
        via Self::rel_paths_of_decreases
    {
        if rs.len() == 0 {
            Seq::empty()
        } else {
            Self::rel_paths_of(rs.drop_last()) + rs.last().rel_paths()
        }
    }

    #[via_fn]
    proof fn rel_paths_decreases(self) {
        match self {
            GameDiscoveryRequirement::Or(_) => {
                assert(decreases_to!(self => self->Or_0));
                assert(decreases_to!(self->Or_0 => self->Or_0@));
            },
            GameDiscoveryRequirement::And(_) => {
                assert(decreases_to!(self => self->And_0));
                assert(decreases_to!(self->And_0 => self->And_0@));
            },
            _ => {},
        }
    }

    #[via_fn]
    proof fn rel_paths_of_decreases(rs: Seq<GameDiscoveryRequirement>) {
        if rs.len() > 0 {
            assert(decreases_to!(rs => rs.subrange(0, rs.len() - 1)));
            assert(rs.drop_last() == rs.subrange(0, rs.len() - 1));
            assert(decreases_to!(rs => rs[rs.len() - 1]));
        }
    }

    /// How the path list of a tree list grows by its last tree.
    proof fn lemma_rel_paths_of_push(rs: Seq<GameDiscoveryRequirement>, r: GameDiscoveryRequirement)
        ensures
            Self::rel_paths_of(rs.push(r)) == Self::rel_paths_of(rs) + r.rel_paths(),
    {
        assert(rs.push(r).drop_last() =~= rs);
        assert(rs.push(r).last() == r);
    }

    /// A folder this tree's probing could have seen: one under which only
    /// paths the tree mentions are present.
    pub open spec fn admissible_snapshot(self, present: Set<Seq<char>>) -> bool {
        forall|p: Seq<char>| #[trigger] present.contains(p) ==> self.rel_paths().contains(p)
    }
}

/// Trees that are structurally the same requirement hold of exactly the
/// same folders.
pub proof fn lemma_same_req_same_holds(
    a: GameDiscoveryRequirement,
    b: GameDiscoveryRequirement,
    present: Set<Seq<char>>,
)
    requires
        a.same_req(b),
    ensures
        a.holds(present) == b.holds(present),
    decreases a,
{
    match a {
        GameDiscoveryRequirement::FileExists(_) => {},
        GameDiscoveryRequirement::Or(rs) => {
            assert(decreases_to!(a => a->Or_0));
            assert(decreases_to!(a->Or_0 => a->Or_0@));
            assert forall|i: int| 0 <= i < rs@.len() implies ((#[trigger] rs@[i]).holds(present)
                == b->Or_0@[i].holds(present)) by {
                assert(decreases_to!(a->Or_0@ => a->Or_0@[i]));
                lemma_same_req_same_holds(rs@[i], b->Or_0@[i], present);
            }
            assert(a.holds(present) ==> b.holds(present)) by {
                if a.holds(present) {
                    let i = choose|i: int| 0 <= i < rs@.len() && (#[trigger] rs@[i]).holds(
                        present,
                    );
                    assert(b->Or_0@[i].holds(present));
                }
            }
            assert(b.holds(present) ==> a.holds(present)) by {
                if b.holds(present) {
                    let i = choose|i: int|
                        0 <= i < b->Or_0@.len() && (#[trigger] b->Or_0@[i]).holds(present);
                    assert(rs@[i].holds(present));
                }
            }
        },
        GameDiscoveryRequirement::And(rs) => {
            assert(decreases_to!(a => a->And_0));
            assert(decreases_to!(a->And_0 => a->And_0@));
            assert forall|i: int| 0 <= i < rs@.len() implies ((#[trigger] rs@[i]).holds(present)
                == b->And_0@[i].holds(present)) by {
                assert(decreases_to!(a->And_0@ => a->And_0@[i]));
                lemma_same_req_same_holds(rs@[i], b->And_0@[i], present);
            }
            assert(a.holds(present) ==> b.holds(present)) by {
                if a.holds(present) {
                    assert forall|i: int| 0 <= i < b->And_0@.len() implies (
                    #[trigger] b->And_0@[i]).holds(present) by {
                        assert(rs@[i].holds(present));
                    }
                }
            }
        },
    }
}

impl Clone for GameDiscoveryRequirement {
    /// The clone is the same requirement tree.
    fn clone(&self) -> (res: Self)
        ensures
            res.same_req(*self),
        decreases self,
    {
        match self {
            GameDiscoveryRequirement::FileExists(p) => GameDiscoveryRequirement::FileExists(
                p.clone(),
            ),
            GameDiscoveryRequirement::Or(rs) => GameDiscoveryRequirement::Or(
                clone_requirements(rs),
            ),
            GameDiscoveryRequirement::And(rs) => GameDiscoveryRequirement::And(
                clone_requirements(rs),
            ),
        }
    }
}

/// Clone every tree in the list, preserving order.
#[verifier::loop_isolation(false)]
fn clone_requirements(rs: &Vec<GameDiscoveryRequirement>) -> (res: Vec<GameDiscoveryRequirement>)
    ensures
        res@.len() == rs@.len(),
        forall|i: int| 0 <= i < rs@.len() ==> (#[trigger] res@[i]).same_req(rs@[i]),
    decreases rs,
{
    let n = rs.len();
    let mut res: Vec<GameDiscoveryRequirement> = Vec::new();
    let mut i: usize = 0;
    while i < n
        invariant
            i <= n,
            res@.len() == i,
            forall|j: int| 0 <= j < i ==> (#[trigger] res@[j]).same_req(rs@[j]),
        decreases n - i,
    {
        proof {
            assert(decreases_to!(*rs => rs@));
            assert(decreases_to!(rs@ => rs@[i as int]));
        }
        let c = rs[i].clone();
        res.push(c);
        i += 1;
    }
    res
}

/// An error describing why the game discovery of a folder failed.
#[derive(Debug, Clone, Copy, PartialEq, Eq, Structural)]
pub enum GameDiscoveryError {
    /// A filesystem error occurred.
    IOError,
    /// The manager's own configuration inside the game folder did not parse.
    GameConfigParseError(ConfigParseError),
}

/// The set of relative paths that existed under one folder at the instant
/// it was probed. Requirement evaluation is a pure function of this value.
#[derive(Debug)]
pub struct FolderSnapshot {
    pub present: Vec<String>,
}

impl View for FolderSnapshot {
    type V = Set<Seq<char>>;

    open spec fn view(&self) -> Set<Seq<char>> {
        Set::new(|p: Seq<char>| exists|i: int| 0 <= i < self.present@.len() && self.present@[i]@ == p)
    }
}

impl FolderSnapshot {
    /// Whether `p` was seen under the folder.
    #[verifier::loop_isolation(false)]
    pub fn contains_path(&self, p: &String) -> (r: bool)
        ensures
            r == self@.contains(p@),
    {
        let n = self.present.len();
        let mut i: usize = 0;
        while i < n
            invariant
                i <= n,
                forall|j: int| 0 <= j < i ==> self.present@[j]@ != p@,
            decreases n - i,
        {
            if self.present[i] == *p {
                assert(self@.contains(p@));
                return true;
            }
            i += 1;
        }
        false
    }
}

impl GameDiscoveryRequirement {
    /// Evaluate the requirement against a folder snapshot: the exact,
    /// effect-free core of `verify`.
    #[verifier::loop_isolation(false)]
    pub fn eval_in(&self, snap: &FolderSnapshot) -> (r: bool)
        ensures
            r == self.holds(snap@),
        decreases self,
    {
        match self {
            GameDiscoveryRequirement::FileExists(p) => snap.contains_path(p),
            GameDiscoveryRequirement::Or(rs) => {
                let n = rs.len();
                let mut i: usize = 0;
                while i < n
                    invariant
                        i <= n,
                        forall|j: int| 0 <= j < i ==> !(#[trigger] rs@[j]).holds(snap@),
                    decreases n - i,
                {
                    proof {
                        assert(decreases_to!(*self => self->Or_0));
                        assert(decreases_to!(self->Or_0 => self->Or_0@));
                        assert(decreases_to!(self->Or_0@ => self->Or_0@[i as int]));
                    }
                    if rs[i].eval_in(snap) {
                        return true;
                    }
                    i += 1;
                }
                false
            },
            GameDiscoveryRequirement::And(rs) => {
                let n = rs.len();
                let mut i: usize = 0;
                while i < n
                    invariant
                        i <= n,
                        forall|j: int| 0 <= j < i ==> (#[trigger] rs@[j]).holds(snap@),
                    decreases n - i,
                {
                    proof {
                        assert(decreases_to!(*self => self->And_0));
                        assert(decreases_to!(self->And_0 => self->And_0@));
                        assert(decreases_to!(self->And_0@ => self->And_0@[i as int]));
                    }
                    if !rs[i].eval_in(snap) {
                        return false;
                    }
                    i += 1;
                }
                true
            },
        }
    }

    /// Append every relative path the tree mentions to `out`, in
    /// evaluation order. Duplicates across subtrees are harmless: the list
    /// only decides which paths to probe.
    #[verifier::loop_isolation(false)]
    pub fn collect_rel_paths(&self, out: &mut Vec<String>)
        ensures
            final(out)@.len() == old(out)@.len() + self.rel_paths().len(),
            forall|k: int| 0 <= k < old(out)@.len() ==> final(out)@[k] == old(out)@[k],
            forall|k: int|
                0 <= k < self.rel_paths().len() ==> (#[trigger] final(out)@[old(out)@.len()
                    + k])@ == self.rel_paths()[k],
        decreases self,
    {
        match self {
            GameDiscoveryRequirement::FileExists(p) => {
                out.push(p.clone());
            },
            GameDiscoveryRequirement::Or(rs) => {
                let n = rs.len();
                let mut i: usize = 0;
                proof {
                    assert(rs@.take(0) =~= Seq::<GameDiscoveryRequirement>::empty());
                }
                while i < n
                    invariant
                        i <= n,
                        out@.len() == old(out)@.len() + Self::rel_paths_of(
                            rs@.take(i as int),
                        ).len(),
                        forall|k: int| 0 <= k < old(out)@.len() ==> out@[k] == old(out)@[k],
                        forall|k: int|
                            0 <= k < Self::rel_paths_of(rs@.take(i as int)).len() ==> (
                            #[trigger] out@[old(out)@.len() + k])@ == Self::rel_paths_of(
                                rs@.take(i as int),
                            )[k],
                    decreases n - i,
                {
                    proof {
                        assert(decreases_to!(*self => self->Or_0));
                        assert(decreases_to!(self->Or_0 => self->Or_0@));
                        assert(decreases_to!(self->Or_0@ => self->Or_0@[i as int]));
                    }
                    let ghost mid = out@;
                    let ghost prior = Self::rel_paths_of(rs@.take(i as int));
                    let ghost blk = rs@[i as int].rel_paths();
                    rs[i].collect_rel_paths(out);
                    proof {
                        assert(rs@.take(i + 1) =~= rs@.take(i as int).push(rs@[i as int]));
                        Self::lemma_rel_paths_of_push(rs@.take(i as int), rs@[i as int]);
                        assert forall|k: int|
                            0 <= k < prior.len() + blk.len() implies (#[trigger] out@[old(
                            out,
                        )@.len() + k])@ == (prior + blk)[k] by {
                            if k < prior.len() {
                                assert(out@[old(out)@.len() + k] == mid[old(out)@.len() + k]);
                            } else {
                                let k2 = k - prior.len();
                                assert(out@[mid.len() + k2]@ == blk[k2]);
                                assert(old(out)@.len() + k == mid.len() + k2);
                            }
                        }
                    }
                    i += 1;
                }
                proof {
                    assert(rs@.take(n as int) =~= rs@);
                }
            },
            GameDiscoveryRequirement::And(rs) => {
                let n = rs.len();
                let mut i: usize = 0;
                proof {
                    assert(rs@.take(0) =~= Seq::<GameDiscoveryRequirement>::empty());
                }
                while i < n
                    invariant
                        i <= n,
                        out@.len() == old(out)@.len() + Self::rel_paths_of(
                            rs@.take(i as int),
                        ).len(),
                        forall|k: int| 0 <= k < old(out)@.len() ==> out@[k] == old(out)@[k],
                        forall|k: int|
                            0 <= k < Self::rel_paths_of(rs@.take(i as int)).len() ==> (
                            #[trigger] out@[old(out)@.len() + k])@ == Self::rel_paths_of(
                                rs@.take(i as int),
                            )[k],
                    decreases n - i,
                {
                    proof {
                        assert(decreases_to!(*self => self->And_0));
                        assert(decreases_to!(self->And_0 => self->And_0@));
                        assert(decreases_to!(self->And_0@ => self->And_0@[i as int]));
                    }
                    let ghost mid = out@;
                    let ghost prior = Self::rel_paths_of(rs@.take(i as int));
                    let ghost blk = rs@[i as int].rel_paths();
                    rs[i].collect_rel_paths(out);
                    proof {
                        assert(rs@.take(i + 1) =~= rs@.take(i as int).push(rs@[i as int]));
                        Self::lemma_rel_paths_of_push(rs@.take(i as int), rs@[i as int]);
                        assert forall|k: int|
                            0 <= k < prior.len() + blk.len() implies (#[trigger] out@[old(
                            out,
                        )@.len() + k])@ == (prior + blk)[k] by {
                            if k < prior.len() {
                                assert(out@[old(out)@.len() + k] == mid[old(out)@.len() + k]);
                            } else {
                                let k2 = k - prior.len();
                                assert(out@[mid.len() + k2]@ == blk[k2]);
                                assert(old(out)@.len() + k == mid.len() + k2);
                            }
                        }
                    }
                    i += 1;
                }
                proof {
                    assert(rs@.take(n as int) =~= rs@);
                }
            },
        }
    }

    /// Probe the folder at `base_path` for every path the tree mentions and
    /// build the snapshot the tree is then evaluated against: it records
    /// only paths the tree mentions, those that existed at the instant of
    /// the probe.
    pub fn snapshot_under(&self, base_path: &String) -> (snap: FolderSnapshot)
        ensures
            forall|k: int|
                0 <= k < snap.present@.len() ==> self.rel_paths().contains(
                    (#[trigger] snap.present@[k])@,
                ),
    {
        let mut rels: Vec<String> = Vec::new();
        self.collect_rel_paths(&mut rels);
        let snap = snapshot_of_rel_paths(base_path, &rels);
        proof {
            assert forall|k: int| 0 <= k < snap.present@.len() implies self.rel_paths().contains(
                (#[trigger] snap.present@[k])@,
            ) by {
                assert(mentioned_in(snap.present@[k]@, rels@));
                let i = choose|i: int|
                    0 <= i < rels@.len() && snap.present@[k]@ == (#[trigger] rels@[i])@;
                assert(rels@[0 + i]@ == self.rel_paths()[i]);
                assert(self.rel_paths()[i] == snap.present@[k]@);
            }
        }
        snap
    }

    /// Verify whether the folder at `base_path` is a game folder.
    ///
    /// Which of the mentioned paths the disk reports present is the disk's
    /// choice, but the answer is the tree's exact evaluation (`holds`, as
    /// `eval_in` computes it) against some such admissible snapshot — so
    /// on trees whose value no probe decides, such as an empty `And` or an
    /// empty `Or`, the answer is fixed. Probing folds inaccessible paths
    /// into "absent", so verification itself always succeeds.
    pub fn verify(&self, base_path: &String) -> (r: Result<bool, GameDiscoveryError>)
        ensures
            r is Ok,
            exists|present: Set<Seq<char>>|
                self.admissible_snapshot(present) && r->Ok_0 == self.holds(present),
    {
        let snap = self.snapshot_under(base_path);
        let b = self.eval_in(&snap);
        proof {
            assert forall|p: Seq<char>| snap@.contains(p) implies self.rel_paths().contains(
                p,
            ) by {
                let i = choose|i: int| 0 <= i < snap.present@.len() && snap.present@[i]@ == p;
                assert(self.rel_paths().contains(snap.present@[i]@));
            }
            assert(self.admissible_snapshot(snap@) && b == self.holds(snap@));
        }
        Ok(b)
    }
}

/// A path reading the same as one of the listed ones.
pub open spec fn mentioned_in(p: Seq<char>, rels: Seq<String>) -> bool {
    exists|i: int| 0 <= i < rels.len() && p == (#[trigger] rels[i])@
}

/// Probe each relative path under `base_path` once and record those that
/// exist: which of them the disk reports is the disk's choice, but nothing
/// outside the list is recorded.
#[verifier::loop_isolation(false)]
pub fn snapshot_of_rel_paths(base_path: &String, rels: &Vec<String>) -> (snap: FolderSnapshot)
    ensures
        forall|k: int|
            0 <= k < snap.present@.len() ==> mentioned_in((#[trigger] snap.present@[k])@, rels@),
{
    let mut present: Vec<String> = Vec::new();
    let n = rels.len();
    let mut i: usize = 0;
    while i < n
        invariant
            forall|k: int|
                0 <= k < present@.len() ==> mentioned_in((#[trigger] present@[k])@, rels@),
        decreases n - i,
    {
        if probe_rel_exists(base_path, &rels[i]) {
            let q = rels[i].clone();
            present.push(q);
            proof {
                assert(present@[present@.len() - 1]@ == rels@[i as int]@);
            }
        }
        i += 1;
    }
    FolderSnapshot { present }
}

/// Relies on std::path::Path::exists, applied to `base` joined with `rel`:
/// whether something exists at that path right now. The answer depends on
/// the state of the disk, so nothing is promised of it; `exists` reports
/// `false` for paths it cannot access.
#[verifier::external_body]
fn probe_rel_exists(base: &String, rel: &String) -> bool {
    std::path::Path::new(base).join(rel).exists()
}

/// An empty `And` is vacuously met: it holds of every folder.
pub proof fn lemma_and_empty_holds(r: GameDiscoveryRequirement, present: Set<Seq<char>>)
    requires
        r is And,
        r->And_0@.len() == 0,
    ensures
        r.holds(present),
{
}

/// An empty `Or` is never met: it holds of no folder.
pub proof fn lemma_or_empty_never_holds(r: GameDiscoveryRequirement, present: Set<Seq<char>>)
    requires
        r is Or,
        r->Or_0@.len() == 0,
    ensures
        !r.holds(present),
{
}

/// `And([Or([FileExists(a), FileExists(b)]), FileExists(c)])` holds exactly
/// when `a` or `b` is present, and `c` is present.
pub proof fn lemma_and_or_compound(
    r: GameDiscoveryRequirement,
    a: Seq<char>,
    b: Seq<char>,
    c: Seq<char>,
    present: Set<Seq<char>>,
)
    requires
        r is And,
        r->And_0@.len() == 2,
        r->And_0@[0] is Or,
        r->And_0@[0]->Or_0@.len() == 2,
        r->And_0@[0]->Or_0@[0] is FileExists,
        r->And_0@[0]->Or_0@[0]->FileExists_0@ == a,
        r->And_0@[0]->Or_0@[1] is FileExists,
        r->And_0@[0]->Or_0@[1]->FileExists_0@ == b,
        r->And_0@[1] is FileExists,
        r->And_0@[1]->FileExists_0@ == c,
    ensures
        r.holds(present) <==> ((present.contains(a) || present.contains(b)) && present.contains(
            c,
        )),
{
    let inner = r->And_0@[0];
    if (present.contains(a) || present.contains(b)) && present.contains(c) {
        assert(inner.holds(present)) by {
            if present.contains(a) {
                assert(inner->Or_0@[0].holds(present));
            } else {
                assert(inner->Or_0@[1].holds(present));
            }
        }
        assert forall|i: int| 0 <= i < r->And_0@.len() implies (#[trigger] r->And_0@[i]).holds(
            present,
        ) by {
            if i == 0 {
                assert(inner.holds(present));
            } else {
                assert(r->And_0@[1].holds(present));
            }
        }
    }
    if r.holds(present) {
        assert(r->And_0@[0].holds(present));
        assert(r->And_0@[1].holds(present));
        assert(present.contains(c));
        let k = choose|k: int| 0 <= k < inner->Or_0@.len() && (#[trigger] inner->Or_0@[k]).holds(
            present,
        );
        assert(k == 0 || k == 1);
    }
}

} // verus!
