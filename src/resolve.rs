use vstd::prelude::*;

use crate::commit::{CommitId, CommitSet};

verus! {

/// Which line numbering of a hunk drives the blame lookup.
#[derive(Clone, Copy, Debug, PartialEq, Eq, Structural)]
pub enum HunkSide {
    /// The hunk's range in the parent's version of the file.
    PreChange,
    /// The hunk's range in the dependent commit's version of the file.
    PostChange,
}

impl Default for HunkSide {
    /// The pre-change side: the lines that the dependent commit replaced.
    fn default() -> (r: HunkSide)
        ensures
            r == HunkSide::PreChange,
    {
        HunkSide::PreChange
    }
}

/// Which history a blame result attributes lines against.
#[derive(Clone, Copy, Debug, PartialEq, Eq, Structural)]
pub enum AttributionEpoch {
    /// The history visible from the parent being resolved.
    PinnedToParent,
    /// The history visible from the repository's current tip.
    LiveTip,
}

impl Default for AttributionEpoch {
    /// Pinned to the parent: a line is attributed to the commit that last
    /// changed it before the dependent commit, whatever came after.
    fn default() -> (r: AttributionEpoch)
        ensures
            r == AttributionEpoch::PinnedToParent,
    {
        AttributionEpoch::PinnedToParent
    }
}

/// The newest commit that a blame for `parent` may consider, if any.
pub fn blame_anchor(epoch: AttributionEpoch, parent: CommitId) -> (r: Option<CommitId>)
    ensures
        r == (match epoch {
            AttributionEpoch::PinnedToParent => Some(parent),
            AttributionEpoch::LiveTip => None::<CommitId>,
        }),
{
    match epoch {
        AttributionEpoch::PinnedToParent => Some(parent),
        AttributionEpoch::LiveTip => None,
    }
}

/// One contiguous changed region of a file, on both sides of a diff.
#[derive(Clone, Copy, Debug, PartialEq, Eq, Structural)]
pub struct Hunk {
    pub old_start: u32,
    pub old_lines: u32,
    pub new_start: u32,
    pub new_lines: u32,
}

/// First line of the hunk on the chosen side.
pub open spec fn hunk_start(h: Hunk, side: HunkSide) -> int {
    match side {
        HunkSide::PreChange => h.old_start as int,
        HunkSide::PostChange => h.new_start as int,
    }
}

/// Number of lines of the hunk on the chosen side.
pub open spec fn hunk_count(h: Hunk, side: HunkSide) -> int {
    match side {
        HunkSide::PreChange => h.old_lines as int,
        HunkSide::PostChange => h.new_lines as int,
    }
}

/// The commit that a blame result gives for a 1-based line, if the line is
/// within it.
pub open spec fn blame_line(blame: Seq<CommitId>, line: int) -> Option<CommitId> {
    if 1 <= line <= blame.len() {
        Some(blame[line - 1])
    } else {
        None
    }
}

/// The commits that a blame result gives for the lines of one hunk.
pub open spec fn hunk_commits(h: Hunk, side: HunkSide, blame: Seq<CommitId>) -> Set<CommitId> {
    Set::new(
        |c: CommitId|
            exists|line: int|
                hunk_start(h, side) <= line < hunk_start(h, side) + hunk_count(h, side)
                    && blame_line(blame, line) == Some(c),
    )
}

/// The commits that a blame result gives for the lines of all the hunks.
pub open spec fn hunks_commits(hunks: Seq<Hunk>, side: HunkSide, blame: Seq<CommitId>) -> Set<
    CommitId,
> {
    Set::new(|c: CommitId| exists|i: int| 0 <= i < hunks.len() && hunk_commits(hunks[i], side, blame).contains(c))
}

/// One file-level change between two trees.
pub struct Delta {
    /// The file did not exist on the old side (its old content id is zero).
    pub old_id_zero: bool,
    /// The path of the file on the old side.
    pub old_path: Vec<u8>,
    /// The changed regions of the file.
    pub hunks: Vec<Hunk>,
}

/// A per-line attribution of one file: line `n` (counted from 1) was last
/// changed by the `n - 1`th entry.
pub struct BlameMap {
    lines: Vec<CommitId>,
}

impl View for BlameMap {
    type V = Seq<CommitId>;

    closed spec fn view(&self) -> Seq<CommitId> {
        self.lines@
    }
}

impl BlameMap {
    pub fn new(lines: Vec<CommitId>) -> (r: BlameMap)
        ensures
            r@ == lines@,
    {
        BlameMap { lines }
    }

    /// The commit that last changed `line`, or `None` past the file's bounds.
    pub fn get_line(&self, line: u64) -> (r: Option<CommitId>)
        ensures
            r == blame_line(self@, line as int),
    {
        if 1 <= line && line <= self.lines.len() as u64 {
            Some(self.lines[(line - 1) as usize])
        } else {
            None
        }
    }
}

/// Adds to `deps` the commits that `blame` gives for the lines of `h`.
fn add_hunk_commits(deps: &mut CommitSet, h: Hunk, side: HunkSide, blame: &BlameMap)
    requires
        old(deps).wf(),
    ensures
        final(deps).wf(),
        final(deps)@ == old(deps)@.union(hunk_commits(h, side, blame@)),
{
    let (start, count) = match side {
        HunkSide::PreChange => (h.old_start as u64, h.old_lines as u64),
        HunkSide::PostChange => (h.new_start as u64, h.new_lines as u64),
    };
    let end: u64 = start + count;
    let mut line: u64 = start;
    while line < end
        invariant
            deps.wf(),
            start <= line <= end,
            start == hunk_start(h, side),
            end == hunk_start(h, side) + hunk_count(h, side),
            deps@ == old(deps)@.union(
                Set::new(
                    |c: CommitId| exists|l: int| start <= l < line && blame_line(blame@, l) == Some(c),
                ),
            ),
        decreases end - line,
    {
        let ghost before = deps@;
        let found = blame.get_line(line);
        match found {
            Some(c) => {
                deps.insert(c);
            },
            None => {},
        }
        proof {
            let prev = Set::new(
                |c: CommitId| exists|l: int| start <= l < line && blame_line(blame@, l) == Some(c),
            );
            let next = Set::new(
                |c: CommitId| exists|l: int| start <= l < line + 1 && blame_line(blame@, l) == Some(c),
            );
            assert forall|c: CommitId| next.contains(c) implies prev.contains(c) || found == Some(c) by {
                let l = choose|l: int| start <= l < line + 1 && blame_line(blame@, l) == Some(c);
                if l < line {
                    assert(prev.contains(c));
                }
            }
            assert forall|c: CommitId| prev.contains(c) implies next.contains(c) by {
                let l = choose|l: int| start <= l < line && blame_line(blame@, l) == Some(c);
                assert(start <= l < line + 1 && blame_line(blame@, l) == Some(c));
            }
            if let Some(c) = found {
                assert(blame_line(blame@, line as int) == Some(c));
                assert(next.contains(c));
            }
            assert(deps@ =~= old(deps)@.union(next));
        }
        line = line + 1;
    }
    assert(deps@ =~= old(deps)@.union(hunk_commits(h, side, blame@)));
}

/// Adds to `deps` the commits that `blame` gives for the lines of all `hunks`.
fn add_hunks_commits(deps: &mut CommitSet, hunks: &Vec<Hunk>, side: HunkSide, blame: &BlameMap)
    requires
        old(deps).wf(),
    ensures
        final(deps).wf(),
        final(deps)@ == old(deps)@.union(hunks_commits(hunks@, side, blame@)),
{
    let mut i: usize = 0;
    while i < hunks.len()
        invariant
            deps.wf(),
            0 <= i <= hunks@.len(),
            deps@ == old(deps)@.union(hunks_commits(hunks@.subrange(0, i as int), side, blame@)),
        decreases hunks@.len() - i,
    {
        add_hunk_commits(deps, hunks[i], side, blame);
        proof {
            let prev = hunks_commits(hunks@.subrange(0, i as int), side, blame@);
            let next = hunks_commits(hunks@.subrange(0, i + 1), side, blame@);
            let here = hunk_commits(hunks@[i as int], side, blame@);
            assert forall|c: CommitId| next.contains(c) implies prev.contains(c) || here.contains(c) by {
                let k = choose|k: int| 0 <= k < i + 1 && hunk_commits(#[trigger] hunks@.subrange(0, i + 1)[k], side, blame@).contains(c);
                if k < i {
                    assert(hunks@.subrange(0, i as int)[k] == hunks@.subrange(0, i + 1)[k]);
                }
            }
            assert forall|c: CommitId| prev.contains(c) implies next.contains(c) by {
                let k = choose|k: int| 0 <= k < i && hunk_commits(#[trigger] hunks@.subrange(0, i as int)[k], side, blame@).contains(c);
                assert(hunks@.subrange(0, i as int)[k] == hunks@.subrange(0, i + 1)[k]);
            }
            assert forall|c: CommitId| here.contains(c) implies next.contains(c) by {
                assert(hunks@.subrange(0, i + 1)[i as int] == hunks@[i as int]);
            }
            assert(deps@ =~= old(deps)@.union(next));
        }
        i = i + 1;
    }
    assert(hunks@.subrange(0, hunks@.len() as int) =~= hunks@);
}

/// Whether two byte strings are equal.
fn same_bytes(a: &Vec<u8>, b: &Vec<u8>) -> (r: bool)
    ensures
        r == (a@ == b@),
{
    if a.len() != b.len() {
        return false;
    }
    let mut i: usize = 0;
    while i < a.len()
        invariant
            a@.len() == b@.len(),
            0 <= i <= a@.len(),
            forall|j: int| 0 <= j < i ==> a@[j] == b@[j],
        decreases a@.len() - i,
    {
        if a[i] != b[i] {
            return false;
        }
        i = i + 1;
    }
    assert(a@ =~= b@);
    true
}

/// Correlates the deltas between one parent and the dependent commit with
/// blame results, keeping one blame result per old-side path.
pub struct Resolver {
    side: HunkSide,
    paths: Vec<Vec<u8>>,
    blames: Vec<BlameMap>,
    deps: CommitSet,
}

impl Resolver {
    /// The hunk side that drives blame lookups.
    pub closed spec fn side(&self) -> HunkSide {
        self.side
    }

    /// Whether a blame result is held for `path`.
    pub closed spec fn cached(&self, path: Seq<u8>) -> bool {
        exists|i: int| 0 <= i < self.paths@.len() && #[trigger] self.paths@[i]@ == path
    }

    /// The blame result held for `path`.
    pub closed spec fn blame_of(&self, path: Seq<u8>) -> Seq<CommitId> {
        let i = choose|i: int| 0 <= i < self.paths@.len() && #[trigger] self.paths@[i]@ == path;
        self.blames@[i]@
    }

    /// The candidate dependencies collected so far.
    pub closed spec fn found(&self) -> Set<CommitId> {
        self.deps@
    }

    pub closed spec fn wf(&self) -> bool {
        &&& self.deps.wf()
        &&& self.paths@.len() == self.blames@.len()
        &&& forall|i: int, j: int|
            0 <= i < self.paths@.len() && 0 <= j < self.paths@.len() && i != j
                ==> #[trigger] self.paths@[i]@ != #[trigger] self.paths@[j]@
    }

    pub fn new(side: HunkSide) -> (r: Resolver)
        ensures
            r.wf(),
            r.side() == side,
            r.found() == Set::<CommitId>::empty(),
            forall|p: Seq<u8>| !r.cached(p),
    {
        Resolver { side, paths: Vec::new(), blames: Vec::new(), deps: CommitSet::new() }
    }

    /// The index of `path` in the cache.
    fn position(&self, path: &Vec<u8>) -> (r: Option<usize>)
        requires
            self.wf(),
        ensures
            r is None ==> !self.cached(path@),
            r matches Some(i) ==> i < self.paths@.len() && self.paths@[i as int]@ == path@
                && self.blame_of(path@) == self.blames@[i as int]@,
    {
        let mut i: usize = 0;
        while i < self.paths.len()
            invariant
                self.wf(),
                0 <= i <= self.paths@.len(),
                forall|j: int| 0 <= j < i ==> self.paths@[j]@ != path@,
            decreases self.paths@.len() - i,
        {
            if same_bytes(&self.paths[i], path) {
                proof {
                    let j = choose|j: int| 0 <= j < self.paths@.len() && #[trigger] self.paths@[j]@ == path@;
                    assert(j == i);
                }
                return Some(i);
            }
            i = i + 1;
        }
        None
    }

    /// Whether `delta` needs a blame result that is not held yet: it has
    /// hunks, its file existed before, and its old path was not blamed yet.
    pub fn needs_blame(&self, delta: &Delta) -> (r: bool)
        requires
            self.wf(),
        ensures
            r == (!delta.old_id_zero && delta.hunks@.len() > 0 && !self.cached(delta.old_path@)),
    {
        if delta.old_id_zero || delta.hunks.len() == 0 {
            return false;
        }
        self.position(&delta.old_path).is_none()
    }

    /// Holds `blame` as the blame result of `path`, unless one is held already.
    pub fn add_blame(&mut self, path: Vec<u8>, blame: BlameMap)
        requires
            old(self).wf(),
        ensures
            final(self).wf(),
            final(self).side() == old(self).side(),
            final(self).found() == old(self).found(),
            forall|p: Seq<u8>| #[trigger] final(self).cached(p) == (old(self).cached(p) || p == path@),
            forall|p: Seq<u8>| old(self).cached(p) ==> #[trigger] final(self).blame_of(p) == old(self).blame_of(p),
            !old(self).cached(path@) ==> final(self).blame_of(path@) == blame@,
    {
        if self.position(&path).is_some() {
            return;
        }
        let ghost old_self = *self;
        let ghost pv = path@;
        self.paths.push(path);
        self.blames.push(blame);
        proof {
            let n = old_self.paths@.len() as int;
            assert(self.paths@[n]@ == pv);
            assert forall|p: Seq<u8>| #[trigger] self.cached(p) == (old_self.cached(p) || p == pv) by {
                if old_self.cached(p) {
                    let i = choose|i: int| 0 <= i < old_self.paths@.len() && #[trigger] old_self.paths@[i]@ == p;
                    assert(self.paths@[i]@ == p);
                }
                if self.cached(p) && p != pv {
                    let i = choose|i: int| 0 <= i < self.paths@.len() && #[trigger] self.paths@[i]@ == p;
                    assert(old_self.paths@[i]@ == p);
                }
            }
            assert forall|p: Seq<u8>| old_self.cached(p) implies #[trigger] self.blame_of(p) == old_self.blame_of(p) by {
                let i = choose|i: int| 0 <= i < old_self.paths@.len() && #[trigger] old_self.paths@[i]@ == p;
                let j = choose|j: int| 0 <= j < self.paths@.len() && #[trigger] self.paths@[j]@ == p;
                assert(self.paths@[i]@ == p);
                assert(i == j);
            }
            let j = choose|j: int| 0 <= j < self.paths@.len() && #[trigger] self.paths@[j]@ == pv;
            assert(j == n);
        }
    }

    /// Adds the candidate dependencies of one delta. A delta whose file was
    /// newly added, or that has no hunks, adds none. Answers `false`, and adds
    /// nothing, when the delta needs a blame result that is not held yet.
    pub fn absorb(&mut self, delta: &Delta) -> (r: bool)
        requires
            old(self).wf(),
        ensures
            final(self).wf(),
            final(self).side() == old(self).side(),
            forall|p: Seq<u8>| #[trigger] final(self).cached(p) == old(self).cached(p),
            forall|p: Seq<u8>| #[trigger] final(self).blame_of(p) == old(self).blame_of(p),
            r == (delta.old_id_zero || delta.hunks@.len() == 0 || old(self).cached(delta.old_path@)),
            final(self).found() == (if delta.old_id_zero || delta.hunks@.len() == 0
                || !old(self).cached(delta.old_path@) {
                old(self).found()
            } else {
                old(self).found().union(
                    hunks_commits(delta.hunks@, old(self).side(), old(self).blame_of(delta.old_path@)),
                )
            }),
    {
        if delta.old_id_zero || delta.hunks.len() == 0 {
            return true;
        }
        match self.position(&delta.old_path) {
            None => false,
            Some(i) => {
                let ghost old_self = *self;
                add_hunks_commits(&mut self.deps, &delta.hunks, self.side, &self.blames[i]);
                assert(self.paths@ == old_self.paths@ && self.blames@ == old_self.blames@);
                assert forall|p: Seq<u8>| #[trigger] self.cached(p) == old_self.cached(p) by {
                    if old_self.cached(p) {
                        let k = choose|k: int| 0 <= k < old_self.paths@.len() && #[trigger] old_self.paths@[k]@ == p;
                        assert(self.paths@[k]@ == p);
                    }
                    if self.cached(p) {
                        let k = choose|k: int| 0 <= k < self.paths@.len() && #[trigger] self.paths@[k]@ == p;
                        assert(old_self.paths@[k]@ == p);
                    }
                }
                true
            },
        }
    }

    /// The candidate dependencies collected so far, each once.
    pub fn dependencies(&self) -> (r: Vec<CommitId>)
        requires
            self.wf(),
        ensures
            r@.no_duplicates(),
            r@.to_set() == self.found(),
    {
        proof {
            self.deps.lemma_order();
        }
        self.deps.to_vec()
    }
}

} // verus!
