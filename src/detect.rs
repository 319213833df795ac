use vstd::prelude::*;

use crate::commit::{CommitId, CommitSet};
use crate::{is_fixup, is_fixup_message, Options};

verus! {

/// The decisions of dependency detection for one commit.
///
/// The caller runs the traversal: it takes the next parent from
/// `next_parent`, resolves the candidates of that parent, hands each one to
/// `visit`, and for each candidate that `visit` accepts it loads the
/// commit's message and hands it to `classify`. The traversal is over when
/// `next_parent` answers `None`; `dependencies` is then the result.
pub struct Detector {
    commit: CommitId,
    ignore_fixups: bool,
    stack: Vec<CommitId>,
    deps: Vec<CommitId>,
    awaiting: Option<CommitId>,
    start_seen: Ghost<Set<CommitId>>,
    claimed: Ghost<Set<CommitId>>,
    expanded: Ghost<Set<CommitId>>,
    candidates: Ghost<Set<CommitId>>,
}

impl Detector {
    /// The commit whose dependencies are detected.
    pub closed spec fn commit(&self) -> CommitId {
        self.commit
    }

    pub closed spec fn ignore_fixups(&self) -> bool {
        self.ignore_fixups
    }

    /// The parents still to resolve; the last one is next.
    pub closed spec fn stack(&self) -> Seq<CommitId> {
        self.stack@
    }

    /// The dependencies found so far, in discovery order.
    pub closed spec fn deps(&self) -> Seq<CommitId> {
        self.deps@
    }

    /// The candidate accepted by `visit` whose message is awaited.
    pub closed spec fn awaiting(&self) -> Option<CommitId> {
        self.awaiting
    }

    /// The seen set when detection started.
    pub closed spec fn start_seen(&self) -> Set<CommitId> {
        self.start_seen@
    }

    /// The ids that this detection marked seen.
    pub closed spec fn claimed(&self) -> Set<CommitId> {
        self.claimed@
    }

    /// The fixup commits that were made transparent.
    pub closed spec fn expanded(&self) -> Set<CommitId> {
        self.expanded@
    }

    /// Every candidate handed to `visit`.
    pub closed spec fn candidates(&self) -> Set<CommitId> {
        self.candidates@
    }

    pub closed spec fn wf(&self) -> bool {
        &&& self.deps@.no_duplicates()
        &&& self.claimed@.disjoint(self.start_seen@)
        &&& self.claimed@.subset_of(self.candidates@)
        &&& self.expanded@.disjoint(self.deps@.to_set())
        &&& (match self.awaiting {
            Some(a) => self.claimed@ == self.deps@.to_set().union(self.expanded@).insert(a)
                && !self.deps@.contains(a) && !self.expanded@.contains(a),
            None => self.claimed@ == self.deps@.to_set().union(self.expanded@),
        })
        &&& (!self.ignore_fixups ==> self.expanded@ == Set::<CommitId>::empty())
    }

    /// Whether `seen` holds what it held at the start and what this
    /// detection marked, and nothing else.
    pub open spec fn tracks(&self, seen: &CommitSet) -> bool {
        &&& seen.wf()
        &&& seen@ == self.start_seen().union(self.claimed())
    }

    /// Starts detection for `commit`, whose parents are `parents`.
    pub fn new(commit: CommitId, parents: Vec<CommitId>, seen: &CommitSet, options: &Options) -> (r: Detector)
        requires
            seen.wf(),
        ensures
            r.wf(),
            r.tracks(seen),
            r.commit() == commit,
            r.ignore_fixups() == options.ignore_fixups,
            r.stack() == parents@,
            r.deps() == Seq::<CommitId>::empty(),
            r.awaiting() is None,
            r.start_seen() == seen@,
            r.claimed() == Set::<CommitId>::empty(),
            r.expanded() == Set::<CommitId>::empty(),
            r.candidates() == Set::<CommitId>::empty(),
    {
        let r = Detector {
            commit,
            ignore_fixups: options.ignore_fixups,
            stack: parents,
            deps: Vec::new(),
            awaiting: None,
            start_seen: Ghost(seen@),
            claimed: Ghost(Set::empty()),
            expanded: Ghost(Set::empty()),
            candidates: Ghost(Set::empty()),
        };
        assert(r.deps@.to_set() =~= Set::<CommitId>::empty());
        assert(r.deps@.to_set().union(Set::<CommitId>::empty()) =~= Set::<CommitId>::empty());
        assert(seen@.union(Set::<CommitId>::empty()) =~= seen@);
        r
    }
}

impl Detector {
    /// Whether two states agree on everything but the stack of parents.
    pub open spec fn same_but_stack(&self, o: &Detector) -> bool {
        &&& self.commit() == o.commit()
        &&& self.ignore_fixups() == o.ignore_fixups()
        &&& self.deps() == o.deps()
        &&& self.awaiting() == o.awaiting()
        &&& self.start_seen() == o.start_seen()
        &&& self.claimed() == o.claimed()
        &&& self.expanded() == o.expanded()
        &&& self.candidates() == o.candidates()
    }

    /// Takes the next parent to resolve, the one pushed last.
    pub fn next_parent(&mut self) -> (r: Option<CommitId>)
        requires
            old(self).wf(),
        ensures
            final(self).wf(),
            final(self).same_but_stack(old(self)),
            old(self).stack().len() == 0 ==> r is None && final(self).stack() == old(self).stack(),
            old(self).stack().len() > 0 ==> r == Some(old(self).stack().last())
                && final(self).stack() == old(self).stack().drop_last(),
    {
        self.stack.pop()
    }

    /// Whether a candidate accepted by `visit` awaits its message.
    pub fn awaits_message(&self) -> (r: bool)
        ensures
            r == self.awaiting() is Some,
    {
        self.awaiting.is_some()
    }

    /// Considers one candidate dependency. One already in `seen` is passed
    /// over. Another is marked seen at once and accepted: the caller then
    /// hands its message to `classify`.
    pub fn visit(&mut self, seen: &mut CommitSet, id: CommitId) -> (r: bool)
        requires
            old(self).wf(),
            old(self).tracks(old(seen)),
            old(self).awaiting() is None,
        ensures
            final(self).wf(),
            final(self).tracks(final(seen)),
            r == !old(seen)@.contains(id),
            final(seen)@ == old(seen)@.insert(id),
            final(self).candidates() == old(self).candidates().insert(id),
            final(self).claimed() == (if r {
                old(self).claimed().insert(id)
            } else {
                old(self).claimed()
            }),
            final(self).awaiting() == (if r {
                Some(id)
            } else {
                None::<CommitId>
            }),
            final(self).commit() == old(self).commit(),
            final(self).ignore_fixups() == old(self).ignore_fixups(),
            final(self).stack() == old(self).stack(),
            final(self).deps() == old(self).deps(),
            final(self).start_seen() == old(self).start_seen(),
            final(self).expanded() == old(self).expanded(),
    {
        proof {
            self.candidates@ = self.candidates@.insert(id);
        }
        if seen.contains(id) {
            assert(seen@.insert(id) =~= seen@);
            return false;
        }
        seen.insert(id);
        proof {
            self.claimed@ = self.claimed@.insert(id);
            assert(seen@ =~= self.start_seen@.union(self.claimed@));
            assert(!self.deps@.to_set().contains(id));
        }
        self.awaiting = Some(id);
        assert(self.claimed@ =~= self.deps@.to_set().union(self.expanded@).insert(id));
        true
    }

    /// Classifies the accepted candidate by its commit's message. With
    /// `ignore_fixups` set, a fixup commit is made transparent: it goes on the
    /// stack, so that its own dependencies are found in its place. Any other
    /// commit becomes a dependency. Does nothing when no candidate awaits.
    pub fn classify(&mut self, message: &[u8])
        requires
            old(self).wf(),
        ensures
            final(self).wf(),
            final(self).awaiting() is None,
            final(self).commit() == old(self).commit(),
            final(self).ignore_fixups() == old(self).ignore_fixups(),
            final(self).start_seen() == old(self).start_seen(),
            final(self).claimed() == old(self).claimed(),
            final(self).candidates() == old(self).candidates(),
            match old(self).awaiting() {
                None => final(self).stack() == old(self).stack() && final(self).deps() == old(self).deps()
                    && final(self).expanded() == old(self).expanded(),
                Some(a) => if old(self).ignore_fixups() && is_fixup_message(message@) {
                    &&& final(self).stack() == old(self).stack().push(a)
                    &&& final(self).deps() == old(self).deps()
                    &&& final(self).expanded() == old(self).expanded().insert(a)
                } else {
                    &&& final(self).stack() == old(self).stack()
                    &&& final(self).deps() == old(self).deps().push(a)
                    &&& final(self).expanded() == old(self).expanded()
                },
            },
    {
        match self.awaiting {
            None => {},
            Some(a) => {
                if self.ignore_fixups && is_fixup(message) {
                    self.stack.push(a);
                    proof {
                        self.expanded@ = self.expanded@.insert(a);
                    }
                    assert(self.claimed@ =~= self.deps@.to_set().union(self.expanded@));
                } else {
                    proof {
                        self.deps@.lemma_push_to_set_commute(a);
                    }
                    self.deps.push(a);
                    assert(self.claimed@ =~= self.deps@.to_set().union(self.expanded@));
                    assert(self.deps@.no_duplicates()) by {
                        assert forall|i: int, j: int|
                            0 <= i < self.deps@.len() && 0 <= j < self.deps@.len() && i != j implies
                            self.deps@[i] != self.deps@[j] by {
                            let n = self.deps@.len() - 1;
                            if i == n {
                                assert(old(self).deps@.contains(self.deps@[j]));
                            } else if j == n {
                                assert(old(self).deps@.contains(self.deps@[i]));
                            }
                        }
                    }
                }
                self.awaiting = None;
            },
        }
    }

    /// The dependencies found so far, in discovery order.
    pub fn dependencies(&self) -> (r: Vec<CommitId>)
        ensures
            r@ == self.deps(),
    {
        self.deps.clone()
    }
}

impl Detector {
    /// Every dependency found was marked seen by this detection.
    pub proof fn lemma_deps_claimed(&self)
        requires
            self.wf(),
        ensures
            forall|x: CommitId| self.deps().contains(x) ==> #[trigger] self.claimed().contains(x),
    {
        assert forall|x: CommitId| self.deps().contains(x) implies #[trigger] self.claimed().contains(x) by {
            assert(self.deps().to_set().contains(x));
        }
    }
}

/// A commit is never its own dependency, as long as no candidate handed to
/// the detection is the commit itself.
pub proof fn lemma_no_self_dependency(d: Detector)
    requires
        d.wf(),
        !d.candidates().contains(d.commit()),
    ensures
        !d.deps().contains(d.commit()),
{
    if d.deps().contains(d.commit()) {
        assert(d.deps().to_set().contains(d.commit()));
    }
}

/// Two detections that share one seen set, the second started after the
/// first, never report the same commit: their results together hold each id
/// once.
pub proof fn lemma_batch_no_duplicates(first: Detector, second: Detector, seen: CommitSet)
    requires
        first.wf(),
        first.tracks(&seen),
        second.wf(),
        second.start_seen() == seen@,
    ensures
        first.deps().disjoint(second.deps()),
        (first.deps() + second.deps()).no_duplicates(),
{
    assert forall|i: int, j: int|
        0 <= i < first.deps().len() && 0 <= j < second.deps().len() implies first.deps()[i]
        != second.deps()[j] by {
        first.lemma_deps_claimed();
        second.lemma_deps_claimed();
        assert(first.claimed().contains(first.deps()[i]));
        assert(second.claimed().contains(second.deps()[j]));
    }
    let all = first.deps() + second.deps();
    let n = first.deps().len();
    assert forall|i: int, j: int| 0 <= i < all.len() && 0 <= j < all.len() && i != j implies all[i]
        != all[j] by {
        if i < n && j >= n {
            assert(all[j] == second.deps()[j - n]);
        } else if i >= n && j < n {
            assert(all[i] == second.deps()[i - n]);
        }
    }
}

/// With `ignore_fixups` set, a fixup commit that was made transparent is
/// never reported as a dependency; its own parents stay to be resolved in its
/// place (see `Detector::classify`).
pub proof fn lemma_fixup_transparent(d: Detector, x: CommitId)
    requires
        d.wf(),
        d.expanded().contains(x),
    ensures
        d.ignore_fixups(),
        !d.deps().contains(x),
{
    if d.deps().contains(x) {
        assert(d.deps().to_set().contains(x));
    }
}

/// Without `ignore_fixups`, no commit is ever made transparent: every
/// accepted candidate, fixup or not, is reported.
pub proof fn lemma_fixup_opaque(d: Detector)
    requires
        d.wf(),
        !d.ignore_fixups(),
    ensures
        d.expanded() == Set::<CommitId>::empty(),
        d.awaiting() is None ==> d.claimed() == d.deps().to_set(),
{
    if d.awaiting() is None {
        assert(d.deps().to_set().union(Set::<CommitId>::empty()) =~= d.deps().to_set());
    }
}

/// When every candidate was already seen at the start, nothing is reported.
pub proof fn lemma_seen_idempotent(d: Detector)
    requires
        d.wf(),
        d.candidates().subset_of(d.start_seen()),
    ensures
        d.deps().len() == 0,
{
    if d.deps().len() > 0 {
        d.lemma_deps_claimed();
        assert(d.claimed().contains(d.deps()[0]));
    }
}

} // verus!
