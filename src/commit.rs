use vstd::prelude::*;

verus! {

/// A commit identifier: the 20 bytes of an object id, held as three
/// big-endian integers so that equality is plain field equality.
#[derive(Clone, Copy, Debug, PartialEq, Eq, Structural, Hash)]
pub struct CommitId {
    pub hi: u64,
    pub mid: u64,
    pub lo: u32,
}

impl CommitId {
    pub fn new(hi: u64, mid: u64, lo: u32) -> (r: CommitId)
        ensures
            r == (CommitId { hi, mid, lo }),
    {
        CommitId { hi, mid, lo }
    }
}

/// A duplicate-free collection of commit ids that keeps the order in
/// which ids were first inserted.
pub struct CommitSet {
    ids: Vec<CommitId>,
}

impl View for CommitSet {
    type V = Set<CommitId>;

    closed spec fn view(&self) -> Set<CommitId> {
        self.ids@.to_set()
    }
}

impl CommitSet {
    /// The ids in insertion order.
    pub closed spec fn order(&self) -> Seq<CommitId> {
        self.ids@
    }

    pub closed spec fn wf(&self) -> bool {
        self.ids@.no_duplicates()
    }

    /// A well-formed set holds each id once, and holds exactly its order.
    pub proof fn lemma_order(&self)
        requires
            self.wf(),
        ensures
            self.order().no_duplicates(),
            self@ == self.order().to_set(),
    {
    }

    pub fn new() -> (r: CommitSet)
        ensures
            r.wf(),
            r@ == Set::<CommitId>::empty(),
            r.order() == Seq::<CommitId>::empty(),
    {
        let r = CommitSet { ids: Vec::new() };
        assert(r.ids@.to_set() =~= Set::<CommitId>::empty());
        r
    }

    pub fn contains(&self, id: CommitId) -> (r: bool)
        ensures
            r == self@.contains(id),
    {
        let mut i: usize = 0;
        while i < self.ids.len()
            invariant
                0 <= i <= self.ids@.len(),
                forall|j: int| 0 <= j < i ==> self.ids@[j] != id,
            decreases self.ids@.len() - i,
        {
            if self.ids[i] == id {
                assert(self.ids@.to_set().contains(self.ids@[i as int]));
                return true;
            }
            i = i + 1;
        }
        false
    }

    /// Adds `id`; answers whether it was absent before.
    pub fn insert(&mut self, id: CommitId) -> (r: bool)
        requires
            old(self).wf(),
        ensures
            final(self).wf(),
            r == !old(self)@.contains(id),
            final(self)@ == old(self)@.insert(id),
            final(self).order() == (if r {
                old(self).order().push(id)
            } else {
                old(self).order()
            }),
    {
        if self.contains(id) {
            assert(self@.insert(id) =~= self@);
            return false;
        }
        proof {
            self.ids@.lemma_push_to_set_commute(id);
        }
        self.ids.push(id);
        true
    }

    pub fn len(&self) -> (r: usize)
        ensures
            r == self.order().len(),
    {
        self.ids.len()
    }

    /// The ids in the order in which they were first inserted.
    pub fn to_vec(&self) -> (r: Vec<CommitId>)
        ensures
            r@ == self.order(),
    {
        self.ids.clone()
    }
}

} // verus!
