use vstd::prelude::*;

pub mod commit;
pub mod detect;
pub mod resolve;

pub use commit::{CommitId, CommitSet};
pub use detect::Detector;
pub use resolve::{blame_anchor, AttributionEpoch, BlameMap, Delta, Hunk, HunkSide, Resolver};

verus! {

// Finding the commits that a commit depends on: for each parent, the lines
// that the commit changes are looked up in a blame of the parent's version,
// and the commits that last touched them are its dependencies.

/// Configuration of one run of dependency detection.
pub struct Options {
    /// Treat commits whose message starts with `fixup! ` as transparent.
    pub ignore_fixups: bool,
}

/// The prefix that marks a fixup commit's message.
pub open spec fn is_fixup_message(m: Seq<u8>) -> bool {
    m.len() >= 7 && m.subrange(0, 7) == seq![102u8, 105u8, 120u8, 117u8, 112u8, 33u8, 32u8]
}

/// Whether a commit message begins with the literal prefix `fixup! `.
pub fn is_fixup(message: &[u8]) -> (r: bool)
    ensures
        r == is_fixup_message(message@),
{
    let prefix: [u8; 7] = [102u8, 105u8, 120u8, 117u8, 112u8, 33u8, 32u8];
    if message.len() < 7 {
        return false;
    }
    let mut i: usize = 0;
    while i < 7
        invariant
            0 <= i <= 7,
            message@.len() >= 7,
            prefix@ == seq![102u8, 105u8, 120u8, 117u8, 112u8, 33u8, 32u8],
            forall|j: int| 0 <= j < i ==> message@[j] == prefix@[j],
        decreases 7 - i,
    {
        if message[i] != prefix[i] {
            assert(message@.subrange(0, 7)[i as int] != prefix@[i as int]);
            return false;
        }
        i = i + 1;
    }
    assert(message@.subrange(0, 7) =~= prefix@);
    true
}

} // verus!
