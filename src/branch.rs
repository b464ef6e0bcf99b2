use vstd::prelude::*;
use crate::block::Ref;

verus! {

/// The tip of one chain: the best accepted reference known for it.
#[derive(Clone, Copy, Debug)]
pub struct Branch {
    pub tip: Ref,
}

/// The tip that results from offering `r` to a branch whose tip is `tip`:
/// `r` is taken when it is at least as long, so the last of equally long
/// candidates wins.
pub open spec fn advance(tip: Ref, r: Ref) -> Ref {
    if r.header.chain_length >= tip.header.chain_length {
        r
    } else {
        tip
    }
}

/// The tip after offering each of `updates` in turn, starting from `start`.
pub open spec fn tip_after(start: Ref, updates: Seq<Ref>) -> Ref
    decreases updates.len(),
{
    if updates.len() == 0 {
        start
    } else {
        advance(tip_after(start, updates.drop_last()), updates.last())
    }
}

/// Over any run of updates the tip's chain length never goes down: the tip
/// after the first `i` updates is no longer than the tip after the first `j`,
/// for `i <= j`.
pub proof fn lemma_tip_monotonic(start: Ref, updates: Seq<Ref>, i: int, j: int)
    requires
        0 <= i <= j <= updates.len(),
    ensures
        tip_after(start, updates.take(i)).header.chain_length <= tip_after(start, updates.take(j)).header.chain_length,
    decreases j - i,
{
    if i < j {
        lemma_tip_monotonic(start, updates, i, j - 1);
        assert(updates.take(j).drop_last() =~= updates.take(j - 1));
    }
}

impl Branch {
    pub fn new(tip: Ref) -> (r: Branch)
        ensures
            r.tip == tip,
    {
        Branch { tip }
    }

    /// The current tip.
    pub fn get_ref(&self) -> (r: Ref)
        ensures
            r == self.tip,
    {
        self.tip
    }

    /// Offers `r` as the new tip. It is taken, and `true` returned, when its
    /// chain length is at least that of the current tip; otherwise the tip
    /// stays.
    pub fn update_ref(&mut self, r: Ref) -> (updated: bool)
        ensures
            updated == (r.header.chain_length >= old(self).tip.header.chain_length),
            final(self).tip == advance(old(self).tip, r),
    {
        if r.header.chain_length >= self.tip.header.chain_length {
            self.tip = r;
            true
        } else {
            false
        }
    }
}

} // verus!
