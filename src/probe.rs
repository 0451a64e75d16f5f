use vstd::prelude::*;

verus! {

/// Whether every stage, whose least outstanding epoch is one entry of
/// `frontiers`, can no longer produce work at or below `epoch`.
pub open spec fn completed_through_spec(frontiers: Seq<u64>, epoch: u64) -> bool {
    forall|i: int| 0 <= i < frontiers.len() ==> frontiers[i] > epoch
}

/// Reports whether all work at or below `epoch` is finished, given the least
/// outstanding epoch of each worker and stage.
pub fn has_completed_through(frontiers: &Vec<u64>, epoch: u64) -> (r: bool)
    ensures
        r == completed_through_spec(frontiers@, epoch),
{
    let mut i: usize = 0;
    while i < frontiers.len()
        invariant
            i <= frontiers@.len(),
            forall|j: int| 0 <= j < i ==> frontiers@[j] > epoch,
        decreases frontiers@.len() - i,
    {
        if frontiers[i] <= epoch {
            return false;
        }
        i = i + 1;
    }
    true
}

/// A probe cannot report `epoch` complete while any stage, such as the
/// feeder whose open epoch is `frontiers[i]`, has not moved past it: an
/// advance beyond `epoch` must be observed first.
pub proof fn lemma_no_completion_before_advance(frontiers: Seq<u64>, i: int, epoch: u64)
    requires
        0 <= i < frontiers.len(),
        frontiers[i] <= epoch,
    ensures
        !completed_through_spec(frontiers, epoch),
{
}

} // verus!
