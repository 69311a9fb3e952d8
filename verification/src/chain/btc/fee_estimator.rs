//! Which fee estimate the wallet uses.
use vstd::prelude::*;

verus! {

/// Target confirmation depth (in blocks) for the standard fee tier.
pub const STANDARD_FEE_TARGET_BLOCKS: u16 = 2;

/// Of the confirmation targets an estimate table holds, the deepest one at or
/// below `target`: the estimate the wallet falls back to when the table has
/// none for `target` itself. `None` when every target in the table is
/// deeper.
pub fn estimate_target(available: &Vec<u16>, target: u16) -> (found: Option<u16>)
    ensures
        found matches Some(t) ==> t <= target && available@.contains(t) && forall|u: u16|
            #[trigger] available@.contains(u) && u <= target ==> u <= t,
        found is None ==> forall|u: u16| #[trigger] available@.contains(u) ==> u > target,
{
    let mut best: Option<u16> = None;
    let mut i: usize = 0;
    while i < available.len()
        invariant
            i <= available@.len(),
            best matches Some(t) ==> t <= target && available@.contains(t),
            forall|j: int|
                0 <= j < i && available@[j] <= target ==> (best matches Some(t) && #[trigger] available@[j] <= t),
        decreases available@.len() - i,
    {
        let t = available[i];
        if t <= target {
            match best {
                Some(b) => {
                    if t > b {
                        best = Some(t);
                    }
                },
                None => {
                    best = Some(t);
                },
            }
        }
        i = i + 1;
    }
    proof {
        assert forall|u: u16| #[trigger] available@.contains(u) && u <= target implies (best matches Some(
            t,
        ) && u <= t) by {
            let j = available@.index_of(u);
            assert(available@[j] == u);
        }
    }
    best
}

} // verus!
