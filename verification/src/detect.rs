//! The change detector: compares current entity render state against the
//! committed snapshot and produces the redraw set, together with the old
//! states whose footprints were vacated. It touches neither the terminal
//! nor the cell buffer.

use vstd::prelude::*;

use crate::scene::{needs_redraw, unchanged_in, vacates, EntityState, PreviousEntityDetails};

verus! {

/// `e` is the committed old state of some removed or changed entity.
pub open spec fn from_vacated(cur: Seq<EntityState>, det: Seq<EntityState>, e: EntityState) -> bool {
    exists|j: int| #[trigger] vacates(cur, det, j) && det[j] == e
}

/// The redraw set of one tick: `redraw[i]` says whether the i-th current
/// entity must be recomposited; `vacated` holds the committed old states of
/// removed or changed entities, whose footprints must be erased or
/// recomposited.
pub struct RedrawPlan {
    pub redraw: Vec<bool>,
    pub vacated: Vec<EntityState>,
}

/// Whether the exact state `e`, identifier included, appears in `s`.
pub fn find_same(s: &Vec<EntityState>, e: &EntityState) -> (r: bool)
    ensures
        r == unchanged_in(s@, *e),
{
    let mut i: usize = 0;
    while i < s.len()
        invariant
            i <= s@.len(),
            forall|k: int| 0 <= k < i ==> #[trigger] s@[k] != *e,
        decreases s@.len() - i,
    {
        if s[i] == *e {
            return true;
        }
        i = i + 1;
    }
    false
}

/// Computes the redraw set: an entity is redrawn if and only if it is new or
/// its committed snapshot differs; a snapshot entry is vacated if and only
/// if its entity was removed or changed.
pub fn detect(current: &Vec<EntityState>, details: &PreviousEntityDetails) -> (plan: RedrawPlan)
    ensures
        plan.redraw@.len() == current@.len(),
        forall|i: int|
            0 <= i < current@.len() ==> plan.redraw@[i] == needs_redraw(
                current@,
                details.entries@,
                i,
            ),
        forall|k: int|
            0 <= k < plan.vacated@.len() ==> from_vacated(
                current@,
                details.entries@,
                #[trigger] plan.vacated@[k],
            ),
        forall|j: int|
            vacates(current@, details.entries@, j) ==> plan.vacated@.contains(
                #[trigger] details.entries@[j],
            ),
{
    let mut redraw: Vec<bool> = Vec::new();
    let mut i: usize = 0;
    while i < current.len()
        invariant
            i <= current@.len(),
            redraw@.len() == i,
            forall|k: int|
                0 <= k < i ==> redraw@[k] == needs_redraw(current@, details.entries@, k),
        decreases current@.len() - i,
    {
        let seen = find_same(&details.entries, &current[i]);
        redraw.push(!seen);
        i = i + 1;
    }
    let mut vacated: Vec<EntityState> = Vec::new();
    let mut j: usize = 0;
    while j < details.entries.len()
        invariant
            j <= details.entries@.len(),
            forall|k: int|
                0 <= k < vacated@.len() ==> from_vacated(
                    current@,
                    details.entries@,
                    #[trigger] vacated@[k],
                ),
            forall|j2: int|
                0 <= j2 < j && vacates(current@, details.entries@, j2) ==> vacated@.contains(
                    #[trigger] details.entries@[j2],
                ),
        decreases details.entries@.len() - j,
    {
        let still = find_same(current, &details.entries[j]);
        if !still {
            let ghost old_vacated = vacated@;
            vacated.push(details.entries[j]);
            proof {
                assert(vacated@ == old_vacated.push(details.entries@[j as int]));
                assert(forall|k: int|
                    0 <= k < old_vacated.len() ==> vacated@[k] == old_vacated[k]);
                assert(vacated@[old_vacated.len() as int] == details.entries@[j as int]);
                assert(vacates(current@, details.entries@, j as int));
                assert(from_vacated(current@, details.entries@, details.entries@[j as int]));
                assert(forall|j2: int|
                    0 <= j2 < j && vacates(current@, details.entries@, j2) && old_vacated.contains(
                        details.entries@[j2],
                    ) ==> vacated@.contains(#[trigger] details.entries@[j2]));
            }
        }
        j = j + 1;
    }
    RedrawPlan { redraw, vacated }
}

} // verus!
