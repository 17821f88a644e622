//! The rule for adding a path to the kept source list: no duplicates, and no
//! two kept sources may lie on one filesystem path.  This is what keeps the
//! top-level sources pairwise independent, which the batch scheduler's
//! conflict rule builds on.

use vstd::prelude::*;
use crate::paths::{is_ancestor_or_self, SyncPath};

verus! {

/// Why a path may not join the source list.
pub enum SourceAddError {
    /// The very path is already kept.
    AlreadyPresent,
    /// The path lies at or below the carried kept source, or above it.
    Overlapping(SyncPath),
}

/// Two paths lie on one filesystem path: one is the other or an ancestor of
/// it.
pub open spec fn paths_overlap(a: Seq<Seq<char>>, b: Seq<Seq<char>>) -> bool {
    is_ancestor_or_self(a, b) || is_ancestor_or_self(b, a)
}

/// Checks a path against the kept sources, as adding a source does: it is
/// rejected if it is already present, else if it overlaps some kept source —
/// the first such, in list order.  Only a path accepted here keeps the source
/// list pairwise independent.
pub fn add_source(existing: &Vec<SyncPath>, path: &SyncPath) -> (r: Result<(), SourceAddError>)
    ensures
        match r {
            Ok(_) => forall|i: int|
                0 <= i < existing@.len() ==> (#[trigger] existing@[i])@ != path@
                    && !paths_overlap(existing@[i]@, path@),
            Err(SourceAddError::AlreadyPresent) => exists|i: int|
                0 <= i < existing@.len() && (#[trigger] existing@[i])@ == path@,
            Err(SourceAddError::Overlapping(q)) => {
                &&& (forall|i: int|
                    0 <= i < existing@.len() ==> (#[trigger] existing@[i])@ != path@)
                &&& exists|j: int|
                    0 <= j < existing@.len() && (#[trigger] existing@[j])@ == q@
                        && paths_overlap(existing@[j]@, path@) && forall|i: int|
                        0 <= i < j ==> !paths_overlap((#[trigger] existing@[i])@, path@)
            },
        },
{
    let mut i: usize = 0;
    while i < existing.len()
        invariant
            i <= existing@.len(),
            forall|k: int| 0 <= k < i ==> (#[trigger] existing@[k])@ != path@,
        decreases existing@.len() - i,
    {
        if existing[i].eq(path) {
            proof {
                assert((existing@[i as int])@ == path@);
            }
            return Err(SourceAddError::AlreadyPresent);
        }
        i = i + 1;
    }
    let mut j: usize = 0;
    while j < existing.len()
        invariant
            j <= existing@.len(),
            forall|k: int| 0 <= k < existing@.len() ==> (#[trigger] existing@[k])@ != path@,
            forall|k: int| 0 <= k < j ==> !paths_overlap((#[trigger] existing@[k])@, path@),
        decreases existing@.len() - j,
    {
        let kept = &existing[j];
        if kept.starts_with(path) || path.starts_with(kept) {
            let q = kept.clone();
            proof {
                assert((existing@[j as int])@ == q@ && paths_overlap(
                    existing@[j as int]@,
                    path@,
                ));
            }
            return Err(SourceAddError::Overlapping(q));
        }
        j = j + 1;
    }
    Ok(())
}

} // verus!
