//! The one resolution rule shared by the local catalog and the remote index:
//! scan the versions from highest to lowest and take the first one that
//! satisfies the requirement.

use vstd::prelude::*;

use crate::version::{req_matches, version_le, version_lt, Version, VersionReq};

verus! {

/// Whether `vs` is strictly ascending (sorted, no duplicates).
pub open spec fn sorted_strict(vs: Seq<Version>) -> bool {
    forall|i: int, j: int| 0 <= i < j < vs.len() ==> version_lt(vs[i], vs[j])
}

/// Descending scan over an ascending sequence: the first version from the
/// top that satisfies `r`, or nothing.
pub open spec fn best_match(vs: Seq<Version>, r: VersionReq) -> Option<Version>
    decreases vs.len(),
{
    if vs.len() == 0 {
        None
    } else if req_matches(r, vs.last()) {
        Some(vs.last())
    } else {
        best_match(vs.drop_last(), r)
    }
}

/// Law: on a strictly ascending sequence the descending scan returns the
/// highest satisfying version, and returns nothing exactly when no version
/// satisfies the requirement.
pub proof fn lemma_best_match_highest(vs: Seq<Version>, r: VersionReq)
    requires
        sorted_strict(vs),
    ensures
        match best_match(vs, r) {
            Some(v) => vs.contains(v) && req_matches(r, v) && (forall|w: Version|
                vs.contains(w) && req_matches(r, w) ==> version_le(w, v)),
            None => forall|w: Version| vs.contains(w) ==> !req_matches(r, w),
        },
    decreases vs.len(),
{
    if vs.len() == 0 {
    } else if req_matches(r, vs.last()) {
        let v = vs.last();
        assert(vs[vs.len() - 1] == v);
        assert forall|w: Version| vs.contains(w) && req_matches(r, w) implies version_le(w, v) by {
            let i = choose|i: int| 0 <= i < vs.len() && vs[i] == w;
            if i < vs.len() - 1 {
                assert(version_lt(vs[i], vs[vs.len() - 1]));
            }
        }
    } else {
        let rest = vs.drop_last();
        assert(forall|i: int, j: int|
            0 <= i < j < rest.len() ==> version_lt(#[trigger] rest[i], #[trigger] rest[j]));
        lemma_best_match_highest(rest, r);
        match best_match(rest, r) {
            Some(v) => {
                let i = choose|i: int| 0 <= i < rest.len() && rest[i] == v;
                assert(vs[i] == v);
                assert(vs.contains(v));
                assert forall|w: Version| vs.contains(w) && req_matches(r, w) implies version_le(
                    w,
                    v,
                ) by {
                    let k = choose|k: int| 0 <= k < vs.len() && vs[k] == w;
                    if k == vs.len() - 1 {
                        assert(!req_matches(r, w));
                    } else {
                        assert(rest[k] == w);
                        assert(rest.contains(w));
                    }
                }
            },
            None => {
                assert forall|w: Version| vs.contains(w) implies !req_matches(r, w) by {
                    let k = choose|k: int| 0 <= k < vs.len() && vs[k] == w;
                    if k < vs.len() - 1 {
                        assert(rest[k] == w);
                        assert(rest.contains(w));
                    }
                }
            },
        }
    }
}

} // verus!
