//! Laws of the engine, stated and proved on their own: consequences of the
//! store invariant and of the operations' contracts that hold in every
//! reachable state.

use vstd::prelude::*;

use crate::entities::{VersionState, VersionView};
use crate::reach::{inside_pred, outside_pred, subtree_len};
use crate::review_flow::{spec_after_pass, spec_pass_one};
use crate::seq_lemmas::lemma_filter_partition_len;
use crate::store::{
    has_version, store_wf, version_at, version_idx, version_ids_unique, StoreView,
};

verus! {

/// A referee who has a recorded review for a version is never still in
/// that version's remainder pool: submitting removes the referee from the
/// pool, and the pool can only be set while the version has no reviews. In
/// particular, a referee can never submit twice for the same round.
pub proof fn lemma_no_pending_reviewer_has_review(s: StoreView, version_id: u64, reviewer: u64)
    requires
        store_wf(s),
        has_version(s.versions, version_id),
        exists|j: int|
            0 <= j < s.reviews.len() && (#[trigger] s.reviews[j]).version_id == version_id
                && s.reviews[j].reviewer_id == Some(reviewer),
    ensures
        !version_at(s.versions, version_id).review_state.remainder_reviewer_ids.contains(reviewer),
{
    let j = choose|j: int|
        0 <= j < s.reviews.len() && (#[trigger] s.reviews[j]).version_id == version_id
            && s.reviews[j].reviewer_id == Some(reviewer);
    let i = version_idx(s.versions, version_id);
    assert(0 <= i < s.versions.len() && s.versions[i].id == version_id);
    assert(s.reviews[j].version_id == s.versions[i].id && s.reviews[j].reviewer_id is Some);
    assert(!s.versions[i].review_state.remainder_reviewer_ids.contains(
        s.reviews[j].reviewer_id->0,
    ));
}

/// Withdrawing a comment subtree removes each of its comments exactly
/// once and nothing else: the survivors and the subtree partition the
/// collection, whatever the subtree's depth or branching.
pub proof fn lemma_subtree_removal_count(s: Seq<crate::entities::CommentView>, root: u64)
    ensures
        s.filter(outside_pred(s, root)).len() + subtree_len(s, root) == s.len(),
{
    lemma_filter_partition_len(s, inside_pred(s, root), outside_pred(s, root));
}

/// The shape of a pass: the passed version is accepted with its major
/// number advanced by one and its minor number reset to zero; every other
/// version of the same thesis sharing the pre-pass major number is
/// superseded; every remaining version is untouched.
pub proof fn lemma_pass_shape(vs: Seq<VersionView>, version_id: u64)
    requires
        version_ids_unique(vs),
        has_version(vs, version_id),
        version_at(vs, version_id).major_num < i32::MAX,
    ensures
        ({
            let v = version_at(vs, version_id);
            let idx = version_idx(vs, version_id);
            let after = spec_after_pass(vs, version_id);
            &&& after.len() == vs.len()
            &&& after[idx] == spec_pass_one(v)
            &&& after[idx].state == VersionState::Passed(true)
            &&& after[idx].major_num == v.major_num + 1
            &&& after[idx].minor_num == 0
            &&& forall|i: int|
                0 <= i < vs.len() && i != idx && (#[trigger] vs[i]).thesis_id == v.thesis_id
                    && vs[i].major_num == v.major_num ==> after[i] == (VersionView {
                    state: VersionState::History,
                    ..vs[i]
                })
            &&& forall|i: int|
                0 <= i < vs.len() && i != idx && !((#[trigger] vs[i]).thesis_id == v.thesis_id
                    && vs[i].major_num == v.major_num) ==> after[i] == vs[i]
        }),
{
    let v = version_at(vs, version_id);
    let idx = version_idx(vs, version_id);
    let after = spec_after_pass(vs, version_id);
    assert(0 <= idx < vs.len() && vs[idx].id == version_id);
    assert(after[idx] == spec_pass_one(v));
    assert forall|i: int| 0 <= i < vs.len() && i != idx implies (#[trigger] vs[i]).id
        != version_id by {
        if i < idx {
            assert(vs[i].id != vs[idx].id);
        } else {
            assert(vs[idx].id != vs[i].id);
        }
    }
}

} // verus!
