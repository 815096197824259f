//! Cascade withdrawal: deleting a comment removes its whole reply subtree;
//! deleting a version removes its reviews and its comment trees; deleting a
//! thesis removes all of its versions and then itself. The walk is strictly
//! top-down — enumerate, delete the children, delete the entity — with no
//! rollback.

use vstd::prelude::*;

use crate::auth::Actor;
use crate::entities::{
    AppError, Comment, CommentView, Review, ReviewView, Thesis, ThesisView, Version, VersionView,
};
use crate::reach::{
    child_pred, comments_acyclic, in_subtree, inside_pred, lemma_in_subtree_bound,
    lemma_in_subtree_child, lemma_in_subtree_mono, lemma_in_subtree_on_version,
    lemma_in_subtree_preserved, lemma_in_subtree_trans, lemma_on_version_mono,
    lemma_on_version_preserved, lemma_on_version_root, lemma_on_version_unique,
    lemma_peers_not_nested, lemma_subtree_disjoint, ne_cid_pred, off_version_pred,
    off_versions_pred, on_version, outside_many_pred, outside_pred, subset_of, subtree_len,
    vroot_pred,
};
use crate::seq_lemmas::{
    and_pred, lemma_filter_all, lemma_filter_ext, lemma_filter_membership, lemma_filter_no_dup,
    lemma_filter_push, lemma_filter_split, lemma_filter_strict_imp_len,
};
use crate::store::{
    comment_at, comment_ids_unique, comment_idx, has_comment, has_thesis, has_version,
    lemma_comment_at, lemma_thesis_at, review_ids_unique, store_wf, thesis_at, thesis_ids_unique,
    thesis_idx, version_at, version_ids_unique, version_idx, version_slots_unique, Store,
    StoreView,
};
use crate::visibility::{spec_last_version, spec_may_edit_thesis};

verus! {

/// The reviews not belonging to the version.
pub open spec fn review_not_of_pred(version_id: u64) -> spec_fn(ReviewView) -> bool {
    |r: ReviewView| r.version_id != version_id
}

/// The reviews whose version is not among the first `k` listed ones.
pub open spec fn review_not_in_pred(version_ids: Seq<u64>, k: int) -> spec_fn(ReviewView) -> bool {
    |r: ReviewView| !(exists|m: int| 0 <= m < k && #[trigger] version_ids[m] == r.version_id)
}

/// The reviews whose version does not belong to the thesis.
pub open spec fn review_not_of_thesis_pred(vs: Seq<VersionView>, thesis_id: u64) -> spec_fn(
    ReviewView,
) -> bool {
    |r: ReviewView|
        !(exists|i: int|
            0 <= i < vs.len() && (#[trigger] vs[i]).id == r.version_id && vs[i].thesis_id
                == thesis_id)
}

/// Every version but the one with the given identifier.
pub open spec fn version_ne_pred(version_id: u64) -> spec_fn(VersionView) -> bool {
    |v: VersionView| v.id != version_id
}

/// The versions belonging to the thesis.
pub open spec fn version_of_pred(thesis_id: u64) -> spec_fn(VersionView) -> bool {
    |v: VersionView| v.thesis_id == thesis_id
}

/// The versions not belonging to the thesis.
pub open spec fn version_not_of_thesis_pred(thesis_id: u64) -> spec_fn(VersionView) -> bool {
    |v: VersionView| v.thesis_id != thesis_id
}

/// The versions not among the first `k` listed ones.
pub open spec fn version_not_in_pred(version_ids: Seq<u64>, k: int) -> spec_fn(
    VersionView,
) -> bool {
    |v: VersionView| !(exists|m: int| 0 <= m < k && #[trigger] version_ids[m] == v.id)
}

/// Every thesis but the one with the given identifier.
pub open spec fn thesis_ne_pred(thesis_id: u64) -> spec_fn(ThesisView) -> bool {
    |t: ThesisView| t.id != thesis_id
}

/// The comments not anchored to any version of the thesis.
pub open spec fn off_thesis_pred(
    cs: Seq<CommentView>,
    vs: Seq<VersionView>,
    thesis_id: u64,
) -> spec_fn(CommentView) -> bool {
    |c: CommentView|
        !(exists|i: int|
            0 <= i < vs.len() && (#[trigger] vs[i]).thesis_id == thesis_id && on_version(
                cs,
                c.id,
                vs[i].id,
            ))
}

/// Filtering keeps thesis identifiers unique and yields a sub-collection.
proof fn lemma_theses_filter(s: Seq<ThesisView>, p: spec_fn(ThesisView) -> bool)
    requires
        thesis_ids_unique(s),
    ensures
        thesis_ids_unique(s.filter(p)),
        forall|i: int| 0 <= i < s.filter(p).len() ==> s.contains(#[trigger] s.filter(p)[i]),
{
    lemma_filter_membership(s, p);
    assert(s.no_duplicates()) by {
        assert forall|i: int, j: int| 0 <= i < j < s.len() implies s[i] != s[j] by {
            assert(s[i].id != s[j].id);
        }
    }
    lemma_filter_no_dup(s, p);
    let t = s.filter(p);
    assert forall|i: int| 0 <= i < t.len() implies s.contains(#[trigger] t[i]) by {
        assert(t.contains(t[i]));
    }
    assert forall|i: int, j: int| 0 <= i < j < t.len() implies t[i].id != t[j].id by {
        assert(t[i] != t[j]);
        assert(s.contains(t[i]));
        assert(s.contains(t[j]));
        if t[i].id == t[j].id {
            let k1 = choose|k: int| 0 <= k < s.len() && s[k] == t[i];
            let k2 = choose|k: int| 0 <= k < s.len() && s[k] == t[j];
            assert(s[k1].id == s[k2].id && k1 != k2);
        }
    }
}

/// Filtering keeps version identifiers and slots unique and yields a
/// sub-collection.
proof fn lemma_versions_filter(s: Seq<VersionView>, p: spec_fn(VersionView) -> bool)
    requires
        version_ids_unique(s),
        version_slots_unique(s),
    ensures
        version_ids_unique(s.filter(p)),
        version_slots_unique(s.filter(p)),
        forall|i: int| 0 <= i < s.filter(p).len() ==> s.contains(#[trigger] s.filter(p)[i]),
{
    lemma_filter_membership(s, p);
    assert(s.no_duplicates()) by {
        assert forall|i: int, j: int| 0 <= i < j < s.len() implies s[i] != s[j] by {
            assert(s[i].id != s[j].id);
        }
    }
    lemma_filter_no_dup(s, p);
    let t = s.filter(p);
    assert forall|i: int| 0 <= i < t.len() implies s.contains(#[trigger] t[i]) by {
        assert(t.contains(t[i]));
    }
    assert forall|i: int, j: int|
        0 <= i < j < t.len() implies t[i].id != t[j].id && !(t[i].thesis_id == t[j].thesis_id
        && t[i].major_num == t[j].major_num && t[i].minor_num == t[j].minor_num) by {
        assert(t[i] != t[j]);
        assert(s.contains(t[i]));
        assert(s.contains(t[j]));
        let k1 = choose|k: int| 0 <= k < s.len() && s[k] == t[i];
        let k2 = choose|k: int| 0 <= k < s.len() && s[k] == t[j];
        assert(k1 != k2);
        if k1 < k2 {
            assert(s[k1].id != s[k2].id);
        } else {
            assert(s[k2].id != s[k1].id);
        }
    }
}

/// Filtering keeps review identifiers unique and yields a sub-collection.
proof fn lemma_reviews_filter(s: Seq<ReviewView>, p: spec_fn(ReviewView) -> bool)
    requires
        review_ids_unique(s),
    ensures
        review_ids_unique(s.filter(p)),
        forall|i: int| 0 <= i < s.filter(p).len() ==> s.contains(#[trigger] s.filter(p)[i]),
{
    lemma_filter_membership(s, p);
    assert(s.no_duplicates()) by {
        assert forall|i: int, j: int| 0 <= i < j < s.len() implies s[i] != s[j] by {
            assert(s[i].id != s[j].id);
        }
    }
    lemma_filter_no_dup(s, p);
    let t = s.filter(p);
    assert forall|i: int| 0 <= i < t.len() implies s.contains(#[trigger] t[i]) by {
        assert(t.contains(t[i]));
    }
    assert forall|i: int, j: int| 0 <= i < j < t.len() implies t[i].id != t[j].id by {
        assert(t[i] != t[j]);
        assert(s.contains(t[i]));
        assert(s.contains(t[j]));
        if t[i].id == t[j].id {
            let k1 = choose|k: int| 0 <= k < s.len() && s[k] == t[i];
            let k2 = choose|k: int| 0 <= k < s.len() && s[k] == t[j];
            assert(s[k1].id == s[k2].id && k1 != k2);
        }
    }
}

/// Filtering keeps comment identifiers unique and yields a sub-collection.
pub proof fn lemma_comments_filter(s: Seq<CommentView>, p: spec_fn(CommentView) -> bool)
    requires
        comment_ids_unique(s),
    ensures
        comment_ids_unique(s.filter(p)),
        subset_of(s.filter(p), s),
        forall|i: int| 0 <= i < s.filter(p).len() ==> s.contains(#[trigger] s.filter(p)[i]),
{
    lemma_filter_membership(s, p);
    assert(s.no_duplicates()) by {
        assert forall|i: int, j: int| 0 <= i < j < s.len() implies s[i] != s[j] by {
            assert(s[i].id != s[j].id);
        }
    }
    lemma_filter_no_dup(s, p);
    let t = s.filter(p);
    assert forall|i: int| 0 <= i < t.len() implies s.contains(#[trigger] t[i]) by {
        assert(t.contains(t[i]));
    }
    assert forall|i: int, j: int| 0 <= i < j < t.len() implies t[i].id != t[j].id by {
        assert(t[i] != t[j]);
        assert(s.contains(t[i]));
        assert(s.contains(t[j]));
        if t[i].id == t[j].id {
            let k1 = choose|k: int| 0 <= k < s.len() && s[k] == t[i];
            let k2 = choose|k: int| 0 <= k < s.len() && s[k] == t[j];
            assert(s[k1].id == s[k2].id && k1 != k2);
        }
    }
}

/// A store whose collections are sub-collections (with unique identifiers)
/// of a well-formed store's, under the same identifier counter, is
/// well-formed.
pub proof fn lemma_wf_sub(s: StoreView, t: StoreView)
    requires
        store_wf(s),
        t.next_id == s.next_id,
        forall|i: int| 0 <= i < t.theses.len() ==> s.theses.contains(#[trigger] t.theses[i]),
        forall|i: int| 0 <= i < t.versions.len() ==> s.versions.contains(#[trigger] t.versions[i]),
        forall|i: int| 0 <= i < t.reviews.len() ==> s.reviews.contains(#[trigger] t.reviews[i]),
        forall|i: int| 0 <= i < t.comments.len() ==> s.comments.contains(#[trigger] t.comments[i]),
        thesis_ids_unique(t.theses),
        version_ids_unique(t.versions),
        version_slots_unique(t.versions),
        review_ids_unique(t.reviews),
        comment_ids_unique(t.comments),
    ensures
        store_wf(t),
{
    assert forall|i: int| 0 <= i < t.theses.len() implies (#[trigger] t.theses[i]).id < t.next_id by {
        let k = choose|k: int| 0 <= k < s.theses.len() && s.theses[k] == t.theses[i];
        assert(s.theses[k].id < s.next_id);
    }
    assert forall|i: int| 0 <= i < t.versions.len() implies {
        let v = #[trigger] t.versions[i];
        v.id < t.next_id && v.major_num >= 0 && v.minor_num >= 0
            && v.review_state.remainder_reviewer_ids.no_duplicates()
    } by {
        let k = choose|k: int| 0 <= k < s.versions.len() && s.versions[k] == t.versions[i];
        assert(s.versions[k] == t.versions[i]);
    }
    assert forall|i: int| 0 <= i < t.reviews.len() implies {
        let r = #[trigger] t.reviews[i];
        r.id < t.next_id && r.version_id < t.next_id
    } by {
        let k = choose|k: int| 0 <= k < s.reviews.len() && s.reviews[k] == t.reviews[i];
        assert(s.reviews[k] == t.reviews[i]);
    }
    assert forall|i: int| 0 <= i < t.comments.len() implies {
        let c = #[trigger] t.comments[i];
        c.id < t.next_id && (c.target_type is Comment ==> c.target_id < c.id)
    } by {
        let k = choose|k: int| 0 <= k < s.comments.len() && s.comments[k] == t.comments[i];
        assert(s.comments[k] == t.comments[i]);
    }
    assert forall|i: int, j: int|
        #![trigger t.versions[i], t.reviews[j]]
        0 <= i < t.versions.len() && 0 <= j < t.reviews.len() && t.reviews[j].version_id
            == t.versions[i].id && t.reviews[j].reviewer_id is Some implies !t.versions[
    i].review_state.remainder_reviewer_ids.contains(t.reviews[j].reviewer_id->0) by {
        let k1 = choose|k: int| 0 <= k < s.versions.len() && s.versions[k] == t.versions[i];
        let k2 = choose|k: int| 0 <= k < s.reviews.len() && s.reviews[k] == t.reviews[j];
        assert(s.versions[k1] == t.versions[i]);
        assert(s.reviews[k2] == t.reviews[j]);
    }
    assert forall|i: int, j: int|
        #![trigger t.versions[i], t.reviews[j]]
        0 <= i < t.versions.len() && 0 <= j < t.reviews.len() && t.versions[i].state
            is Uploaded implies t.reviews[j].version_id != t.versions[i].id by {
        let k1 = choose|k: int| 0 <= k < s.versions.len() && s.versions[k] == t.versions[i];
        let k2 = choose|k: int| 0 <= k < s.reviews.len() && s.reviews[k] == t.reviews[j];
        assert(s.versions[k1] == t.versions[i]);
        assert(s.reviews[k2] == t.reviews[j]);
    }
}

/// One step of the thesis cascade: withdrawing the `k`-th listed version
/// extends the three partial filters by that version.
#[verifier::spinoff_prover]
proof fn lemma_thesis_cascade_step(
    vs0: Seq<VersionView>,
    rs0: Seq<ReviewView>,
    cs0: Seq<CommentView>,
    vl: Seq<u64>,
    g: Seq<VersionView>,
    thesis_id: u64,
    k: int,
    curc: Seq<CommentView>,
)
    requires
        comment_ids_unique(cs0),
        g == vs0.filter(version_of_pred(thesis_id)),
        vl.len() == g.len(),
        forall|m: int| 0 <= m < g.len() ==> vl[m] == (#[trigger] g[m]).id,
        forall|m1: int, m2: int| 0 <= m1 < m2 < g.len() ==> g[m1].id != g[m2].id,
        0 <= k < vl.len(),
        curc == cs0.filter(off_versions_pred(cs0, vl, k)),
    ensures
        vs0.filter(version_not_in_pred(vl, k)).filter(version_ne_pred(vl[k])) == vs0.filter(
            version_not_in_pred(vl, k + 1),
        ),
        rs0.filter(review_not_in_pred(vl, k)).filter(review_not_of_pred(vl[k])) == rs0.filter(
            review_not_in_pred(vl, k + 1),
        ),
        curc.filter(off_version_pred(curc, vl[k])) == cs0.filter(off_versions_pred(cs0, vl, k + 1)),
{
    let pk = version_not_in_pred(vl, k);
    let wk = review_not_in_pred(vl, k);
    let qk = off_versions_pred(cs0, vl, k);
    let vidk = vl[k];
    let pk1 = version_not_in_pred(vl, k + 1);
    let wk1 = review_not_in_pred(vl, k + 1);
    let qk1 = off_versions_pred(cs0, vl, k + 1);
    lemma_comments_filter(cs0, qk);
    lemma_filter_split(vs0, pk, version_ne_pred(vidk), and_pred(pk, version_ne_pred(vidk)));
    assert forall|i: int|
        0 <= i < vs0.len() implies and_pred(pk, version_ne_pred(vidk))(#[trigger] vs0[i]) == pk1(
        vs0[i],
    ) by {
        let v = vs0[i];
        if and_pred(pk, version_ne_pred(vidk))(v) {
            if exists|m: int| 0 <= m < k + 1 && #[trigger] vl[m] == v.id {
                let m = choose|m: int| 0 <= m < k + 1 && #[trigger] vl[m] == v.id;
                assert(!(m < k));
            }
        }
        if pk1(v) {
            assert(pk(v));
            assert(!(vl[k] == v.id));
        }
    }
    lemma_filter_ext(vs0, and_pred(pk, version_ne_pred(vidk)), pk1);
    lemma_filter_split(rs0, wk, review_not_of_pred(vidk), and_pred(wk, review_not_of_pred(vidk)));
    assert forall|i: int|
        0 <= i < rs0.len() implies and_pred(wk, review_not_of_pred(vidk))(#[trigger] rs0[i]) == wk1(
        rs0[i],
    ) by {
        let rv = rs0[i];
        if and_pred(wk, review_not_of_pred(vidk))(rv) {
            if exists|m: int| 0 <= m < k + 1 && #[trigger] vl[m] == rv.version_id {
                let m = choose|m: int| 0 <= m < k + 1 && #[trigger] vl[m] == rv.version_id;
                assert(!(m < k));
            }
        }
        if wk1(rv) {
            assert(wk(rv));
            assert(!(vl[k] == rv.version_id));
        }
    }
    lemma_filter_ext(rs0, and_pred(wk, review_not_of_pred(vidk)), wk1);
    lemma_filter_split(cs0, qk, off_version_pred(curc, vidk), and_pred(
        qk,
        off_version_pred(curc, vidk),
    ));
    assert forall|i: int|
        0 <= i < cs0.len() implies and_pred(qk, off_version_pred(curc, vidk))(#[trigger] cs0[i])
        == qk1(cs0[i]) by {
        let x = cs0[i];
        if and_pred(qk, off_version_pred(curc, vidk))(x) {
            if exists|m: int| 0 <= m < k + 1 && on_version(cs0, x.id, #[trigger] vl[m]) {
                let m = choose|m: int| 0 <= m < k + 1 && on_version(cs0, x.id, #[trigger] vl[m]);
                if m < k {
                    assert(!qk(x));
                } else {
                    assert(on_version(cs0, x.id, vidk));
                    assert forall|c: CommentView|
                        #[trigger] cs0.contains(c) && on_version(cs0, c.id, vidk) implies curc.contains(
                        c,
                    ) by {
                        assert(qk(c)) by {
                            if exists|m2: int| 0 <= m2 < k && on_version(cs0, c.id, #[trigger] vl[m2]) {
                                let m2 = choose|m2: int|
                                    0 <= m2 < k && on_version(cs0, c.id, #[trigger] vl[m2]);
                                lemma_on_version_unique(cs0, c.id, vl[m2], vidk);
                                assert(g[m2].id != g[k].id);
                            }
                        }
                        lemma_filter_membership(cs0, qk);
                    }
                    lemma_on_version_preserved(cs0, curc, x.id, vidk);
                }
            }
        }
        if qk1(x) {
            assert(qk(x));
            if on_version(curc, x.id, vidk) {
                lemma_on_version_mono(cs0, curc, x.id, vidk);
                assert(on_version(cs0, x.id, vl[k]));
                assert(!qk1(x));
            }
        }
    }
    lemma_filter_ext(cs0, and_pred(qk, off_version_pred(curc, vidk)), qk1);
}

/// After every listed version of the thesis is withdrawn, the three
/// partial filters coincide with the thesis-level ones.
#[verifier::spinoff_prover]
proof fn lemma_thesis_cascade_ext(
    vs0: Seq<VersionView>,
    rs0: Seq<ReviewView>,
    cs0: Seq<CommentView>,
    vl: Seq<u64>,
    g: Seq<VersionView>,
    thesis_id: u64,
)
    requires
        version_ids_unique(vs0),
        g == vs0.filter(version_of_pred(thesis_id)),
        vl.len() == g.len(),
        forall|m: int| 0 <= m < g.len() ==> vl[m] == (#[trigger] g[m]).id,
    ensures
        vs0.filter(version_not_in_pred(vl, vl.len() as int)) == vs0.filter(
            version_not_of_thesis_pred(thesis_id),
        ),
        rs0.filter(review_not_in_pred(vl, vl.len() as int)) == rs0.filter(
            review_not_of_thesis_pred(vs0, thesis_id),
        ),
        cs0.filter(off_versions_pred(cs0, vl, vl.len() as int)) == cs0.filter(
            off_thesis_pred(cs0, vs0, thesis_id),
        ),
{
    let pn = version_not_in_pred(vl, vl.len() as int);
    let wn = review_not_in_pred(vl, vl.len() as int);
    let qn = off_versions_pred(cs0, vl, vl.len() as int);
    lemma_filter_membership(vs0, version_of_pred(thesis_id));
    assert forall|m: int| 0 <= m < g.len() implies version_of_pred(thesis_id)(#[trigger] g[m])
        && vs0.contains(g[m]) by {
        assert(g.contains(g[m]));
    }
    assert forall|i: int|
        0 <= i < vs0.len() implies pn(#[trigger] vs0[i]) == version_not_of_thesis_pred(thesis_id)(
        vs0[i],
    ) by {
        let v = vs0[i];
        if pn(v) && v.thesis_id == thesis_id {
            assert(g.contains(v)) by {
                assert(version_of_pred(thesis_id)(v));
                assert(vs0.contains(v));
            }
            let m = choose|m: int| 0 <= m < g.len() && g[m] == v;
            assert(vl[m] == v.id);
            assert(!pn(v));
        }
        if version_not_of_thesis_pred(thesis_id)(v) {
            if exists|m: int| 0 <= m < vl.len() && #[trigger] vl[m] == v.id {
                let m = choose|m: int| 0 <= m < vl.len() && #[trigger] vl[m] == v.id;
                let w = g[m];
                assert(vs0.contains(w));
                let kw = choose|j: int| 0 <= j < vs0.len() && vs0[j] == w;
                assert(vs0[kw].id == vs0[i].id);
                if kw != i {
                    assert(vs0[kw].id != vs0[i].id);
                }
                assert(w == v);
                assert(w.thesis_id == thesis_id);
            }
        }
    }
    lemma_filter_ext(vs0, pn, version_not_of_thesis_pred(thesis_id));
    assert forall|i: int|
        0 <= i < rs0.len() implies wn(#[trigger] rs0[i]) == review_not_of_thesis_pred(
        vs0,
        thesis_id,
    )(rs0[i]) by {
        let rv = rs0[i];
        if wn(rv) {
            if exists|j: int|
                0 <= j < vs0.len() && (#[trigger] vs0[j]).id == rv.version_id && vs0[j].thesis_id
                    == thesis_id {
                let j = choose|j: int|
                    0 <= j < vs0.len() && (#[trigger] vs0[j]).id == rv.version_id
                        && vs0[j].thesis_id == thesis_id;
                assert(g.contains(vs0[j])) by {
                    assert(version_of_pred(thesis_id)(vs0[j]));
                    assert(vs0.contains(vs0[j]));
                }
                let m = choose|m: int| 0 <= m < g.len() && g[m] == vs0[j];
                assert(vl[m] == rv.version_id);
                assert(!wn(rv));
            }
        }
        if review_not_of_thesis_pred(vs0, thesis_id)(rv) {
            if exists|m: int| 0 <= m < vl.len() && #[trigger] vl[m] == rv.version_id {
                let m = choose|m: int| 0 <= m < vl.len() && #[trigger] vl[m] == rv.version_id;
                let w = g[m];
                assert(vs0.contains(w));
                let kw = choose|j: int| 0 <= j < vs0.len() && vs0[j] == w;
                assert((#[trigger] vs0[kw]).id == rv.version_id && vs0[kw].thesis_id == thesis_id);
            }
        }
    }
    lemma_filter_ext(rs0, wn, review_not_of_thesis_pred(vs0, thesis_id));
    assert forall|i: int|
        0 <= i < cs0.len() implies qn(#[trigger] cs0[i]) == off_thesis_pred(cs0, vs0, thesis_id)(
        cs0[i],
    ) by {
        let x = cs0[i];
        if qn(x) {
            if exists|j: int|
                0 <= j < vs0.len() && (#[trigger] vs0[j]).thesis_id == thesis_id && on_version(
                    cs0,
                    x.id,
                    vs0[j].id,
                ) {
                let j = choose|j: int|
                    0 <= j < vs0.len() && (#[trigger] vs0[j]).thesis_id == thesis_id && on_version(
                        cs0,
                        x.id,
                        vs0[j].id,
                    );
                assert(g.contains(vs0[j])) by {
                    assert(version_of_pred(thesis_id)(vs0[j]));
                    assert(vs0.contains(vs0[j]));
                }
                let m = choose|m: int| 0 <= m < g.len() && g[m] == vs0[j];
                assert(vl[m] == vs0[j].id);
                assert(on_version(cs0, x.id, vl[m]));
                assert(!qn(x));
            }
        }
        if off_thesis_pred(cs0, vs0, thesis_id)(x) {
            if exists|m: int| 0 <= m < vl.len() && on_version(cs0, x.id, #[trigger] vl[m]) {
                let m = choose|m: int| 0 <= m < vl.len() && on_version(cs0, x.id, #[trigger] vl[m]);
                let w = g[m];
                assert(vs0.contains(w));
                let kw = choose|j: int| 0 <= j < vs0.len() && vs0[j] == w;
                assert((#[trigger] vs0[kw]).thesis_id == thesis_id && on_version(
                    cs0,
                    x.id,
                    vs0[kw].id,
                ));
            }
        }
    }
    lemma_filter_ext(cs0, qn, off_thesis_pred(cs0, vs0, thesis_id));
}

impl Store {
    /// Deletes the comment with the given identifier, keeping the rest in
    /// order.
    fn remove_comment(&mut self, id: u64)
        ensures
            final(self)@.comments == old(self)@.comments.filter(ne_cid_pred(id)),
            final(self)@.theses == old(self)@.theses,
            final(self)@.versions == old(self)@.versions,
            final(self)@.reviews == old(self)@.reviews,
            final(self)@.next_id == old(self)@.next_id,
    {
        let ghost s = self@.comments;
        let mut kept: Vec<Comment> = Vec::new();
        let mut i: usize = 0;
        proof {
            assert(kept@.map_values(|c: Comment| c@) =~= s.subrange(0, 0).filter(ne_cid_pred(id)));
        }
        while i < self.comments.len()
            invariant
                i <= s.len(),
                self@.comments == s,
                kept@.map_values(|c: Comment| c@) == s.subrange(0, i as int).filter(
                    ne_cid_pred(id),
                ),
            decreases s.len() - i,
        {
            proof {
                assert(s.subrange(0, i + 1 as int) =~= s.subrange(0, i as int).push(s[i as int]));
                lemma_filter_push(s.subrange(0, i as int), ne_cid_pred(id), s[i as int]);
                assert(ne_cid_pred(id)(s[i as int]) == (s[i as int].id != id));
            }
            if self.comments[i].id != id {
                let c = &self.comments[i];
                kept.push(c.clone());
                proof {
                    assert(kept@.map_values(|c2: Comment| c2@) =~= s.subrange(0, i + 1 as int).filter(
                        ne_cid_pred(id),
                    ));
                }
            }
            i = i + 1;
        }
        proof {
            assert(s.subrange(0, s.len() as int) =~= s);
        }
        self.comments = kept;
        proof {
            assert(final(self)@.comments =~= old(self)@.comments.filter(ne_cid_pred(id)));
        }
    }

    /// Deletes every review of the version, keeping the rest in order.
    fn remove_reviews_of(&mut self, version_id: u64)
        ensures
            final(self)@.reviews == old(self)@.reviews.filter(review_not_of_pred(version_id)),
            final(self)@.theses == old(self)@.theses,
            final(self)@.versions == old(self)@.versions,
            final(self)@.comments == old(self)@.comments,
            final(self)@.next_id == old(self)@.next_id,
    {
        let ghost s = self@.reviews;
        let mut kept: Vec<Review> = Vec::new();
        let mut i: usize = 0;
        proof {
            assert(kept@.map_values(|r: Review| r@) =~= s.subrange(0, 0).filter(
                review_not_of_pred(version_id),
            ));
        }
        while i < self.reviews.len()
            invariant
                i <= s.len(),
                self@.reviews == s,
                kept@.map_values(|r: Review| r@) == s.subrange(0, i as int).filter(
                    review_not_of_pred(version_id),
                ),
            decreases s.len() - i,
        {
            proof {
                assert(s.subrange(0, i + 1 as int) =~= s.subrange(0, i as int).push(s[i as int]));
                lemma_filter_push(
                    s.subrange(0, i as int),
                    review_not_of_pred(version_id),
                    s[i as int],
                );
                assert(review_not_of_pred(version_id)(s[i as int]) == (s[i as int].version_id
                    != version_id));
            }
            if self.reviews[i].version_id != version_id {
                let r = &self.reviews[i];
                kept.push(r.clone());
                proof {
                    assert(kept@.map_values(|r2: Review| r2@) =~= s.subrange(0, i + 1 as int).filter(
                        review_not_of_pred(version_id),
                    ));
                }
            }
            i = i + 1;
        }
        proof {
            assert(s.subrange(0, s.len() as int) =~= s);
        }
        self.reviews = kept;
        proof {
            assert(final(self)@.reviews =~= old(self)@.reviews.filter(
                review_not_of_pred(version_id),
            ));
        }
    }

    /// Deletes the version with the given identifier, keeping the rest in
    /// order.
    fn remove_version(&mut self, version_id: u64)
        ensures
            final(self)@.versions == old(self)@.versions.filter(version_ne_pred(version_id)),
            final(self)@.theses == old(self)@.theses,
            final(self)@.reviews == old(self)@.reviews,
            final(self)@.comments == old(self)@.comments,
            final(self)@.next_id == old(self)@.next_id,
    {
        let ghost s = self@.versions;
        let mut kept: Vec<Version> = Vec::new();
        let mut i: usize = 0;
        proof {
            assert(kept@.map_values(|v: Version| v@) =~= s.subrange(0, 0).filter(
                version_ne_pred(version_id),
            ));
        }
        while i < self.versions.len()
            invariant
                i <= s.len(),
                self@.versions == s,
                kept@.map_values(|v: Version| v@) == s.subrange(0, i as int).filter(
                    version_ne_pred(version_id),
                ),
            decreases s.len() - i,
        {
            proof {
                assert(s.subrange(0, i + 1 as int) =~= s.subrange(0, i as int).push(s[i as int]));
                lemma_filter_push(
                    s.subrange(0, i as int),
                    version_ne_pred(version_id),
                    s[i as int],
                );
                assert(version_ne_pred(version_id)(s[i as int]) == (s[i as int].id != version_id));
            }
            if self.versions[i].id != version_id {
                let v = &self.versions[i];
                kept.push(v.clone());
                proof {
                    assert(kept@.map_values(|v2: Version| v2@) =~= s.subrange(0, i + 1 as int).filter(
                        version_ne_pred(version_id),
                    ));
                }
            }
            i = i + 1;
        }
        proof {
            assert(s.subrange(0, s.len() as int) =~= s);
        }
        self.versions = kept;
        proof {
            assert(final(self)@.versions =~= old(self)@.versions.filter(
                version_ne_pred(version_id),
            ));
        }
    }

    /// Deletes the thesis with the given identifier, keeping the rest in
    /// order.
    fn remove_thesis(&mut self, thesis_id: u64)
        ensures
            final(self)@.theses == old(self)@.theses.filter(thesis_ne_pred(thesis_id)),
            final(self)@.versions == old(self)@.versions,
            final(self)@.reviews == old(self)@.reviews,
            final(self)@.comments == old(self)@.comments,
            final(self)@.next_id == old(self)@.next_id,
    {
        let ghost s = self@.theses;
        let mut kept: Vec<Thesis> = Vec::new();
        let mut i: usize = 0;
        proof {
            assert(kept@.map_values(|t: Thesis| t@) =~= s.subrange(0, 0).filter(
                thesis_ne_pred(thesis_id),
            ));
        }
        while i < self.theses.len()
            invariant
                i <= s.len(),
                self@.theses == s,
                kept@.map_values(|t: Thesis| t@) == s.subrange(0, i as int).filter(
                    thesis_ne_pred(thesis_id),
                ),
            decreases s.len() - i,
        {
            proof {
                assert(s.subrange(0, i + 1 as int) =~= s.subrange(0, i as int).push(s[i as int]));
                lemma_filter_push(
                    s.subrange(0, i as int),
                    thesis_ne_pred(thesis_id),
                    s[i as int],
                );
                assert(thesis_ne_pred(thesis_id)(s[i as int]) == (s[i as int].id != thesis_id));
            }
            if self.theses[i].id != thesis_id {
                let t = &self.theses[i];
                kept.push(t.clone());
                proof {
                    assert(kept@.map_values(|t2: Thesis| t2@) =~= s.subrange(0, i + 1 as int).filter(
                        thesis_ne_pred(thesis_id),
                    ));
                }
            }
            i = i + 1;
        }
        proof {
            assert(s.subrange(0, s.len() as int) =~= s);
        }
        self.theses = kept;
        proof {
            assert(final(self)@.theses =~= old(self)@.theses.filter(thesis_ne_pred(thesis_id)));
        }
    }

    /// The identifiers of the replies directly targeting the comment, in
    /// store order.
    fn child_ids(&self, id: u64) -> (r: Vec<u64>)
        ensures
            ({
                let f = self@.comments.filter(child_pred(id));
                r@.len() == f.len() && (forall|m: int| 0 <= m < f.len() ==> r@[m] == (
                #[trigger] f[m]).id)
            }),
    {
        let ghost s = self@.comments;
        let mut r: Vec<u64> = Vec::new();
        let mut i: usize = 0;
        proof {
            assert(s.subrange(0, 0).filter(child_pred(id)) =~= Seq::<CommentView>::empty());
        }
        while i < self.comments.len()
            invariant
                i <= s.len(),
                self@.comments == s,
                ({
                    let f = s.subrange(0, i as int).filter(child_pred(id));
                    r@.len() == f.len() && (forall|m: int| 0 <= m < f.len() ==> r@[m] == (
                    #[trigger] f[m]).id)
                }),
            decreases s.len() - i,
        {
            proof {
                assert(s.subrange(0, i + 1 as int) =~= s.subrange(0, i as int).push(s[i as int]));
                lemma_filter_push(s.subrange(0, i as int), child_pred(id), s[i as int]);
                assert(child_pred(id)(s[i as int]) == (s[i as int].target_type is Comment && s[
                    i as int].target_id == id));
            }
            let is_child = match self.comments[i].target_type {
                crate::entities::CommentTargetType::Comment => self.comments[i].target_id == id,
                crate::entities::CommentTargetType::Version => false,
            };
            if is_child {
                r.push(self.comments[i].id);
            }
            i = i + 1;
        }
        proof {
            assert(s.subrange(0, s.len() as int) =~= s);
        }
        r
    }

    /// The identifiers of the comments directly targeting the version, in
    /// store order.
    fn vroot_ids(&self, version_id: u64) -> (r: Vec<u64>)
        ensures
            ({
                let f = self@.comments.filter(vroot_pred(version_id));
                r@.len() == f.len() && (forall|m: int| 0 <= m < f.len() ==> r@[m] == (
                #[trigger] f[m]).id)
            }),
    {
        let ghost s = self@.comments;
        let mut r: Vec<u64> = Vec::new();
        let mut i: usize = 0;
        proof {
            assert(s.subrange(0, 0).filter(vroot_pred(version_id)) =~= Seq::<CommentView>::empty());
        }
        while i < self.comments.len()
            invariant
                i <= s.len(),
                self@.comments == s,
                ({
                    let f = s.subrange(0, i as int).filter(vroot_pred(version_id));
                    r@.len() == f.len() && (forall|m: int| 0 <= m < f.len() ==> r@[m] == (
                    #[trigger] f[m]).id)
                }),
            decreases s.len() - i,
        {
            proof {
                assert(s.subrange(0, i + 1 as int) =~= s.subrange(0, i as int).push(s[i as int]));
                lemma_filter_push(s.subrange(0, i as int), vroot_pred(version_id), s[i as int]);
                assert(vroot_pred(version_id)(s[i as int]) == (s[i as int].target_type is Version
                    && s[i as int].target_id == version_id));
            }
            let is_root = match self.comments[i].target_type {
                crate::entities::CommentTargetType::Version => self.comments[i].target_id
                    == version_id,
                crate::entities::CommentTargetType::Comment => false,
            };
            if is_root {
                r.push(self.comments[i].id);
            }
            i = i + 1;
        }
        proof {
            assert(s.subrange(0, s.len() as int) =~= s);
        }
        r
    }

    /// Withdraws the comment with the given identifier together with its
    /// whole reply subtree: the direct replies are enumerated, each reply's
    /// subtree is withdrawn in turn, and the comment itself is deleted
    /// last.
    #[verifier::rlimit(100)]
    pub(crate) fn withdraw_comment_rec(&mut self, id: u64)
        requires
            old(self).wf(),
            has_comment(old(self)@.comments, id),
        ensures
            final(self).wf(),
            final(self)@.comments == old(self)@.comments.filter(
                outside_pred(old(self)@.comments, id),
            ),
            final(self)@.theses == old(self)@.theses,
            final(self)@.versions == old(self)@.versions,
            final(self)@.reviews == old(self)@.reviews,
            final(self)@.next_id == old(self)@.next_id,
        decreases subtree_len(old(self)@.comments, id),
    {
        let ghost s0 = self@.comments;
        proof {
            assert(comments_acyclic(s0)) by {
                assert forall|i: int|
                    0 <= i < s0.len() implies ((#[trigger] s0[i]).target_type is Comment
                    ==> s0[i].target_id < s0[i].id) by {
                    assert(old(self)@.comments[i] == s0[i]);
                }
            }
        }
        let children = self.child_ids(id);
        let ghost kids = children@;
        let ghost f = s0.filter(child_pred(id));
        proof {
            lemma_comments_filter(s0, child_pred(id));
            lemma_filter_membership(s0, child_pred(id));
            assert forall|m: int| 0 <= m < f.len() implies child_pred(id)(#[trigger] f[m])
                && s0.contains(f[m]) by {
                assert(f.contains(f[m]));
            }
            assert(s0.filter(outside_many_pred(s0, kids, 0)) == s0) by {
                lemma_filter_all(s0, outside_many_pred(s0, kids, 0));
            }
        }
        let mut k: usize = 0;
        while k < children.len()
            invariant
                k <= kids.len(),
                self.wf(),
                self@.comments == s0.filter(outside_many_pred(s0, kids, k as int)),
                self@.theses == old(self)@.theses,
                self@.versions == old(self)@.versions,
                self@.reviews == old(self)@.reviews,
                self@.next_id == old(self)@.next_id,
            decreases kids.len() - k,
        {
            let ghost cur = self@.comments;
            let ghost qk = outside_many_pred(s0, kids, k as int);
            let ghost ck = kids[k as int];
            let ghost chk = f[k as int];
            proof {
                lemma_comments_filter(s0, qk);
                lemma_filter_membership(s0, qk);
                assert(chk.id == ck);
                assert(qk(chk)) by {
                    if exists|m: int| 0 <= m < k && in_subtree(s0, chk.id, #[trigger] kids[m]) {
                        let m = choose|m: int|
                            0 <= m < k && in_subtree(s0, chk.id, #[trigger] kids[m]);
                        assert(kids[m] == f[m].id);
                        lemma_peers_not_nested(s0, chk, f[m]);
                    }
                }
                assert(cur.contains(chk));
                let ki = choose|j: int| 0 <= j < cur.len() && cur[j] == chk;
                assert(has_comment(cur, ck)) by {
                    assert(cur[ki].id == ck);
                }
                let k0 = choose|j: int| 0 <= j < s0.len() && s0[j] == chk;
                lemma_comment_at(s0, ck, k0);
                assert(in_subtree(s0, ck, id)) by {
                    assert(comment_at(s0, ck) == chk);
                    assert(in_subtree(s0, id, id));
                }
                let pcur = inside_pred(cur, ck);
                lemma_filter_split(s0, qk, pcur, and_pred(qk, pcur));
                assert forall|x: CommentView| #[trigger] and_pred(qk, pcur)(x) implies inside_pred(
                    s0,
                    id,
                )(x) by {
                    assert(in_subtree(cur, x.id, ck));
                    lemma_in_subtree_mono(s0, cur, x.id, ck);
                    lemma_in_subtree_trans(s0, x.id, ck, id);
                }
                let cid_idx = comment_idx(s0, id);
                let c_id = comment_at(s0, id);
                assert(s0.contains(c_id)) by {
                    assert(s0[cid_idx] == c_id);
                }
                assert(inside_pred(s0, id)(c_id)) by {
                    assert(in_subtree(s0, id, id));
                }
                assert(!and_pred(qk, pcur)(c_id)) by {
                    if in_subtree(cur, c_id.id, ck) {
                        lemma_in_subtree_mono(s0, cur, c_id.id, ck);
                        lemma_in_subtree_bound(s0, id, ck);
                    }
                }
                lemma_filter_strict_imp_len(s0, and_pred(qk, pcur), inside_pred(s0, id), c_id);
                assert(subtree_len(cur, ck) < subtree_len(s0, id));
            }
            self.withdraw_comment_rec(children[k]);
            proof {
                let cur2 = self@.comments;
                let qk1 = outside_many_pred(s0, kids, k + 1 as int);
                lemma_filter_split(
                    s0,
                    qk,
                    outside_pred(cur, ck),
                    and_pred(qk, outside_pred(cur, ck)),
                );
                assert forall|i: int|
                    0 <= i < s0.len() implies and_pred(qk, outside_pred(cur, ck))(
                    #[trigger] s0[i],
                ) == qk1(s0[i]) by {
                    let x = s0[i];
                    if and_pred(qk, outside_pred(cur, ck))(x) {
                        if exists|m: int| 0 <= m < k + 1 && in_subtree(s0, x.id, #[trigger] kids[m]) {
                            let m = choose|m: int|
                                0 <= m < k + 1 && in_subtree(s0, x.id, #[trigger] kids[m]);
                            if m < k {
                                assert(!qk(x));
                            } else {
                                assert(in_subtree(s0, x.id, ck));
                                assert forall|c: CommentView|
                                    #[trigger] s0.contains(c) && in_subtree(s0, c.id, ck) implies cur.contains(
                                    c,
                                ) by {
                                    assert(qk(c)) by {
                                        if exists|m2: int|
                                            0 <= m2 < k && in_subtree(s0, c.id, #[trigger] kids[m2]) {
                                            let m2 = choose|m2: int|
                                                0 <= m2 < k && in_subtree(
                                                    s0,
                                                    c.id,
                                                    #[trigger] kids[m2],
                                                );
                                            assert(kids[m2] == f[m2].id);
                                            lemma_peers_not_nested(s0, chk, f[m2]);
                                            lemma_peers_not_nested(s0, f[m2], chk);
                                            lemma_subtree_disjoint(s0, ck, kids[m2], c.id);
                                        }
                                    }
                                }
                                lemma_in_subtree_preserved(s0, cur, x.id, ck);
                            }
                        }
                    }
                    if qk1(x) {
                        assert(qk(x));
                        if in_subtree(cur, x.id, ck) {
                            lemma_in_subtree_mono(s0, cur, x.id, ck);
                            assert(in_subtree(s0, x.id, kids[k as int]));
                            assert(!qk1(x));
                        }
                    }
                }
                lemma_filter_ext(s0, and_pred(qk, outside_pred(cur, ck)), qk1);
                assert(self@.comments == s0.filter(qk1));
            }
            k = k + 1;
        }
        let ghost qn = outside_many_pred(s0, kids, kids.len() as int);
        self.remove_comment(id);
        proof {
            lemma_filter_split(s0, qn, ne_cid_pred(id), and_pred(qn, ne_cid_pred(id)));
            assert forall|i: int|
                0 <= i < s0.len() implies and_pred(qn, ne_cid_pred(id))(#[trigger] s0[i])
                == outside_pred(s0, id)(s0[i]) by {
                let x = s0[i];
                if and_pred(qn, ne_cid_pred(id))(x) {
                    if in_subtree(s0, x.id, id) {
                        lemma_in_subtree_child(s0, x.id, id);
                        let j = choose|j: int|
                            0 <= j < s0.len() && (#[trigger] s0[j]).target_type is Comment
                                && s0[j].target_id == id && in_subtree(s0, x.id, s0[j].id);
                        assert(f.contains(s0[j])) by {
                            assert(child_pred(id)(s0[j]));
                            assert(s0.contains(s0[j]));
                        }
                        let m = choose|m: int| 0 <= m < f.len() && f[m] == s0[j];
                        assert(kids[m] == s0[j].id);
                        assert(!qn(x));
                    }
                }
                if outside_pred(s0, id)(x) {
                    assert(x.id != id) by {
                        assert(in_subtree(s0, x.id, x.id));
                    }
                    if exists|m: int| 0 <= m < kids.len() && in_subtree(s0, x.id, #[trigger] kids[m]) {
                        let m = choose|m: int|
                            0 <= m < kids.len() && in_subtree(s0, x.id, #[trigger] kids[m]);
                        let chm = f[m];
                        let km = choose|j: int| 0 <= j < s0.len() && s0[j] == chm;
                        lemma_comment_at(s0, kids[m], km);
                        assert(in_subtree(s0, kids[m], id)) by {
                            assert(comment_at(s0, kids[m]) == chm);
                            assert(in_subtree(s0, id, id));
                        }
                        lemma_in_subtree_trans(s0, x.id, kids[m], id);
                    }
                }
            }
            lemma_filter_ext(s0, and_pred(qn, ne_cid_pred(id)), outside_pred(s0, id));
            assert(final(self)@.comments == s0.filter(outside_pred(s0, id)));
            lemma_comments_filter(s0, outside_pred(s0, id));
            assert forall|i: int|
                0 <= i < final(self)@.theses.len() implies old(self)@.theses.contains(
                #[trigger] final(self)@.theses[i],
            ) by {
                assert(old(self)@.theses[i] == final(self)@.theses[i]);
            }
            assert forall|i: int|
                0 <= i < final(self)@.versions.len() implies old(self)@.versions.contains(
                #[trigger] final(self)@.versions[i],
            ) by {
                assert(old(self)@.versions[i] == final(self)@.versions[i]);
            }
            assert forall|i: int|
                0 <= i < final(self)@.reviews.len() implies old(self)@.reviews.contains(
                #[trigger] final(self)@.reviews[i],
            ) by {
                assert(old(self)@.reviews[i] == final(self)@.reviews[i]);
            }
            lemma_wf_sub(old(self)@, final(self)@);
        }
    }

    /// Withdraws the comment and its whole reply subtree. Returns the count
    /// of root-level deletions; `NotFound` when no comment carries the
    /// identifier.
    pub fn withdraw_comment(&mut self, comment_id: u64) -> (r: Result<u64, AppError>)
        requires
            old(self).wf(),
        ensures
            final(self).wf(),
            final(self)@.theses == old(self)@.theses,
            final(self)@.versions == old(self)@.versions,
            final(self)@.reviews == old(self)@.reviews,
            final(self)@.next_id == old(self)@.next_id,
            (r is Ok <==> has_comment(old(self)@.comments, comment_id)),
            r is Ok ==> r->Ok_0 == 1 && final(self)@.comments == old(self)@.comments.filter(
                outside_pred(old(self)@.comments, comment_id),
            ),
            r matches Err(e) ==> e is NotFound && *final(self) == *old(self),
    {
        match self.find_comment(comment_id) {
            Some(_) => {},
            None => {
                return Err(AppError::NotFound("Comment with the given id does not exist!".to_string()));
            },
        }
        self.withdraw_comment_rec(comment_id);
        Ok(1)
    }

    /// Withdraws everything owned by the version — its reviews, then each
    /// of its comment trees — and finally the version itself.
    #[verifier::rlimit(100)]
    pub(crate) fn withdraw_version_inner(&mut self, version_id: u64)
        requires
            old(self).wf(),
        ensures
            final(self).wf(),
            final(self)@.theses == old(self)@.theses,
            final(self)@.next_id == old(self)@.next_id,
            final(self)@.reviews == old(self)@.reviews.filter(review_not_of_pred(version_id)),
            final(self)@.comments == old(self)@.comments.filter(
                off_version_pred(old(self)@.comments, version_id),
            ),
            final(self)@.versions == old(self)@.versions.filter(version_ne_pred(version_id)),
    {
        let ghost cs0 = self@.comments;
        let ghost rs0 = self@.reviews;
        let ghost vs0 = self@.versions;
        proof {
            assert(comments_acyclic(cs0)) by {
                assert forall|i: int|
                    0 <= i < cs0.len() implies ((#[trigger] cs0[i]).target_type is Comment
                    ==> cs0[i].target_id < cs0[i].id) by {
                    assert(old(self)@.comments[i] == cs0[i]);
                }
            }
        }
        self.remove_reviews_of(version_id);
        proof {
            lemma_reviews_filter(rs0, review_not_of_pred(version_id));
            assert forall|i: int|
                0 <= i < self@.theses.len() implies old(self)@.theses.contains(
                #[trigger] self@.theses[i],
            ) by {
                assert(old(self)@.theses[i] == self@.theses[i]);
            }
            assert forall|i: int|
                0 <= i < self@.versions.len() implies old(self)@.versions.contains(
                #[trigger] self@.versions[i],
            ) by {
                assert(old(self)@.versions[i] == self@.versions[i]);
            }
            assert forall|i: int|
                0 <= i < self@.comments.len() implies old(self)@.comments.contains(
                #[trigger] self@.comments[i],
            ) by {
                assert(old(self)@.comments[i] == self@.comments[i]);
            }
            lemma_wf_sub(old(self)@, self@);
        }
        let roots = self.vroot_ids(version_id);
        let ghost rts = roots@;
        let ghost g = cs0.filter(vroot_pred(version_id));
        proof {
            lemma_comments_filter(cs0, vroot_pred(version_id));
            lemma_filter_membership(cs0, vroot_pred(version_id));
            assert forall|m: int| 0 <= m < g.len() implies vroot_pred(version_id)(#[trigger] g[m])
                && cs0.contains(g[m]) by {
                assert(g.contains(g[m]));
            }
            assert(cs0.filter(outside_many_pred(cs0, rts, 0)) == cs0) by {
                lemma_filter_all(cs0, outside_many_pred(cs0, rts, 0));
            }
        }
        let mut k: usize = 0;
        while k < roots.len()
            invariant
                k <= rts.len(),
                self.wf(),
                self@.comments == cs0.filter(outside_many_pred(cs0, rts, k as int)),
                self@.theses == old(self)@.theses,
                self@.versions == vs0,
                self@.reviews == rs0.filter(review_not_of_pred(version_id)),
                self@.next_id == old(self)@.next_id,
            decreases rts.len() - k,
        {
            let ghost cur = self@.comments;
            let ghost qk = outside_many_pred(cs0, rts, k as int);
            let ghost ck = rts[k as int];
            let ghost chk = g[k as int];
            proof {
                lemma_comments_filter(cs0, qk);
                lemma_filter_membership(cs0, qk);
                assert(chk.id == ck);
                assert(qk(chk)) by {
                    if exists|m: int| 0 <= m < k && in_subtree(cs0, chk.id, #[trigger] rts[m]) {
                        let m = choose|m: int|
                            0 <= m < k && in_subtree(cs0, chk.id, #[trigger] rts[m]);
                        assert(rts[m] == g[m].id);
                        lemma_peers_not_nested(cs0, chk, g[m]);
                    }
                }
                assert(cur.contains(chk));
                let ki = choose|j: int| 0 <= j < cur.len() && cur[j] == chk;
                assert(has_comment(cur, ck)) by {
                    assert(cur[ki].id == ck);
                }
            }
            self.withdraw_comment_rec(roots[k]);
            proof {
                let qk1 = outside_many_pred(cs0, rts, k + 1 as int);
                lemma_filter_split(
                    cs0,
                    qk,
                    outside_pred(cur, ck),
                    and_pred(qk, outside_pred(cur, ck)),
                );
                assert forall|i: int|
                    0 <= i < cs0.len() implies and_pred(qk, outside_pred(cur, ck))(
                    #[trigger] cs0[i],
                ) == qk1(cs0[i]) by {
                    let x = cs0[i];
                    if and_pred(qk, outside_pred(cur, ck))(x) {
                        if exists|m: int| 0 <= m < k + 1 && in_subtree(cs0, x.id, #[trigger] rts[m]) {
                            let m = choose|m: int|
                                0 <= m < k + 1 && in_subtree(cs0, x.id, #[trigger] rts[m]);
                            if m < k {
                                assert(!qk(x));
                            } else {
                                assert(in_subtree(cs0, x.id, ck));
                                assert forall|c: CommentView|
                                    #[trigger] cs0.contains(c) && in_subtree(cs0, c.id, ck) implies cur.contains(
                                    c,
                                ) by {
                                    assert(qk(c)) by {
                                        if exists|m2: int|
                                            0 <= m2 < k && in_subtree(cs0, c.id, #[trigger] rts[m2]) {
                                            let m2 = choose|m2: int|
                                                0 <= m2 < k && in_subtree(
                                                    cs0,
                                                    c.id,
                                                    #[trigger] rts[m2],
                                                );
                                            assert(rts[m2] == g[m2].id);
                                            lemma_peers_not_nested(cs0, chk, g[m2]);
                                            lemma_peers_not_nested(cs0, g[m2], chk);
                                            lemma_subtree_disjoint(cs0, ck, rts[m2], c.id);
                                        }
                                    }
                                }
                                lemma_in_subtree_preserved(cs0, cur, x.id, ck);
                            }
                        }
                    }
                    if qk1(x) {
                        assert(qk(x));
                        if in_subtree(cur, x.id, ck) {
                            lemma_in_subtree_mono(cs0, cur, x.id, ck);
                            assert(in_subtree(cs0, x.id, rts[k as int]));
                            assert(!qk1(x));
                        }
                    }
                }
                lemma_filter_ext(cs0, and_pred(qk, outside_pred(cur, ck)), qk1);
                assert(self@.comments == cs0.filter(qk1));
            }
            k = k + 1;
        }
        let ghost qn = outside_many_pred(cs0, rts, rts.len() as int);
        self.remove_version(version_id);
        proof {
            assert forall|i: int|
                0 <= i < cs0.len() implies qn(#[trigger] cs0[i]) == off_version_pred(
                cs0,
                version_id,
            )(cs0[i]) by {
                let x = cs0[i];
                if qn(x) {
                    if on_version(cs0, x.id, version_id) {
                        lemma_on_version_root(cs0, x.id, version_id);
                        let j = choose|j: int|
                            0 <= j < cs0.len() && (#[trigger] cs0[j]).target_type is Version
                                && cs0[j].target_id == version_id && in_subtree(
                                cs0,
                                x.id,
                                cs0[j].id,
                            );
                        assert(g.contains(cs0[j])) by {
                            assert(vroot_pred(version_id)(cs0[j]));
                            assert(cs0.contains(cs0[j]));
                        }
                        let m = choose|m: int| 0 <= m < g.len() && g[m] == cs0[j];
                        assert(rts[m] == cs0[j].id);
                        assert(!qn(x));
                    }
                }
                if off_version_pred(cs0, version_id)(x) {
                    if exists|m: int| 0 <= m < rts.len() && in_subtree(cs0, x.id, #[trigger] rts[m]) {
                        let m = choose|m: int|
                            0 <= m < rts.len() && in_subtree(cs0, x.id, #[trigger] rts[m]);
                        let chm = g[m];
                        let km = choose|j: int| 0 <= j < cs0.len() && cs0[j] == chm;
                        lemma_comment_at(cs0, rts[m], km);
                        assert(on_version(cs0, rts[m], version_id)) by {
                            assert(comment_at(cs0, rts[m]) == chm);
                        }
                        lemma_in_subtree_on_version(cs0, x.id, rts[m], version_id);
                    }
                }
            }
            lemma_filter_ext(cs0, qn, off_version_pred(cs0, version_id));
            assert(final(self)@.comments == cs0.filter(off_version_pred(cs0, version_id)));
            lemma_comments_filter(cs0, off_version_pred(cs0, version_id));
            lemma_versions_filter(vs0, version_ne_pred(version_id));
            lemma_reviews_filter(rs0, review_not_of_pred(version_id));
            assert forall|i: int|
                0 <= i < final(self)@.theses.len() implies old(self)@.theses.contains(
                #[trigger] final(self)@.theses[i],
            ) by {
                assert(old(self)@.theses[i] == final(self)@.theses[i]);
            }
            lemma_wf_sub(old(self)@, final(self)@);
        }
    }

    /// Withdraws the version, its reviews and its comment trees. Returns
    /// the count of root-level deletions; `NotFound` when no version
    /// carries the identifier.
    pub fn withdraw_version(&mut self, version_id: u64) -> (r: Result<u64, AppError>)
        requires
            old(self).wf(),
        ensures
            final(self).wf(),
            final(self)@.theses == old(self)@.theses,
            final(self)@.next_id == old(self)@.next_id,
            (r is Ok <==> has_version(old(self)@.versions, version_id)),
            r is Ok ==> {
                &&& r->Ok_0 == 1
                &&& final(self)@.reviews == old(self)@.reviews.filter(
                    review_not_of_pred(version_id),
                )
                &&& final(self)@.comments == old(self)@.comments.filter(
                    off_version_pred(old(self)@.comments, version_id),
                )
                &&& final(self)@.versions == old(self)@.versions.filter(
                    version_ne_pred(version_id),
                )
            },
            r matches Err(e) ==> e is NotFound && *final(self) == *old(self),
    {
        match self.find_version(version_id) {
            Some(_) => {},
            None => {
                return Err(AppError::NotFound("Version with the given id does not exist!".to_string()));
            },
        }
        self.withdraw_version_inner(version_id);
        Ok(1)
    }

    /// Withdraws the thesis and everything transitively owned by it: every
    /// version, each version's reviews and comment trees, and finally the
    /// thesis itself. Editors may always withdraw; the owner only while the
    /// thesis has no version with a positive major number. Returns the
    /// count of root-level deletions.
    #[verifier::rlimit(100)]
    pub fn withdraw_thesis(&mut self, actor: &Actor, thesis_id: u64) -> (r: Result<u64, AppError>)
        requires
            old(self).wf(),
        ensures
            final(self).wf(),
            final(self)@.next_id == old(self)@.next_id,
            ({
                let ts = old(self)@.theses;
                let vs = old(self)@.versions;
                let rs = old(self)@.reviews;
                let cs = old(self)@.comments;
                let may = actor.is_editor || (has_thesis(ts, thesis_id) && thesis_at(
                    ts,
                    thesis_id,
                ).owner_id == actor.id && (match spec_last_version(vs, thesis_id) {
                    Option::None => true,
                    Option::Some(v) => v.major_num < 1,
                }));
                &&& (r matches Err(e) ==> (e is NotFound <==> !has_thesis(ts, thesis_id)))
                &&& (r matches Err(e) ==> (e is Forbidden <==> has_thesis(ts, thesis_id) && !may))
                &&& (r is Err ==> *final(self) == *old(self))
                &&& (r is Ok <==> has_thesis(ts, thesis_id) && may)
                &&& (r is Ok ==> {
                    &&& r->Ok_0 == 1
                    &&& final(self)@.theses == ts.filter(thesis_ne_pred(thesis_id))
                    &&& final(self)@.versions == vs.filter(version_not_of_thesis_pred(thesis_id))
                    &&& final(self)@.reviews == rs.filter(review_not_of_thesis_pred(vs, thesis_id))
                    &&& final(self)@.comments == cs.filter(off_thesis_pred(cs, vs, thesis_id))
                    &&& !has_thesis(final(self)@.theses, thesis_id)
                    &&& forall|j: int|
                        0 <= j < final(self)@.versions.len() ==> (
                        #[trigger] final(self)@.versions[j]).thesis_id != thesis_id
                    &&& forall|j: int|
                        0 <= j < final(self)@.reviews.len() ==> !(has_version(
                            vs,
                            (#[trigger] final(self)@.reviews[j]).version_id,
                        ) && version_at(vs, final(self)@.reviews[j].version_id).thesis_id
                            == thesis_id)
                    &&& forall|j: int|
                        0 <= j < final(self)@.comments.len() ==> !(exists|i: int|
                            0 <= i < vs.len() && (#[trigger] vs[i]).thesis_id == thesis_id
                                && on_version(
                                cs,
                                (#[trigger] final(self)@.comments[j]).id,
                                vs[i].id,
                            ))
                })
            }),
    {
        let ti = match self.find_thesis(thesis_id) {
            Some(i) => i,
            None => {
                return Err(AppError::NotFound("Thesis with the given id does not exist!".to_string()));
            },
        };
        proof {
            lemma_thesis_at(self@.theses, thesis_id, ti as int);
        }
        if !actor.is_editor {
            if self.theses[ti].owner_id != actor.id {
                return Err(AppError::Forbidden("You do not own this thesis!".to_string()));
            }
            let last = self.last_version_of(thesis_id);
            let blocked = match &last {
                Option::None => false,
                Option::Some(v) => v.major_num >= 1,
            };
            if blocked {
                return Err(
                    AppError::Forbidden(
                        "This thesis has been public and can only be withdrawn by editors!".to_string(),
                    ),
                );
            }
        }
        let vids = self.thesis_version_ids(thesis_id);
        let ghost vl = vids@;
        let ghost vs0 = self@.versions;
        let ghost rs0 = self@.reviews;
        let ghost cs0 = self@.comments;
        let ghost g = vs0.filter(version_of_pred(thesis_id));
        proof {
            lemma_versions_filter(vs0, version_of_pred(thesis_id));
            lemma_filter_membership(vs0, version_of_pred(thesis_id));
            assert forall|m: int| 0 <= m < g.len() implies version_of_pred(thesis_id)(
                #[trigger] g[m],
            ) && vs0.contains(g[m]) by {
                assert(g.contains(g[m]));
            }
            assert(vs0.filter(version_not_in_pred(vl, 0)) == vs0) by {
                lemma_filter_all(vs0, version_not_in_pred(vl, 0));
            }
            assert(rs0.filter(review_not_in_pred(vl, 0)) == rs0) by {
                lemma_filter_all(rs0, review_not_in_pred(vl, 0));
            }
            assert(cs0.filter(off_versions_pred(cs0, vl, 0)) == cs0) by {
                lemma_filter_all(cs0, off_versions_pred(cs0, vl, 0));
            }
        }
        let mut k: usize = 0;
        while k < vids.len()
            invariant
                k <= vl.len(),
                self.wf(),
                self@.versions == vs0.filter(version_not_in_pred(vl, k as int)),
                self@.reviews == rs0.filter(review_not_in_pred(vl, k as int)),
                self@.comments == cs0.filter(off_versions_pred(cs0, vl, k as int)),
                self@.theses == old(self)@.theses,
                self@.next_id == old(self)@.next_id,
            decreases vl.len() - k,
        {
            let ghost curc = self@.comments;
            self.withdraw_version_inner(vids[k]);
            proof {
                assert forall|m1: int, m2: int| 0 <= m1 < m2 < g.len() implies (
                #[trigger] g[m1]).id != (#[trigger] g[m2]).id by {
                    assert(version_ids_unique(g));
                }
                lemma_thesis_cascade_step(vs0, rs0, cs0, vl, g, thesis_id, k as int, curc);
            }
            k = k + 1;
        }
        self.remove_thesis(thesis_id);
        proof {
            let ts = old(self)@.theses;
            lemma_thesis_cascade_ext(vs0, rs0, cs0, vl, g, thesis_id);
            lemma_theses_filter(ts, thesis_ne_pred(thesis_id));
            lemma_versions_filter(vs0, version_not_of_thesis_pred(thesis_id));
            lemma_reviews_filter(rs0, review_not_of_thesis_pred(vs0, thesis_id));
            lemma_comments_filter(cs0, off_thesis_pred(cs0, vs0, thesis_id));
            lemma_wf_sub(old(self)@, final(self)@);
            assert(!has_thesis(final(self)@.theses, thesis_id)) by {
                lemma_filter_membership(ts, thesis_ne_pred(thesis_id));
                if has_thesis(final(self)@.theses, thesis_id) {
                    let j = thesis_idx(final(self)@.theses, thesis_id);
                    assert(final(self)@.theses.contains(final(self)@.theses[j]));
                    assert(thesis_ne_pred(thesis_id)(final(self)@.theses[j]));
                }
            }
            lemma_filter_membership(vs0, version_not_of_thesis_pred(thesis_id));
            assert forall|j: int|
                0 <= j < final(self)@.versions.len() implies (
            #[trigger] final(self)@.versions[j]).thesis_id != thesis_id by {
                assert(final(self)@.versions.contains(final(self)@.versions[j]));
            }
            lemma_filter_membership(rs0, review_not_of_thesis_pred(vs0, thesis_id));
            assert forall|j: int|
                0 <= j < final(self)@.reviews.len() implies !(has_version(
                vs0,
                (#[trigger] final(self)@.reviews[j]).version_id,
            ) && version_at(vs0, final(self)@.reviews[j].version_id).thesis_id == thesis_id) by {
                assert(final(self)@.reviews.contains(final(self)@.reviews[j]));
                assert(review_not_of_thesis_pred(vs0, thesis_id)(final(self)@.reviews[j]));
                let rv = final(self)@.reviews[j];
                if has_version(vs0, rv.version_id) && version_at(vs0, rv.version_id).thesis_id
                    == thesis_id {
                    let jj = version_idx(vs0, rv.version_id);
                    assert(0 <= jj < vs0.len() && (#[trigger] vs0[jj]).id == rv.version_id
                        && vs0[jj].thesis_id == thesis_id);
                }
            }
            lemma_filter_membership(cs0, off_thesis_pred(cs0, vs0, thesis_id));
            assert forall|j: int|
                0 <= j < final(self)@.comments.len() implies !(exists|i: int|
                    0 <= i < vs0.len() && (#[trigger] vs0[i]).thesis_id == thesis_id && on_version(
                        cs0,
                        (#[trigger] final(self)@.comments[j]).id,
                        vs0[i].id,
                    )) by {
                assert(final(self)@.comments.contains(final(self)@.comments[j]));
                assert(off_thesis_pred(cs0, vs0, thesis_id)(final(self)@.comments[j]));
            }
        }
        Ok(1)
    }

    /// The identifiers of the thesis's versions, in store order.
    fn thesis_version_ids(&self, thesis_id: u64) -> (r: Vec<u64>)
        ensures
            ({
                let f = self@.versions.filter(version_of_pred(thesis_id));
                r@.len() == f.len() && (forall|m: int| 0 <= m < f.len() ==> r@[m] == (
                #[trigger] f[m]).id)
            }),
    {
        let ghost s = self@.versions;
        let mut r: Vec<u64> = Vec::new();
        let mut i: usize = 0;
        proof {
            assert(s.subrange(0, 0).filter(version_of_pred(thesis_id)) =~= Seq::<
                VersionView,
            >::empty());
        }
        while i < self.versions.len()
            invariant
                i <= s.len(),
                self@.versions == s,
                ({
                    let f = s.subrange(0, i as int).filter(version_of_pred(thesis_id));
                    r@.len() == f.len() && (forall|m: int| 0 <= m < f.len() ==> r@[m] == (
                    #[trigger] f[m]).id)
                }),
            decreases s.len() - i,
        {
            proof {
                assert(s.subrange(0, i + 1 as int) =~= s.subrange(0, i as int).push(s[i as int]));
                lemma_filter_push(s.subrange(0, i as int), version_of_pred(thesis_id), s[i as int]);
                assert(version_of_pred(thesis_id)(s[i as int]) == (s[i as int].thesis_id
                    == thesis_id));
            }
            if self.versions[i].thesis_id == thesis_id {
                r.push(self.versions[i].id);
            }
            i = i + 1;
        }
        proof {
            assert(s.subrange(0, s.len() as int) =~= s);
        }
        r
    }
}

} // verus!
