//! Reachability in the comment forest.
//!
//! A comment hangs under a version, or as a reply under another comment;
//! reply targets always carry a smaller identifier (the store hands
//! identifiers out in increasing order), so target chains strictly descend
//! and the forest is acyclic. The cascade withdrawal proofs rest on the two
//! reachability notions defined here and on the lemmas about them.

use vstd::prelude::*;

use crate::entities::CommentView;
use crate::store::{comment_at, comment_ids_unique, comment_idx, has_comment, lemma_comment_at};

verus! {

/// Reply targets carry smaller identifiers than the replies themselves.
pub open spec fn comments_acyclic(s: Seq<CommentView>) -> bool {
    forall|i: int|
        0 <= i < s.len() ==> ((#[trigger] s[i]).target_type is Comment ==> s[i].target_id
            < s[i].id)
}

/// The comment with identifier `id` lies in the reply subtree rooted at the
/// comment with identifier `root`: its target chain passes through `root`.
pub open spec fn in_subtree(s: Seq<CommentView>, id: u64, root: u64) -> bool
    decreases id,
{
    id == root || (has_comment(s, id) && {
        let c = comment_at(s, id);
        if c.target_type is Comment && c.target_id < id {
            in_subtree(s, c.target_id, root)
        } else {
            false
        }
    })
}

/// The comment with identifier `id` is anchored, through its target chain,
/// to the version with identifier `version_id`.
pub open spec fn on_version(s: Seq<CommentView>, id: u64, version_id: u64) -> bool
    decreases id,
{
    has_comment(s, id) && {
        let c = comment_at(s, id);
        if c.target_type is Version {
            c.target_id == version_id
        } else if c.target_id < id {
            on_version(s, c.target_id, version_id)
        } else {
            false
        }
    }
}

/// Every element of `t` is an element of `s`.
pub open spec fn subset_of(t: Seq<CommentView>, s: Seq<CommentView>) -> bool {
    forall|c: CommentView| #[trigger] t.contains(c) ==> s.contains(c)
}

/// The replies directly targeting the comment.
pub open spec fn child_pred(id: u64) -> spec_fn(CommentView) -> bool {
    |c: CommentView| c.target_type is Comment && c.target_id == id
}

/// The comments directly targeting the version.
pub open spec fn vroot_pred(version_id: u64) -> spec_fn(CommentView) -> bool {
    |c: CommentView| c.target_type is Version && c.target_id == version_id
}

/// Every comment but the one with the given identifier.
pub open spec fn ne_cid_pred(id: u64) -> spec_fn(CommentView) -> bool {
    |c: CommentView| c.id != id
}

/// The comments inside the subtree rooted at `root`.
pub open spec fn inside_pred(s: Seq<CommentView>, root: u64) -> spec_fn(CommentView) -> bool {
    |c: CommentView| in_subtree(s, c.id, root)
}

/// The comments outside the subtree rooted at `root`.
pub open spec fn outside_pred(s: Seq<CommentView>, root: u64) -> spec_fn(CommentView) -> bool {
    |c: CommentView| !in_subtree(s, c.id, root)
}

/// The comments strictly below `root` in its subtree.
pub open spec fn below_pred(s: Seq<CommentView>, root: u64) -> spec_fn(CommentView) -> bool {
    |c: CommentView| in_subtree(s, c.id, root) && c.id != root
}

/// The comments outside every subtree rooted at one of the first `k` listed
/// roots.
pub open spec fn outside_many_pred(s: Seq<CommentView>, roots: Seq<u64>, k: int) -> spec_fn(
    CommentView,
) -> bool {
    |c: CommentView| !(exists|m: int| 0 <= m < k && in_subtree(s, c.id, #[trigger] roots[m]))
}

/// The comments not anchored to the version.
pub open spec fn off_version_pred(s: Seq<CommentView>, version_id: u64) -> spec_fn(
    CommentView,
) -> bool {
    |c: CommentView| !on_version(s, c.id, version_id)
}

/// The comments not anchored to any of the first `k` listed versions.
pub open spec fn off_versions_pred(s: Seq<CommentView>, version_ids: Seq<u64>, k: int) -> spec_fn(
    CommentView,
) -> bool {
    |c: CommentView| !(exists|m: int| 0 <= m < k && on_version(s, c.id, #[trigger] version_ids[m]))
}

/// The number of comments in the subtree rooted at `root`: the measure of
/// the cascade recursion.
pub open spec fn subtree_len(s: Seq<CommentView>, root: u64) -> nat {
    s.filter(inside_pred(s, root)).len()
}

/// In a duplicate-free forest, looking a present identifier up in a
/// sub-collection finds the same comment as in the whole.
pub proof fn lemma_comment_at_subset(s: Seq<CommentView>, t: Seq<CommentView>, id: u64)
    requires
        comment_ids_unique(s),
        subset_of(t, s),
        has_comment(t, id),
    ensures
        has_comment(s, id),
        comment_at(s, id) == comment_at(t, id),
{
    let c = comment_at(t, id);
    let i = comment_idx(t, id);
    assert(0 <= i < t.len() && t[i].id == id);
    assert(t.contains(c));
    assert(s.contains(c));
    let k = choose|k: int| 0 <= k < s.len() && s[k] == c;
    lemma_comment_at(s, id, k);
}

/// Subtree membership carries over from a sub-collection to the whole.
pub proof fn lemma_in_subtree_mono(s: Seq<CommentView>, t: Seq<CommentView>, id: u64, root: u64)
    requires
        comment_ids_unique(s),
        comment_ids_unique(t),
        subset_of(t, s),
        in_subtree(t, id, root),
    ensures
        in_subtree(s, id, root),
    decreases id,
{
    if id == root {
    } else {
        let c = comment_at(t, id);
        lemma_comment_at_subset(s, t, id);
        lemma_in_subtree_mono(s, t, c.target_id, root);
    }
}

/// Subtree membership carries over from the whole to a sub-collection that
/// kept the whole subtree.
pub proof fn lemma_in_subtree_preserved(
    s: Seq<CommentView>,
    t: Seq<CommentView>,
    id: u64,
    root: u64,
)
    requires
        comment_ids_unique(s),
        comment_ids_unique(t),
        subset_of(t, s),
        forall|c: CommentView|
            #[trigger] s.contains(c) && in_subtree(s, c.id, root) ==> t.contains(c),
        in_subtree(s, id, root),
    ensures
        in_subtree(t, id, root),
    decreases id,
{
    if id == root {
    } else {
        let c = comment_at(s, id);
        let i = comment_idx(s, id);
        assert(s[i] == c);
        assert(s.contains(c));
        assert(in_subtree(s, c.id, root));
        assert(t.contains(c));
        let k = choose|k: int| 0 <= k < t.len() && t[k] == c;
        lemma_comment_at(t, id, k);
        lemma_in_subtree_preserved(s, t, c.target_id, root);
    }
}

/// Target chains descend: a subtree member's identifier is at least the
/// root's.
pub proof fn lemma_in_subtree_bound(s: Seq<CommentView>, id: u64, root: u64)
    requires
        in_subtree(s, id, root),
    ensures
        id >= root,
    decreases id,
{
    if id == root {
    } else {
        let c = comment_at(s, id);
        lemma_in_subtree_bound(s, c.target_id, root);
    }
}

/// Subtree membership is transitive.
pub proof fn lemma_in_subtree_trans(s: Seq<CommentView>, a: u64, b: u64, c: u64)
    requires
        in_subtree(s, a, b),
        in_subtree(s, b, c),
    ensures
        in_subtree(s, a, c),
    decreases a,
{
    if a == b {
    } else {
        let w = comment_at(s, a);
        lemma_in_subtree_trans(s, w.target_id, b, c);
    }
}

/// A strict subtree member hangs under one of the root's direct replies.
pub proof fn lemma_in_subtree_child(s: Seq<CommentView>, cid: u64, root: u64)
    requires
        in_subtree(s, cid, root),
        cid != root,
    ensures
        exists|j: int|
            0 <= j < s.len() && (#[trigger] s[j]).target_type is Comment && s[j].target_id == root
                && in_subtree(s, cid, s[j].id),
    decreases cid,
{
    let c = comment_at(s, cid);
    let i = comment_idx(s, cid);
    assert(s[i] == c);
    if c.target_id == root {
        assert(s[i].target_type is Comment && s[i].target_id == root && in_subtree(
            s,
            cid,
            s[i].id,
        ));
    } else {
        lemma_in_subtree_child(s, c.target_id, root);
        let j = choose|j: int|
            0 <= j < s.len() && (#[trigger] s[j]).target_type is Comment && s[j].target_id == root
                && in_subtree(s, c.target_id, s[j].id);
        assert(in_subtree(s, cid, s[j].id));
    }
}

/// Two distinct comments sharing a target do not hang under one another.
pub proof fn lemma_peers_not_nested(s: Seq<CommentView>, a: CommentView, b: CommentView)
    requires
        comment_ids_unique(s),
        comments_acyclic(s),
        s.contains(a),
        s.contains(b),
        a.id != b.id,
        a.target_type == b.target_type,
        a.target_id == b.target_id,
    ensures
        !in_subtree(s, a.id, b.id),
{
    if in_subtree(s, a.id, b.id) {
        let ka = choose|k: int| 0 <= k < s.len() && s[k] == a;
        let kb = choose|k: int| 0 <= k < s.len() && s[k] == b;
        lemma_comment_at(s, a.id, ka);
        lemma_comment_at(s, b.id, kb);
        assert(comment_at(s, a.id) == a);
        if a.target_type is Comment {
            assert(in_subtree(s, a.target_id, b.id));
            lemma_in_subtree_bound(s, a.target_id, b.id);
            assert(s[kb].target_type is Comment ==> s[kb].target_id < s[kb].id);
            assert(false);
        } else {
            assert(false);
        }
    }
}

/// Subtrees of two comments, neither hanging under the other, are disjoint.
pub proof fn lemma_subtree_disjoint(s: Seq<CommentView>, r1: u64, r2: u64, cid: u64)
    requires
        r1 != r2,
        !in_subtree(s, r1, r2),
        !in_subtree(s, r2, r1),
        in_subtree(s, cid, r1),
    ensures
        !in_subtree(s, cid, r2),
    decreases cid,
{
    if in_subtree(s, cid, r2) {
        if cid == r1 {
            assert(false);
        } else if cid == r2 {
            assert(false);
        } else {
            let w = comment_at(s, cid);
            lemma_subtree_disjoint(s, r1, r2, w.target_id);
            assert(false);
        }
    }
}

/// A comment anchored to a version hangs under one of the version's direct
/// comments.
pub proof fn lemma_on_version_root(s: Seq<CommentView>, cid: u64, version_id: u64)
    requires
        on_version(s, cid, version_id),
    ensures
        exists|j: int|
            0 <= j < s.len() && (#[trigger] s[j]).target_type is Version && s[j].target_id
                == version_id && in_subtree(s, cid, s[j].id),
    decreases cid,
{
    let c = comment_at(s, cid);
    let i = comment_idx(s, cid);
    assert(s[i] == c);
    if c.target_type is Version {
        assert(s[i].target_type is Version && s[i].target_id == version_id && in_subtree(
            s,
            cid,
            s[i].id,
        ));
    } else {
        lemma_on_version_root(s, c.target_id, version_id);
        let j = choose|j: int|
            0 <= j < s.len() && (#[trigger] s[j]).target_type is Version && s[j].target_id
                == version_id && in_subtree(s, c.target_id, s[j].id);
        assert(in_subtree(s, cid, s[j].id));
    }
}

/// Everything under a comment anchored to a version is anchored to it too.
pub proof fn lemma_in_subtree_on_version(s: Seq<CommentView>, cid: u64, rid: u64, version_id: u64)
    requires
        in_subtree(s, cid, rid),
        on_version(s, rid, version_id),
    ensures
        on_version(s, cid, version_id),
    decreases cid,
{
    if cid == rid {
    } else {
        let c = comment_at(s, cid);
        lemma_in_subtree_on_version(s, c.target_id, rid, version_id);
    }
}

/// A comment is anchored to at most one version.
pub proof fn lemma_on_version_unique(s: Seq<CommentView>, cid: u64, v1: u64, v2: u64)
    requires
        on_version(s, cid, v1),
        on_version(s, cid, v2),
    ensures
        v1 == v2,
    decreases cid,
{
    let c = comment_at(s, cid);
    if c.target_type is Version {
    } else {
        lemma_on_version_unique(s, c.target_id, v1, v2);
    }
}

/// Version anchorage carries over from a sub-collection to the whole.
pub proof fn lemma_on_version_mono(
    s: Seq<CommentView>,
    t: Seq<CommentView>,
    id: u64,
    version_id: u64,
)
    requires
        comment_ids_unique(s),
        comment_ids_unique(t),
        subset_of(t, s),
        on_version(t, id, version_id),
    ensures
        on_version(s, id, version_id),
    decreases id,
{
    let c = comment_at(t, id);
    lemma_comment_at_subset(s, t, id);
    if c.target_type is Version {
    } else {
        lemma_on_version_mono(s, t, c.target_id, version_id);
    }
}

/// Version anchorage carries over from the whole to a sub-collection that
/// kept everything anchored to the version.
pub proof fn lemma_on_version_preserved(
    s: Seq<CommentView>,
    t: Seq<CommentView>,
    id: u64,
    version_id: u64,
)
    requires
        comment_ids_unique(s),
        comment_ids_unique(t),
        subset_of(t, s),
        forall|c: CommentView|
            #[trigger] s.contains(c) && on_version(s, c.id, version_id) ==> t.contains(c),
        on_version(s, id, version_id),
    ensures
        on_version(t, id, version_id),
    decreases id,
{
    let c = comment_at(s, id);
    let i = comment_idx(s, id);
    assert(s[i] == c);
    assert(s.contains(c));
    assert(on_version(s, c.id, version_id));
    assert(t.contains(c));
    let k = choose|k: int| 0 <= k < t.len() && t[k] == c;
    lemma_comment_at(t, id, k);
    if c.target_type is Version {
    } else {
        lemma_on_version_preserved(s, t, c.target_id, version_id);
    }
}

} // verus!
