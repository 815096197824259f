//! Cascade withdrawal of comments, versions and theses.

use prepublish::{
    Actor, AppError, ReviewPattern, ReviewState, Store, ThesisMeta, VersionState,
};

fn cw_actor(id: u64) -> Actor {
    Actor { id, is_administrator: false, is_editor: false }
}

fn cw_editor(id: u64) -> Actor {
    Actor { id, is_administrator: false, is_editor: true }
}

fn cw_meta(authors: Vec<u64>) -> ThesisMeta {
    ThesisMeta {
        author_ids: authors,
        doi: None,
        title: "Withdrawn works".to_string(),
        abstraction: "Soon to be gone.".to_string(),
        keywords: vec![],
        languages: vec![],
    }
}

fn cw_pool(reviewers: Vec<u64>) -> ReviewState {
    ReviewState { remainder_reviewer_ids: reviewers, pattern: ReviewPattern::Reviewer }
}

/// An accepted version under a fresh thesis, ready to take comments.
fn cw_accepted_version(st: &mut Store, owner: u64) -> (u64, u64) {
    let author = cw_actor(owner);
    let editor = cw_editor(200);
    let tid = st.create_thesis(&author, cw_meta(vec![owner]), 1_000).unwrap();
    let vid = st.commit_version(&author, tid, 7, None, 1_010).unwrap();
    st.adjudge_version(&editor, vid, true).unwrap();
    (tid, vid)
}

#[test]
fn withdrawing_a_deep_reply_chain_removes_every_comment_once() {
    let mut st = Store::new();
    let poster = cw_actor(500);
    let (_tid, vid) = cw_accepted_version(&mut st, 100);
    let (_tid2, vid2) = cw_accepted_version(&mut st, 101);

    // A chain of depth 3 under the root, plus a second branch at the root.
    let c0 = st.comment_version(&poster, vid, "root".to_string(), 2_000).unwrap();
    let c1 = st.reply_comment(&poster, c0, "depth one".to_string(), 2_010).unwrap();
    let c2 = st.reply_comment(&poster, c1, "depth two".to_string(), 2_020).unwrap();
    let _c3 = st.reply_comment(&poster, c2, "depth three".to_string(), 2_030).unwrap();
    let _b1 = st.reply_comment(&poster, c0, "branch".to_string(), 2_040).unwrap();
    // An unrelated comment under another version survives.
    let other = st.comment_version(&poster, vid2, "elsewhere".to_string(), 2_050).unwrap();

    assert_eq!(st.comments.len(), 6);
    let count = st.withdraw_comment(c0).unwrap();
    assert_eq!(count, 1);
    assert_eq!(st.comments.len(), 1);
    assert_eq!(st.comments[0].id, other);

    let missing = st.withdraw_comment(c0);
    assert!(matches!(missing, Err(AppError::NotFound(_))));
}

#[test]
fn withdrawing_a_mid_tree_comment_keeps_its_ancestors() {
    let mut st = Store::new();
    let poster = cw_actor(500);
    let (_tid, vid) = cw_accepted_version(&mut st, 100);

    let c0 = st.comment_version(&poster, vid, "root".to_string(), 2_000).unwrap();
    let c1 = st.reply_comment(&poster, c0, "middle".to_string(), 2_010).unwrap();
    let _c2 = st.reply_comment(&poster, c1, "leaf".to_string(), 2_020).unwrap();

    st.withdraw_comment(c1).unwrap();
    assert_eq!(st.comments.len(), 1);
    assert_eq!(st.comments[0].id, c0);
}

#[test]
fn withdrawing_a_version_removes_its_reviews_and_comments() {
    let mut st = Store::new();
    let author = cw_actor(100);
    let editor = cw_editor(200);
    let r1 = cw_actor(301);
    let poster = cw_actor(500);

    let tid = st.create_thesis(&author, cw_meta(vec![100]), 1_000).unwrap();
    let vid = st.commit_version(&author, tid, 7, None, 1_010).unwrap();
    st.edit_version(&editor, vid, cw_pool(vec![301])).unwrap();
    st.submit_review(&r1, vid, true, "sound".to_string(), 1_020).unwrap();
    let c0 = st.comment_version(&poster, vid, "root".to_string(), 2_000).unwrap();
    st.reply_comment(&poster, c0, "reply".to_string(), 2_010).unwrap();

    assert_eq!(st.reviews_of(vid).len(), 1);
    let count = st.withdraw_version(vid).unwrap();
    assert_eq!(count, 1);
    assert!(st.versions.is_empty());
    assert!(st.reviews.is_empty());
    assert!(st.comments.is_empty());
    assert_eq!(st.theses.len(), 1);

    let missing = st.withdraw_version(vid);
    assert!(matches!(missing, Err(AppError::NotFound(_))));
}

#[test]
fn withdrawing_a_thesis_leaves_no_residue() {
    let mut st = Store::new();
    let author = cw_actor(100);
    let editor = cw_editor(200);
    let r1 = cw_actor(301);
    let r2 = cw_actor(302);
    let poster = cw_actor(500);

    let tid = st.create_thesis(&author, cw_meta(vec![100]), 1_000).unwrap();
    let vid = st.commit_version(&author, tid, 7, None, 1_010).unwrap();
    st.edit_version(&editor, vid, cw_pool(vec![301, 302])).unwrap();
    st.submit_review(&r1, vid, true, "sound".to_string(), 1_020).unwrap();
    st.submit_review(&r2, vid, false, "flawed".to_string(), 1_030).unwrap();
    let v = st.get_version(&editor, vid).unwrap();
    assert!(matches!(v.state, VersionState::Passed(false)));

    // An unrelated thesis with its own version and comment stays whole.
    let (tid2, vid2) = cw_accepted_version(&mut st, 101);
    st.comment_version(&poster, vid2, "other".to_string(), 2_000).unwrap();

    let count = st.withdraw_thesis(&author, tid).unwrap();
    assert_eq!(count, 1);
    assert!(st.theses.iter().all(|t| t.id != tid));
    assert!(st.versions.iter().all(|v| v.thesis_id != tid));
    assert!(st.reviews.iter().all(|r| r.version_id != vid));
    assert!(st.comments.iter().all(|c| c.target_id != vid));
    assert_eq!(st.theses.len(), 1);
    assert_eq!(st.theses[0].id, tid2);
    assert_eq!(st.versions.len(), 1);
    assert_eq!(st.comments.len(), 1);
}

#[test]
fn thesis_withdrawal_is_guarded() {
    let mut st = Store::new();
    let author = cw_actor(100);
    let editor = cw_editor(200);
    let stranger = cw_actor(999);

    let tid = st.create_thesis(&author, cw_meta(vec![100]), 1_000).unwrap();
    let vid = st.commit_version(&author, tid, 7, None, 1_010).unwrap();

    let missing = st.withdraw_thesis(&editor, 4_242);
    assert!(matches!(missing, Err(AppError::NotFound(_))));

    let refused = st.withdraw_thesis(&stranger, tid);
    assert!(matches!(refused, Err(AppError::Forbidden(_))));

    // Once a version has passed, the owner can no longer withdraw.
    st.adjudge_version(&editor, vid, true).unwrap();
    let refused = st.withdraw_thesis(&author, tid);
    assert!(matches!(refused, Err(AppError::Forbidden(_))));

    // Editors still can.
    let count = st.withdraw_thesis(&editor, tid).unwrap();
    assert_eq!(count, 1);
    assert!(st.theses.is_empty());
}

#[test]
fn owner_may_withdraw_an_unpublished_thesis() {
    let mut st = Store::new();
    let author = cw_actor(100);
    let editor = cw_editor(200);

    let tid = st.create_thesis(&author, cw_meta(vec![100]), 1_000).unwrap();
    let vid = st.commit_version(&author, tid, 7, None, 1_010).unwrap();
    st.adjudge_version(&editor, vid, false).unwrap();

    let count = st.withdraw_thesis(&author, tid).unwrap();
    assert_eq!(count, 1);
    assert!(st.theses.is_empty());
    assert!(st.versions.is_empty());
}
