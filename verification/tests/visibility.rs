//! The visibility policy for theses, versions and reviews.

use prepublish::{
    can_view_version, Actor, AppError, ReviewPattern, ReviewState, Store, ThesisMeta,
    VersionState,
};

fn vis_actor(id: u64) -> Actor {
    Actor { id, is_administrator: false, is_editor: false }
}

fn vis_editor(id: u64) -> Actor {
    Actor { id, is_administrator: false, is_editor: true }
}

fn vis_meta(authors: Vec<u64>) -> ThesisMeta {
    ThesisMeta {
        author_ids: authors,
        doi: Some("10.1000/demo".to_string()),
        title: "A study".to_string(),
        abstraction: "Details within.".to_string(),
        keywords: vec![],
        languages: vec!["en".to_string()],
    }
}

fn vis_pool(reviewers: Vec<u64>) -> ReviewState {
    ReviewState { remainder_reviewer_ids: reviewers, pattern: ReviewPattern::Reviewer }
}

#[test]
fn rejected_version_is_private_to_strangers() {
    let mut st = Store::new();
    let author = vis_actor(100);
    let editor = vis_editor(200);
    let stranger = vis_actor(999);

    let tid = st.create_thesis(&author, vis_meta(vec![100]), 1_000).unwrap();
    let vid = st.commit_version(&author, tid, 7, None, 1_010).unwrap();
    st.adjudge_version(&editor, vid, false).unwrap();

    let refused = st.get_version(&stranger, vid);
    assert!(matches!(refused, Err(AppError::Forbidden(_))));

    let v = st.versions.iter().find(|v| v.id == vid).unwrap();
    let t = st.theses.iter().find(|t| t.id == tid).unwrap();
    assert!(!can_view_version(&stranger, v, t));
    assert!(can_view_version(&author, v, t));
    assert!(can_view_version(&editor, v, t));
}

#[test]
fn reviewing_version_is_visible_to_pool_members() {
    let mut st = Store::new();
    let author = vis_actor(100);
    let editor = vis_editor(200);
    let reviewer = vis_actor(301);
    let stranger = vis_actor(999);

    let tid = st.create_thesis(&author, vis_meta(vec![100]), 1_000).unwrap();
    let vid = st.commit_version(&author, tid, 7, None, 1_010).unwrap();
    st.edit_version(&editor, vid, vis_pool(vec![301])).unwrap();

    assert!(st.get_version(&reviewer, vid).is_ok());
    assert!(matches!(st.get_version(&stranger, vid), Err(AppError::Forbidden(_))));

    let v = st.versions.iter().find(|v| v.id == vid).unwrap();
    let t = st.theses.iter().find(|t| t.id == tid).unwrap();
    assert!(can_view_version(&reviewer, v, t));
    assert!(!can_view_version(&stranger, v, t));
}

#[test]
fn accepted_version_is_public() {
    let mut st = Store::new();
    let author = vis_actor(100);
    let editor = vis_editor(200);
    let stranger = vis_actor(999);

    let tid = st.create_thesis(&author, vis_meta(vec![100]), 1_000).unwrap();
    let vid = st.commit_version(&author, tid, 7, None, 1_010).unwrap();
    st.adjudge_version(&editor, vid, true).unwrap();

    assert!(st.get_version(&stranger, vid).is_ok());
    assert!(st.get_thesis(&stranger, tid).is_ok());
}

#[test]
fn uploaded_version_is_private() {
    let mut st = Store::new();
    let author = vis_actor(100);
    let stranger = vis_actor(999);

    let tid = st.create_thesis(&author, vis_meta(vec![100]), 1_000).unwrap();
    let vid = st.commit_version(&author, tid, 7, None, 1_010).unwrap();

    assert!(st.get_version(&author, vid).is_ok());
    assert!(matches!(st.get_version(&stranger, vid), Err(AppError::Forbidden(_))));
    assert!(matches!(st.get_version(&stranger, 4_242), Err(AppError::NotFound(_))));
}

#[test]
fn thesis_visibility_follows_newest_version() {
    let mut st = Store::new();
    let author = vis_actor(100);
    let editor = vis_editor(200);
    let reviewer = vis_actor(301);
    let stranger = vis_actor(999);

    let tid = st.create_thesis(&author, vis_meta(vec![100]), 1_000).unwrap();
    assert!(st.get_thesis(&author, tid).is_ok());
    assert!(matches!(st.get_thesis(&stranger, tid), Err(AppError::Forbidden(_))));

    let vid = st.commit_version(&author, tid, 7, None, 1_010).unwrap();
    assert!(matches!(st.get_thesis(&stranger, tid), Err(AppError::Forbidden(_))));

    st.edit_version(&editor, vid, vis_pool(vec![301])).unwrap();
    assert!(st.get_thesis(&reviewer, tid).is_ok());
    assert!(matches!(st.get_thesis(&stranger, tid), Err(AppError::Forbidden(_))));
}

#[test]
fn review_private_while_undecided_then_public() {
    let mut st = Store::new();
    let author = vis_actor(100);
    let editor = vis_editor(200);
    let r1 = vis_actor(301);
    let r2 = vis_actor(302);
    let stranger = vis_actor(999);

    let tid = st.create_thesis(&author, vis_meta(vec![100]), 1_000).unwrap();
    let vid = st.commit_version(&author, tid, 7, None, 1_010).unwrap();
    st.edit_version(&editor, vid, vis_pool(vec![301, 302])).unwrap();
    let rid = st.submit_review(&r1, vid, true, "sound".to_string(), 1_020).unwrap();

    // While the version is still under review, only its own referee and
    // editors may read the review.
    assert!(st.get_review(&r1, rid).is_ok());
    assert!(st.get_review(&editor, rid).is_ok());
    assert!(matches!(st.get_review(&stranger, rid), Err(AppError::Forbidden(_))));
    assert!(matches!(st.get_review(&r2, rid), Err(AppError::Forbidden(_))));
    assert!(matches!(st.get_review(&author, rid), Err(AppError::Forbidden(_))));

    // The second submission accepts the version; a review of a publicly
    // decided version is readable by anyone.
    st.submit_review(&r2, vid, true, "fine".to_string(), 1_030).unwrap();
    assert!(st.get_review(&author, rid).is_ok());
    assert!(st.get_review(&r2, rid).is_ok());
    assert!(st.get_review(&stranger, rid).is_ok());
}

#[test]
fn review_of_rejected_version_stays_private() {
    let mut st = Store::new();
    let author = vis_actor(100);
    let editor = vis_editor(200);
    let r1 = vis_actor(301);
    let stranger = vis_actor(999);

    let tid = st.create_thesis(&author, vis_meta(vec![100]), 1_000).unwrap();
    let vid = st.commit_version(&author, tid, 7, None, 1_010).unwrap();
    st.edit_version(&editor, vid, vis_pool(vec![301])).unwrap();
    let rid = st.submit_review(&r1, vid, false, "flawed".to_string(), 1_020).unwrap();

    // The pool emptied with a negative judgement, so the version is
    // rejected — not publicly decided. The review stays with its referee
    // and the editors.
    assert!(st.get_review(&r1, rid).is_ok());
    assert!(st.get_review(&editor, rid).is_ok());
    assert!(matches!(st.get_review(&stranger, rid), Err(AppError::Forbidden(_))));
    assert!(matches!(st.get_review(&author, rid), Err(AppError::Forbidden(_))));

    let missing = st.get_review(&editor, 4_242);
    assert!(matches!(missing, Err(AppError::NotFound(_))));
}

#[test]
fn metadata_update_is_for_parties_and_editors() {
    let mut st = Store::new();
    let owner = vis_actor(100);
    let coauthor = vis_actor(101);
    let stranger = vis_actor(999);

    let tid = st.create_thesis(&owner, vis_meta(vec![100, 101]), 1_000).unwrap();

    let renamed = st.update_thesis(&coauthor, tid, vis_meta(vec![100, 101])).unwrap();
    assert_eq!(renamed.owner_id, 100);
    assert_eq!(renamed.created_at, 1_000);

    let refused = st.update_thesis(&stranger, tid, vis_meta(vec![999]));
    assert!(matches!(refused, Err(AppError::Forbidden(_))));

    let missing = st.update_thesis(&owner, 4_242, vis_meta(vec![100]));
    assert!(matches!(missing, Err(AppError::NotFound(_))));
}
