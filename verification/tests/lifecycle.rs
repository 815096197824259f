//! The version lifecycle: committing, opening review, collecting
//! judgements, aggregation, and editor overrides.

use prepublish::{
    Actor, AppError, ReviewPattern, ReviewState, Store, ThesisMeta, Version, VersionState,
};

fn lc_actor(id: u64) -> Actor {
    Actor { id, is_administrator: false, is_editor: false }
}

fn lc_editor(id: u64) -> Actor {
    Actor { id, is_administrator: false, is_editor: true }
}

fn lc_meta(authors: Vec<u64>) -> ThesisMeta {
    ThesisMeta {
        author_ids: authors,
        doi: None,
        title: "On the shoulders of giants".to_string(),
        abstraction: "A short abstract.".to_string(),
        keywords: vec!["survey".to_string()],
        languages: vec!["en".to_string()],
    }
}

fn lc_pool(reviewers: Vec<u64>) -> ReviewState {
    ReviewState { remainder_reviewer_ids: reviewers, pattern: ReviewPattern::Reviewer }
}

#[test]
fn unanimous_pool_passes_version() {
    let mut st = Store::new();
    let author = lc_actor(100);
    let editor = lc_editor(200);
    let r1 = lc_actor(301);
    let r2 = lc_actor(302);

    let tid = st.create_thesis(&author, lc_meta(vec![100]), 1_000).unwrap();
    let vid = st.commit_version(&author, tid, 7, None, 1_010).unwrap();

    let v = st.get_version(&editor, vid).unwrap();
    assert!(matches!(v.state, VersionState::Uploaded));
    assert_eq!(v.major_num, 0);
    assert_eq!(v.minor_num, 0);

    let v = st.edit_version(&editor, vid, lc_pool(vec![301, 302])).unwrap();
    assert!(matches!(v.state, VersionState::Reviewing));
    assert_eq!(v.review_state.remainder_reviewer_ids, vec![301, 302]);

    st.submit_review(&r1, vid, true, "sound".to_string(), 1_020).unwrap();
    let v = st.get_version(&editor, vid).unwrap();
    assert!(matches!(v.state, VersionState::Reviewing));
    assert_eq!(v.review_state.remainder_reviewer_ids, vec![302]);

    st.submit_review(&r2, vid, true, "agreed".to_string(), 1_030).unwrap();
    let v = st.get_version(&editor, vid).unwrap();
    assert!(matches!(v.state, VersionState::Passed(true)));
    assert_eq!(v.major_num, 1);
    assert_eq!(v.minor_num, 0);

    let t = st.get_thesis(&author, tid).unwrap();
    assert!(t.is_passed);
}

#[test]
fn negative_judgement_rejects_version() {
    let mut st = Store::new();
    let author = lc_actor(100);
    let editor = lc_editor(200);
    let r1 = lc_actor(301);
    let r2 = lc_actor(302);

    let tid = st.create_thesis(&author, lc_meta(vec![100]), 1_000).unwrap();
    let vid = st.commit_version(&author, tid, 7, None, 1_010).unwrap();
    st.edit_version(&editor, vid, lc_pool(vec![301, 302])).unwrap();
    st.submit_review(&r1, vid, true, "sound".to_string(), 1_020).unwrap();
    st.submit_review(&r2, vid, false, "flawed".to_string(), 1_030).unwrap();

    let v = st.get_version(&editor, vid).unwrap();
    assert!(matches!(v.state, VersionState::Passed(false)));
    assert_eq!(v.major_num, 0);
    let t = st.get_thesis(&author, tid).unwrap();
    assert!(!t.is_passed);
}

#[test]
fn reviewer_cannot_submit_twice() {
    let mut st = Store::new();
    let author = lc_actor(100);
    let editor = lc_editor(200);
    let r1 = lc_actor(301);

    let tid = st.create_thesis(&author, lc_meta(vec![100]), 1_000).unwrap();
    let vid = st.commit_version(&author, tid, 7, None, 1_010).unwrap();
    st.edit_version(&editor, vid, lc_pool(vec![301, 302])).unwrap();
    st.submit_review(&r1, vid, true, "first".to_string(), 1_020).unwrap();

    let second = st.submit_review(&r1, vid, false, "again".to_string(), 1_030);
    assert!(matches!(second, Err(AppError::Forbidden(_))));
}

#[test]
fn outsider_cannot_review() {
    let mut st = Store::new();
    let author = lc_actor(100);
    let editor = lc_editor(200);
    let outsider = lc_actor(999);

    let tid = st.create_thesis(&author, lc_meta(vec![100]), 1_000).unwrap();
    let vid = st.commit_version(&author, tid, 7, None, 1_010).unwrap();
    st.edit_version(&editor, vid, lc_pool(vec![301])).unwrap();

    let res = st.submit_review(&outsider, vid, true, "nice".to_string(), 1_020);
    assert!(matches!(res, Err(AppError::Forbidden(_))));
}

#[test]
fn review_of_unedited_version_is_bad_request() {
    let mut st = Store::new();
    let author = lc_actor(100);
    let r1 = lc_actor(301);

    let tid = st.create_thesis(&author, lc_meta(vec![100]), 1_000).unwrap();
    let vid = st.commit_version(&author, tid, 7, None, 1_010).unwrap();

    let res = st.submit_review(&r1, vid, true, "early".to_string(), 1_020);
    assert!(matches!(res, Err(AppError::BadRequest(_))));
}

#[test]
fn edit_requires_editor_and_uploaded_state() {
    let mut st = Store::new();
    let author = lc_actor(100);
    let editor = lc_editor(200);

    let tid = st.create_thesis(&author, lc_meta(vec![100]), 1_000).unwrap();
    let vid = st.commit_version(&author, tid, 7, None, 1_010).unwrap();

    let refused = st.edit_version(&author, vid, lc_pool(vec![301]));
    assert!(matches!(refused, Err(AppError::Forbidden(_))));

    st.edit_version(&editor, vid, lc_pool(vec![301])).unwrap();
    let again = st.edit_version(&editor, vid, lc_pool(vec![302]));
    assert!(matches!(again, Err(AppError::BadRequest(_))));

    let missing = st.edit_version(&editor, 4_242, lc_pool(vec![301]));
    assert!(matches!(missing, Err(AppError::NotFound(_))));
}

#[test]
fn editor_pattern_defers_to_adjudgement() {
    let mut st = Store::new();
    let author = lc_actor(100);
    let editor = lc_editor(200);
    let r1 = lc_actor(301);

    let tid = st.create_thesis(&author, lc_meta(vec![100]), 1_000).unwrap();
    let vid = st.commit_version(&author, tid, 7, None, 1_010).unwrap();
    let v = st
        .edit_version(
            &editor,
            vid,
            ReviewState {
                remainder_reviewer_ids: vec![301],
                pattern: ReviewPattern::Editor(0),
            },
        )
        .unwrap();
    assert!(matches!(v.review_state.pattern, ReviewPattern::Editor(200)));

    st.submit_review(&r1, vid, false, "doubts".to_string(), 1_020).unwrap();
    let v = st.get_version(&editor, vid).unwrap();
    assert!(matches!(v.state, VersionState::Reviewing));
    assert_eq!(st.reviews_of(vid).len(), 1);

    let v = st.adjudge_version(&editor, vid, true).unwrap();
    assert!(matches!(v.state, VersionState::Passed(true)));
    assert_eq!(v.major_num, 1);
}

#[test]
fn adjudge_requires_editor_and_open_state() {
    let mut st = Store::new();
    let author = lc_actor(100);
    let editor = lc_editor(200);

    let tid = st.create_thesis(&author, lc_meta(vec![100]), 1_000).unwrap();
    let vid = st.commit_version(&author, tid, 7, None, 1_010).unwrap();

    let refused = st.adjudge_version(&author, vid, true);
    assert!(matches!(refused, Err(AppError::Forbidden(_))));

    st.adjudge_version(&editor, vid, false).unwrap();
    let again = st.adjudge_version(&editor, vid, true);
    assert!(matches!(again, Err(AppError::BadRequest(_))));
}

#[test]
fn commit_guards_author_and_slot() {
    let mut st = Store::new();
    let author = lc_actor(100);
    let outsider = lc_actor(999);

    let tid = st.create_thesis(&author, lc_meta(vec![100]), 1_000).unwrap();

    let missing = st.commit_version(&author, 4_242, 7, None, 1_010);
    assert!(matches!(missing, Err(AppError::NotFound(_))));

    let refused = st.commit_version(&outsider, tid, 7, None, 1_010);
    assert!(matches!(refused, Err(AppError::Forbidden(_))));

    st.commit_version(&author, tid, 7, None, 1_010).unwrap();
    let duplicate = st.commit_version(&author, tid, 8, None, 1_020);
    assert!(matches!(duplicate, Err(AppError::Conflict(_))));
}

#[test]
fn pass_supersedes_siblings_sharing_major() {
    // A store holding two versions of one thesis in slots (0, 0) and
    // (0, 1), as a resubmission cycle leaves them.
    let tid_for_versions: u64 = 0;
    let mk = |id: u64, minor: i32| Version {
        id,
        thesis_id: tid_for_versions,
        uploaded_at: 1_000 + minor as i64,
        uploader_id: Some(100),
        major_num: 0,
        minor_num: minor,
        file_id: 7,
        source_id: None,
        state: VersionState::Uploaded,
        review_state: ReviewState {
            remainder_reviewer_ids: Vec::new(),
            pattern: ReviewPattern::Reviewer,
        },
        downloads: 0,
    };
    let mut st = Store::new();
    let author = lc_actor(100);
    let tid = st.create_thesis(&author, lc_meta(vec![100]), 1_000).unwrap();
    assert_eq!(tid, 0);
    st.versions.push(mk(10, 0));
    st.versions.push(mk(11, 1));
    st.next_id = 20;

    let passed = st.pass(11).unwrap();
    assert!(matches!(passed.state, VersionState::Passed(true)));
    assert_eq!(passed.major_num, 1);
    assert_eq!(passed.minor_num, 0);

    let sibling = st.versions.iter().find(|v| v.id == 10).unwrap();
    assert!(matches!(sibling.state, VersionState::History));
    let t = st.theses.iter().find(|t| t.id == tid).unwrap();
    assert!(t.is_passed);
}

#[test]
fn reject_sets_passed_false_only() {
    let mut st = Store::new();
    let author = lc_actor(100);
    let tid = st.create_thesis(&author, lc_meta(vec![100]), 1_000).unwrap();
    let vid = st.commit_version(&author, tid, 7, None, 1_010).unwrap();

    let v = st.reject(vid).unwrap();
    assert!(matches!(v.state, VersionState::Passed(false)));
    assert_eq!(v.major_num, 0);
    let t = st.theses.iter().find(|t| t.id == tid).unwrap();
    assert!(!t.is_passed);
}
