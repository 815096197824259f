//! Configuration defaults, comment posting rules, collection getters and
//! pagination.

use prepublish::{
    default_hash_cost, default_mongo_db_nm, default_mongo_srv_url, default_relay,
    default_smtp_username, default_sql_db_url, default_srv_addr, Actor, AppError,
    CommentTargetType, Permission, Store, ThesisMeta,
};

fn sf_actor(id: u64) -> Actor {
    Actor { id, is_administrator: false, is_editor: false }
}

fn sf_editor(id: u64) -> Actor {
    Actor { id, is_administrator: false, is_editor: true }
}

fn sf_meta(authors: Vec<u64>, title: &str) -> ThesisMeta {
    ThesisMeta {
        author_ids: authors,
        doi: None,
        title: title.to_string(),
        abstraction: "An abstract.".to_string(),
        keywords: vec!["k".to_string()],
        languages: vec!["en".to_string()],
    }
}

#[test]
fn configuration_defaults_match() {
    assert_eq!(default_sql_db_url(), "postgresql://postgres@localhost/prepublish");
    assert_eq!(default_mongo_srv_url(), "mongodb://localhost:27017");
    assert_eq!(default_mongo_db_nm(), "prepublish");
    assert_eq!(default_srv_addr(), "127.0.0.1:8000");
    assert_eq!(default_hash_cost(), 4);
    assert_eq!(default_relay(), "localhost");
    assert_eq!(default_smtp_username(), "root");
}

#[test]
fn error_messages_carry_their_text() {
    let e = AppError::Conflict("taken".to_string());
    assert_eq!(e.message(), "taken");
    let e = AppError::Internal("broken".to_string());
    assert_eq!(e.message(), "broken");
}

#[test]
fn comments_attach_only_to_accepted_versions() {
    let mut st = Store::new();
    let author = sf_actor(100);
    let editor = sf_editor(200);
    let poster = sf_actor(500);

    let tid = st.create_thesis(&author, sf_meta(vec![100], "T"), 1_000).unwrap();
    let vid = st.commit_version(&author, tid, 7, None, 1_010).unwrap();

    let too_early = st.comment_version(&poster, vid, "hello".to_string(), 2_000);
    assert!(matches!(too_early, Err(AppError::Forbidden(_))));

    st.adjudge_version(&editor, vid, true).unwrap();
    let cid = st.comment_version(&poster, vid, "hello".to_string(), 2_000).unwrap();
    let c = st.get_comment(cid).unwrap();
    assert_eq!(c.content, "hello");
    assert_eq!(c.poster_id, Some(500));
    assert!(matches!(c.target_type, CommentTargetType::Version));
    assert_eq!(c.target_id, vid);

    let missing = st.reply_comment(&poster, 4_242, "lost".to_string(), 2_010);
    assert!(matches!(missing, Err(AppError::NotFound(_))));

    let rid = st.reply_comment(&poster, cid, "reply".to_string(), 2_010).unwrap();
    let replies = st.replies_of(cid);
    assert_eq!(replies.len(), 1);
    assert_eq!(replies[0].id, rid);
    assert!(matches!(replies[0].target_type, CommentTargetType::Comment));

    let roots = st.comments_on(vid);
    assert_eq!(roots.len(), 1);
    assert_eq!(roots[0].id, cid);
}

#[test]
fn collection_getters_filter_by_owner() {
    let mut st = Store::new();
    let author = sf_actor(100);
    let editor = sf_editor(200);
    let r1 = sf_actor(301);

    let tid1 = st.create_thesis(&author, sf_meta(vec![100], "A"), 1_000).unwrap();
    let tid2 = st.create_thesis(&author, sf_meta(vec![100], "B"), 1_001).unwrap();
    let vid1 = st.commit_version(&author, tid1, 7, None, 1_010).unwrap();
    let vid2 = st.commit_version(&author, tid2, 8, None, 1_011).unwrap();

    assert_eq!(st.versions_of(tid1).len(), 1);
    assert_eq!(st.versions_of(tid1)[0].id, vid1);
    assert_eq!(st.versions_of(tid2)[0].id, vid2);
    assert!(st.versions_of(4_242).is_empty());

    st.edit_version(
        &editor,
        vid1,
        prepublish::ReviewState {
            remainder_reviewer_ids: vec![301, 302],
            pattern: prepublish::ReviewPattern::Reviewer,
        },
    )
    .unwrap();
    st.submit_review(&r1, vid1, true, "good".to_string(), 1_020).unwrap();
    assert_eq!(st.reviews_of(vid1).len(), 1);
    assert_eq!(st.reviews_of(vid1)[0].reviewer_id, Some(301));
    assert!(st.reviews_of(vid2).is_empty());
}

#[test]
fn last_version_orders_by_slot() {
    let mut st = Store::new();
    let author = sf_actor(100);
    let editor = sf_editor(200);

    let tid = st.create_thesis(&author, sf_meta(vec![100], "T"), 1_000).unwrap();
    assert!(st.last_version_of(tid).is_none());

    let v1 = st.commit_version(&author, tid, 7, None, 1_010).unwrap();
    assert_eq!(st.last_version_of(tid).unwrap().id, v1);

    // Passing moves the first version to slot (1, 0); a new upload takes
    // (0, 0) and the passed one stays the newest.
    st.adjudge_version(&editor, v1, true).unwrap();
    let v2 = st.commit_version(&author, tid, 8, None, 1_020).unwrap();
    let last = st.last_version_of(tid).unwrap();
    assert_eq!(last.id, v1);
    assert_eq!(last.major_num, 1);
    assert!(st.versions_of(tid).iter().any(|v| v.id == v2));
}

#[test]
fn passed_theses_pages_through_the_catalogue() {
    let mut st = Store::new();
    let author = sf_actor(100);
    let editor = sf_editor(200);

    let mut passed_ids = Vec::new();
    let mut i: u64 = 0;
    while i < 5 {
        let tid = st
            .create_thesis(&author, sf_meta(vec![100], "T"), 1_000 + i as i64)
            .unwrap();
        let vid = st.commit_version(&author, tid, 7, None, 1_010).unwrap();
        if i % 2 == 0 {
            st.adjudge_version(&editor, vid, true).unwrap();
            passed_ids.push(tid);
        }
        i += 1;
    }
    // Theses 0, 2 and 4 passed.
    let all: Vec<u64> = st.passed_theses(0, 10).iter().map(|t| t.id).collect();
    assert_eq!(all, passed_ids);

    let page: Vec<u64> = st.passed_theses(1, 1).iter().map(|t| t.id).collect();
    assert_eq!(page, vec![passed_ids[1]]);

    assert!(st.passed_theses(3, 10).is_empty());
    assert!(st.passed_theses(0, 0).is_empty());
}

#[test]
fn permissions_map_to_roles() {
    let admin = Actor { id: 1, is_administrator: true, is_editor: false };
    let editor = sf_editor(2);
    assert!(admin.permitted(Permission::Managing));
    assert!(!admin.permitted(Permission::Publishing));
    assert!(editor.permitted(Permission::Publishing));
    assert!(!editor.permitted(Permission::Managing));
}
