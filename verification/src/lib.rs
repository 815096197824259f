//! Core engine of an academic publishing platform: authors submit a thesis,
//! upload successive versions, editors or pools of referees judge each
//! version, and accepted versions supersede prior ones.
//!
//! The engine operates on an explicit document store ([`store::Store`]) holding
//! the four entity collections (theses, versions, reviews, comments). Every
//! state-transition operation is specified by a contract over the store's
//! mathematical view and verified; the surrounding HTTP, session and transport
//! layers are external collaborators that call into this crate with plain
//! values.

#![verifier::loop_isolation(false)]

pub mod auth;
pub mod cfg;
pub mod comments;
pub mod entities;
pub mod laws;
pub mod reach;
pub mod review_flow;
pub mod seq_lemmas;
pub mod store;
pub mod visibility;
pub mod withdraw;

pub use auth::{Actor, Permission};
pub use cfg::{
    default_hash_cost, default_mongo_db_nm, default_mongo_srv_url, default_relay,
    default_smtp_username, default_sql_db_url, default_srv_addr, AppConfig,
};
pub use entities::{
    AppError, Comment, CommentTargetType, CommentView, Review, ReviewPattern, ReviewState,
    ReviewStateView, ReviewView, Thesis, ThesisMeta, ThesisMetaView, ThesisView, Version,
    VersionState, VersionView,
};
pub use store::Store;
pub use visibility::{can_view_review, can_view_thesis, can_view_version};
