//! Entity schemas: the persistent shapes the engine operates on, together
//! with their mathematical views.
//!
//! Identifiers are plain `u64` values handed out by the store; timestamps are
//! plain `i64` values (epoch milliseconds) supplied by the caller. Each
//! executable entity type has a ghost view type whose string fields are
//! character sequences, so that every contract can be stated over
//! mathematical values.

use vstd::prelude::*;

verus! {

/// Structured failure of an engine operation.
///
/// Collaborating request handlers translate the variants to transport status
/// codes; the engine itself only decides which taxonomy kind applies.
#[derive(Debug, PartialEq, Eq)]
pub enum AppError {
    /// Store or invariant failure that the caller did not provoke.
    Internal(String),
    /// Illegal state transition or malformed request.
    BadRequest(String),
    /// The request collides with existing state (duplicate identity).
    Conflict(String),
    /// The actor lacks the capability or relation the operation demands.
    Forbidden(String),
    /// The addressed entity does not exist.
    NotFound(String),
}

impl AppError {
    /// The human-readable description carried by the failure.
    pub fn message(&self) -> (m: &str)
        ensures
            m@ == match self {
                AppError::Internal(s) => s@,
                AppError::BadRequest(s) => s@,
                AppError::Conflict(s) => s@,
                AppError::Forbidden(s) => s@,
                AppError::NotFound(s) => s@,
            },
    {
        match self {
            AppError::Internal(s) => s.as_str(),
            AppError::BadRequest(s) => s.as_str(),
            AppError::Conflict(s) => s.as_str(),
            AppError::Forbidden(s) => s.as_str(),
            AppError::NotFound(s) => s.as_str(),
        }
    }
}

/// Lifecycle state of a version. Transitions are strictly forward:
/// `Uploaded` → `Reviewing` → `Passed(_)`, and any version is moved to
/// `History` when a sibling passes.
#[derive(Clone, Copy, Debug, PartialEq, Eq, Structural)]
pub enum VersionState {
    /// Just committed; no review assigned yet.
    Uploaded,
    /// An editor has opened review.
    Reviewing,
    /// Terminal for the cycle: `true` = accepted, `false` = rejected.
    Passed(bool),
    /// Superseded by a later passed version of the same thesis.
    History,
}

/// How the outcome of a review round is decided.
#[derive(Clone, Copy, Debug, PartialEq, Eq, Structural)]
pub enum ReviewPattern {
    /// A single named editor decides by adjudging.
    Editor(u64),
    /// The pool of assigned referees decides: unanimous non-negative
    /// judgement is required.
    Reviewer,
}

/// What a comment is attached to.
#[derive(Clone, Copy, Debug, PartialEq, Eq, Structural)]
pub enum CommentTargetType {
    Version,
    Comment,
}

/// Review bookkeeping embedded in a version: the set of referees who have
/// not yet submitted, and the decision pattern.
#[derive(Debug)]
pub struct ReviewState {
    pub remainder_reviewer_ids: Vec<u64>,
    pub pattern: ReviewPattern,
}

/// Mathematical view of [`ReviewState`].
pub struct ReviewStateView {
    pub remainder_reviewer_ids: Seq<u64>,
    pub pattern: ReviewPattern,
}

impl View for ReviewState {
    type V = ReviewStateView;

    open spec fn view(&self) -> ReviewStateView {
        ReviewStateView {
            remainder_reviewer_ids: self.remainder_reviewer_ids@,
            pattern: self.pattern,
        }
    }
}

impl Clone for ReviewState {
    fn clone(&self) -> (res: Self)
        ensures
            res@ == self@,
    {
        let ids = self.remainder_reviewer_ids.clone();
        proof {
            assert(ids@ =~= self.remainder_reviewer_ids@);
        }
        ReviewState { remainder_reviewer_ids: ids, pattern: self.pattern }
    }
}

impl ReviewState {
    /// The default bookkeeping of a freshly committed version: an empty pool
    /// under the referee-consensus pattern.
    pub fn empty() -> (r: Self)
        ensures
            r@.remainder_reviewer_ids == Seq::<u64>::empty(),
            r@.pattern == ReviewPattern::Reviewer,
    {
        ReviewState { remainder_reviewer_ids: Vec::new(), pattern: ReviewPattern::Reviewer }
    }
}

/// Metadata of a thesis, as supplied by its authors.
#[derive(Debug)]
pub struct ThesisMeta {
    pub author_ids: Vec<u64>,
    pub doi: Option<String>,
    pub title: String,
    pub abstraction: String,
    pub keywords: Vec<String>,
    pub languages: Vec<String>,
}

/// Mathematical view of [`ThesisMeta`].
pub struct ThesisMetaView {
    pub author_ids: Seq<u64>,
    pub doi: Option<Seq<char>>,
    pub title: Seq<char>,
    pub abstraction: Seq<char>,
    pub keywords: Seq<Seq<char>>,
    pub languages: Seq<Seq<char>>,
}

impl View for ThesisMeta {
    type V = ThesisMetaView;

    open spec fn view(&self) -> ThesisMetaView {
        ThesisMetaView {
            author_ids: self.author_ids@,
            doi: match self.doi {
                Some(s) => Some(s@),
                None => None,
            },
            title: self.title@,
            abstraction: self.abstraction@,
            keywords: self.keywords@.map_values(|s: String| s@),
            languages: self.languages@.map_values(|s: String| s@),
        }
    }
}

/// A thesis: identity block plus author-supplied metadata.
#[derive(Debug)]
pub struct Thesis {
    pub id: u64,
    pub owner_id: u64,
    pub is_passed: bool,
    pub created_at: i64,
    pub meta: ThesisMeta,
}

/// Mathematical view of [`Thesis`].
pub struct ThesisView {
    pub id: u64,
    pub owner_id: u64,
    pub is_passed: bool,
    pub created_at: i64,
    pub meta: ThesisMetaView,
}

impl View for Thesis {
    type V = ThesisView;

    open spec fn view(&self) -> ThesisView {
        ThesisView {
            id: self.id,
            owner_id: self.owner_id,
            is_passed: self.is_passed,
            created_at: self.created_at,
            meta: self.meta@,
        }
    }
}

/// A concrete upload of a thesis.
#[derive(Debug)]
pub struct Version {
    pub id: u64,
    pub thesis_id: u64,
    pub uploaded_at: i64,
    pub uploader_id: Option<u64>,
    pub major_num: i32,
    pub minor_num: i32,
    pub file_id: u64,
    pub source_id: Option<u64>,
    pub state: VersionState,
    pub review_state: ReviewState,
    pub downloads: i32,
}

/// Mathematical view of [`Version`].
pub struct VersionView {
    pub id: u64,
    pub thesis_id: u64,
    pub uploaded_at: i64,
    pub uploader_id: Option<u64>,
    pub major_num: i32,
    pub minor_num: i32,
    pub file_id: u64,
    pub source_id: Option<u64>,
    pub state: VersionState,
    pub review_state: ReviewStateView,
    pub downloads: i32,
}

impl View for Version {
    type V = VersionView;

    open spec fn view(&self) -> VersionView {
        VersionView {
            id: self.id,
            thesis_id: self.thesis_id,
            uploaded_at: self.uploaded_at,
            uploader_id: self.uploader_id,
            major_num: self.major_num,
            minor_num: self.minor_num,
            file_id: self.file_id,
            source_id: self.source_id,
            state: self.state,
            review_state: self.review_state@,
            downloads: self.downloads,
        }
    }
}

impl Clone for Version {
    fn clone(&self) -> (res: Self)
        ensures
            res@ == self@,
    {
        Version {
            id: self.id,
            thesis_id: self.thesis_id,
            uploaded_at: self.uploaded_at,
            uploader_id: self.uploader_id,
            major_num: self.major_num,
            minor_num: self.minor_num,
            file_id: self.file_id,
            source_id: self.source_id,
            state: self.state,
            review_state: self.review_state.clone(),
            downloads: self.downloads,
        }
    }
}

/// A referee's judgement of one version, immutable after creation.
#[derive(Debug)]
pub struct Review {
    pub id: u64,
    pub version_id: u64,
    pub reviewed_at: i64,
    pub reviewer_id: Option<u64>,
    pub judgement: bool,
    pub criticism: String,
}

/// Mathematical view of [`Review`].
pub struct ReviewView {
    pub id: u64,
    pub version_id: u64,
    pub reviewed_at: i64,
    pub reviewer_id: Option<u64>,
    pub judgement: bool,
    pub criticism: Seq<char>,
}

impl View for Review {
    type V = ReviewView;

    open spec fn view(&self) -> ReviewView {
        ReviewView {
            id: self.id,
            version_id: self.version_id,
            reviewed_at: self.reviewed_at,
            reviewer_id: self.reviewer_id,
            judgement: self.judgement,
            criticism: self.criticism@,
        }
    }
}

impl Clone for Review {
    fn clone(&self) -> (res: Self)
        ensures
            res@ == self@,
    {
        Review {
            id: self.id,
            version_id: self.version_id,
            reviewed_at: self.reviewed_at,
            reviewer_id: self.reviewer_id,
            judgement: self.judgement,
            criticism: self.criticism.clone(),
        }
    }
}

/// A comment attached to a version or, as a reply, to another comment.
#[derive(Debug)]
pub struct Comment {
    pub id: u64,
    pub poster_id: Option<u64>,
    pub posted_at: i64,
    pub target_type: CommentTargetType,
    pub target_id: u64,
    pub content: String,
}

/// Mathematical view of [`Comment`].
pub struct CommentView {
    pub id: u64,
    pub poster_id: Option<u64>,
    pub posted_at: i64,
    pub target_type: CommentTargetType,
    pub target_id: u64,
    pub content: Seq<char>,
}

impl View for Comment {
    type V = CommentView;

    open spec fn view(&self) -> CommentView {
        CommentView {
            id: self.id,
            poster_id: self.poster_id,
            posted_at: self.posted_at,
            target_type: self.target_type,
            target_id: self.target_id,
            content: self.content@,
        }
    }
}

impl Clone for Comment {
    fn clone(&self) -> (res: Self)
        ensures
            res@ == self@,
    {
        Comment {
            id: self.id,
            poster_id: self.poster_id,
            posted_at: self.posted_at,
            target_type: self.target_type,
            target_id: self.target_id,
            content: self.content.clone(),
        }
    }
}

/// Clones a list of strings.
fn clone_string_vec(v: &Vec<String>) -> (r: Vec<String>)
    ensures
        r@.map_values(|s: String| s@) == v@.map_values(|s: String| s@),
{
    let mut r: Vec<String> = Vec::new();
    let mut i: usize = 0;
    while i < v.len()
        invariant
            i <= v.len(),
            r@.len() == i,
            forall|j: int| 0 <= j < i ==> r@[j]@ == v@[j]@,
        decreases v.len() - i,
    {
        r.push(v[i].clone());
        i = i + 1;
    }
    proof {
        assert(r@.map_values(|s: String| s@) =~= v@.map_values(|s: String| s@));
    }
    r
}

impl Clone for ThesisMeta {
    fn clone(&self) -> (res: Self)
        ensures
            res@ == self@,
    {
        let author_ids = self.author_ids.clone();
        proof {
            assert(author_ids@ =~= self.author_ids@);
        }
        ThesisMeta {
            author_ids,
            doi: match &self.doi {
                Some(s) => Some(s.clone()),
                None => None,
            },
            title: self.title.clone(),
            abstraction: self.abstraction.clone(),
            keywords: clone_string_vec(&self.keywords),
            languages: clone_string_vec(&self.languages),
        }
    }
}

impl Clone for Thesis {
    fn clone(&self) -> (res: Self)
        ensures
            res@ == self@,
    {
        Thesis {
            id: self.id,
            owner_id: self.owner_id,
            is_passed: self.is_passed,
            created_at: self.created_at,
            meta: self.meta.clone(),
        }
    }
}

} // verus!
