//! The document store the engine operates on, and the thesis-level
//! operations.
//!
//! The store holds the four entity collections and a fresh-identifier
//! counter. Single-document conditional updates of the underlying database
//! are modelled by operations that re-check their precondition on the
//! document at the point of mutation; the uniqueness the database enforces
//! through its indexes (distinct identifiers, one version per
//! `(thesis, major, minor)` slot) is carried here as the store's
//! well-formedness invariant.

use vstd::prelude::*;

use crate::auth::Actor;
use crate::entities::{
    AppError, Comment, CommentView, Review, ReviewView, Thesis, ThesisMeta, ThesisView, Version,
    VersionView,
};
use crate::visibility::{slot_le, spec_last_version, spec_may_edit_thesis};

verus! {

/// Mathematical view of the whole store.
pub struct StoreView {
    pub theses: Seq<ThesisView>,
    pub versions: Seq<VersionView>,
    pub reviews: Seq<ReviewView>,
    pub comments: Seq<CommentView>,
    pub next_id: u64,
}

/// No two theses share an identifier.
pub open spec fn thesis_ids_unique(s: Seq<ThesisView>) -> bool {
    forall|i: int, j: int| 0 <= i < j < s.len() ==> s[i].id != s[j].id
}

/// Some thesis carries the identifier.
pub open spec fn has_thesis(s: Seq<ThesisView>, id: u64) -> bool {
    exists|i: int| 0 <= i < s.len() && s[i].id == id
}

/// The position of the thesis with the identifier.
pub open spec fn thesis_idx(s: Seq<ThesisView>, id: u64) -> int {
    choose|i: int| 0 <= i < s.len() && s[i].id == id
}

/// The thesis with the identifier.
pub open spec fn thesis_at(s: Seq<ThesisView>, id: u64) -> ThesisView {
    s[thesis_idx(s, id)]
}

/// No two versions share an identifier.
pub open spec fn version_ids_unique(s: Seq<VersionView>) -> bool {
    forall|i: int, j: int| 0 <= i < j < s.len() ==> s[i].id != s[j].id
}

/// Some version carries the identifier.
pub open spec fn has_version(s: Seq<VersionView>, id: u64) -> bool {
    exists|i: int| 0 <= i < s.len() && s[i].id == id
}

/// The position of the version with the identifier.
pub open spec fn version_idx(s: Seq<VersionView>, id: u64) -> int {
    choose|i: int| 0 <= i < s.len() && s[i].id == id
}

/// The version with the identifier.
pub open spec fn version_at(s: Seq<VersionView>, id: u64) -> VersionView {
    s[version_idx(s, id)]
}

/// No two versions of one thesis occupy the same `(major, minor)` slot.
pub open spec fn version_slots_unique(s: Seq<VersionView>) -> bool {
    forall|i: int, j: int|
        0 <= i < j < s.len() ==> !(s[i].thesis_id == s[j].thesis_id && s[i].major_num
            == s[j].major_num && s[i].minor_num == s[j].minor_num)
}

/// Some version of the thesis occupies the `(major, minor)` slot.
pub open spec fn slot_taken(s: Seq<VersionView>, thesis_id: u64, major: i32, minor: i32) -> bool {
    exists|i: int|
        0 <= i < s.len() && s[i].thesis_id == thesis_id && s[i].major_num == major
            && s[i].minor_num == minor
}

/// No two reviews share an identifier.
pub open spec fn review_ids_unique(s: Seq<ReviewView>) -> bool {
    forall|i: int, j: int| 0 <= i < j < s.len() ==> s[i].id != s[j].id
}

/// Some review carries the identifier.
pub open spec fn has_review(s: Seq<ReviewView>, id: u64) -> bool {
    exists|i: int| 0 <= i < s.len() && s[i].id == id
}

/// The position of the review with the identifier.
pub open spec fn review_idx(s: Seq<ReviewView>, id: u64) -> int {
    choose|i: int| 0 <= i < s.len() && s[i].id == id
}

/// The review with the identifier.
pub open spec fn review_at(s: Seq<ReviewView>, id: u64) -> ReviewView {
    s[review_idx(s, id)]
}

/// No two comments share an identifier.
pub open spec fn comment_ids_unique(s: Seq<CommentView>) -> bool {
    forall|i: int, j: int| 0 <= i < j < s.len() ==> s[i].id != s[j].id
}

/// Some comment carries the identifier.
pub open spec fn has_comment(s: Seq<CommentView>, id: u64) -> bool {
    exists|i: int| 0 <= i < s.len() && s[i].id == id
}

/// The position of the comment with the identifier.
pub open spec fn comment_idx(s: Seq<CommentView>, id: u64) -> int {
    choose|i: int| 0 <= i < s.len() && s[i].id == id
}

/// The comment with the identifier.
pub open spec fn comment_at(s: Seq<CommentView>, id: u64) -> CommentView {
    s[comment_idx(s, id)]
}

/// A referee who has submitted a review for a version is never still in
/// that version's remainder pool.
pub open spec fn pools_exclude_submitted(s: StoreView) -> bool {
    forall|i: int, j: int|
        #![trigger s.versions[i], s.reviews[j]]
        0 <= i < s.versions.len() && 0 <= j < s.reviews.len() && s.reviews[j].version_id
            == s.versions[i].id && s.reviews[j].reviewer_id is Some
            ==> !s.versions[i].review_state.remainder_reviewer_ids.contains(
            s.reviews[j].reviewer_id->0,
        )
}

/// A version still in the `Uploaded` state has no reviews.
pub open spec fn uploaded_unreviewed(s: StoreView) -> bool {
    forall|i: int, j: int|
        #![trigger s.versions[i], s.reviews[j]]
        0 <= i < s.versions.len() && 0 <= j < s.reviews.len() && s.versions[i].state
            is Uploaded ==> s.reviews[j].version_id != s.versions[i].id
}

/// Well-formedness of the store: identifier uniqueness and freshness, the
/// one-version-per-slot index, acyclicity of the comment forest (a reply's
/// target always carries a smaller identifier), duplicate-free referee
/// pools, and the review-round bookkeeping invariants.
pub open spec fn store_wf(s: StoreView) -> bool {
    &&& thesis_ids_unique(s.theses)
    &&& forall|i: int| 0 <= i < s.theses.len() ==> (#[trigger] s.theses[i]).id < s.next_id
    &&& version_ids_unique(s.versions)
    &&& version_slots_unique(s.versions)
    &&& forall|i: int|
        0 <= i < s.versions.len() ==> {
            let v = #[trigger] s.versions[i];
            v.id < s.next_id && v.major_num >= 0 && v.minor_num >= 0
                && v.review_state.remainder_reviewer_ids.no_duplicates()
        }
    &&& review_ids_unique(s.reviews)
    &&& forall|i: int|
        0 <= i < s.reviews.len() ==> {
            let r = #[trigger] s.reviews[i];
            r.id < s.next_id && r.version_id < s.next_id
        }
    &&& comment_ids_unique(s.comments)
    &&& forall|i: int|
        0 <= i < s.comments.len() ==> {
            let c = #[trigger] s.comments[i];
            c.id < s.next_id && (c.target_type is Comment ==> c.target_id < c.id)
        }
    &&& pools_exclude_submitted(s)
    &&& uploaded_unreviewed(s)
}

/// The document store: the four entity collections and the identifier
/// counter from which every new entity identity is drawn.
#[derive(Debug)]
pub struct Store {
    pub theses: Vec<Thesis>,
    pub versions: Vec<Version>,
    pub reviews: Vec<Review>,
    pub comments: Vec<Comment>,
    pub next_id: u64,
}

impl View for Store {
    type V = StoreView;

    open spec fn view(&self) -> StoreView {
        StoreView {
            theses: self.theses@.map_values(|t: Thesis| t@),
            versions: self.versions@.map_values(|v: Version| v@),
            reviews: self.reviews@.map_values(|r: Review| r@),
            comments: self.comments@.map_values(|c: Comment| c@),
            next_id: self.next_id,
        }
    }
}

impl Store {
    /// Well-formedness of this store; established by [`Store::new`] and
    /// preserved by every operation.
    pub open spec fn wf(self) -> bool {
        store_wf(self@)
    }

    /// An empty store.
    pub fn new() -> (s: Store)
        ensures
            s.wf(),
            s@.next_id == 0,
            s@.theses == Seq::<ThesisView>::empty(),
            s@.versions == Seq::<VersionView>::empty(),
            s@.reviews == Seq::<ReviewView>::empty(),
            s@.comments == Seq::<CommentView>::empty(),
    {
        let s = Store {
            theses: Vec::new(),
            versions: Vec::new(),
            reviews: Vec::new(),
            comments: Vec::new(),
            next_id: 0,
        };
        proof {
            assert(s@.theses =~= Seq::<ThesisView>::empty());
            assert(s@.versions =~= Seq::<VersionView>::empty());
            assert(s@.reviews =~= Seq::<ReviewView>::empty());
            assert(s@.comments =~= Seq::<CommentView>::empty());
        }
        s
    }

    /// Draws a fresh identifier, never equal to the identifier of any entity
    /// already in the store. Fails with `Internal` only when the identifier
    /// space is exhausted.
    pub(crate) fn fresh_id(&mut self) -> (r: Result<u64, AppError>)
        requires
            old(self).wf(),
        ensures
            final(self).wf(),
            r is Ok <==> old(self)@.next_id < u64::MAX,
            r is Ok ==> {
                &&& r->Ok_0 == old(self)@.next_id
                &&& final(self)@.next_id == old(self)@.next_id + 1
                &&& final(self)@.theses == old(self)@.theses
                &&& final(self)@.versions == old(self)@.versions
                &&& final(self)@.reviews == old(self)@.reviews
                &&& final(self)@.comments == old(self)@.comments
            },
            r is Err ==> *final(self) == *old(self) && r->Err_0 is Internal,
    {
        if self.next_id == u64::MAX {
            return Err(AppError::Internal("The identifier space is exhausted!".to_string()));
        }
        let id = self.next_id;
        self.next_id = self.next_id + 1;
        Ok(id)
    }

    /// The position of the thesis with the given identifier, if any.
    pub(crate) fn find_thesis(&self, id: u64) -> (r: Option<usize>)
        ensures
            match r {
                Some(i) => i < self@.theses.len() && self@.theses[i as int].id == id,
                None => !has_thesis(self@.theses, id),
            },
            r is Some ==> has_thesis(self@.theses, id),
    {
        let mut i: usize = 0;
        while i < self.theses.len()
            invariant
                i <= self@.theses.len(),
                forall|j: int| 0 <= j < i ==> self@.theses[j].id != id,
            decreases self@.theses.len() - i,
        {
            if self.theses[i].id == id {
                return Some(i);
            }
            i = i + 1;
        }
        None
    }

    /// The position of the version with the given identifier, if any.
    pub(crate) fn find_version(&self, id: u64) -> (r: Option<usize>)
        ensures
            match r {
                Some(i) => i < self@.versions.len() && self@.versions[i as int].id == id,
                None => !has_version(self@.versions, id),
            },
            r is Some ==> has_version(self@.versions, id),
    {
        let mut i: usize = 0;
        while i < self.versions.len()
            invariant
                i <= self@.versions.len(),
                forall|j: int| 0 <= j < i ==> self@.versions[j].id != id,
            decreases self@.versions.len() - i,
        {
            if self.versions[i].id == id {
                return Some(i);
            }
            i = i + 1;
        }
        None
    }

    /// The position of the review with the given identifier, if any.
    pub(crate) fn find_review(&self, id: u64) -> (r: Option<usize>)
        ensures
            match r {
                Some(i) => i < self@.reviews.len() && self@.reviews[i as int].id == id,
                None => !has_review(self@.reviews, id),
            },
            r is Some ==> has_review(self@.reviews, id),
    {
        let mut i: usize = 0;
        while i < self.reviews.len()
            invariant
                i <= self@.reviews.len(),
                forall|j: int| 0 <= j < i ==> self@.reviews[j].id != id,
            decreases self@.reviews.len() - i,
        {
            if self.reviews[i].id == id {
                return Some(i);
            }
            i = i + 1;
        }
        None
    }

    /// The position of the comment with the given identifier, if any.
    pub(crate) fn find_comment(&self, id: u64) -> (r: Option<usize>)
        ensures
            match r {
                Some(i) => i < self@.comments.len() && self@.comments[i as int].id == id,
                None => !has_comment(self@.comments, id),
            },
            r is Some ==> has_comment(self@.comments, id),
    {
        let mut i: usize = 0;
        while i < self.comments.len()
            invariant
                i <= self@.comments.len(),
                forall|j: int| 0 <= j < i ==> self@.comments[j].id != id,
            decreases self@.comments.len() - i,
        {
            if self.comments[i].id == id {
                return Some(i);
            }
            i = i + 1;
        }
        None
    }
}

impl Store {
    /// The newest version of the thesis, by greatest `(major, minor)` slot.
    pub fn last_version_of(&self, thesis_id: u64) -> (r: Option<Version>)
        requires
            self.wf(),
        ensures
            match r {
                Some(v) => Some(v@) == spec_last_version(self@.versions, thesis_id),
                None => None::<VersionView> == spec_last_version(self@.versions, thesis_id),
            },
    {
        let ghost s = self@.versions;
        let mut best: Option<usize> = None;
        let mut i: usize = 0;
        while i < self.versions.len()
            invariant
                self.wf(),
                s == self@.versions,
                i <= s.len(),
                match best {
                    Some(b) => b < i && s[b as int].thesis_id == thesis_id && (forall|j: int|
                        0 <= j < i && s[j].thesis_id == thesis_id ==> slot_le(
                            #[trigger] s[j],
                            s[b as int],
                        )),
                    None => forall|j: int| 0 <= j < i ==> s[j].thesis_id != thesis_id,
                },
            decreases s.len() - i,
        {
            if self.versions[i].thesis_id == thesis_id {
                match best {
                    Some(b) => {
                        let vb = &self.versions[b];
                        let vi = &self.versions[i];
                        if vb.major_num < vi.major_num || (vb.major_num == vi.major_num
                            && vb.minor_num <= vi.minor_num) {
                            best = Some(i);
                        }
                    },
                    None => {
                        best = Some(i);
                    },
                }
            }
            i = i + 1;
        }
        match best {
            Some(b) => {
                proof {
                    lemma_last_version_witness(s, thesis_id, b as int);
                }
                let vb = &self.versions[b];
                Some(vb.clone())
            },
            None => {
                proof {
                    assert(!(exists|k: int| 0 <= k < s.len() && s[k].thesis_id == thesis_id));
                }
                None
            },
        }
    }
}

impl Store {
    /// Creates a thesis owned by the actor, carrying the supplied metadata,
    /// not yet passed, stamped with the supplied creation time. Returns the
    /// fresh thesis identifier; fails only when the identifier space is
    /// exhausted.
    pub fn create_thesis(&mut self, actor: &Actor, meta: ThesisMeta, now: i64) -> (r: Result<
        u64,
        AppError,
    >)
        requires
            old(self).wf(),
        ensures
            final(self).wf(),
            r is Ok <==> old(self)@.next_id < u64::MAX,
            r is Ok ==> {
                &&& r->Ok_0 == old(self)@.next_id
                &&& final(self)@.next_id == old(self)@.next_id + 1
                &&& !has_thesis(old(self)@.theses, r->Ok_0)
                &&& final(self)@.theses == old(self)@.theses.push(
                    ThesisView {
                        id: r->Ok_0,
                        owner_id: actor.id,
                        is_passed: false,
                        created_at: now,
                        meta: meta@,
                    },
                )
                &&& final(self)@.versions == old(self)@.versions
                &&& final(self)@.reviews == old(self)@.reviews
                &&& final(self)@.comments == old(self)@.comments
            },
            r is Err ==> r->Err_0 is Internal && *final(self) == *old(self),
    {
        let id = match self.fresh_id() {
            Ok(id) => id,
            Err(e) => {
                return Err(e);
            },
        };
        let t = Thesis { id, owner_id: actor.id, is_passed: false, created_at: now, meta };
        self.theses.push(t);
        proof {
            assert(final(self)@.theses =~= old(self)@.theses.push(
                ThesisView {
                    id,
                    owner_id: actor.id,
                    is_passed: false,
                    created_at: now,
                    meta: meta@,
                },
            ));
            assert(final(self)@.versions =~= old(self)@.versions);
            assert(final(self)@.reviews =~= old(self)@.reviews);
            assert(final(self)@.comments =~= old(self)@.comments);
        }
        Ok(id)
    }

    /// Replaces the thesis's metadata, preserving its identity block
    /// (identifier, owner, passed flag, creation time). Editors, the owner
    /// and the authors may do so; anyone else is refused. Returns the
    /// updated thesis.
    pub fn update_thesis(&mut self, actor: &Actor, thesis_id: u64, meta: ThesisMeta) -> (r: Result<
        Thesis,
        AppError,
    >)
        requires
            old(self).wf(),
        ensures
            final(self).wf(),
            final(self)@.versions == old(self)@.versions,
            final(self)@.reviews == old(self)@.reviews,
            final(self)@.comments == old(self)@.comments,
            final(self)@.next_id == old(self)@.next_id,
            ({
                let ts = old(self)@.theses;
                &&& (r is Ok <==> has_thesis(ts, thesis_id) && spec_may_edit_thesis(
                    *actor,
                    thesis_at(ts, thesis_id),
                ))
                &&& r is Ok ==> {
                    let t1 = ThesisView { meta: meta@, ..thesis_at(ts, thesis_id) };
                    &&& r->Ok_0@ == t1
                    &&& final(self)@.theses == ts.update(thesis_idx(ts, thesis_id), t1)
                }
                &&& r is Err ==> final(self)@.theses == ts
                &&& (r matches Err(e) ==> (e is NotFound <==> !has_thesis(ts, thesis_id)))
                &&& (r matches Err(e) ==> (e is Forbidden <==> has_thesis(ts, thesis_id)))
            }),
    {
        let ti = match self.find_thesis(thesis_id) {
            Some(i) => i,
            None => {
                return Err(AppError::NotFound("Thesis with the given id does not exist!".to_string()));
            },
        };
        proof {
            lemma_thesis_at(self@.theses, thesis_id, ti as int);
        }
        let allowed = {
            let t = &self.theses[ti];
            actor.is_editor || t.owner_id == actor.id || crate::visibility::contains_id(
                &t.meta.author_ids,
                actor.id,
            )
        };
        if !allowed {
            return Err(
                AppError::Forbidden("You are neither an editor nor a party of this thesis!".to_string()),
            );
        }
        let updated = {
            let t = &self.theses[ti];
            Thesis {
                id: t.id,
                owner_id: t.owner_id,
                is_passed: t.is_passed,
                created_at: t.created_at,
                meta,
            }
        };
        let out = updated.clone();
        self.theses.set(ti, updated);
        proof {
            let ts = old(self)@.theses;
            assert(final(self)@.theses =~= ts.update(
                thesis_idx(ts, thesis_id),
                ThesisView { meta: meta@, ..thesis_at(ts, thesis_id) },
            ));
        }
        Ok(out)
    }
}

/// A position holding a maximal slot among the thesis's versions is the one
/// [`spec_last_version`] denotes, provided no two versions of the thesis
/// share a slot.
pub proof fn lemma_last_version_witness(s: Seq<VersionView>, thesis_id: u64, k: int)
    requires
        version_slots_unique(s),
        0 <= k < s.len(),
        s[k].thesis_id == thesis_id,
        forall|j: int| 0 <= j < s.len() && s[j].thesis_id == thesis_id ==> slot_le(#[trigger] s[j], s[k]),
    ensures
        spec_last_version(s, thesis_id) == Some(s[k]),
{
    assert(exists|i: int| 0 <= i < s.len() && s[i].thesis_id == thesis_id);
    let i = choose|i: int|
        0 <= i < s.len() && s[i].thesis_id == thesis_id && (forall|j: int|
            0 <= j < s.len() && s[j].thesis_id == thesis_id ==> slot_le(#[trigger] s[j], s[i]));
    assert(0 <= i < s.len() && s[i].thesis_id == thesis_id && (forall|j: int|
        0 <= j < s.len() && s[j].thesis_id == thesis_id ==> slot_le(#[trigger] s[j], s[i])));
    assert(slot_le(s[i], s[k]));
    assert(slot_le(s[k], s[i]));
    if i != k {
        assert(s[i].major_num == s[k].major_num && s[i].minor_num == s[k].minor_num);
        assert(false);
    }
}

/// The reviews belonging to the version.
pub open spec fn review_of_pred(version_id: u64) -> spec_fn(ReviewView) -> bool {
    |r: ReviewView| r.version_id == version_id
}

/// The theses that have passed review.
pub open spec fn passed_pred() -> spec_fn(ThesisView) -> bool {
    |t: ThesisView| t.is_passed
}

impl Store {
    /// The versions of the thesis, in store order.
    pub fn versions_of(&self, thesis_id: u64) -> (r: Vec<Version>)
        requires
            self.wf(),
        ensures
            r@.map_values(|v: Version| v@) == self@.versions.filter(
                crate::withdraw::version_of_pred(thesis_id),
            ),
    {
        let ghost s = self@.versions;
        let ghost p = crate::withdraw::version_of_pred(thesis_id);
        let mut r: Vec<Version> = Vec::new();
        let mut i: usize = 0;
        proof {
            assert(r@.map_values(|v: Version| v@) =~= s.subrange(0, 0).filter(p));
        }
        while i < self.versions.len()
            invariant
                i <= s.len(),
                self@.versions == s,
                r@.map_values(|v: Version| v@) == s.subrange(0, i as int).filter(p),
            decreases s.len() - i,
        {
            proof {
                assert(s.subrange(0, i + 1 as int) =~= s.subrange(0, i as int).push(s[i as int]));
                crate::seq_lemmas::lemma_filter_push(s.subrange(0, i as int), p, s[i as int]);
                assert(p(s[i as int]) == (s[i as int].thesis_id == thesis_id));
            }
            if self.versions[i].thesis_id == thesis_id {
                let v = &self.versions[i];
                r.push(v.clone());
                proof {
                    assert(r@.map_values(|v2: Version| v2@) =~= s.subrange(0, i + 1 as int).filter(
                        p,
                    ));
                }
            }
            i = i + 1;
        }
        proof {
            assert(s.subrange(0, s.len() as int) =~= s);
        }
        r
    }

    /// The reviews of the version, in store order.
    pub fn reviews_of(&self, version_id: u64) -> (r: Vec<Review>)
        requires
            self.wf(),
        ensures
            r@.map_values(|rv: Review| rv@) == self@.reviews.filter(review_of_pred(version_id)),
    {
        let ghost s = self@.reviews;
        let ghost p = review_of_pred(version_id);
        let mut r: Vec<Review> = Vec::new();
        let mut i: usize = 0;
        proof {
            assert(r@.map_values(|rv: Review| rv@) =~= s.subrange(0, 0).filter(p));
        }
        while i < self.reviews.len()
            invariant
                i <= s.len(),
                self@.reviews == s,
                r@.map_values(|rv: Review| rv@) == s.subrange(0, i as int).filter(p),
            decreases s.len() - i,
        {
            proof {
                assert(s.subrange(0, i + 1 as int) =~= s.subrange(0, i as int).push(s[i as int]));
                crate::seq_lemmas::lemma_filter_push(s.subrange(0, i as int), p, s[i as int]);
                assert(p(s[i as int]) == (s[i as int].version_id == version_id));
            }
            if self.reviews[i].version_id == version_id {
                let rv = &self.reviews[i];
                r.push(rv.clone());
                proof {
                    assert(r@.map_values(|r2: Review| r2@) =~= s.subrange(0, i + 1 as int).filter(
                        p,
                    ));
                }
            }
            i = i + 1;
        }
        proof {
            assert(s.subrange(0, s.len() as int) =~= s);
        }
        r
    }

    /// A page of the passed theses: of those marked passed, in store order,
    /// the window starting `offset` entries in and holding at most `limit`
    /// entries.
    pub fn passed_theses(&self, offset: usize, limit: usize) -> (r: Vec<Thesis>)
        requires
            self.wf(),
        ensures
            ({
                let f = self@.theses.filter(passed_pred());
                let lo = if offset as int <= f.len() as int {
                    offset as int
                } else {
                    f.len() as int
                };
                let hi = if offset + limit <= f.len() as int {
                    offset + limit
                } else {
                    f.len() as int
                };
                r@.map_values(|t: Thesis| t@) == f.subrange(lo, hi)
            }),
    {
        let ghost s = self@.theses;
        let ghost p = passed_pred();
        let mut r: Vec<Thesis> = Vec::new();
        let mut cnt: usize = 0;
        let mut i: usize = 0;
        proof {
            assert(s.subrange(0, 0).filter(p) =~= Seq::<ThesisView>::empty());
            assert(r@.map_values(|t: Thesis| t@) =~= Seq::<ThesisView>::empty());
        }
        while i < self.theses.len()
            invariant
                i <= s.len(),
                self@.theses == s,
                ({
                    let fpre = s.subrange(0, i as int).filter(p);
                    let lo = if offset as int <= fpre.len() as int {
                        offset as int
                    } else {
                        fpre.len() as int
                    };
                    let hi = if offset + limit <= fpre.len() as int {
                        offset + limit
                    } else {
                        fpre.len() as int
                    };
                    cnt == fpre.len() && r@.map_values(|t: Thesis| t@) == fpre.subrange(lo, hi)
                }),
            decreases s.len() - i,
        {
            let ghost fpre = s.subrange(0, i as int).filter(p);
            proof {
                assert(s.subrange(0, i + 1 as int) =~= s.subrange(0, i as int).push(s[i as int]));
                crate::seq_lemmas::lemma_filter_push(s.subrange(0, i as int), p, s[i as int]);
                assert(p(s[i as int]) == s[i as int].is_passed);
            }
            if self.theses[i].is_passed {
                if cnt >= offset && cnt - offset < limit {
                    proof {
                        assert(offset as int <= fpre.len() && fpre.len() < offset + limit);
                        assert(r@.map_values(|t2: Thesis| t2@) == fpre.subrange(
                            offset as int,
                            cnt as int,
                        ));
                    }
                    let ghost rv0 = r@.map_values(|t2: Thesis| t2@);
                    let t = &self.theses[i];
                    r.push(t.clone());
                    proof {
                        let f1 = s.subrange(0, i + 1 as int).filter(p);
                        assert(f1 == fpre.push(s[i as int]));
                        assert(r@.map_values(|t2: Thesis| t2@) =~= rv0.push(s[i as int]));
                        assert(r@.map_values(|t2: Thesis| t2@) =~= f1.subrange(
                            offset as int,
                            cnt + 1 as int,
                        ));
                    }
                } else {
                    proof {
                        let f1 = s.subrange(0, i + 1 as int).filter(p);
                        let lo1 = if offset as int <= f1.len() as int {
                            offset as int
                        } else {
                            f1.len() as int
                        };
                        let hi1 = if offset + limit <= f1.len() as int {
                            offset + limit
                        } else {
                            f1.len() as int
                        };
                        assert(r@.map_values(|t2: Thesis| t2@) =~= f1.subrange(lo1, hi1));
                    }
                }
                cnt = cnt + 1;
            }
            i = i + 1;
        }
        proof {
            assert(s.subrange(0, s.len() as int) =~= s);
        }
        r
    }
}

/// Under identifier uniqueness, any position holding the identifier is the
/// position [`thesis_idx`] denotes.
pub proof fn lemma_thesis_at(s: Seq<ThesisView>, id: u64, k: int)
    requires
        thesis_ids_unique(s),
        0 <= k < s.len(),
        s[k].id == id,
    ensures
        has_thesis(s, id),
        thesis_idx(s, id) == k,
        thesis_at(s, id) == s[k],
{
    assert(has_thesis(s, id));
    let i = thesis_idx(s, id);
    assert(0 <= i < s.len() && s[i].id == id);
    if i != k {
        assert(s[i].id != s[k].id);
    }
}

/// Under identifier uniqueness, any position holding the identifier is the
/// position [`version_idx`] denotes.
pub proof fn lemma_version_at(s: Seq<VersionView>, id: u64, k: int)
    requires
        version_ids_unique(s),
        0 <= k < s.len(),
        s[k].id == id,
    ensures
        has_version(s, id),
        version_idx(s, id) == k,
        version_at(s, id) == s[k],
{
    assert(has_version(s, id));
    let i = version_idx(s, id);
    assert(0 <= i < s.len() && s[i].id == id);
    if i != k {
        assert(s[i].id != s[k].id);
    }
}

/// Under identifier uniqueness, any position holding the identifier is the
/// position [`review_idx`] denotes.
pub proof fn lemma_review_at(s: Seq<ReviewView>, id: u64, k: int)
    requires
        review_ids_unique(s),
        0 <= k < s.len(),
        s[k].id == id,
    ensures
        has_review(s, id),
        review_idx(s, id) == k,
        review_at(s, id) == s[k],
{
    assert(has_review(s, id));
    let i = review_idx(s, id);
    assert(0 <= i < s.len() && s[i].id == id);
    if i != k {
        assert(s[i].id != s[k].id);
    }
}

/// Under identifier uniqueness, any position holding the identifier is the
/// position [`comment_idx`] denotes.
pub proof fn lemma_comment_at(s: Seq<CommentView>, id: u64, k: int)
    requires
        comment_ids_unique(s),
        0 <= k < s.len(),
        s[k].id == id,
    ensures
        has_comment(s, id),
        comment_idx(s, id) == k,
        comment_at(s, id) == s[k],
{
    assert(has_comment(s, id));
    let i = comment_idx(s, id);
    assert(0 <= i < s.len() && s[i].id == id);
    if i != k {
        assert(s[i].id != s[k].id);
    }
}

} // verus!
