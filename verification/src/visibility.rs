//! Visibility policy: whether an actor may observe a thesis, version or
//! review, based on the entity's state and the actor's relation to it.

use vstd::prelude::*;

use crate::auth::Actor;
use crate::entities::{
    AppError, Review, ReviewView, Thesis, ThesisView, Version, VersionState, VersionView,
};
use crate::store::{
    has_review, has_thesis, has_version, lemma_thesis_at, lemma_version_at, review_at, thesis_at,
    version_at, Store,
};

verus! {

/// The actor owns or authors the thesis.
pub open spec fn spec_is_party(actor: Actor, t: ThesisView) -> bool {
    t.owner_id == actor.id || t.meta.author_ids.contains(actor.id)
}

/// The actor may change the thesis: editors, its owner and its authors.
pub open spec fn spec_may_edit_thesis(actor: Actor, t: ThesisView) -> bool {
    actor.is_editor || spec_is_party(actor, t)
}

/// The version has been decided in public: superseded, or accepted.
pub open spec fn spec_version_public(v: VersionView) -> bool {
    v.state is History || v.state matches VersionState::Passed(true)
}

/// Whether the actor may observe the version: editors, the uploader, and
/// the owning thesis's parties always may; otherwise superseded and
/// accepted versions are public, a version under review is visible to its
/// remainder referees, and everything else is private.
pub open spec fn spec_can_view_version(actor: Actor, v: VersionView, t: ThesisView) -> bool {
    ||| actor.is_editor
    ||| v.uploader_id == Some(actor.id)
    ||| spec_is_party(actor, t)
    ||| match v.state {
        VersionState::History => true,
        VersionState::Passed(accepted) => accepted,
        VersionState::Reviewing => v.review_state.remainder_reviewer_ids.contains(actor.id),
        VersionState::Uploaded => false,
    }
}

/// Whether the actor may observe the thesis: editors and parties always
/// may; otherwise the thesis is public once its newest version carries a
/// positive major number, and a thesis whose newest version is under review
/// is visible to that version's remainder referees.
pub open spec fn spec_can_view_thesis(
    actor: Actor,
    t: ThesisView,
    last: Option<VersionView>,
) -> bool {
    ||| actor.is_editor
    ||| spec_is_party(actor, t)
    ||| match last {
        Some(v) => v.major_num > 0 || (v.state is Reviewing
            && v.review_state.remainder_reviewer_ids.contains(actor.id)),
        None => false,
    }
}

/// Whether the actor may observe the review: editors and the submitting
/// referee always may; beyond them, exactly the reviews of publicly
/// decided versions (superseded or accepted) are readable.
pub open spec fn spec_can_view_review(actor: Actor, r: ReviewView, v: VersionView) -> bool {
    ||| actor.is_editor
    ||| r.reviewer_id == Some(actor.id)
    ||| spec_version_public(v)
}

/// Whether the list contains the identifier.
pub(crate) fn contains_id(v: &Vec<u64>, x: u64) -> (r: bool)
    ensures
        r == v@.contains(x),
{
    let mut i: usize = 0;
    while i < v.len()
        invariant
            i <= v@.len(),
            forall|j: int| 0 <= j < i ==> v@[j] != x,
        decreases v@.len() - i,
    {
        if v[i] == x {
            return true;
        }
        i = i + 1;
    }
    false
}

/// Whether the actor may observe the version of the thesis.
pub fn can_view_version(actor: &Actor, v: &Version, t: &Thesis) -> (r: bool)
    ensures
        r == spec_can_view_version(*actor, v@, t@),
{
    if actor.is_editor {
        return true;
    }
    match v.uploader_id {
        Some(u) => {
            if u == actor.id {
                return true;
            }
        },
        None => {},
    }
    if t.owner_id == actor.id || contains_id(&t.meta.author_ids, actor.id) {
        return true;
    }
    match v.state {
        VersionState::History => true,
        VersionState::Passed(accepted) => accepted,
        VersionState::Reviewing => contains_id(
            &v.review_state.remainder_reviewer_ids,
            actor.id,
        ),
        VersionState::Uploaded => false,
    }
}

/// Whether the actor may observe the thesis, given the thesis's newest
/// version.
pub fn can_view_thesis(actor: &Actor, t: &Thesis, last: Option<&Version>) -> (r: bool)
    ensures
        r == spec_can_view_thesis(
            *actor,
            t@,
            match last {
                Some(v) => Some(v@),
                None => None,
            },
        ),
{
    if actor.is_editor {
        return true;
    }
    if t.owner_id == actor.id || contains_id(&t.meta.author_ids, actor.id) {
        return true;
    }
    match last {
        Some(v) => {
            if v.major_num > 0 {
                return true;
            }
            match v.state {
                VersionState::Reviewing => contains_id(
                    &v.review_state.remainder_reviewer_ids,
                    actor.id,
                ),
                _ => false,
            }
        },
        None => false,
    }
}

/// Whether the actor may observe the review of the version.
pub fn can_view_review(actor: &Actor, r: &Review, v: &Version) -> (res: bool)
    ensures
        res == spec_can_view_review(*actor, r@, v@),
{
    if actor.is_editor {
        return true;
    }
    match r.reviewer_id {
        Some(u) => {
            if u == actor.id {
                return true;
            }
        },
        None => {},
    }
    match v.state {
        VersionState::History => true,
        VersionState::Passed(accepted) => accepted,
        _ => false,
    }
}

impl Store {
    /// Loads a version for the actor: the version if it exists, its parent
    /// thesis exists, and the visibility policy admits the actor; `NotFound`
    /// when version or parent thesis is missing; `Forbidden` otherwise.
    pub fn get_version(&self, actor: &Actor, version_id: u64) -> (r: Result<Version, AppError>)
        requires
            self.wf(),
        ensures
            ({
                let vs = self@.versions;
                let ts = self@.theses;
                &&& (r is Ok <==> has_version(vs, version_id) && has_thesis(
                    ts,
                    version_at(vs, version_id).thesis_id,
                ) && spec_can_view_version(
                    *actor,
                    version_at(vs, version_id),
                    thesis_at(ts, version_at(vs, version_id).thesis_id),
                ))
                &&& r is Ok ==> r->Ok_0@ == version_at(vs, version_id)
                &&& (r matches Err(e) ==> (e is NotFound <==> !has_version(vs, version_id)
                    || !has_thesis(ts, version_at(vs, version_id).thesis_id)))
                &&& (r matches Err(e) ==> (e is Forbidden <==> has_version(vs, version_id)
                    && has_thesis(ts, version_at(vs, version_id).thesis_id)))
            }),
    {
        let vi = match self.find_version(version_id) {
            Some(i) => i,
            None => {
                return Err(AppError::NotFound("Version with the given id does not exist!".to_string()));
            },
        };
        proof {
            lemma_version_at(self@.versions, version_id, vi as int);
        }
        let v = &self.versions[vi];
        let ti = match self.find_thesis(v.thesis_id) {
            Some(i) => i,
            None => {
                return Err(AppError::NotFound("Thesis with the given id does not exist!".to_string()));
            },
        };
        proof {
            lemma_thesis_at(self@.theses, v@.thesis_id, ti as int);
        }
        let t = &self.theses[ti];
        if can_view_version(actor, v, t) {
            Ok(v.clone())
        } else {
            Err(AppError::Forbidden("This version is not visible to you!".to_string()))
        }
    }

    /// Loads a review for the actor. Editors and the review's own referee
    /// read it directly. Anyone else reads it exactly when its version has
    /// been publicly decided (superseded or accepted); an undecided or
    /// rejected version keeps its reviews `Forbidden`. `NotFound` when the
    /// review is missing, or — for an unprivileged actor — when its version
    /// is missing.
    pub fn get_review(&self, actor: &Actor, review_id: u64) -> (r: Result<Review, AppError>)
        requires
            self.wf(),
        ensures
            ({
                let rs = self@.reviews;
                let vs = self@.versions;
                let rv = review_at(rs, review_id);
                let privileged = actor.is_editor || rv.reviewer_id == Some(actor.id);
                &&& (r is Ok <==> has_review(rs, review_id) && (privileged || (has_version(
                    vs,
                    rv.version_id,
                ) && spec_version_public(version_at(vs, rv.version_id)))))
                &&& r is Ok ==> r->Ok_0@ == rv
                &&& (has_review(rs, review_id) && has_version(vs, rv.version_id) ==> (r is Ok
                    <==> spec_can_view_review(*actor, rv, version_at(vs, rv.version_id))))
                &&& (r matches Err(e) ==> (e is NotFound <==> !has_review(rs, review_id) || (
                !privileged && !has_version(vs, rv.version_id))))
                &&& (r matches Err(e) ==> (e is Forbidden <==> has_review(rs, review_id)
                    && !privileged && has_version(vs, rv.version_id) && !spec_version_public(
                    version_at(vs, rv.version_id),
                )))
            }),
    {
        let ri = match self.find_review(review_id) {
            Some(i) => i,
            None => {
                return Err(AppError::NotFound("Review with the given id does not exist!".to_string()));
            },
        };
        proof {
            crate::store::lemma_review_at(self@.reviews, review_id, ri as int);
        }
        let rv = &self.reviews[ri];
        let own = match rv.reviewer_id {
            Some(u) => u == actor.id,
            None => false,
        };
        if actor.is_editor || own {
            return Ok(rv.clone());
        }
        let vi = match self.find_version(rv.version_id) {
            Some(i) => i,
            None => {
                return Err(AppError::NotFound("Version with the given id does not exist!".to_string()));
            },
        };
        proof {
            lemma_version_at(self@.versions, rv@.version_id, vi as int);
        }
        let v = &self.versions[vi];
        if can_view_review(actor, rv, v) {
            Ok(rv.clone())
        } else {
            Err(AppError::Forbidden("This review is not public!".to_string()))
        }
    }

    /// Loads a thesis for the actor: `NotFound` when it is missing,
    /// `Forbidden` when the visibility policy refuses the actor, the thesis
    /// otherwise.
    pub fn get_thesis(&self, actor: &Actor, thesis_id: u64) -> (r: Result<Thesis, AppError>)
        requires
            self.wf(),
        ensures
            ({
                let ts = self@.theses;
                let t = thesis_at(ts, thesis_id);
                &&& (r is Ok <==> has_thesis(ts, thesis_id) && spec_can_view_thesis(
                    *actor,
                    t,
                    spec_last_version(self@.versions, thesis_id),
                ))
                &&& r is Ok ==> r->Ok_0@ == t
                &&& (r matches Err(e) ==> (e is NotFound <==> !has_thesis(ts, thesis_id)))
                &&& (r matches Err(e) ==> (e is Forbidden <==> has_thesis(ts, thesis_id)))
            }),
    {
        let ti = match self.find_thesis(thesis_id) {
            Some(i) => i,
            None => {
                return Err(AppError::NotFound("Thesis with the given id does not exist!".to_string()));
            },
        };
        proof {
            lemma_thesis_at(self@.theses, thesis_id, ti as int);
        }
        let last = self.last_version_of(thesis_id);
        let t = &self.theses[ti];
        let visible = can_view_thesis(actor, t, last.as_ref());
        if visible {
            Ok(t.clone())
        } else {
            Err(AppError::Forbidden("This thesis is not public!".to_string()))
        }
    }
}

/// The newest version of the thesis: the one occupying the greatest
/// `(major, minor)` slot, or `None` when the thesis has no versions.
pub open spec fn spec_last_version(s: Seq<VersionView>, thesis_id: u64) -> Option<VersionView> {
    if exists|i: int| 0 <= i < s.len() && s[i].thesis_id == thesis_id {
        Some(
            s[choose|i: int|
                0 <= i < s.len() && s[i].thesis_id == thesis_id && (forall|j: int|
                    0 <= j < s.len() && s[j].thesis_id == thesis_id ==> slot_le(
                        #[trigger] s[j],
                        s[i],
                    ))],
        )
    } else {
        None
    }
}

/// Lexicographic order on `(major, minor)` slots.
pub open spec fn slot_le(a: VersionView, b: VersionView) -> bool {
    a.major_num < b.major_num || (a.major_num == b.major_num && a.minor_num <= b.minor_num)
}

} // verus!
