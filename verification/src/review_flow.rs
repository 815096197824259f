//! The version state machine and the review aggregator: committing a
//! version, opening review, collecting judgements, and deciding the
//! outcome.

use vstd::prelude::*;

use crate::auth::Actor;
use crate::entities::{
    AppError, Review, ReviewPattern, ReviewState, ReviewStateView, ReviewView, ThesisView, Version,
    VersionState, VersionView,
};
use crate::seq_lemmas::{lemma_filter_membership, lemma_filter_no_dup, lemma_filter_push};
use crate::store::{
    has_thesis, has_version, lemma_thesis_at, lemma_version_at, slot_taken, thesis_at, thesis_idx,
    version_at, version_idx, version_ids_unique, version_slots_unique, Store,
};
use crate::visibility::contains_id;

verus! {

/// Every review of the version judges it positively.
pub open spec fn all_judgements_true(rs: Seq<ReviewView>, version_id: u64) -> bool {
    forall|i: int|
        0 <= i < rs.len() && (#[trigger] rs[i]).version_id == version_id ==> rs[i].judgement
}

/// The predicate admitting every identifier but the given one.
pub open spec fn ne_pred(x: u64) -> spec_fn(u64) -> bool {
    |y: u64| y != x
}

/// The pool with one referee withdrawn.
pub open spec fn pool_without(p: Seq<u64>, x: u64) -> Seq<u64> {
    p.filter(ne_pred(x))
}

/// The version as the pass operation rewrites it: accepted, major number
/// advanced, minor number reset.
pub open spec fn spec_pass_one(v: VersionView) -> VersionView {
    VersionView {
        state: VersionState::Passed(true),
        major_num: (v.major_num + 1) as i32,
        minor_num: 0,
        ..v
    }
}

/// Whether another version of the same thesis already occupies the slot the
/// pass operation would move this version to.
pub open spec fn pass_slot_taken(vs: Seq<VersionView>, version_id: u64) -> bool {
    let v = version_at(vs, version_id);
    exists|i: int|
        0 <= i < vs.len() && (#[trigger] vs[i]).id != version_id && vs[i].thesis_id == v.thesis_id
            && vs[i].major_num == v.major_num + 1 && vs[i].minor_num == 0
}

/// The pass operation succeeds: the version exists, its major number can
/// still grow, and the target slot is free.
pub open spec fn spec_pass_ok(vs: Seq<VersionView>, version_id: u64) -> bool {
    &&& has_version(vs, version_id)
    &&& version_at(vs, version_id).major_num + 1 <= i32::MAX
    &&& !pass_slot_taken(vs, version_id)
}

/// The version collection after a pass: the passed version is accepted and
/// advanced, and every other version of the same thesis sharing the
/// pre-pass major number is superseded.
pub open spec fn spec_after_pass(vs: Seq<VersionView>, version_id: u64) -> Seq<VersionView> {
    let v = version_at(vs, version_id);
    vs.map_values(
        |w: VersionView|
            if w.id == version_id {
                spec_pass_one(v)
            } else if w.thesis_id == v.thesis_id && w.major_num == v.major_num {
                VersionView { state: VersionState::History, ..w }
            } else {
                w
            },
    )
}

/// The thesis collection after a pass: the parent thesis, if present,
/// carries the passed flag.
pub open spec fn spec_mark_passed(ts: Seq<ThesisView>, thesis_id: u64) -> Seq<ThesisView> {
    if has_thesis(ts, thesis_id) {
        ts.update(
            thesis_idx(ts, thesis_id),
            ThesisView { is_passed: true, ..thesis_at(ts, thesis_id) },
        )
    } else {
        ts
    }
}

/// A copy of the version carrying another state.
fn version_with_state(v: &Version, st: VersionState) -> (r: Version)
    ensures
        r@ == (VersionView { state: st, ..v@ }),
{
    Version {
        id: v.id,
        thesis_id: v.thesis_id,
        uploaded_at: v.uploaded_at,
        uploader_id: v.uploader_id,
        major_num: v.major_num,
        minor_num: v.minor_num,
        file_id: v.file_id,
        source_id: v.source_id,
        state: st,
        review_state: v.review_state.clone(),
        downloads: v.downloads,
    }
}

/// The list without the given identifier, order kept.
fn remove_id(v: &Vec<u64>, x: u64) -> (r: Vec<u64>)
    ensures
        r@ == pool_without(v@, x),
{
    let mut r: Vec<u64> = Vec::new();
    let mut i: usize = 0;
    proof {
        assert(v@.subrange(0, 0).filter(ne_pred(x)) =~= Seq::<u64>::empty());
    }
    while i < v.len()
        invariant
            i <= v@.len(),
            r@ == v@.subrange(0, i as int).filter(ne_pred(x)),
        decreases v@.len() - i,
    {
        proof {
            assert(v@.subrange(0, i + 1 as int) =~= v@.subrange(0, i as int).push(v@[i as int]));
            lemma_filter_push(v@.subrange(0, i as int), ne_pred(x), v@[i as int]);
            assert(ne_pred(x)(v@[i as int]) == (v@[i as int] != x));
        }
        if v[i] != x {
            r.push(v[i]);
        }
        i = i + 1;
    }
    proof {
        assert(v@.subrange(0, v@.len() as int) =~= v@);
    }
    r
}

impl Store {
    /// Whether every review of the version judges it positively.
    fn all_reviews_true(&self, version_id: u64) -> (r: bool)
        ensures
            r == all_judgements_true(self@.reviews, version_id),
    {
        let mut i: usize = 0;
        while i < self.reviews.len()
            invariant
                i <= self@.reviews.len(),
                forall|j: int|
                    0 <= j < i && (#[trigger] self@.reviews[j]).version_id == version_id
                        ==> self@.reviews[j].judgement,
            decreases self@.reviews.len() - i,
        {
            if self.reviews[i].version_id == version_id && !self.reviews[i].judgement {
                proof {
                    assert(self@.reviews[i as int].version_id == version_id
                        && !self@.reviews[i as int].judgement);
                }
                return false;
            }
            i = i + 1;
        }
        true
    }

    /// Commits a new version of the thesis: state `Uploaded`, version slot
    /// `(0, 0)`, an empty review pool, uploaded by the acting author at the
    /// supplied time. Only an author of the thesis may commit; the `(0, 0)`
    /// slot must be free. Returns the fresh version identifier.
    pub fn commit_version(
        &mut self,
        actor: &Actor,
        thesis_id: u64,
        file_id: u64,
        source_id: Option<u64>,
        now: i64,
    ) -> (r: Result<u64, AppError>)
        requires
            old(self).wf(),
        ensures
            final(self).wf(),
            final(self)@.theses == old(self)@.theses,
            final(self)@.reviews == old(self)@.reviews,
            final(self)@.comments == old(self)@.comments,
            ({
                let ts = old(self)@.theses;
                let vs = old(self)@.versions;
                let authorized = has_thesis(ts, thesis_id) && thesis_at(
                    ts,
                    thesis_id,
                ).meta.author_ids.contains(actor.id);
                &&& (r matches Err(e) ==> (e is NotFound <==> !has_thesis(ts, thesis_id)))
                &&& (r matches Err(e) ==> (e is Forbidden <==> has_thesis(ts, thesis_id)
                    && !thesis_at(ts, thesis_id).meta.author_ids.contains(actor.id)))
                &&& (r matches Err(e) ==> (e is Conflict <==> authorized && slot_taken(
                    vs,
                    thesis_id,
                    0,
                    0,
                )))
                &&& (r matches Err(e) ==> (e is Internal <==> authorized && !slot_taken(
                    vs,
                    thesis_id,
                    0,
                    0,
                ) && old(self)@.next_id == u64::MAX))
                &&& (r is Err ==> *final(self) == *old(self))
                &&& (r is Ok <==> authorized && !slot_taken(vs, thesis_id, 0, 0) && old(
                    self,
                )@.next_id < u64::MAX)
                &&& (r is Ok ==> {
                    &&& r->Ok_0 == old(self)@.next_id
                    &&& final(self)@.next_id == old(self)@.next_id + 1
                    &&& final(self)@.versions == vs.push(
                        VersionView {
                            id: r->Ok_0,
                            thesis_id,
                            uploaded_at: now,
                            uploader_id: Some(actor.id),
                            major_num: 0,
                            minor_num: 0,
                            file_id,
                            source_id,
                            state: VersionState::Uploaded,
                            review_state: ReviewStateView {
                                remainder_reviewer_ids: Seq::<u64>::empty(),
                                pattern: ReviewPattern::Reviewer,
                            },
                            downloads: 0,
                        },
                    )
                })
            }),
    {
        let ti = match self.find_thesis(thesis_id) {
            Some(i) => i,
            None => {
                return Err(AppError::NotFound("Thesis with the given id does not exist!".to_string()));
            },
        };
        proof {
            lemma_thesis_at(self@.theses, thesis_id, ti as int);
        }
        let is_author = {
            let t = &self.theses[ti];
            contains_id(&t.meta.author_ids, actor.id)
        };
        if !is_author {
            return Err(AppError::Forbidden("You are not an author of this thesis!".to_string()));
        }
        let mut i: usize = 0;
        while i < self.versions.len()
            invariant
                i <= self@.versions.len(),
                forall|j: int|
                    0 <= j < i ==> !((#[trigger] self@.versions[j]).thesis_id == thesis_id
                        && self@.versions[j].major_num == 0 && self@.versions[j].minor_num == 0),
            decreases self@.versions.len() - i,
        {
            if self.versions[i].thesis_id == thesis_id && self.versions[i].major_num == 0
                && self.versions[i].minor_num == 0 {
                proof {
                    assert(self@.versions[i as int].thesis_id == thesis_id
                        && self@.versions[i as int].major_num == 0
                        && self@.versions[i as int].minor_num == 0);
                    assert(slot_taken(self@.versions, thesis_id, 0, 0));
                }
                return Err(
                    AppError::Conflict("A version with the same version numbers already exists!".to_string()),
                );
            }
            i = i + 1;
        }
        let id = match self.fresh_id() {
            Ok(id) => id,
            Err(e) => {
                return Err(e);
            },
        };
        let version = Version {
            id,
            thesis_id,
            uploaded_at: now,
            uploader_id: Some(actor.id),
            major_num: 0,
            minor_num: 0,
            file_id,
            source_id,
            state: VersionState::Uploaded,
            review_state: ReviewState::empty(),
            downloads: 0,
        };
        self.versions.push(version);
        proof {
            assert(final(self)@.versions =~= old(self)@.versions.push(
                VersionView {
                    id,
                    thesis_id,
                    uploaded_at: now,
                    uploader_id: Some(actor.id),
                    major_num: 0,
                    minor_num: 0,
                    file_id,
                    source_id,
                    state: VersionState::Uploaded,
                    review_state: ReviewStateView {
                        remainder_reviewer_ids: Seq::<u64>::empty(),
                        pattern: ReviewPattern::Reviewer,
                    },
                    downloads: 0,
                },
            ));
            assert(final(self)@.theses =~= old(self)@.theses);
            assert(final(self)@.reviews =~= old(self)@.reviews);
            assert(final(self)@.comments =~= old(self)@.comments);
        }
        Ok(id)
    }

    /// Opens review of an `Uploaded` version: sets the supplied review
    /// bookkeeping and moves the version to `Reviewing`. Only editors may;
    /// under the editor pattern the deciding editor is the acting one. A
    /// version in any other state yields a conflict (`BadRequest`). Returns
    /// the updated version.
    pub fn edit_version(&mut self, actor: &Actor, version_id: u64, review_state: ReviewState) -> (r:
        Result<Version, AppError>)
        requires
            old(self).wf(),
            review_state@.remainder_reviewer_ids.no_duplicates(),
        ensures
            final(self).wf(),
            final(self)@.theses == old(self)@.theses,
            final(self)@.reviews == old(self)@.reviews,
            final(self)@.comments == old(self)@.comments,
            final(self)@.next_id == old(self)@.next_id,
            ({
                let vs = old(self)@.versions;
                let v = version_at(vs, version_id);
                &&& (r matches Err(e) ==> (e is Forbidden <==> !actor.is_editor))
                &&& (r matches Err(e) ==> (e is NotFound <==> actor.is_editor && !has_version(
                    vs,
                    version_id,
                )))
                &&& (r matches Err(e) ==> (e is BadRequest <==> actor.is_editor && has_version(
                    vs,
                    version_id,
                ) && !(v.state is Uploaded)))
                &&& (r is Err ==> final(self)@.versions == vs)
                &&& (r is Ok <==> actor.is_editor && has_version(vs, version_id) && v.state
                    is Uploaded)
                &&& (r is Ok ==> {
                    let v1 = VersionView {
                        state: VersionState::Reviewing,
                        review_state: ReviewStateView {
                            remainder_reviewer_ids: review_state@.remainder_reviewer_ids,
                            pattern: match review_state@.pattern {
                                ReviewPattern::Editor(_) => ReviewPattern::Editor(actor.id),
                                ReviewPattern::Reviewer => ReviewPattern::Reviewer,
                            },
                        },
                        ..v
                    };
                    &&& r->Ok_0@ == v1
                    &&& final(self)@.versions == vs.update(version_idx(vs, version_id), v1)
                })
            }),
    {
        if !actor.is_editor {
            return Err(AppError::Forbidden("you are not a editor".to_string()));
        }
        let vi = match self.find_version(version_id) {
            Some(i) => i,
            None => {
                return Err(AppError::NotFound("Version with the given id does not exist!".to_string()));
            },
        };
        proof {
            lemma_version_at(self@.versions, version_id, vi as int);
        }
        match self.versions[vi].state {
            VersionState::Uploaded => {},
            _ => {
                return Err(AppError::BadRequest("This version has been edited!".to_string()));
            },
        }
        let pattern = match review_state.pattern {
            ReviewPattern::Editor(_) => ReviewPattern::Editor(actor.id),
            ReviewPattern::Reviewer => ReviewPattern::Reviewer,
        };
        let rs = ReviewState { remainder_reviewer_ids: review_state.remainder_reviewer_ids, pattern };
        let updated = {
            let v = &self.versions[vi];
            Version {
                id: v.id,
                thesis_id: v.thesis_id,
                uploaded_at: v.uploaded_at,
                uploader_id: v.uploader_id,
                major_num: v.major_num,
                minor_num: v.minor_num,
                file_id: v.file_id,
                source_id: v.source_id,
                state: VersionState::Reviewing,
                review_state: rs,
                downloads: v.downloads,
            }
        };
        let out = updated.clone();
        self.versions.set(vi, updated);
        proof {
            let vs = old(self)@.versions;
            assert(final(self)@.versions =~= vs.update(
                version_idx(vs, version_id),
                final(self)@.versions[vi as int],
            ));
        }
        Ok(out)
    }

    /// Rejects the version: a single conditional update setting
    /// `Passed(false)`. Returns the updated version.
    pub fn reject(&mut self, version_id: u64) -> (r: Result<Version, AppError>)
        requires
            old(self).wf(),
        ensures
            final(self).wf(),
            final(self)@.theses == old(self)@.theses,
            final(self)@.reviews == old(self)@.reviews,
            final(self)@.comments == old(self)@.comments,
            final(self)@.next_id == old(self)@.next_id,
            ({
                let vs = old(self)@.versions;
                let v = version_at(vs, version_id);
                &&& (r is Ok <==> has_version(vs, version_id))
                &&& (r matches Err(e) ==> e is NotFound && final(self)@.versions == vs)
                &&& (r is Ok ==> {
                    let v1 = VersionView { state: VersionState::Passed(false), ..v };
                    &&& r->Ok_0@ == v1
                    &&& final(self)@.versions == vs.update(version_idx(vs, version_id), v1)
                })
            }),
    {
        let vi = match self.find_version(version_id) {
            Some(i) => i,
            None => {
                return Err(AppError::NotFound("Version with the given id does not exist!".to_string()));
            },
        };
        proof {
            lemma_version_at(self@.versions, version_id, vi as int);
        }
        let updated = {
            let v = &self.versions[vi];
            version_with_state(v, VersionState::Passed(false))
        };
        let out = updated.clone();
        self.versions.set(vi, updated);
        proof {
            let vs = old(self)@.versions;
            assert(final(self)@.versions =~= vs.update(
                version_idx(vs, version_id),
                VersionView { state: VersionState::Passed(false), ..version_at(vs, version_id) },
            ));
        }
        Ok(out)
    }

    /// Passes the version: sets `Passed(true)`, advances the major number,
    /// resets the minor number; marks every other version of the thesis
    /// sharing the pre-pass major number as `History`; marks the parent
    /// thesis passed. The three steps are independent updates in this
    /// order, without rollback. Fails with `Internal` when the target slot
    /// is occupied or the major number cannot grow, with nothing changed.
    /// Returns the updated version.
    #[verifier::rlimit(100)]
    pub fn pass(&mut self, version_id: u64) -> (r: Result<Version, AppError>)
        requires
            old(self).wf(),
        ensures
            final(self).wf(),
            final(self)@.reviews == old(self)@.reviews,
            final(self)@.comments == old(self)@.comments,
            final(self)@.next_id == old(self)@.next_id,
            ({
                let vs = old(self)@.versions;
                let ts = old(self)@.theses;
                let v = version_at(vs, version_id);
                &&& (r is Ok <==> spec_pass_ok(vs, version_id))
                &&& (r matches Err(e) ==> (e is NotFound <==> !has_version(vs, version_id)))
                &&& (r matches Err(e) ==> (e is Internal <==> has_version(vs, version_id)))
                &&& (r is Err ==> final(self)@.versions == vs && final(self)@.theses == ts)
                &&& (r is Ok ==> {
                    &&& r->Ok_0@ == spec_pass_one(v)
                    &&& final(self)@.versions == spec_after_pass(vs, version_id)
                    &&& final(self)@.theses == spec_mark_passed(ts, v.thesis_id)
                })
            }),
    {
        let vi = match self.find_version(version_id) {
            Some(i) => i,
            None => {
                return Err(AppError::NotFound("Version with the given id does not exist!".to_string()));
            },
        };
        proof {
            lemma_version_at(self@.versions, version_id, vi as int);
        }
        let thesis_id = self.versions[vi].thesis_id;
        let old_major = self.versions[vi].major_num;
        if old_major == i32::MAX {
            return Err(AppError::Internal("The major version number cannot grow further!".to_string()));
        }
        let mut i: usize = 0;
        while i < self.versions.len()
            invariant
                i <= self@.versions.len(),
                old_major < i32::MAX,
                thesis_id == version_at(self@.versions, version_id).thesis_id,
                old_major == version_at(self@.versions, version_id).major_num,
                forall|j: int|
                    0 <= j < i ==> !((#[trigger] self@.versions[j]).id != version_id
                        && self@.versions[j].thesis_id == thesis_id && self@.versions[j].major_num
                        == old_major + 1 && self@.versions[j].minor_num == 0),
            decreases self@.versions.len() - i,
        {
            if self.versions[i].id != version_id && self.versions[i].thesis_id == thesis_id
                && self.versions[i].major_num == old_major + 1 && self.versions[i].minor_num == 0 {
                proof {
                    let vs = self@.versions;
                    assert(vs[i as int].id != version_id && vs[i as int].thesis_id
                        == version_at(vs, version_id).thesis_id && vs[i as int].major_num
                        == version_at(vs, version_id).major_num + 1 && vs[i as int].minor_num == 0);
                    assert(pass_slot_taken(vs, version_id));
                }
                return Err(
                    AppError::Internal("The target version slot is already occupied!".to_string()),
                );
            }
            i = i + 1;
        }
        proof {
            assert(!pass_slot_taken(self@.versions, version_id));
        }
        let passed = {
            let v = &self.versions[vi];
            Version {
                id: v.id,
                thesis_id: v.thesis_id,
                uploaded_at: v.uploaded_at,
                uploader_id: v.uploader_id,
                major_num: old_major + 1,
                minor_num: 0,
                file_id: v.file_id,
                source_id: v.source_id,
                state: VersionState::Passed(true),
                review_state: v.review_state.clone(),
                downloads: v.downloads,
            }
        };
        let out = passed.clone();
        self.versions.set(vi, passed);
        let ghost va = self@.versions;
        let mut i: usize = 0;
        while i < self.versions.len()
            invariant
                i <= va.len(),
                self@.versions.len() == va.len(),
                self@.theses == old(self)@.theses,
                self@.reviews == old(self)@.reviews,
                self@.comments == old(self)@.comments,
                self@.next_id == old(self)@.next_id,
                forall|k: int| i <= k < va.len() ==> self@.versions[k] == va[k],
                forall|k: int|
                    0 <= k < i ==> self@.versions[k] == (if (#[trigger] va[k]).thesis_id
                        == thesis_id && va[k].major_num == old_major {
                        VersionView { state: VersionState::History, ..va[k] }
                    } else {
                        va[k]
                    }),
            decreases va.len() - i,
        {
            let mark = self.versions[i].thesis_id == thesis_id && self.versions[i].major_num
                == old_major;
            if mark {
                let h = version_with_state(&self.versions[i], VersionState::History);
                self.versions.set(i, h);
            }
            i = i + 1;
        }
        match self.find_thesis(thesis_id) {
            Some(ti) => {
                proof {
                    lemma_thesis_at(self@.theses, thesis_id, ti as int);
                }
                let mut t2 = self.theses[ti].clone();
                t2.is_passed = true;
                self.theses.set(ti, t2);
            },
            None => {},
        }
        proof {
            let vs = old(self)@.versions;
            let ts = old(self)@.theses;
            let v = version_at(vs, version_id);
            let nf = final(self)@;
            assert(v == vs[vi as int]);
            assert(va =~= vs.update(vi as int, spec_pass_one(v)));
            assert forall|k: int| 0 <= k < vs.len() implies nf.versions[k] == (if vs[k].id
                == version_id {
                spec_pass_one(v)
            } else if vs[k].thesis_id == v.thesis_id && vs[k].major_num == v.major_num {
                VersionView { state: VersionState::History, ..vs[k] }
            } else {
                vs[k]
            }) by {
                if k == vi as int {
                    assert(va[k] == spec_pass_one(v));
                    assert(va[k].major_num != v.major_num);
                    assert(nf.versions[k] == va[k]);
                } else {
                    assert(va[k] == vs[k]);
                    assert(vs[k].id != vs[vi as int].id);
                }
            }
            assert(nf.versions =~= spec_after_pass(vs, version_id));
            assert(nf.theses =~= spec_mark_passed(ts, thesis_id));
            assert forall|k: int| 0 <= k < vs.len() implies (#[trigger] nf.versions[k]).id
                == vs[k].id && nf.versions[k].thesis_id == vs[k].thesis_id
                && nf.versions[k].review_state == vs[k].review_state && nf.versions[k].major_num
                >= 0 && nf.versions[k].minor_num >= 0 && !(nf.versions[k].state is Uploaded
                && vs[k].state is Reviewing) && (nf.versions[k].state is Uploaded ==> vs[k].state
                is Uploaded) by {
                if k == vi as int {
                    assert(nf.versions[k] == spec_pass_one(v));
                }
            }
            assert(version_ids_unique(nf.versions));
            assert(version_slots_unique(nf.versions)) by {
                assert forall|i2: int, j2: int| 0 <= i2 < j2 < nf.versions.len() implies !((
                #[trigger] nf.versions[i2]).thesis_id == (#[trigger] nf.versions[j2]).thesis_id
                    && nf.versions[i2].major_num == nf.versions[j2].major_num
                    && nf.versions[i2].minor_num == nf.versions[j2].minor_num) by {
                    assert(vs[i2].id != vs[j2].id);
                    if i2 == vi as int {
                        assert(nf.versions[i2] == spec_pass_one(v));
                        if nf.versions[j2].thesis_id == v.thesis_id && nf.versions[j2].major_num
                            == v.major_num + 1 && nf.versions[j2].minor_num == 0 {
                            assert(vs[j2].id != version_id && vs[j2].thesis_id == v.thesis_id
                                && vs[j2].major_num == v.major_num + 1 && vs[j2].minor_num == 0);
                            assert(pass_slot_taken(vs, version_id));
                        }
                    } else if j2 == vi as int {
                        assert(nf.versions[j2] == spec_pass_one(v));
                        if nf.versions[i2].thesis_id == v.thesis_id && nf.versions[i2].major_num
                            == v.major_num + 1 && nf.versions[i2].minor_num == 0 {
                            assert(vs[i2].id != version_id && vs[i2].thesis_id == v.thesis_id
                                && vs[i2].major_num == v.major_num + 1 && vs[i2].minor_num == 0);
                            assert(pass_slot_taken(vs, version_id));
                        }
                    } else {
                        assert(nf.versions[i2] == vs[i2] || nf.versions[i2] == (VersionView {
                            state: VersionState::History,
                            ..vs[i2]
                        }));
                        assert(nf.versions[j2] == vs[j2] || nf.versions[j2] == (VersionView {
                            state: VersionState::History,
                            ..vs[j2]
                        }));
                    }
                }
            }
            assert(crate::store::pools_exclude_submitted(nf)) by {
                assert forall|i2: int, j2: int|
                    #![trigger nf.versions[i2], nf.reviews[j2]]
                    0 <= i2 < nf.versions.len() && 0 <= j2 < nf.reviews.len()
                        && nf.reviews[j2].version_id == nf.versions[i2].id
                        && nf.reviews[j2].reviewer_id is Some implies !nf.versions[
                    i2].review_state.remainder_reviewer_ids.contains(nf.reviews[j2].reviewer_id->0)
                    by {
                    assert(old(self)@.versions[i2] == vs[i2]);
                    assert(old(self)@.reviews[j2] == nf.reviews[j2]);
                }
            }
            assert(crate::store::uploaded_unreviewed(nf)) by {
                assert forall|i2: int, j2: int|
                    #![trigger nf.versions[i2], nf.reviews[j2]]
                    0 <= i2 < nf.versions.len() && 0 <= j2 < nf.reviews.len() && nf.versions[i2].state
                        is Uploaded implies nf.reviews[j2].version_id != nf.versions[i2].id by {
                    assert(old(self)@.versions[i2] == vs[i2]);
                    assert(old(self)@.reviews[j2] == nf.reviews[j2]);
                }
            }
        }
        Ok(out)
    }

    /// Records a judgement of a remainder referee and aggregates the
    /// round. The version must be under review and the actor still in its
    /// remainder pool; the review is inserted first, then the actor is
    /// withdrawn from the pool. Under the referee pattern, the task that
    /// empties the pool decides: the version passes exactly when every
    /// recorded judgement is positive, and is rejected otherwise. With
    /// referees still outstanding, or under the editor pattern, no
    /// decision is taken. A pass that fails midway (`Internal`) leaves the
    /// recorded review and the pool withdrawal in place, without rollback.
    /// Returns the fresh review identifier.
    #[verifier::rlimit(100)]
    pub fn submit_review(
        &mut self,
        actor: &Actor,
        version_id: u64,
        judgement: bool,
        criticism: String,
        now: i64,
    ) -> (r: Result<u64, AppError>)
        requires
            old(self).wf(),
        ensures
            final(self).wf(),
            final(self)@.comments == old(self)@.comments,
            ({
                let vs = old(self)@.versions;
                let ts = old(self)@.theses;
                let rs = old(self)@.reviews;
                let v = version_at(vs, version_id);
                let pool0 = v.review_state.remainder_reviewer_ids;
                &&& (!has_version(vs, version_id) ==> (r matches Err(e) && e is NotFound
                    && *final(self) == *old(self)))
                &&& (has_version(vs, version_id) && !(v.state is Reviewing) ==> (r matches Err(e)
                    && e is BadRequest && *final(self) == *old(self)))
                &&& (has_version(vs, version_id) && v.state is Reviewing && !pool0.contains(
                    actor.id,
                ) ==> (r matches Err(e) && e is Forbidden && *final(self) == *old(self)))
                &&& (has_version(vs, version_id) && v.state is Reviewing && pool0.contains(actor.id)
                    && old(self)@.next_id == u64::MAX ==> (r matches Err(e) && e is Internal
                    && *final(self) == *old(self)))
                &&& (has_version(vs, version_id) && v.state is Reviewing && pool0.contains(actor.id)
                    && old(self)@.next_id < u64::MAX ==> {
                    let rid = old(self)@.next_id;
                    let rv = ReviewView {
                        id: rid,
                        version_id,
                        reviewed_at: now,
                        reviewer_id: Some(actor.id),
                        judgement,
                        criticism: criticism@,
                    };
                    let reviews1 = rs.push(rv);
                    let pool1 = pool_without(pool0, actor.id);
                    let v1 = VersionView {
                        review_state: ReviewStateView {
                            remainder_reviewer_ids: pool1,
                            pattern: v.review_state.pattern,
                        },
                        ..v
                    };
                    let vs1 = vs.update(version_idx(vs, version_id), v1);
                    let decide = v.review_state.pattern is Reviewer && pool1.len() == 0;
                    let pass_case = decide && all_judgements_true(reviews1, version_id);
                    &&& final(self)@.reviews == reviews1
                    &&& final(self)@.next_id == old(self)@.next_id + 1
                    &&& (r is Ok ==> r->Ok_0 == rid)
                    &&& (!decide ==> r is Ok && final(self)@.versions == vs1 && final(self)@.theses
                        == ts)
                    &&& (decide && !pass_case ==> r is Ok && final(self)@.versions == vs1.update(
                        version_idx(vs1, version_id),
                        VersionView { state: VersionState::Passed(false), ..v1 },
                    ) && final(self)@.theses == ts)
                    &&& (pass_case && spec_pass_ok(vs1, version_id) ==> r is Ok
                        && final(self)@.versions == spec_after_pass(vs1, version_id)
                        && final(self)@.theses == spec_mark_passed(ts, v.thesis_id))
                    &&& (pass_case && !spec_pass_ok(vs1, version_id) ==> (r matches Err(e) && e
                        is Internal && final(self)@.versions == vs1 && final(self)@.theses == ts))
                    &&& (r is Ok && decide ==> version_at(final(self)@.versions, version_id).state
                        == VersionState::Passed(all_judgements_true(reviews1, version_id)))
                })
            }),
    {
        let vi = match self.find_version(version_id) {
            Some(i) => i,
            None => {
                return Err(AppError::NotFound("Version with the given id does not exist!".to_string()));
            },
        };
        proof {
            lemma_version_at(self@.versions, version_id, vi as int);
        }
        match self.versions[vi].state {
            VersionState::Reviewing => {},
            VersionState::Uploaded => {
                return Err(AppError::BadRequest("This version has not been edited!".to_string()));
            },
            _ => {
                return Err(AppError::BadRequest("This version has been adjudged!".to_string()));
            },
        }
        let in_pool = contains_id(&self.versions[vi].review_state.remainder_reviewer_ids, actor.id);
        if !in_pool {
            return Err(AppError::Forbidden("You are not allowed to review this version!".to_string()));
        }
        let rid = match self.fresh_id() {
            Ok(id) => id,
            Err(e) => {
                return Err(e);
            },
        };
        let review = Review {
            id: rid,
            version_id,
            reviewed_at: now,
            reviewer_id: Some(actor.id),
            judgement,
            criticism,
        };
        self.reviews.push(review);
        let pool1 = remove_id(&self.versions[vi].review_state.remainder_reviewer_ids, actor.id);
        let pattern = self.versions[vi].review_state.pattern;
        let updated = {
            let v = &self.versions[vi];
            Version {
                id: v.id,
                thesis_id: v.thesis_id,
                uploaded_at: v.uploaded_at,
                uploader_id: v.uploader_id,
                major_num: v.major_num,
                minor_num: v.minor_num,
                file_id: v.file_id,
                source_id: v.source_id,
                state: v.state,
                review_state: ReviewState { remainder_reviewer_ids: pool1, pattern },
                downloads: v.downloads,
            }
        };
        self.versions.set(vi, updated);
        proof {
            let vs = old(self)@.versions;
            let ts = old(self)@.theses;
            let rs = old(self)@.reviews;
            let v = version_at(vs, version_id);
            let pool0 = v.review_state.remainder_reviewer_ids;
            let rv = ReviewView {
                id: rid,
                version_id,
                reviewed_at: now,
                reviewer_id: Some(actor.id),
                judgement,
                criticism: criticism@,
            };
            let reviews1 = rs.push(rv);
            let p1 = pool_without(pool0, actor.id);
            let v1 = VersionView {
                review_state: ReviewStateView {
                    remainder_reviewer_ids: p1,
                    pattern: v.review_state.pattern,
                },
                ..v
            };
            let vs1 = vs.update(version_idx(vs, version_id), v1);
            let s2 = self@;
            assert(s2.reviews =~= reviews1);
            assert(s2.versions =~= vs1);
            assert(s2.theses == ts);
            assert(s2.comments == old(self)@.comments);
            assert(s2.next_id == old(self)@.next_id + 1);
            lemma_filter_membership(pool0, ne_pred(actor.id));
            lemma_filter_no_dup(pool0, ne_pred(actor.id));
            assert(!p1.contains(actor.id)) by {
                if p1.contains(actor.id) {
                    assert(ne_pred(actor.id)(actor.id));
                }
            }
            assert(forall|y: u64| #[trigger] p1.contains(y) ==> pool0.contains(y) && y != actor.id)
                by {
                assert forall|y: u64| #[trigger] p1.contains(y) implies pool0.contains(y) && y
                    != actor.id by {
                    assert(ne_pred(actor.id)(y) == (y != actor.id));
                }
            }
            assert(version_ids_unique(vs1)) by {
                assert(forall|k: int| 0 <= k < vs.len() ==> (#[trigger] vs1[k]).id == vs[k].id);
            }
            assert(crate::store::pools_exclude_submitted(s2)) by {
                assert forall|i2: int, j2: int|
                    #![trigger s2.versions[i2], s2.reviews[j2]]
                    0 <= i2 < s2.versions.len() && 0 <= j2 < s2.reviews.len()
                        && s2.reviews[j2].version_id == s2.versions[i2].id
                        && s2.reviews[j2].reviewer_id is Some implies !s2.versions[
                    i2].review_state.remainder_reviewer_ids.contains(s2.reviews[j2].reviewer_id->0)
                    by {
                    assert(vs[version_idx(vs, version_id)] == v);
                    if j2 == rs.len() {
                        assert(s2.reviews[j2] == rv);
                        if i2 == version_idx(vs, version_id) {
                            assert(s2.versions[i2] == v1);
                        } else {
                            assert(s2.versions[i2] == vs[i2]);
                            assert(vs[i2].id != vs[version_idx(vs, version_id)].id);
                        }
                    } else {
                        assert(s2.reviews[j2] == rs[j2]);
                        assert(old(self)@.reviews[j2] == rs[j2]);
                        if i2 == version_idx(vs, version_id) {
                            assert(old(self)@.versions[i2] == v);
                        } else {
                            assert(old(self)@.versions[i2] == vs[i2]);
                        }
                    }
                }
            }
            assert(crate::store::uploaded_unreviewed(s2)) by {
                assert forall|i2: int, j2: int|
                    #![trigger s2.versions[i2], s2.reviews[j2]]
                    0 <= i2 < s2.versions.len() && 0 <= j2 < s2.reviews.len() && s2.versions[i2].state
                        is Uploaded implies s2.reviews[j2].version_id != s2.versions[i2].id by {
                    assert(vs[version_idx(vs, version_id)] == v);
                    if i2 == version_idx(vs, version_id) {
                        assert(s2.versions[i2] == v1);
                    } else {
                        assert(s2.versions[i2] == vs[i2]);
                        assert(old(self)@.versions[i2] == vs[i2]);
                        if j2 == rs.len() {
                            assert(s2.reviews[j2] == rv);
                            assert(vs[i2].id != vs[version_idx(vs, version_id)].id);
                        } else {
                            assert(old(self)@.reviews[j2] == rs[j2]);
                        }
                    }
                }
            }
            assert(self.wf());
            lemma_version_at(vs1, version_id, version_idx(vs, version_id));
        }
        let is_reviewer_pattern = match pattern {
            ReviewPattern::Reviewer => true,
            ReviewPattern::Editor(_) => false,
        };
        let pool_empty = self.versions[vi].review_state.remainder_reviewer_ids.len() == 0;
        if is_reviewer_pattern && pool_empty {
            let all_true = self.all_reviews_true(version_id);
            if all_true {
                match self.pass(version_id) {
                    Ok(_) => {
                        proof {
                            let vs = old(self)@.versions;
                            let v = version_at(vs, version_id);
                            let p1 = pool_without(
                                v.review_state.remainder_reviewer_ids,
                                actor.id,
                            );
                            let v1 = VersionView {
                                review_state: ReviewStateView {
                                    remainder_reviewer_ids: p1,
                                    pattern: v.review_state.pattern,
                                },
                                ..v
                            };
                            let vs1 = vs.update(version_idx(vs, version_id), v1);
                            let idx = version_idx(vs, version_id);
                            assert(self@.versions == spec_after_pass(vs1, version_id));
                            assert(self@.versions[idx] == spec_pass_one(version_at(
                                vs1,
                                version_id,
                            )));
                            lemma_version_at(self@.versions, version_id, idx);
                        }
                        Ok(rid)
                    },
                    Err(e) => Err(e),
                }
            } else {
                match self.reject(version_id) {
                    Ok(_) => {
                        proof {
                            let vs = old(self)@.versions;
                            let v = version_at(vs, version_id);
                            let p1 = pool_without(
                                v.review_state.remainder_reviewer_ids,
                                actor.id,
                            );
                            let v1 = VersionView {
                                review_state: ReviewStateView {
                                    remainder_reviewer_ids: p1,
                                    pattern: v.review_state.pattern,
                                },
                                ..v
                            };
                            let vs1 = vs.update(version_idx(vs, version_id), v1);
                            let idx = version_idx(vs, version_id);
                            assert(self@.versions == vs1.update(
                                version_idx(vs1, version_id),
                                VersionView { state: VersionState::Passed(false), ..v1 },
                            ));
                            assert(self@.versions[idx] == (VersionView {
                                state: VersionState::Passed(false),
                                ..v1
                            }));
                            lemma_version_at(self@.versions, version_id, idx);
                        }
                        Ok(rid)
                    },
                    Err(e) => Err(e),
                }
            }
        } else {
            Ok(rid)
        }
    }

    /// An editor's override: decides the version directly, bypassing the
    /// pool. Only editors may; a version already decided yields a conflict
    /// (`BadRequest`). A positive judgement passes the version, a negative
    /// one rejects it. Returns the updated version.
    pub fn adjudge_version(&mut self, actor: &Actor, version_id: u64, judgement: bool) -> (r:
        Result<Version, AppError>)
        requires
            old(self).wf(),
        ensures
            final(self).wf(),
            final(self)@.reviews == old(self)@.reviews,
            final(self)@.comments == old(self)@.comments,
            final(self)@.next_id == old(self)@.next_id,
            ({
                let vs = old(self)@.versions;
                let ts = old(self)@.theses;
                let v = version_at(vs, version_id);
                let eligible = has_version(vs, version_id) && (v.state is Uploaded || v.state
                    is Reviewing);
                &&& (r matches Err(e) ==> (e is Forbidden <==> !actor.is_editor))
                &&& (r matches Err(e) ==> (e is NotFound <==> actor.is_editor && !has_version(
                    vs,
                    version_id,
                )))
                &&& (r matches Err(e) ==> (e is BadRequest <==> actor.is_editor && has_version(
                    vs,
                    version_id,
                ) && !(v.state is Uploaded || v.state is Reviewing)))
                &&& (r matches Err(e) ==> (e is Internal <==> actor.is_editor && eligible
                    && judgement && !spec_pass_ok(vs, version_id)))
                &&& (r is Err ==> final(self)@.versions == vs && final(self)@.theses == ts)
                &&& (r is Ok <==> actor.is_editor && eligible && (judgement ==> spec_pass_ok(
                    vs,
                    version_id,
                )))
                &&& (r is Ok && judgement ==> {
                    &&& r->Ok_0@ == spec_pass_one(v)
                    &&& final(self)@.versions == spec_after_pass(vs, version_id)
                    &&& final(self)@.theses == spec_mark_passed(ts, v.thesis_id)
                })
                &&& (r is Ok && !judgement ==> {
                    &&& r->Ok_0@ == (VersionView { state: VersionState::Passed(false), ..v })
                    &&& final(self)@.versions == vs.update(
                        version_idx(vs, version_id),
                        VersionView { state: VersionState::Passed(false), ..v },
                    )
                    &&& final(self)@.theses == ts
                })
            }),
    {
        if !actor.is_editor {
            return Err(AppError::Forbidden("you are not a editor".to_string()));
        }
        let vi = match self.find_version(version_id) {
            Some(i) => i,
            None => {
                return Err(AppError::NotFound("Version with the given id does not exist!".to_string()));
            },
        };
        proof {
            lemma_version_at(self@.versions, version_id, vi as int);
        }
        match self.versions[vi].state {
            VersionState::Uploaded | VersionState::Reviewing => {},
            _ => {
                return Err(AppError::BadRequest("This version has been adjudged!".to_string()));
            },
        }
        if judgement {
            self.pass(version_id)
        } else {
            self.reject(version_id)
        }
    }
}

} // verus!
