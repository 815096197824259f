//! Posting and reading comments: a comment targets an accepted version,
//! a reply targets an existing comment.

use vstd::prelude::*;

use crate::auth::Actor;
use crate::entities::{AppError, Comment, CommentTargetType, CommentView, VersionState};
use crate::reach::{child_pred, vroot_pred};
use crate::seq_lemmas::lemma_filter_push;
use crate::store::{
    comment_at, has_comment, has_version, lemma_comment_at, lemma_version_at, version_at, Store,
};

verus! {

impl Store {
    /// Loads the comment with the given identifier; comments are public.
    pub fn get_comment(&self, comment_id: u64) -> (r: Result<Comment, AppError>)
        requires
            self.wf(),
        ensures
            (r is Ok <==> has_comment(self@.comments, comment_id)),
            r is Ok ==> r->Ok_0@ == comment_at(self@.comments, comment_id),
            r matches Err(e) ==> e is NotFound,
    {
        let ci = match self.find_comment(comment_id) {
            Some(i) => i,
            None => {
                return Err(AppError::NotFound("Comment with the given id does not exist!".to_string()));
            },
        };
        proof {
            lemma_comment_at(self@.comments, comment_id, ci as int);
        }
        let c = &self.comments[ci];
        Ok(c.clone())
    }

    /// Posts a comment under a version. Only an accepted (`Passed(true)`)
    /// version takes comments: a superseded version is outdated, every
    /// other state is not public. Returns the fresh comment identifier.
    pub fn comment_version(
        &mut self,
        actor: &Actor,
        version_id: u64,
        content: String,
        now: i64,
    ) -> (r: Result<u64, AppError>)
        requires
            old(self).wf(),
        ensures
            final(self).wf(),
            final(self)@.theses == old(self)@.theses,
            final(self)@.versions == old(self)@.versions,
            final(self)@.reviews == old(self)@.reviews,
            ({
                let vs = old(self)@.versions;
                let eligible = has_version(vs, version_id) && version_at(vs, version_id).state
                    matches VersionState::Passed(true);
                &&& (r matches Err(e) ==> (e is NotFound <==> !has_version(vs, version_id)))
                &&& (r matches Err(e) ==> (e is Forbidden <==> has_version(vs, version_id)
                    && !(version_at(vs, version_id).state matches VersionState::Passed(true))))
                &&& (r matches Err(e) ==> (e is Internal <==> eligible && old(self)@.next_id
                    == u64::MAX))
                &&& (r is Err ==> *final(self) == *old(self))
                &&& (r is Ok <==> eligible && old(self)@.next_id < u64::MAX)
                &&& (r is Ok ==> {
                    &&& r->Ok_0 == old(self)@.next_id
                    &&& final(self)@.next_id == old(self)@.next_id + 1
                    &&& final(self)@.comments == old(self)@.comments.push(
                        CommentView {
                            id: r->Ok_0,
                            poster_id: Some(actor.id),
                            posted_at: now,
                            target_type: CommentTargetType::Version,
                            target_id: version_id,
                            content: content@,
                        },
                    )
                })
            }),
    {
        let vi = match self.find_version(version_id) {
            Some(i) => i,
            None => {
                return Err(AppError::NotFound("Version with the given id does not exist!".to_string()));
            },
        };
        proof {
            lemma_version_at(self@.versions, version_id, vi as int);
        }
        match self.versions[vi].state {
            VersionState::History => {
                return Err(AppError::Forbidden("This version is outdated!".to_string()));
            },
            VersionState::Passed(true) => {},
            _ => {
                return Err(AppError::Forbidden("This version is not public!".to_string()));
            },
        }
        let id = match self.fresh_id() {
            Ok(id) => id,
            Err(e) => {
                return Err(e);
            },
        };
        let comment = Comment {
            id,
            poster_id: Some(actor.id),
            posted_at: now,
            target_type: CommentTargetType::Version,
            target_id: version_id,
            content,
        };
        self.comments.push(comment);
        proof {
            assert(final(self)@.comments =~= old(self)@.comments.push(
                CommentView {
                    id,
                    poster_id: Some(actor.id),
                    posted_at: now,
                    target_type: CommentTargetType::Version,
                    target_id: version_id,
                    content: content@,
                },
            ));
            assert(final(self)@.theses =~= old(self)@.theses);
            assert(final(self)@.versions =~= old(self)@.versions);
            assert(final(self)@.reviews =~= old(self)@.reviews);
        }
        Ok(id)
    }

    /// Posts a reply under an existing comment. Returns the fresh comment
    /// identifier.
    pub fn reply_comment(&mut self, actor: &Actor, comment_id: u64, content: String, now: i64) -> (r:
        Result<u64, AppError>)
        requires
            old(self).wf(),
        ensures
            final(self).wf(),
            final(self)@.theses == old(self)@.theses,
            final(self)@.versions == old(self)@.versions,
            final(self)@.reviews == old(self)@.reviews,
            ({
                let cs = old(self)@.comments;
                &&& (r matches Err(e) ==> (e is NotFound <==> !has_comment(cs, comment_id)))
                &&& (r matches Err(e) ==> (e is Internal <==> has_comment(cs, comment_id) && old(
                    self,
                )@.next_id == u64::MAX))
                &&& (r is Err ==> *final(self) == *old(self))
                &&& (r is Ok <==> has_comment(cs, comment_id) && old(self)@.next_id < u64::MAX)
                &&& (r is Ok ==> {
                    &&& r->Ok_0 == old(self)@.next_id
                    &&& final(self)@.next_id == old(self)@.next_id + 1
                    &&& final(self)@.comments == cs.push(
                        CommentView {
                            id: r->Ok_0,
                            poster_id: Some(actor.id),
                            posted_at: now,
                            target_type: CommentTargetType::Comment,
                            target_id: comment_id,
                            content: content@,
                        },
                    )
                })
            }),
    {
        let ci = match self.find_comment(comment_id) {
            Some(i) => i,
            None => {
                return Err(AppError::NotFound("Comment with the given id does not exist!".to_string()));
            },
        };
        proof {
            lemma_comment_at(self@.comments, comment_id, ci as int);
        }
        let id = match self.fresh_id() {
            Ok(id) => id,
            Err(e) => {
                return Err(e);
            },
        };
        let comment = Comment {
            id,
            poster_id: Some(actor.id),
            posted_at: now,
            target_type: CommentTargetType::Comment,
            target_id: comment_id,
            content,
        };
        self.comments.push(comment);
        proof {
            assert(final(self)@.comments =~= old(self)@.comments.push(
                CommentView {
                    id,
                    poster_id: Some(actor.id),
                    posted_at: now,
                    target_type: CommentTargetType::Comment,
                    target_id: comment_id,
                    content: content@,
                },
            ));
            assert(final(self)@.theses =~= old(self)@.theses);
            assert(final(self)@.versions =~= old(self)@.versions);
            assert(final(self)@.reviews =~= old(self)@.reviews);
            assert(old(self)@.comments[ci as int].id == comment_id);
        }
        Ok(id)
    }

    /// The comments directly targeting the version, in store order.
    pub fn comments_on(&self, version_id: u64) -> (r: Vec<Comment>)
        requires
            self.wf(),
        ensures
            r@.map_values(|c: Comment| c@) == self@.comments.filter(vroot_pred(version_id)),
    {
        let ghost s = self@.comments;
        let mut r: Vec<Comment> = Vec::new();
        let mut i: usize = 0;
        proof {
            assert(r@.map_values(|c: Comment| c@) =~= s.subrange(0, 0).filter(
                vroot_pred(version_id),
            ));
        }
        while i < self.comments.len()
            invariant
                i <= s.len(),
                self@.comments == s,
                r@.map_values(|c: Comment| c@) == s.subrange(0, i as int).filter(
                    vroot_pred(version_id),
                ),
            decreases s.len() - i,
        {
            proof {
                assert(s.subrange(0, i + 1 as int) =~= s.subrange(0, i as int).push(s[i as int]));
                lemma_filter_push(s.subrange(0, i as int), vroot_pred(version_id), s[i as int]);
                assert(vroot_pred(version_id)(s[i as int]) == (s[i as int].target_type is Version
                    && s[i as int].target_id == version_id));
            }
            let is_root = match self.comments[i].target_type {
                CommentTargetType::Version => self.comments[i].target_id == version_id,
                CommentTargetType::Comment => false,
            };
            if is_root {
                let c = &self.comments[i];
                r.push(c.clone());
                proof {
                    assert(r@.map_values(|c2: Comment| c2@) =~= s.subrange(0, i + 1 as int).filter(
                        vroot_pred(version_id),
                    ));
                }
            }
            i = i + 1;
        }
        proof {
            assert(s.subrange(0, s.len() as int) =~= s);
        }
        r
    }

    /// The replies directly targeting the comment, in store order.
    pub fn replies_of(&self, comment_id: u64) -> (r: Vec<Comment>)
        requires
            self.wf(),
        ensures
            r@.map_values(|c: Comment| c@) == self@.comments.filter(child_pred(comment_id)),
    {
        let ghost s = self@.comments;
        let mut r: Vec<Comment> = Vec::new();
        let mut i: usize = 0;
        proof {
            assert(r@.map_values(|c: Comment| c@) =~= s.subrange(0, 0).filter(
                child_pred(comment_id),
            ));
        }
        while i < self.comments.len()
            invariant
                i <= s.len(),
                self@.comments == s,
                r@.map_values(|c: Comment| c@) == s.subrange(0, i as int).filter(
                    child_pred(comment_id),
                ),
            decreases s.len() - i,
        {
            proof {
                assert(s.subrange(0, i + 1 as int) =~= s.subrange(0, i as int).push(s[i as int]));
                lemma_filter_push(s.subrange(0, i as int), child_pred(comment_id), s[i as int]);
                assert(child_pred(comment_id)(s[i as int]) == (s[i as int].target_type is Comment
                    && s[i as int].target_id == comment_id));
            }
            let is_child = match self.comments[i].target_type {
                CommentTargetType::Comment => self.comments[i].target_id == comment_id,
                CommentTargetType::Version => false,
            };
            if is_child {
                let c = &self.comments[i];
                r.push(c.clone());
                proof {
                    assert(r@.map_values(|c2: Comment| c2@) =~= s.subrange(0, i + 1 as int).filter(
                        child_pred(comment_id),
                    ));
                }
            }
            i = i + 1;
        }
        proof {
            assert(s.subrange(0, s.len() as int) =~= s);
        }
        r
    }
}

} // verus!
