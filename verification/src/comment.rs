//! Comments: entries of the global append-only discussion log.

use vstd::prelude::*;

use crate::vote::clone_votes;
use crate::vote::Vote;
use crate::vote::VoteModel;

verus! {

/// One entry of the comment log. Its `id` is assigned as the length of the
/// log at append time, so ids are dense, zero-based and never reused. Once
/// appended, a comment's text and attribution are immutable.
#[derive(Debug)]
pub struct Comment {
    pub id: u64,
    pub author_id: String,
    pub timestamp: u64,
    pub content: String,
    pub votes: Vec<Vote>,
}

/// Mathematical model of a `Comment`.
#[verifier::ext_equal]
pub struct CommentModel {
    pub id: u64,
    pub author_id: Seq<char>,
    pub timestamp: u64,
    pub content: Seq<char>,
    pub votes: Seq<VoteModel>,
}

impl View for Comment {
    type V = CommentModel;

    open spec fn view(&self) -> CommentModel {
        CommentModel {
            id: self.id,
            author_id: self.author_id@,
            timestamp: self.timestamp,
            content: self.content@,
            votes: self.votes.deep_view(),
        }
    }
}

impl DeepView for Comment {
    type V = CommentModel;

    open spec fn deep_view(&self) -> CommentModel {
        self.view()
    }
}

impl Clone for Comment {
    fn clone(&self) -> (res: Self)
        ensures
            res@ == self@,
    {
        let res = Comment {
            id: self.id,
            author_id: self.author_id.clone(),
            timestamp: self.timestamp,
            content: self.content.clone(),
            votes: clone_votes(&self.votes),
        };
        assert(res@.votes =~= self@.votes);
        res
    }
}

} // verus!
