//! The record kept for one registered account: descriptors of its verified
//! build, plus the engagement history attached to it.

use vstd::prelude::*;

use crate::vote::clone_votes;
use crate::github::Github;
use crate::github::GithubModel;
use crate::vote::Vote;
use crate::vote::VoteModel;

verus! {

/// A record describing a verified build of one account's deployed code.
/// The descriptive fields are replaced wholesale on re-registration, while
/// `votes` and `comments` (ids into the global comment log) are carried
/// forward unchanged.
#[derive(Debug)]
pub struct VerifiedContract {
    pub cid: String,
    pub lang: String,
    pub entry_point: String,
    pub code_hash: String,
    pub builder_image: String,
    pub github: Option<Github>,
    pub votes: Vec<Vote>,
    pub comments: Vec<u64>,
}

/// Mathematical model of a `VerifiedContract`.
#[verifier::ext_equal]
pub struct ContractModel {
    pub cid: Seq<char>,
    pub lang: Seq<char>,
    pub entry_point: Seq<char>,
    pub code_hash: Seq<char>,
    pub builder_image: Seq<char>,
    pub github: Option<GithubModel>,
    pub votes: Seq<VoteModel>,
    pub comments: Seq<u64>,
}

impl View for VerifiedContract {
    type V = ContractModel;

    open spec fn view(&self) -> ContractModel {
        ContractModel {
            cid: self.cid@,
            lang: self.lang@,
            entry_point: self.entry_point@,
            code_hash: self.code_hash@,
            builder_image: self.builder_image@,
            github: self.github.deep_view(),
            votes: self.votes.deep_view(),
            comments: self.comments@,
        }
    }
}

impl DeepView for VerifiedContract {
    type V = ContractModel;

    open spec fn deep_view(&self) -> ContractModel {
        self.view()
    }
}

impl Clone for VerifiedContract {
    fn clone(&self) -> (res: Self)
        ensures
            res@ == self@,
    {
        let github = match &self.github {
            Some(g) => Some(g.clone()),
            None => None,
        };
        let res = VerifiedContract {
            cid: self.cid.clone(),
            lang: self.lang.clone(),
            entry_point: self.entry_point.clone(),
            code_hash: self.code_hash.clone(),
            builder_image: self.builder_image.clone(),
            github,
            votes: clone_votes(&self.votes),
            comments: clone_ids(&self.comments),
        };
        assert(res@.votes =~= self@.votes);
        res
    }
}

/// Clones a list of comment ids, element for element.
pub(crate) fn clone_ids(ids: &Vec<u64>) -> (res: Vec<u64>)
    ensures
        res@ =~= ids@,
{
    let mut res: Vec<u64> = Vec::new();
    let mut i: usize = 0;
    while i < ids.len()
        invariant
            i <= ids.len(),
            res@ =~= ids@.take(i as int),
        decreases ids.len() - i,
    {
        res.push(ids[i]);
        i = i + 1;
    }
    res
}

} // verus!
