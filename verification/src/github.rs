//! Structured reference to an external version-control location.

use vstd::prelude::*;

verus! {

/// A `{owner, repo, revision}` pointer to where the source of a verified
/// build lives.
#[derive(Debug)]
pub struct Github {
    pub owner: String,
    pub repo: String,
    pub sha: String,
}

/// Mathematical model of a `Github` reference.
#[verifier::ext_equal]
pub struct GithubModel {
    pub owner: Seq<char>,
    pub repo: Seq<char>,
    pub sha: Seq<char>,
}

impl View for Github {
    type V = GithubModel;

    open spec fn view(&self) -> GithubModel {
        GithubModel { owner: self.owner@, repo: self.repo@, sha: self.sha@ }
    }
}

impl DeepView for Github {
    type V = GithubModel;

    open spec fn deep_view(&self) -> GithubModel {
        self.view()
    }
}

impl Clone for Github {
    fn clone(&self) -> (res: Self)
        ensures
            res@ == self@,
    {
        Github { owner: self.owner.clone(), repo: self.repo.clone(), sha: self.sha.clone() }
    }
}

} // verus!
