//! Votes: per-record engagement markers, at most one per author.

use vstd::prelude::*;

verus! {

/// The closed set of vote kinds.
#[derive(Clone, Copy, Debug, PartialEq, Eq, Structural)]
pub enum VoteType {
    Upvote,
    Downvote,
}

/// One author's vote on a record. A record holds at most one vote per
/// author: a later vote by the same author replaces kind and timestamp.
#[derive(Debug)]
pub struct Vote {
    pub author_id: String,
    pub timestamp: u64,
    pub vote_type: VoteType,
}

/// Mathematical model of a `Vote`.
#[verifier::ext_equal]
pub struct VoteModel {
    pub author_id: Seq<char>,
    pub timestamp: u64,
    pub vote_type: VoteType,
}

impl View for Vote {
    type V = VoteModel;

    open spec fn view(&self) -> VoteModel {
        VoteModel { author_id: self.author_id@, timestamp: self.timestamp, vote_type: self.vote_type }
    }
}

impl DeepView for Vote {
    type V = VoteModel;

    open spec fn deep_view(&self) -> VoteModel {
        self.view()
    }
}

impl Clone for Vote {
    fn clone(&self) -> (res: Self)
        ensures
            res@ == self@,
    {
        Vote {
            author_id: self.author_id.clone(),
            timestamp: self.timestamp,
            vote_type: self.vote_type,
        }
    }
}

/// Some vote in `votes` was cast by `author`.
pub open spec fn has_author(votes: Seq<VoteModel>, author: Seq<char>) -> bool {
    exists|i: int| 0 <= i < votes.len() && votes[i].author_id == author
}

/// Index of the first vote cast by `author`, or -1 if there is none.
pub open spec fn author_index(votes: Seq<VoteModel>, author: Seq<char>) -> int
    decreases votes.len(),
{
    if votes.len() == 0 {
        -1
    } else if votes[0].author_id == author {
        0
    } else {
        let rest = author_index(votes.subrange(1, votes.len() as int), author);
        if rest == -1 {
            -1
        } else {
            1 + rest
        }
    }
}

/// No two votes share an author: the set-like discipline of a record's votes.
pub open spec fn authors_unique(votes: Seq<VoteModel>) -> bool {
    forall|i: int, j: int|
        0 <= i < j < votes.len() ==> votes[i].author_id != votes[j].author_id
}

/// Result of one vote by `v.author_id`: a re-vote replaces that author's
/// entry in place; a first vote is appended.
pub open spec fn upsert_vote(votes: Seq<VoteModel>, v: VoteModel) -> Seq<VoteModel> {
    let i = author_index(votes, v.author_id);
    if i >= 0 {
        votes.update(i, v)
    } else {
        votes.push(v)
    }
}

/// `author_index` finds an author if and only if one of the votes is theirs,
/// and then points at the first such vote.
pub proof fn lemma_author_index(votes: Seq<VoteModel>, author: Seq<char>)
    ensures
        has_author(votes, author) <==> author_index(votes, author) >= 0,
        !has_author(votes, author) ==> author_index(votes, author) == -1,
        author_index(votes, author) >= 0 ==> {
            &&& author_index(votes, author) < votes.len()
            &&& votes[author_index(votes, author)].author_id == author
            &&& forall|j: int|
                0 <= j < author_index(votes, author) ==> votes[j].author_id != author
        },
    decreases votes.len(),
{
    if votes.len() > 0 && votes[0].author_id != author {
        let tail = votes.subrange(1, votes.len() as int);
        lemma_author_index(tail, author);
        if has_author(votes, author) {
            let w = choose|i: int| 0 <= i < votes.len() && votes[i].author_id == author;
            assert(tail[w - 1] == votes[w]);
        }
        if has_author(tail, author) {
            let w = choose|i: int| 0 <= i < tail.len() && tail[i].author_id == author;
            assert(votes[w + 1] == tail[w]);
        }
        if author_index(votes, author) >= 0 {
            assert forall|j: int| 0 <= j < author_index(votes, author) implies votes[j].author_id
                != author by {
                if j > 0 {
                    assert(votes[j] == tail[j - 1]);
                }
            }
        }
    }
}

/// At a position that holds the first vote by its author, `author_index`
/// returns exactly that position.
pub proof fn lemma_author_index_of(votes: Seq<VoteModel>, author: Seq<char>, i: int)
    requires
        0 <= i < votes.len(),
        votes[i].author_id == author,
        forall|j: int| 0 <= j < i ==> votes[j].author_id != author,
    ensures
        author_index(votes, author) == i,
    decreases votes.len(),
{
    if i > 0 {
        let tail = votes.subrange(1, votes.len() as int);
        assert(tail[i - 1] == votes[i]);
        assert forall|j: int| 0 <= j < i - 1 implies tail[j].author_id != author by {
            assert(tail[j] == votes[j + 1]);
        }
        lemma_author_index_of(tail, author, i - 1);
    }
}

/// LAW (re-vote replaces, never duplicates): one vote by an author leaves
/// exactly one vote by that author, carrying the kind and timestamp of that
/// vote; every other author's votes, and their order, are untouched, and the
/// vote count grows only when the author had not voted before.
pub proof fn lemma_upsert_vote(votes: Seq<VoteModel>, v: VoteModel)
    requires
        authors_unique(votes),
    ensures
        authors_unique(upsert_vote(votes, v)),
        has_author(upsert_vote(votes, v), v.author_id),
        upsert_vote(votes, v)[author_index(upsert_vote(votes, v), v.author_id)] == v,
        upsert_vote(votes, v).len() == if has_author(votes, v.author_id) {
            votes.len()
        } else {
            votes.len() + 1
        },
        forall|j: int|
            0 <= j < upsert_vote(votes, v).len() && #[trigger] upsert_vote(votes, v)[j].author_id
                != v.author_id ==> upsert_vote(votes, v)[j] == votes[j],
{
    lemma_author_index(votes, v.author_id);
    let i = author_index(votes, v.author_id);
    let out = upsert_vote(votes, v);
    if i >= 0 {
        assert forall|j: int| 0 <= j < i implies out[j].author_id != v.author_id by {
            assert(votes[j].author_id != v.author_id);
        }
        assert(out[i].author_id == v.author_id);
        lemma_author_index_of(out, v.author_id, i);
        assert(has_author(out, v.author_id));
    } else {
        assert forall|j: int| 0 <= j < votes.len() implies out[j].author_id != v.author_id by {
            assert(!has_author(votes, v.author_id));
        }
        assert(out[votes.len() as int].author_id == v.author_id);
        lemma_author_index_of(out, v.author_id, votes.len() as int);
        assert(has_author(out, v.author_id));
    }
}

/// LAW (distinct authors accumulate): a vote by an author not yet present
/// is exactly an append, so votes from distinct authors pile up one each.
pub proof fn lemma_upsert_vote_new_author(votes: Seq<VoteModel>, v: VoteModel)
    requires
        !has_author(votes, v.author_id),
    ensures
        upsert_vote(votes, v) == votes.push(v),
{
    lemma_author_index(votes, v.author_id);
}

/// Clones a vote list, element for element.
pub(crate) fn clone_votes(votes: &Vec<Vote>) -> (res: Vec<Vote>)
    ensures
        res.deep_view() =~= votes.deep_view(),
{
    let mut res: Vec<Vote> = Vec::new();
    let mut i: usize = 0;
    while i < votes.len()
        invariant
            i <= votes.len(),
            res@.len() == i,
            forall|k: int| 0 <= k < i ==> (#[trigger] res@[k])@ == votes@[k]@,
        decreases votes.len() - i,
    {
        res.push(votes[i].clone());
        i = i + 1;
    }
    proof {
        assert forall|k: int| 0 <= k < votes@.len() implies res.deep_view()[k]
            == votes.deep_view()[k] by {
            assert(res@[k]@ == votes@[k]@);
        }
    }
    res
}

/// Index of `author_id`'s vote in the list, if there is one.
fn find_vote(votes: &Vec<Vote>, author_id: &String) -> (res: Option<usize>)
    ensures
        match res {
            Some(i) => (i as int) < votes.deep_view().len() && author_index(
                votes.deep_view(),
                author_id@,
            ) == i as int && has_author(votes.deep_view(), author_id@),
            None => !has_author(votes.deep_view(), author_id@),
        },
{
    let mut i: usize = 0;
    while i < votes.len()
        invariant
            i <= votes@.len(),
            forall|j: int| 0 <= j < i ==> (#[trigger] votes.deep_view()[j]).author_id
                != author_id@,
        decreases votes@.len() - i,
    {
        if votes[i].author_id == *author_id {
            proof {
                assert(votes.deep_view()[i as int].author_id == author_id@);
                lemma_author_index_of(votes.deep_view(), author_id@, i as int);
            }
            return Some(i);
        }
        proof {
            assert(votes.deep_view()[i as int].author_id == votes@[i as int].author_id@);
        }
        i = i + 1;
    }
    None
}

/// Applies one vote to a vote list, as `upsert_vote` describes: the
/// author's existing entry is replaced in place, a first vote is appended.
pub(crate) fn apply_vote(votes: &Vec<Vote>, author_id: String, timestamp: u64, vote_type: VoteType) -> (res:
    Vec<Vote>)
    ensures
        res.deep_view() == upsert_vote(
            votes.deep_view(),
            VoteModel { author_id: author_id@, timestamp, vote_type },
        ),
{
    let ghost v = VoteModel { author_id: author_id@, timestamp, vote_type };
    let ghost dv = votes.deep_view();
    let ghost target = upsert_vote(dv, v);
    let found = find_vote(votes, &author_id);
    let mut res = clone_votes(votes);
    let ghost pre = res;
    match found {
        Some(i) => {
            proof {
                assert(target == dv.update(i as int, v));
            }
            res.set(i, Vote { author_id, timestamp, vote_type });
            proof {
                assert forall|k: int| 0 <= k < res@.len() implies res.deep_view()[k]
                    == target[k] by {
                    if k == i as int {
                        assert(res@[k]@ == v);
                        assert(target[k] == v);
                    } else {
                        assert(res@[k] == pre@[k]);
                        assert(pre.deep_view()[k] == dv[k]);
                        assert(target[k] == dv[k]);
                    }
                }
                assert(res.deep_view() =~= target);
            }
        },
        None => {
            proof {
                crate::vote::lemma_author_index(dv, v.author_id);
                assert(target == dv.push(v));
            }
            res.push(Vote { author_id, timestamp, vote_type });
            proof {
                assert forall|k: int| 0 <= k < res@.len() implies res.deep_view()[k]
                    == target[k] by {
                    if k < pre@.len() {
                        assert(res@[k] == pre@[k]);
                        assert(pre.deep_view()[k] == dv[k]);
                        assert(target[k] == dv[k]);
                    } else {
                        assert(res@[k]@ == v);
                        assert(target[k] == v);
                    }
                }
                assert(res.deep_view() =~= target);
            }
        },
    }
    res
}

/// Whether no two votes in the list share an author.
pub(crate) fn votes_authors_unique(votes: &Vec<Vote>) -> (r: bool)
    ensures
        r == authors_unique(votes.deep_view()),
{
    let n = votes.len();
    let mut i: usize = 0;
    while i < n
        invariant
            n == votes@.len(),
            i <= n,
            forall|a: int, b: int|
                0 <= a < b < i ==> votes.deep_view()[a].author_id != votes.deep_view()[b].author_id,
        decreases n - i,
    {
        let mut j: usize = 0;
        while j < i
            invariant
                n == votes@.len(),
                j <= i < n,
                forall|a: int, b: int|
                    0 <= a < b < i ==> votes.deep_view()[a].author_id != votes.deep_view()[b].author_id,
                forall|a: int| 0 <= a < j ==> votes.deep_view()[a].author_id
                    != votes.deep_view()[i as int].author_id,
            decreases i - j,
        {
            if votes[j].author_id == votes[i].author_id {
                proof {
                    assert(votes.deep_view()[j as int].author_id
                        == votes.deep_view()[i as int].author_id);
                }
                return false;
            }
            proof {
                assert(votes.deep_view()[j as int].author_id == votes@[j as int].author_id@);
                assert(votes.deep_view()[i as int].author_id == votes@[i as int].author_id@);
            }
            j = j + 1;
        }
        i = i + 1;
    }
    true
}

/// LAW (re-vote replaces, composed): two votes by the same author leave the
/// record exactly as the later vote alone would have.
pub proof fn lemma_revote_replaces(votes: Seq<VoteModel>, v1: VoteModel, v2: VoteModel)
    requires
        authors_unique(votes),
        v1.author_id == v2.author_id,
    ensures
        upsert_vote(upsert_vote(votes, v1), v2) == upsert_vote(votes, v2),
{
    lemma_author_index(votes, v1.author_id);
    let i = author_index(votes, v1.author_id);
    let mid = upsert_vote(votes, v1);
    if i >= 0 {
        lemma_author_index_of(mid, v1.author_id, i);
        assert(upsert_vote(mid, v2) =~= upsert_vote(votes, v2));
    } else {
        assert forall|j: int| 0 <= j < votes.len() implies mid[j].author_id != v1.author_id by {
            assert(!has_author(votes, v1.author_id));
        }
        lemma_author_index_of(mid, v1.author_id, votes.len() as int);
        assert(upsert_vote(mid, v2) =~= upsert_vote(votes, v2));
    }
}

} // verus!
