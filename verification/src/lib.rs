//! An access-controlled registry mapping account identifiers to records of
//! verified builds, with per-record votes, a global append-only comment log,
//! and paginated, searchable read access.
//!
//! All mutating operations take the caller's identity explicitly; the host
//! environment that authenticates callers, persists the store and supplies
//! timestamps stays outside this crate.

use vstd::prelude::*;

pub mod comment;
pub mod github;
pub mod pager;
pub mod search;
pub mod state;
pub mod vote;
pub mod verified_contract;

pub use comment::Comment;
pub use github::Github;
pub use verified_contract::VerifiedContract;
pub use vote::Vote;
pub use vote::VoteType;

use crate::vote::clone_votes;
use crate::comment::CommentModel;
use crate::state::commented;
use crate::state::has_key;
use crate::state::inv;
use crate::state::key_index;
use crate::state::keys_unique;
use crate::state::lemma_commented_preserves_inv;
use crate::state::lemma_key_index;
use crate::state::lemma_key_index_of;
use crate::state::lemma_adjacent_increasing;
use crate::state::lemma_purged_preserves_inv;
use crate::state::lemma_upserted_preserves_inv;
use crate::state::lemma_voted_preserves_inv;
use crate::state::purged;
use crate::state::record_at;
use crate::state::upserted;
use crate::state::voted;
use crate::state::Descriptor;
use crate::state::StateModel;
use crate::pager::spec_page_count;
use crate::search::matches_key;
use crate::search::matching_entries;
use crate::pager::window;
use crate::pager::window_contracts;
use crate::verified_contract::clone_ids;
use crate::verified_contract::ContractModel;
use crate::vote::apply_vote;
use crate::vote::votes_authors_unique;
use crate::vote::VoteModel;

use vstd::arithmetic::div_mod::lemma_basic_div;
use vstd::arithmetic::div_mod::lemma_div_nonincreasing;
use vstd::arithmetic::div_mod::lemma_div_plus_one;

verus! {

/// Why an operation was refused. Every failed operation leaves the
/// registry exactly as it was.
#[derive(Clone, Copy, Debug, PartialEq, Eq, Structural)]
pub enum SourceScanError {
    /// The caller of an owner-gated operation is not the owner.
    Unauthorized,
    /// The account identifier or comment id named nothing.
    NotFound,
    /// An argument was rejected before any work (a zero page limit).
    InvalidArgument,
}

/// The registry: one designated owner identity, a keyed store of contract
/// records in a stable iteration order, and the global comment log.
pub struct SourceScan {
    owner_id: String,
    contracts: Vec<(String, VerifiedContract)>,
    comments: Vec<Comment>,
}

impl View for SourceScan {
    type V = StateModel;

    closed spec fn view(&self) -> StateModel {
        StateModel {
            owner_id: self.owner_id@,
            contracts: self.contracts.deep_view(),
            comments: self.comments.deep_view(),
        }
    }
}

impl SourceScan {
    /// The registry invariant, established by `new` and preserved by every
    /// operation.
    pub open spec fn wf(&self) -> bool {
        inv(self@)
    }

    /// Creates a fresh registry owned by `owner_id`, with no records and an
    /// empty comment log.
    pub fn new(owner_id: String) -> (res: Self)
        ensures
            res.wf(),
            res@.owner_id == owner_id@,
            res@.contracts == Seq::<(Seq<char>, ContractModel)>::empty(),
            res@.comments == Seq::<CommentModel>::empty(),
    {
        let res = SourceScan { owner_id, contracts: Vec::new(), comments: Vec::new() };
        proof {
            assert(res@.contracts =~= Seq::<(Seq<char>, ContractModel)>::empty());
            assert(res@.comments =~= Seq::<CommentModel>::empty());
        }
        res
    }

    /// The owner identity.
    pub fn get_owner(&self) -> (res: String)
        ensures
            res@ == self@.owner_id,
    {
        self.owner_id.clone()
    }

    /// Hands the registry to a new owner. Owner-gated: a caller other than
    /// the current owner is refused and nothing changes.
    pub fn set_owner(&mut self, caller: String, owner_id: String) -> (res: Result<
        (),
        SourceScanError,
    >)
        requires
            old(self).wf(),
        ensures
            final(self).wf(),
            caller@ != old(self)@.owner_id ==> res == Err::<(), SourceScanError>(
                SourceScanError::Unauthorized,
            ) && final(self)@ == old(self)@,
            caller@ == old(self)@.owner_id ==> res == Ok::<(), SourceScanError>(()) && final(self)@ == (StateModel { owner_id: owner_id@, ..old(self)@ }),
    {
        if !(caller == self.owner_id) {
            return Err(SourceScanError::Unauthorized);
        }
        self.owner_id = owner_id;
        Ok(())
    }

    /// Index of the entry keyed by `account_id`, if one is stored.
    fn find_contract(&self, account_id: &String) -> (res: Option<usize>)
        ensures
            match res {
                Some(i) => (i as int) < self@.contracts.len() && key_index(
                    self@.contracts,
                    account_id@,
                ) == i as int && self@.contracts[i as int].0 == account_id@ && has_key(
                    self@.contracts,
                    account_id@,
                ),
                None => !has_key(self@.contracts, account_id@),
            },
    {
        let mut i: usize = 0;
        while i < self.contracts.len()
            invariant
                i <= self.contracts@.len(),
                forall|j: int| 0 <= j < i ==> (#[trigger] self@.contracts[j]).0 != account_id@,
            decreases self.contracts@.len() - i,
        {
            if self.contracts[i].0 == *account_id {
                proof {
                    lemma_key_index_of(self@.contracts, account_id@, i as int);
                }
                return Some(i);
            }
            i = i + 1;
        }
        None
    }

    /// Point lookup: a copy of the record stored under `account_id`, or
    /// `None` when that identifier is unregistered.
    pub fn get_contract(&self, account_id: String) -> (res: Option<VerifiedContract>)
        ensures
            res is Some <==> has_key(self@.contracts, account_id@),
            res matches Some(c) ==> c@ == record_at(self@.contracts, account_id@),
    {
        match self.find_contract(&account_id) {
            Some(i) => Some(self.contracts[i].1.clone()),
            None => None,
        }
    }

    /// Registers (or re-registers) the record stored under `account_id`.
    /// Owner-gated. A first registration starts with no votes and no
    /// comments; a re-registration replaces every descriptive field and
    /// carries the record's votes and comment ids forward unchanged.
    pub fn set_contract(
        &mut self,
        caller: String,
        account_id: String,
        cid: String,
        code_hash: String,
        lang: String,
        entry_point: String,
        builder_image: String,
        github: Option<Github>,
    ) -> (res: Result<(), SourceScanError>)
        requires
            old(self).wf(),
        ensures
            final(self).wf(),
            caller@ != old(self)@.owner_id ==> res == Err::<(), SourceScanError>(
                SourceScanError::Unauthorized,
            ) && final(self)@ == old(self)@,
            caller@ == old(self)@.owner_id ==> res == Ok::<(), SourceScanError>(()) && final(self)@
                == upserted(
                old(self)@,
                account_id@,
                Descriptor {
                    cid: cid@,
                    code_hash: code_hash@,
                    lang: lang@,
                    entry_point: entry_point@,
                    builder_image: builder_image@,
                    github: github.deep_view(),
                },
            ),
    {
        if !(caller == self.owner_id) {
            return Err(SourceScanError::Unauthorized);
        }
        let ghost d = Descriptor {
            cid: cid@,
            code_hash: code_hash@,
            lang: lang@,
            entry_point: entry_point@,
            builder_image: builder_image@,
            github: github.deep_view(),
        };
        proof {
            lemma_upserted_preserves_inv(self@, account_id@, d);
            lemma_key_index(self@.contracts, account_id@);
        }
        match self.find_contract(&account_id) {
            Some(i) => {
                let votes = clone_votes(&self.contracts[i].1.votes);
                let comment_ids = clone_ids(&self.contracts[i].1.comments);
                let rec = VerifiedContract {
                    cid,
                    lang,
                    entry_point,
                    code_hash,
                    builder_image,
                    github,
                    votes,
                    comments: comment_ids,
                };
                self.contracts.set(i, (account_id, rec));
                proof {
                    let up = upserted(old(self)@, account_id@, d);
                    assert forall|k: int| 0 <= k < self@.contracts.len() implies self@.contracts[k]
                        == up.contracts[k] by {
                        if k == i as int {
                            assert(self@.contracts[k].1 =~~= up.contracts[k].1);
                        } else {
                            assert(self.contracts@[k] == old(self).contracts@[k]);
                        }
                    }
                    assert(self@.contracts =~= up.contracts);
                    assert(self@ =~= up);
                }
            },
            None => {
                let rec = VerifiedContract {
                    cid,
                    lang,
                    entry_point,
                    code_hash,
                    builder_image,
                    github,
                    votes: Vec::new(),
                    comments: Vec::new(),
                };
                self.contracts.push((account_id, rec));
                proof {
                    let up = upserted(old(self)@, account_id@, d);
                    assert forall|k: int| 0 <= k < self@.contracts.len() implies self@.contracts[k]
                        == up.contracts[k] by {
                        if k == old(self)@.contracts.len() {
                            assert(self@.contracts[k].1 =~~= up.contracts[k].1);
                        } else {
                            assert(self.contracts@[k] == old(self).contracts@[k]);
                        }
                    }
                    assert(self@.contracts =~= up.contracts);
                    assert(self@ =~= up);
                }
            },
        }
        Ok(())
    }

    /// Records `caller`'s vote on the record stored under `account_id`:
    /// an upvote or a downvote, stamped with `timestamp`. A repeat vote by
    /// the same caller replaces their earlier one; votes by distinct
    /// callers accumulate. Voting is open to every caller, but only on a
    /// registered account identifier.
    pub fn add_vote(
        &mut self,
        caller: String,
        account_id: String,
        timestamp: u64,
        is_upvote: bool,
    ) -> (res: Result<(), SourceScanError>)
        requires
            old(self).wf(),
        ensures
            final(self).wf(),
            !has_key(old(self)@.contracts, account_id@) ==> res == Err::<(), SourceScanError>(
                SourceScanError::NotFound,
            ) && final(self)@ == old(self)@,
            has_key(old(self)@.contracts, account_id@) ==> res == Ok::<(), SourceScanError>(())
                && final(self)@ == voted(
                old(self)@,
                account_id@,
                VoteModel {
                    author_id: caller@,
                    timestamp,
                    vote_type: if is_upvote {
                        VoteType::Upvote
                    } else {
                        VoteType::Downvote
                    },
                },
            ),
    {
        let i = match self.find_contract(&account_id) {
            Some(i) => i,
            None => {
                return Err(SourceScanError::NotFound);
            },
        };
        let vote_type = if is_upvote {
            VoteType::Upvote
        } else {
            VoteType::Downvote
        };
        let ghost v = VoteModel { author_id: caller@, timestamp, vote_type };
        proof {
            lemma_voted_preserves_inv(self@, account_id@, v);
        }
        let new_votes = apply_vote(&self.contracts[i].1.votes, caller, timestamp, vote_type);
        let mut rec = self.contracts[i].1.clone();
        rec.votes = new_votes;
        self.contracts.set(i, (account_id, rec));
        proof {
            let tr = voted(old(self)@, account_id@, v);
            assert forall|k: int| 0 <= k < self@.contracts.len() implies self@.contracts[k]
                == tr.contracts[k] by {
                if k == i as int {
                    assert(self@.contracts[k].1 =~~= tr.contracts[k].1);
                } else {
                    assert(self.contracts@[k] == old(self).contracts@[k]);
                }
            }
            assert(self@.contracts =~= tr.contracts);
            assert(self@ =~= tr);
        }
        Ok(())
    }

    /// Appends `caller`'s comment to the global log, stamps it with
    /// `timestamp`, assigns it the next dense id, and links that id to the
    /// record stored under `account_id`. Commenting is open to every
    /// caller, but only on a registered account identifier.
    pub fn add_comment(
        &mut self,
        caller: String,
        account_id: String,
        timestamp: u64,
        content: String,
    ) -> (res: Result<(), SourceScanError>)
        requires
            old(self).wf(),
            old(self)@.comments.len() < u64::MAX,
        ensures
            final(self).wf(),
            !has_key(old(self)@.contracts, account_id@) ==> res == Err::<(), SourceScanError>(
                SourceScanError::NotFound,
            ) && final(self)@ == old(self)@,
            has_key(old(self)@.contracts, account_id@) ==> res == Ok::<(), SourceScanError>(())
                && final(self)@ == commented(old(self)@, account_id@, caller@, timestamp, content@),
    {
        let i = match self.find_contract(&account_id) {
            Some(i) => i,
            None => {
                return Err(SourceScanError::NotFound);
            },
        };
        proof {
            lemma_commented_preserves_inv(self@, account_id@, caller@, timestamp, content@);
        }
        let id: u64 = self.comments.len() as u64;
        let entry = Comment {
            id,
            author_id: caller,
            timestamp,
            content,
            votes: Vec::new(),
        };
        proof {
            assert(entry@.votes =~= Seq::<VoteModel>::empty());
        }
        self.comments.push(entry);
        let mut rec = self.contracts[i].1.clone();
        rec.comments.push(id);
        self.contracts.set(i, (account_id, rec));
        proof {
            let tr = commented(old(self)@, account_id@, caller@, timestamp, content@);
            assert forall|k: int| 0 <= k < self@.contracts.len() implies self@.contracts[k]
                == tr.contracts[k] by {
                if k == i as int {
                    assert(self@.contracts[k].1 =~~= tr.contracts[k].1);
                } else {
                    assert(self.contracts@[k] == old(self).contracts@[k]);
                }
            }
            assert(self@.contracts =~= tr.contracts);
            assert forall|k: int| 0 <= k < self@.comments.len() implies self@.comments[k]
                == tr.comments[k] by {
                if k < old(self)@.comments.len() {
                    assert(self.comments@[k] == old(self).comments@[k]);
                } else {
                    assert(self@.comments[k] =~= tr.comments[k]);
                }
            }
            assert(self@.comments =~= tr.comments);
            assert(self@ =~= tr);
        }
        Ok(())
    }

    /// The comments linked to the record stored under `account_id`, in the
    /// order they were appended: each comment id the record holds, resolved
    /// against the global log.
    pub fn get_comments(&self, account_id: String) -> (res: Result<Vec<Comment>, SourceScanError>)
        requires
            self.wf(),
        ensures
            !has_key(self@.contracts, account_id@) ==> res == Err::<Vec<Comment>, SourceScanError>(
                SourceScanError::NotFound,
            ),
            has_key(self@.contracts, account_id@) ==> (res matches Ok(v) && {
                let ids = record_at(self@.contracts, account_id@).comments;
                &&& v.deep_view().len() == ids.len()
                &&& forall|k: int|
                    0 <= k < ids.len() ==> #[trigger] v.deep_view()[k] == self@.comments[ids[k] as int]
            }),
    {
        let i = match self.find_contract(&account_id) {
            Some(i) => i,
            None => {
                return Err(SourceScanError::NotFound);
            },
        };
        let n = self.contracts[i].1.comments.len();
        let mut out: Vec<Comment> = Vec::new();
        let mut k: usize = 0;
        while k < n
            invariant
                self.wf(),
                (i as int) < self@.contracts.len(),
                n == self@.contracts[i as int].1.comments.len(),
                k <= n,
                out@.len() == k,
                forall|t: int|
                    0 <= t < k ==> #[trigger] out.deep_view()[t] == self@.comments[self@.contracts[i as int].1.comments[t] as int],
            decreases n - k,
        {
            proof {
                assert(crate::state::wf_contract(self@.contracts[i as int].1, self@.comments.len()));
            }
            let id = self.contracts[i].1.comments[k];
            let total = self.comments.len();
            proof {
                assert(id == self@.contracts[i as int].1.comments[k as int]);
                assert((id as int) < total as int);
            }
            let c = self.comments[id as usize].clone();
            let ghost pre = out;
            out.push(c);
            proof {
                assert forall|t: int| 0 <= t < out@.len() implies #[trigger] out.deep_view()[t]
                    == self@.comments[self@.contracts[i as int].1.comments[t] as int] by {
                    if t < pre@.len() {
                        assert(out@[t] == pre@[t]);
                        assert(pre.deep_view()[t] == self@.comments[self@.contracts[i as int].1.comments[t] as int]);
                    } else {
                        assert(out@[t] == c);
                    }
                }
            }
            k = k + 1;
        }
        Ok(out)
    }

    /// Number of pages needed to show `len` items at `limit` items per
    /// page: the rounding-up division. A zero `limit` is rejected by the
    /// callers before the division ever happens.
    pub fn get_pages(&self, len: u64, limit: u64) -> (res: u64)
        requires
            limit > 0,
        ensures
            res as int == spec_page_count(len as int, limit as int),
    {
        if len == 0 {
            proof {
                lemma_basic_div(limit as int - 1, limit as int);
            }
            0
        } else {
            proof {
                lemma_div_plus_one(len as int - 1, limit as int);
                lemma_div_nonincreasing(len as int - 1, limit as int);
                assert(limit as int + (len as int - 1) == len as int + limit as int - 1);
                assert((limit as int + (len as int - 1)) / (limit as int) == (len as int + limit
                    as int - 1) / (limit as int));
            }
            (len - 1) / limit + 1
        }
    }

    /// One page of the full listing, in the store's stable iteration
    /// order, together with the page count over the whole store. A zero
    /// `limit` is an `InvalidArgument`.
    pub fn get_contracts(&self, from_index: usize, limit: usize) -> (res: Result<
        (Vec<(String, VerifiedContract)>, u64),
        SourceScanError,
    >)
        ensures
            limit == 0 ==> res == Err::<(Vec<(String, VerifiedContract)>, u64), SourceScanError>(
                SourceScanError::InvalidArgument,
            ),
            limit > 0 ==> (res matches Ok(p) && p.0.deep_view() == window(
                self@.contracts,
                from_index as int,
                limit as int,
            ) && p.1 as int == spec_page_count(self@.contracts.len() as int, limit as int)),
    {
        if limit == 0 {
            return Err(SourceScanError::InvalidArgument);
        }
        let page = window_contracts(&self.contracts, from_index, limit);
        let pages = self.get_pages(self.contracts.len() as u64, limit as u64);
        Ok((page, pages))
    }

    /// One page of the entries whose identifier matches `key` (see
    /// `key_matches`: lowercased, environment suffixes stripped, substring
    /// compared), in the store's stable iteration order. The page count is
    /// computed over the whole filtered listing, the offset/limit window
    /// is applied after it. A zero `limit` is an `InvalidArgument`.
    pub fn search(&self, key: String, from_index: usize, limit: usize) -> (res: Result<
        (Vec<(String, VerifiedContract)>, u64),
        SourceScanError,
    >)
        ensures
            limit == 0 ==> res == Err::<(Vec<(String, VerifiedContract)>, u64), SourceScanError>(
                SourceScanError::InvalidArgument,
            ),
            limit > 0 ==> (res matches Ok(p) && p.0.deep_view() == window(
                matching_entries(self@.contracts, key@),
                from_index as int,
                limit as int,
            ) && p.1 as int == spec_page_count(
                matching_entries(self@.contracts, key@).len() as int,
                limit as int,
            )),
    {
        if limit == 0 {
            return Err(SourceScanError::InvalidArgument);
        }
        let mut matched: Vec<(String, VerifiedContract)> = Vec::new();
        let mut i: usize = 0;
        proof {
            assert(self@.contracts.take(0) =~= Seq::<(Seq<char>, ContractModel)>::empty());
            reveal(Seq::filter);
            assert(matched.deep_view() =~= matching_entries(self@.contracts.take(0), key@));
        }
        while i < self.contracts.len()
            invariant
                i <= self@.contracts.len(),
                matched.deep_view() == matching_entries(self@.contracts.take(i as int), key@),
            decreases self@.contracts.len() - i,
        {
            let ghost pre_take = self@.contracts.take(i as int);
            let ghost cur_take = self@.contracts.take(i as int + 1);
            let hit = matches_key(&self.contracts[i].0, &key);
            proof {
                assert(self.contracts@[i as int].0@ == self@.contracts[i as int].0);
                assert(cur_take.drop_last() =~= pre_take);
                assert(cur_take.last() == self@.contracts[i as int]);
                reveal(Seq::filter);
            }
            if hit {
                let entry = (self.contracts[i].0.clone(), self.contracts[i].1.clone());
                proof {
                    assert(entry.deep_view() == self@.contracts[i as int]);
                }
                let ghost pre = matched;
                matched.push(entry);
                proof {
                    assert forall|k: int| 0 <= k < matched@.len() implies matched.deep_view()[k]
                        == matching_entries(cur_take, key@)[k] by {
                        if k < pre@.len() {
                            assert(matched@[k] == pre@[k]);
                            assert(pre.deep_view()[k] == matching_entries(pre_take, key@)[k]);
                        }
                    }
                    assert(matched.deep_view() =~= matching_entries(cur_take, key@));
                }
            } else {
                proof {
                    assert(matching_entries(cur_take, key@) == matching_entries(pre_take, key@));
                }
            }
            i = i + 1;
        }
        proof {
            assert(self@.contracts.take(self@.contracts.len() as int) =~= self@.contracts);
        }
        let pages = self.get_pages(matched.len() as u64, limit as u64);
        let page = window_contracts(&matched, from_index, limit);
        proof {
            assert(page.deep_view() == window(
                matching_entries(self@.contracts, key@),
                from_index as int,
                limit as int,
            ));
        }
        Ok((page, pages))
    }

    /// Number of records the store holds.
    pub fn count(&self) -> (res: usize)
        ensures
            res == self@.contracts.len(),
    {
        self.contracts.len()
    }

    /// The comment with id `id` from the global log. An id is never
    /// invalidated once assigned, even after the record it was written for
    /// is purged; only an id the log has not reached yet is a `NotFound`.
    pub fn get_comment(&self, id: u64) -> (res: Result<Comment, SourceScanError>)
        ensures
            res is Ok <==> (id as int) < self@.comments.len(),
            res matches Ok(c) ==> c@ == self@.comments[id as int],
            res is Err ==> res == Err::<Comment, SourceScanError>(SourceScanError::NotFound),
    {
        if id < self.comments.len() as u64 {
            Ok(self.comments[id as usize].clone())
        } else {
            Err(SourceScanError::NotFound)
        }
    }

    /// Rebuilds a registry from raw parts, as a persistence layer hands
    /// them back after a save/load round trip. Every structural invariant
    /// is checked: unique store keys, one vote per author on each record
    /// and each comment, dense comment ids, and comment id lists that are
    /// increasing and within the log. Parts that violate any of them are
    /// refused, so a loaded registry is well-formed if and only if the
    /// store was.
    pub fn from_parts(
        owner_id: String,
        contracts: Vec<(String, VerifiedContract)>,
        comments: Vec<Comment>,
    ) -> (res: Result<Self, SourceScanError>)
        ensures
            ({
                let m = StateModel {
                    owner_id: owner_id@,
                    contracts: contracts.deep_view(),
                    comments: comments.deep_view(),
                };
                &&& (res matches Ok(s) ==> s.wf() && s@ == m)
                &&& (res is Ok <==> inv(m))
                &&& (res is Err ==> res == Err::<SourceScan, SourceScanError>(
                    SourceScanError::InvalidArgument,
                ))
            }),
    {
        let n = contracts.len();
        let mut i: usize = 0;
        while i < n
            invariant
                n == contracts@.len(),
                i <= n,
                forall|a: int, b: int|
                    0 <= a < b < i ==> contracts.deep_view()[a].0 != contracts.deep_view()[b].0,
            decreases n - i,
        {
            let mut j: usize = 0;
            while j < i
                invariant
                    n == contracts@.len(),
                    j <= i < n,
                    forall|a: int, b: int|
                        0 <= a < b < i ==> contracts.deep_view()[a].0 != contracts.deep_view()[b].0,
                    forall|a: int| 0 <= a < j ==> contracts.deep_view()[a].0
                        != contracts.deep_view()[i as int].0,
                decreases i - j,
            {
                if contracts[j].0 == contracts[i].0 {
                    proof {
                        assert(contracts.deep_view()[j as int].0
                            == contracts.deep_view()[i as int].0);
                        assert(!keys_unique(contracts.deep_view()));
                    }
                    return Err(SourceScanError::InvalidArgument);
                }
                proof {
                    assert(contracts.deep_view()[j as int].0 == contracts@[j as int].0@);
                    assert(contracts.deep_view()[i as int].0 == contracts@[i as int].0@);
                }
                j = j + 1;
            }
            i = i + 1;
        }
        let clen = comments.len();
        i = 0;
        while i < n
            invariant
                n == contracts@.len(),
                clen == comments@.len(),
                i <= n,
                forall|r: int|
                    0 <= r < i ==> crate::state::wf_contract(
                        (#[trigger] contracts.deep_view()[r]).1,
                        comments.deep_view().len(),
                    ),
            decreases n - i,
        {
            if !votes_authors_unique(&contracts[i].1.votes) {
                proof {
                    assert(contracts.deep_view()[i as int].1.votes
                        == contracts@[i as int].1.deep_view().votes);
                }
                return Err(SourceScanError::InvalidArgument);
            }
            if !ids_well_formed(&contracts[i].1.comments, clen as u64) {
                proof {
                    assert(contracts.deep_view()[i as int].1.comments
                        == contracts@[i as int].1.deep_view().comments);
                }
                return Err(SourceScanError::InvalidArgument);
            }
            proof {
                assert(crate::state::wf_contract(
                    contracts.deep_view()[i as int].1,
                    comments.deep_view().len(),
                ));
            }
            i = i + 1;
        }
        i = 0;
        while i < clen
            invariant
                clen == comments@.len(),
                i <= clen,
                forall|t: int| 0 <= t < i ==> (#[trigger] comments.deep_view()[t]).id == t,
                forall|t: int|
                    0 <= t < i ==> crate::vote::authors_unique(
                        (#[trigger] comments.deep_view()[t]).votes,
                    ),
            decreases clen - i,
        {
            if comments[i].id != i as u64 {
                proof {
                    assert(comments.deep_view()[i as int].id == comments@[i as int].id);
                }
                return Err(SourceScanError::InvalidArgument);
            }
            if !votes_authors_unique(&comments[i].votes) {
                proof {
                    assert(comments.deep_view()[i as int].votes
                        == comments@[i as int].deep_view().votes);
                }
                return Err(SourceScanError::InvalidArgument);
            }
            proof {
                assert(comments.deep_view()[i as int].id == comments@[i as int].id);
                assert(comments.deep_view()[i as int].votes
                    == comments@[i as int].deep_view().votes);
            }
            i = i + 1;
        }
        let res = SourceScan { owner_id, contracts, comments };
        proof {
            assert(inv(res@));
        }
        Ok(res)
    }

    /// Removes the record stored under `account_id`. Owner-gated. Purging
    /// an identifier with no record succeeds and changes nothing; comment
    /// log entries the record referenced stay in the log either way.
    pub fn purge_contract(&mut self, caller: String, account_id: String) -> (res: Result<
        (),
        SourceScanError,
    >)
        requires
            old(self).wf(),
        ensures
            final(self).wf(),
            caller@ != old(self)@.owner_id ==> res == Err::<(), SourceScanError>(
                SourceScanError::Unauthorized,
            ) && final(self)@ == old(self)@,
            caller@ == old(self)@.owner_id ==> res == Ok::<(), SourceScanError>(()) && final(self)@ == purged(old(self)@, account_id@),
    {
        if !(caller == self.owner_id) {
            return Err(SourceScanError::Unauthorized);
        }
        proof {
            lemma_purged_preserves_inv(self@, account_id@);
        }
        match self.find_contract(&account_id) {
            Some(i) => {
                self.contracts.remove(i);
                proof {
                    assert(self@.contracts =~= purged(old(self)@, account_id@).contracts);
                    assert(self@ =~= purged(old(self)@, account_id@));
                }
            },
            None => {
                proof {
                    assert(self@ =~= purged(old(self)@, account_id@));
                }
            },
        }
        Ok(())
    }
}

/// Whether a record's comment id list is well formed against a log of
/// length `bound`: every id below the bound, and the ids strictly
/// increasing (append order).
fn ids_well_formed(ids: &Vec<u64>, bound: u64) -> (r: bool)
    ensures
        r == ({
            &&& forall|t: int| 0 <= t < ids@.len() ==> (#[trigger] ids@[t]) < bound
            &&& forall|x: int, y: int| 0 <= x < y < ids@.len() ==> ids@[x] < ids@[y]
        }),
{
    let n = ids.len();
    let mut k: usize = 0;
    while k < n
        invariant
            n == ids@.len(),
            k <= n,
            forall|t: int| 0 <= t < k ==> (#[trigger] ids@[t]) < bound,
            forall|t: int| 0 <= t < k - 1 ==> (#[trigger] ids@[t]) < ids@[t + 1],
        decreases n - k,
    {
        if !(ids[k] < bound) {
            return false;
        }
        if k > 0 && !(ids[k - 1] < ids[k]) {
            return false;
        }
        k = k + 1;
    }
    proof {
        assert forall|x: int, y: int| 0 <= x < y < ids@.len() implies ids@[x] < ids@[y] by {
            lemma_adjacent_increasing(ids@, x, y);
        }
    }
    true
}

} // verus!
