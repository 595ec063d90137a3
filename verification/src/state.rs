//! Mathematical model of the registry as a whole, the transitions its
//! operations perform on it, and the invariant they preserve.

use vstd::prelude::*;

use crate::comment::CommentModel;
use crate::github::GithubModel;
use crate::verified_contract::ContractModel;
use crate::vote::authors_unique;
use crate::vote::upsert_vote;
use crate::vote::VoteModel;

verus! {

/// Model of the whole registry: the owner identity, the keyed record store
/// in its stable iteration order, and the global append-only comment log.
#[verifier::ext_equal]
pub struct StateModel {
    pub owner_id: Seq<char>,
    pub contracts: Seq<(Seq<char>, ContractModel)>,
    pub comments: Seq<CommentModel>,
}

/// The descriptive fields handed to a registration; everything a record
/// holds apart from its engagement history.
pub struct Descriptor {
    pub cid: Seq<char>,
    pub code_hash: Seq<char>,
    pub lang: Seq<char>,
    pub entry_point: Seq<char>,
    pub builder_image: Seq<char>,
    pub github: Option<GithubModel>,
}

/// Some entry of the store is keyed by `key`.
pub open spec fn has_key(cs: Seq<(Seq<char>, ContractModel)>, key: Seq<char>) -> bool {
    exists|i: int| 0 <= i < cs.len() && cs[i].0 == key
}

/// Index of the first entry keyed by `key`, or -1 if there is none.
pub open spec fn key_index(cs: Seq<(Seq<char>, ContractModel)>, key: Seq<char>) -> int
    decreases cs.len(),
{
    if cs.len() == 0 {
        -1
    } else if cs[0].0 == key {
        0
    } else {
        let rest = key_index(cs.subrange(1, cs.len() as int), key);
        if rest == -1 {
            -1
        } else {
            1 + rest
        }
    }
}

/// The record stored under `key`, where there is one.
pub open spec fn record_at(cs: Seq<(Seq<char>, ContractModel)>, key: Seq<char>) -> ContractModel {
    cs[key_index(cs, key)].1
}

/// Store keys (account identifiers) are unique.
pub open spec fn keys_unique(cs: Seq<(Seq<char>, ContractModel)>) -> bool {
    forall|i: int, j: int| 0 <= i < j < cs.len() ==> cs[i].0 != cs[j].0
}

/// Well-formedness of one record against a comment log of length
/// `n_comments`: its votes are one-per-author, and its comment ids are
/// valid log indices listed in append order.
pub open spec fn wf_contract(c: ContractModel, n_comments: nat) -> bool {
    &&& authors_unique(c.votes)
    &&& forall|i: int| 0 <= i < c.comments.len() ==> (#[trigger] c.comments[i]) < n_comments
    &&& forall|i: int, j: int| 0 <= i < j < c.comments.len() ==> c.comments[i] < c.comments[j]
}

/// The registry invariant: unique keys, well-formed records, and a comment
/// log whose ids are exactly the dense sequence 0, 1, 2, ...
pub open spec fn inv(s: StateModel) -> bool {
    &&& keys_unique(s.contracts)
    &&& s.comments.len() <= u64::MAX
    &&& forall|i: int|
        0 <= i < s.contracts.len() ==> wf_contract(
            (#[trigger] s.contracts[i]).1,
            s.comments.len(),
        )
    &&& forall|i: int| 0 <= i < s.comments.len() ==> (#[trigger] s.comments[i]).id == i
    &&& forall|i: int| 0 <= i < s.comments.len() ==> authors_unique(#[trigger] s.comments[i].votes)
}

/// Result of registering `key` with fields `d`: a fresh record keeps empty
/// engagement history; re-registration replaces the descriptive fields in
/// place and carries votes and comment ids forward unchanged.
pub open spec fn upserted(s: StateModel, key: Seq<char>, d: Descriptor) -> StateModel {
    let fresh = !has_key(s.contracts, key);
    let prior_votes = if fresh { Seq::<VoteModel>::empty() } else { record_at(s.contracts, key).votes };
    let prior_comments = if fresh { Seq::<u64>::empty() } else { record_at(s.contracts, key).comments };
    let rec = ContractModel {
        cid: d.cid,
        lang: d.lang,
        entry_point: d.entry_point,
        code_hash: d.code_hash,
        builder_image: d.builder_image,
        github: d.github,
        votes: prior_votes,
        comments: prior_comments,
    };
    let contracts = if fresh {
        s.contracts.push((key, rec))
    } else {
        s.contracts.update(key_index(s.contracts, key), (key, rec))
    };
    StateModel { contracts, ..s }
}

/// Result of purging `key`: the entry leaves the store if present, and
/// nothing else changes. Log entries the record referenced stay in the log
/// (they merely become unreachable from that account), and purging an
/// absent key is a no-op, not an error.
pub open spec fn purged(s: StateModel, key: Seq<char>) -> StateModel {
    if has_key(s.contracts, key) {
        StateModel { contracts: s.contracts.remove(key_index(s.contracts, key)), ..s }
    } else {
        s
    }
}

/// Result of vote `v` landing on the record keyed by `key` (which must
/// exist): that record's votes are upserted by author, all else unchanged.
pub open spec fn voted(s: StateModel, key: Seq<char>, v: VoteModel) -> StateModel {
    let ki = key_index(s.contracts, key);
    let rec = s.contracts[ki].1;
    let rec2 = ContractModel { votes: upsert_vote(rec.votes, v), ..rec };
    StateModel { contracts: s.contracts.update(ki, (key, rec2)), ..s }
}

/// Result of a comment on the record keyed by `key` (which must exist):
/// the log grows by one entry whose id is the old log length, and that id
/// is appended to the record's comment ids.
pub open spec fn commented(
    s: StateModel,
    key: Seq<char>,
    author: Seq<char>,
    timestamp: u64,
    content: Seq<char>,
) -> StateModel {
    let id = s.comments.len() as u64;
    let c = CommentModel {
        id,
        author_id: author,
        timestamp,
        content,
        votes: Seq::<VoteModel>::empty(),
    };
    let ki = key_index(s.contracts, key);
    let rec = s.contracts[ki].1;
    let rec2 = ContractModel { comments: rec.comments.push(id), ..rec };
    StateModel {
        contracts: s.contracts.update(ki, (key, rec2)),
        comments: s.comments.push(c),
        ..s
    }
}

/// `key_index` finds a key if and only if some entry carries it, and then
/// points at the first such entry.
pub proof fn lemma_key_index(cs: Seq<(Seq<char>, ContractModel)>, key: Seq<char>)
    ensures
        has_key(cs, key) <==> key_index(cs, key) >= 0,
        !has_key(cs, key) ==> key_index(cs, key) == -1,
        key_index(cs, key) >= 0 ==> {
            &&& key_index(cs, key) < cs.len()
            &&& cs[key_index(cs, key)].0 == key
            &&& forall|j: int| 0 <= j < key_index(cs, key) ==> cs[j].0 != key
        },
    decreases cs.len(),
{
    if cs.len() > 0 && cs[0].0 != key {
        let tail = cs.subrange(1, cs.len() as int);
        lemma_key_index(tail, key);
        if has_key(cs, key) {
            let w = choose|i: int| 0 <= i < cs.len() && cs[i].0 == key;
            assert(tail[w - 1] == cs[w]);
        }
        if has_key(tail, key) {
            let w = choose|i: int| 0 <= i < tail.len() && tail[i].0 == key;
            assert(cs[w + 1] == tail[w]);
        }
        if key_index(cs, key) >= 0 {
            assert forall|j: int| 0 <= j < key_index(cs, key) implies cs[j].0 != key by {
                if j > 0 {
                    assert(cs[j] == tail[j - 1]);
                }
            }
        }
    }
}

/// At a position that holds the first entry with its key, `key_index`
/// returns exactly that position.
pub proof fn lemma_key_index_of(cs: Seq<(Seq<char>, ContractModel)>, key: Seq<char>, i: int)
    requires
        0 <= i < cs.len(),
        cs[i].0 == key,
        forall|j: int| 0 <= j < i ==> cs[j].0 != key,
    ensures
        key_index(cs, key) == i,
    decreases cs.len(),
{
    if i > 0 {
        let tail = cs.subrange(1, cs.len() as int);
        assert(tail[i - 1] == cs[i]);
        assert forall|j: int| 0 <= j < i - 1 implies tail[j].0 != key by {
            assert(tail[j] == cs[j + 1]);
        }
        lemma_key_index_of(tail, key, i - 1);
    }
}

/// With unique keys, updating an entry in place leaves `key_index`
/// pointing wherever it pointed before, for every key.
pub proof fn lemma_key_index_update(
    cs: Seq<(Seq<char>, ContractModel)>,
    i: int,
    rec: ContractModel,
)
    requires
        keys_unique(cs),
        0 <= i < cs.len(),
    ensures
        keys_unique(cs.update(i, (cs[i].0, rec))),
        forall|key: Seq<char>|
            #[trigger] key_index(cs.update(i, (cs[i].0, rec)), key) == key_index(cs, key),
{
    let cs2 = cs.update(i, (cs[i].0, rec));
    assert forall|a: int, b: int| 0 <= a < b < cs2.len() implies cs2[a].0 != cs2[b].0 by {
        assert(cs2[a].0 == cs[a].0 && cs2[b].0 == cs[b].0);
    }
    assert forall|key: Seq<char>|
        #[trigger] key_index(cs2, key) == key_index(cs, key) by {
        lemma_key_index(cs, key);
        lemma_key_index(cs2, key);
        if has_key(cs, key) {
            let w = key_index(cs, key);
            assert(cs2[w].0 == cs[w].0);
            assert forall|j: int| 0 <= j < w implies cs2[j].0 != key by {
                assert(cs2[j].0 == cs[j].0);
            }
            lemma_key_index_of(cs2, key, w);
        } else {
            if has_key(cs2, key) {
                let w = choose|j: int| 0 <= j < cs2.len() && cs2[j].0 == key;
                assert(cs[w].0 == cs2[w].0);
                assert(cs[w].0 == key);
                assert(has_key(cs, key));
            }
            assert(key_index(cs, key) == -1 && key_index(cs2, key) == -1);
        }
    }
}

/// In a sequence where each element is below its successor, any earlier
/// element is below any later one.
pub proof fn lemma_adjacent_increasing(ids: Seq<u64>, i: int, j: int)
    requires
        forall|k: int| 0 <= k < ids.len() - 1 ==> (#[trigger] ids[k]) < ids[k + 1],
        0 <= i < j < ids.len(),
    ensures
        ids[i] < ids[j],
    decreases j - i,
{
    if j > i + 1 {
        lemma_adjacent_increasing(ids, i, j - 1);
    }
}

/// LAW (idempotent re-registration): registering the same fields twice
/// leaves exactly the state one registration leaves; the identifier then
/// holds a record, and that record's votes and comment ids equal what the
/// identifier held before any of it (empty for a fresh identifier), so an
/// overwrite never resets engagement history.
pub proof fn lemma_reregistration_idempotent(s: StateModel, key: Seq<char>, d: Descriptor)
    requires
        inv(s),
    ensures
        upserted(upserted(s, key, d), key, d) == upserted(s, key, d),
        has_key(upserted(s, key, d).contracts, key),
        record_at(upserted(s, key, d).contracts, key).votes == if has_key(s.contracts, key) {
            record_at(s.contracts, key).votes
        } else {
            Seq::<VoteModel>::empty()
        },
        record_at(upserted(s, key, d).contracts, key).comments == if has_key(s.contracts, key) {
            record_at(s.contracts, key).comments
        } else {
            Seq::<u64>::empty()
        },
{
    lemma_key_index(s.contracts, key);
    let s1 = upserted(s, key, d);
    if has_key(s.contracts, key) {
        let ki = key_index(s.contracts, key);
        lemma_key_index_update(s.contracts, ki, s1.contracts[ki].1);
        assert(s1.contracts == s.contracts.update(ki, (s.contracts[ki].0, s1.contracts[ki].1)));
        assert(key_index(s1.contracts, key) == ki);
        assert(s1.contracts[ki].0 == key);
        assert(has_key(s1.contracts, key));
        let s2 = upserted(s1, key, d);
        assert(s2.contracts =~= s1.contracts);
        assert(s2 =~= s1);
    } else {
        assert forall|j: int| 0 <= j < s.contracts.len() implies s1.contracts[j].0 != key by {
            assert(s1.contracts[j] == s.contracts[j]);
            assert(!has_key(s.contracts, key));
        }
        let n = s.contracts.len() as int;
        assert(s1.contracts[n].0 == key);
        lemma_key_index_of(s1.contracts, key, n);
        assert(has_key(s1.contracts, key));
        let s2 = upserted(s1, key, d);
        assert(s2.contracts =~= s1.contracts);
        assert(s2 =~= s1);
    }
}

/// LAW (re-vote replaces, on the registry): two votes by the same author
/// on the same record leave the registry exactly as the later vote alone
/// would have.
pub proof fn lemma_revote_replaces_record(
    s: StateModel,
    key: Seq<char>,
    v1: VoteModel,
    v2: VoteModel,
)
    requires
        inv(s),
        has_key(s.contracts, key),
        v1.author_id == v2.author_id,
    ensures
        voted(voted(s, key, v1), key, v2) == voted(s, key, v2),
{
    lemma_key_index(s.contracts, key);
    let ki = key_index(s.contracts, key);
    let s1 = voted(s, key, v1);
    lemma_key_index_update(s.contracts, ki, s1.contracts[ki].1);
    assert(s1.contracts == s.contracts.update(ki, (s.contracts[ki].0, s1.contracts[ki].1)));
    assert(key_index(s1.contracts, key) == ki);
    crate::vote::lemma_revote_replaces(s.contracts[ki].1.votes, v1, v2);
    assert(voted(s1, key, v2).contracts =~= voted(s, key, v2).contracts);
    assert(voted(s1, key, v2) =~= voted(s, key, v2));
}

/// LAW (distinct authors accumulate, on the registry): a vote by an author
/// who has not voted on the record before appends exactly one entry to
/// that record's votes.
pub proof fn lemma_new_author_accumulates(s: StateModel, key: Seq<char>, v: VoteModel)
    requires
        inv(s),
        has_key(s.contracts, key),
        !crate::vote::has_author(record_at(s.contracts, key).votes, v.author_id),
    ensures
        record_at(voted(s, key, v).contracts, key).votes == record_at(
            s.contracts,
            key,
        ).votes.push(v),
{
    lemma_key_index(s.contracts, key);
    let ki = key_index(s.contracts, key);
    let s1 = voted(s, key, v);
    lemma_key_index_update(s.contracts, ki, s1.contracts[ki].1);
    assert(s1.contracts == s.contracts.update(ki, (s.contracts[ki].0, s1.contracts[ki].1)));
    assert(key_index(s1.contracts, key) == ki);
    crate::vote::lemma_upsert_vote_new_author(record_at(s.contracts, key).votes, v);
}

/// LAW (comment id density): under the invariant the log's ids are exactly
/// the dense range 0 .. log length: position `i` carries id `i`, and every
/// id below the length is present. Purging a record, any record, leaves
/// the log untouched, so an id, once assigned, is never freed for reuse.
pub proof fn lemma_comment_ids_dense(s: StateModel)
    requires
        inv(s),
    ensures
        forall|i: int| 0 <= i < s.comments.len() ==> (#[trigger] s.comments[i]).id == i,
        forall|key: Seq<char>| (#[trigger] purged(s, key)).comments == s.comments,
{
}

/// Registration preserves the registry invariant.
pub proof fn lemma_upserted_preserves_inv(s: StateModel, key: Seq<char>, d: Descriptor)
    requires
        inv(s),
    ensures
        inv(upserted(s, key, d)),
{
    lemma_key_index(s.contracts, key);
    let s2 = upserted(s, key, d);
    if has_key(s.contracts, key) {
        let ki = key_index(s.contracts, key);
        lemma_key_index_update(s.contracts, ki, s2.contracts[ki].1);
        assert(s2.contracts == s.contracts.update(ki, (s.contracts[ki].0, s2.contracts[ki].1)));
        assert forall|i: int| 0 <= i < s2.contracts.len() implies wf_contract(
            (#[trigger] s2.contracts[i]).1,
            s2.comments.len(),
        ) by {
            if i != ki {
                assert(s2.contracts[i] == s.contracts[i]);
            }
        }
    } else {
        assert forall|i: int, j: int| 0 <= i < j < s2.contracts.len() implies s2.contracts[i].0
            != s2.contracts[j].0 by {
            if j < s.contracts.len() {
                assert(s2.contracts[i] == s.contracts[i] && s2.contracts[j] == s.contracts[j]);
            } else {
                assert(s2.contracts[j].0 == key);
                assert(s2.contracts[i] == s.contracts[i]);
                assert(!has_key(s.contracts, key));
            }
        }
        assert forall|i: int| 0 <= i < s2.contracts.len() implies wf_contract(
            (#[trigger] s2.contracts[i]).1,
            s2.comments.len(),
        ) by {
            if i < s.contracts.len() {
                assert(s2.contracts[i] == s.contracts[i]);
            }
        }
    }
}

/// Purging preserves the registry invariant.
pub proof fn lemma_purged_preserves_inv(s: StateModel, key: Seq<char>)
    requires
        inv(s),
    ensures
        inv(purged(s, key)),
{
    lemma_key_index(s.contracts, key);
    if has_key(s.contracts, key) {
        let ki = key_index(s.contracts, key);
        let cs2 = s.contracts.remove(ki);
        assert forall|i: int, j: int| 0 <= i < j < cs2.len() implies cs2[i].0 != cs2[j].0 by {
            let a = if i < ki { i } else { i + 1 };
            let b = if j < ki { j } else { j + 1 };
            assert(cs2[i] == s.contracts[a] && cs2[j] == s.contracts[b]);
        }
        assert forall|i: int| 0 <= i < cs2.len() implies wf_contract(
            (#[trigger] cs2[i]).1,
            s.comments.len(),
        ) by {
            let a = if i < ki { i } else { i + 1 };
            assert(cs2[i] == s.contracts[a]);
        }
    }
}

/// A vote on an existing record preserves the registry invariant.
pub proof fn lemma_voted_preserves_inv(s: StateModel, key: Seq<char>, v: VoteModel)
    requires
        inv(s),
        has_key(s.contracts, key),
    ensures
        inv(voted(s, key, v)),
{
    lemma_key_index(s.contracts, key);
    let ki = key_index(s.contracts, key);
    let s2 = voted(s, key, v);
    crate::vote::lemma_upsert_vote(s.contracts[ki].1.votes, v);
    lemma_key_index_update(s.contracts, ki, s2.contracts[ki].1);
    assert(s2.contracts == s.contracts.update(ki, (s.contracts[ki].0, s2.contracts[ki].1)));
    assert forall|i: int| 0 <= i < s2.contracts.len() implies wf_contract(
        (#[trigger] s2.contracts[i]).1,
        s2.comments.len(),
    ) by {
        if i != ki {
            assert(s2.contracts[i] == s.contracts[i]);
        }
    }
}

/// A comment on an existing record preserves the registry invariant.
pub proof fn lemma_commented_preserves_inv(
    s: StateModel,
    key: Seq<char>,
    author: Seq<char>,
    timestamp: u64,
    content: Seq<char>,
)
    requires
        inv(s),
        has_key(s.contracts, key),
        s.comments.len() < u64::MAX,
    ensures
        inv(commented(s, key, author, timestamp, content)),
{
    lemma_key_index(s.contracts, key);
    let ki = key_index(s.contracts, key);
    let s2 = commented(s, key, author, timestamp, content);
    lemma_key_index_update(s.contracts, ki, s2.contracts[ki].1);
    assert(s2.contracts == s.contracts.update(ki, (s.contracts[ki].0, s2.contracts[ki].1)));
    assert forall|i: int| 0 <= i < s2.contracts.len() implies wf_contract(
        (#[trigger] s2.contracts[i]).1,
        s2.comments.len(),
    ) by {
        if i != ki {
            assert(s2.contracts[i] == s.contracts[i]);
            assert(wf_contract(s.contracts[i].1, s.comments.len()));
        } else {
            let old_ids = s.contracts[ki].1.comments;
            let new_ids = s2.contracts[ki].1.comments;
            assert(new_ids == old_ids.push(s.comments.len() as u64));
            assert forall|a: int, b: int| 0 <= a < b < new_ids.len() implies new_ids[a]
                < new_ids[b] by {
                if b < old_ids.len() {
                    assert(new_ids[a] == old_ids[a] && new_ids[b] == old_ids[b]);
                } else {
                    assert(new_ids[b] == s.comments.len() as u64);
                    assert(new_ids[a] == old_ids[a]);
                    assert(old_ids[a] < s.comments.len());
                }
            }
        }
    }
    assert forall|i: int| 0 <= i < s2.comments.len() implies (#[trigger] s2.comments[i]).id
        == i by {
        if i < s.comments.len() {
            assert(s2.comments[i] == s.comments[i]);
        }
    }
    assert forall|i: int| 0 <= i < s2.comments.len() implies authors_unique(
        #[trigger] s2.comments[i].votes,
    ) by {
        if i < s.comments.len() {
            assert(s2.comments[i] == s.comments[i]);
        }
    }
}

} // verus!
