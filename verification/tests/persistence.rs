//! Saving and loading: a registry decomposed through its read surface and
//! rebuilt with `from_parts` behaves like the one it was taken from, and
//! structurally broken parts are refused.

use sourcescan::Comment;
use sourcescan::SourceScan;
use sourcescan::SourceScanError;
use sourcescan::VerifiedContract;
use sourcescan::Vote;
use sourcescan::VoteType;

fn owner() -> String {
    "owner.testnet".to_string()
}

fn populated() -> SourceScan {
    let mut contract = SourceScan::new(owner());
    for name in ["app1.testnet", "app2.testnet"] {
        contract
            .set_contract(
                owner(),
                name.to_string(),
                "cid".to_string(),
                "code_hash".to_string(),
                "lang".to_string(),
                "entry_point".to_string(),
                "builder_image".to_string(),
                None,
            )
            .unwrap();
    }
    contract
        .add_vote("voter.testnet".to_string(), "app1.testnet".to_string(), 5, true)
        .unwrap();
    contract
        .add_comment("voter.testnet".to_string(), "app2.testnet".to_string(), 6, "hi".to_string())
        .unwrap();
    contract
}

fn decompose(contract: &SourceScan) -> (String, Vec<(String, VerifiedContract)>, Vec<Comment>) {
    let (entries, _) = contract.get_contracts(0, usize::MAX).unwrap();
    let mut comments = Vec::new();
    let mut id: u64 = 0;
    while let Ok(c) = contract.get_comment(id) {
        comments.push(c);
        id += 1;
    }
    (contract.get_owner(), entries, comments)
}

#[test]
fn count_tracks_registrations_and_purges() {
    let mut contract = populated();
    assert_eq!(contract.count(), 2);
    contract.purge_contract(owner(), "app1.testnet".to_string()).unwrap();
    assert_eq!(contract.count(), 1);
}

#[test]
fn get_comment_resolves_assigned_ids_only() {
    let contract = populated();
    let comment = contract.get_comment(0).unwrap();
    assert_eq!(comment.id, 0);
    assert_eq!(comment.content, "hi");
    assert!(matches!(contract.get_comment(1), Err(SourceScanError::NotFound)));
}

#[test]
fn from_parts_round_trip_preserves_behaviour() {
    let contract = populated();
    let (owner_id, entries, comments) = decompose(&contract);
    let rebuilt = SourceScan::from_parts(owner_id, entries, comments).unwrap();

    assert_eq!(rebuilt.get_owner(), contract.get_owner());
    assert_eq!(rebuilt.count(), contract.count());
    let rec = rebuilt.get_contract("app1.testnet".to_string()).unwrap();
    assert_eq!(rec.votes.len(), 1);
    assert!(matches!(rec.votes[0].vote_type, VoteType::Upvote));
    let comments = rebuilt.get_comments("app2.testnet".to_string()).unwrap();
    assert_eq!(comments.len(), 1);
    assert_eq!(comments[0].content, "hi");
}

#[test]
fn from_parts_refuses_duplicate_keys() {
    let contract = populated();
    let (owner_id, mut entries, comments) = decompose(&contract);
    let copy_key = entries[0].0.clone();
    let (_, dup) = &entries[0];
    let dup = VerifiedContract {
        cid: dup.cid.clone(),
        lang: dup.lang.clone(),
        entry_point: dup.entry_point.clone(),
        code_hash: dup.code_hash.clone(),
        builder_image: dup.builder_image.clone(),
        github: None,
        votes: Vec::new(),
        comments: Vec::new(),
    };
    entries.push((copy_key, dup));
    let rebuilt = SourceScan::from_parts(owner_id, entries, comments);
    assert!(matches!(rebuilt, Err(SourceScanError::InvalidArgument)));
}

#[test]
fn from_parts_refuses_broken_comment_links() {
    let contract = populated();
    let (owner_id, mut entries, comments) = decompose(&contract);
    entries[0].1.comments.push(99);
    let rebuilt = SourceScan::from_parts(owner_id, entries, comments);
    assert!(matches!(rebuilt, Err(SourceScanError::InvalidArgument)));
}

#[test]
fn from_parts_refuses_non_dense_comment_ids() {
    let contract = populated();
    let (owner_id, entries, mut comments) = decompose(&contract);
    comments[0].id = 7;
    let rebuilt = SourceScan::from_parts(owner_id, entries, comments);
    assert!(matches!(rebuilt, Err(SourceScanError::InvalidArgument)));
}

#[test]
fn from_parts_refuses_duplicate_vote_authors() {
    let contract = populated();
    let (owner_id, mut entries, comments) = decompose(&contract);
    entries[0].1.votes.push(Vote {
        author_id: "voter.testnet".to_string(),
        timestamp: 9,
        vote_type: VoteType::Downvote,
    });
    let rebuilt = SourceScan::from_parts(owner_id, entries, comments);
    assert!(matches!(rebuilt, Err(SourceScanError::InvalidArgument)));
}
