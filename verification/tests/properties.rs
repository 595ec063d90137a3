//! Concrete scenarios for the registry's stated properties: history kept
//! across overwrites, one vote per author, dense comment ids, page-count
//! arithmetic, search normalization, access control, and silent purges.

use sourcescan::Github;
use sourcescan::SourceScan;
use sourcescan::SourceScanError;
use sourcescan::VoteType;

fn owner() -> String {
    "owner.testnet".to_string()
}

fn register(contract: &mut SourceScan, account_id: &str) {
    contract
        .set_contract(
            owner(),
            account_id.to_string(),
            "cid".to_string(),
            "code_hash".to_string(),
            "lang".to_string(),
            "entry_point".to_string(),
            "builder_image".to_string(),
            None,
        )
        .unwrap();
}

#[test]
fn reregistration_preserves_history() {
    let mut contract = SourceScan::new(owner());
    register(&mut contract, "app.testnet");
    contract
        .add_vote("voter.testnet".to_string(), "app.testnet".to_string(), 7, true)
        .unwrap();
    contract
        .add_comment("voter.testnet".to_string(), "app.testnet".to_string(), 8, "nice".to_string())
        .unwrap();

    register(&mut contract, "app.testnet");
    register(&mut contract, "app.testnet");

    let (all, _) = contract.get_contracts(0, 10).unwrap();
    assert_eq!(all.len(), 1);
    let rec = contract.get_contract("app.testnet".to_string()).unwrap();
    assert_eq!(rec.votes.len(), 1);
    assert_eq!(rec.comments, vec![0]);
}

#[test]
fn revote_replaces_never_duplicates() {
    let mut contract = SourceScan::new(owner());
    register(&mut contract, "app.testnet");
    let voter = "voter.testnet".to_string();
    contract.add_vote(voter.clone(), "app.testnet".to_string(), 1, true).unwrap();
    contract.add_vote(voter.clone(), "app.testnet".to_string(), 2, false).unwrap();
    contract.add_vote(voter.clone(), "app.testnet".to_string(), 3, true).unwrap();

    let rec = contract.get_contract("app.testnet".to_string()).unwrap();
    assert_eq!(rec.votes.len(), 1);
    assert_eq!(rec.votes[0].author_id, voter);
    assert_eq!(rec.votes[0].timestamp, 3);
    assert!(matches!(rec.votes[0].vote_type, VoteType::Upvote));
}

#[test]
fn distinct_authors_accumulate() {
    let mut contract = SourceScan::new(owner());
    register(&mut contract, "app.testnet");
    for (i, voter) in ["a.testnet", "b.testnet", "c.testnet"].iter().enumerate() {
        contract
            .add_vote(voter.to_string(), "app.testnet".to_string(), i as u64, i % 2 == 0)
            .unwrap();
    }
    let rec = contract.get_contract("app.testnet".to_string()).unwrap();
    assert_eq!(rec.votes.len(), 3);
}

#[test]
fn comment_ids_stay_dense_across_purges() {
    let mut contract = SourceScan::new(owner());
    register(&mut contract, "one.testnet");
    register(&mut contract, "two.testnet");
    contract
        .add_comment("x.testnet".to_string(), "one.testnet".to_string(), 1, "first".to_string())
        .unwrap();
    contract
        .add_comment("y.testnet".to_string(), "two.testnet".to_string(), 2, "second".to_string())
        .unwrap();

    contract.purge_contract(owner(), "one.testnet".to_string()).unwrap();

    contract
        .add_comment("z.testnet".to_string(), "two.testnet".to_string(), 3, "third".to_string())
        .unwrap();

    let comments = contract.get_comments("two.testnet".to_string()).unwrap();
    assert_eq!(comments.len(), 2);
    assert_eq!(comments[0].id, 1);
    assert_eq!(comments[1].id, 2);
    assert_eq!(comments[0].content, "second");
    assert_eq!(comments[1].content, "third");
}

#[test]
fn page_count_examples() {
    let contract = SourceScan::new(owner());
    assert_eq!(contract.get_pages(3, 2), 2);
    assert_eq!(contract.get_pages(4, 2), 2);
    assert_eq!(contract.get_pages(0, 5), 0);
    assert_eq!(contract.get_pages(1, 1), 1);
    assert_eq!(contract.get_pages(10, 3), 4);
}

#[test]
fn search_pages_count_filtered_total() {
    let mut contract = SourceScan::new(owner());
    register(&mut contract, "app1.testnet");
    register(&mut contract, "app2.testnet");
    register(&mut contract, "app3.testnet");
    register(&mut contract, "other.testnet");

    let (page, pages) = contract.search("app".to_string(), 0, 2).unwrap();
    assert_eq!(page.len(), 2);
    assert_eq!(pages, 2);

    let (page2, pages2) = contract.search("app".to_string(), 2, 2).unwrap();
    assert_eq!(page2.len(), 1);
    assert_eq!(page2[0].0, "app3.testnet");
    assert_eq!(pages2, 2);
}

#[test]
fn search_normalizes_case_and_suffixes() {
    let mut contract = SourceScan::new(owner());
    register(&mut contract, "MyAccount.near");
    register(&mut contract, "plain.testnet");

    let (hits, _) = contract.search("MYACCOUNT".to_string(), 0, 10).unwrap();
    assert_eq!(hits.len(), 1);
    assert_eq!(hits[0].0, "MyAccount.near");

    // The suffix token is stripped before comparison, so a key naming it
    // does not match.
    let (none, _) = contract.search("testnet".to_string(), 0, 10).unwrap();
    assert_eq!(none.len(), 0);

    // An empty key matches every stored identifier.
    let (all, _) = contract.search(String::new(), 0, 10).unwrap();
    assert_eq!(all.len(), 2);
}

#[test]
fn unauthorized_mutations_leave_records_unchanged() {
    let mut contract = SourceScan::new(owner());
    register(&mut contract, "app.testnet");

    let intruder = "intruder.testnet".to_string();
    let refused = contract.set_contract(
        intruder.clone(),
        "app.testnet".to_string(),
        "evil".to_string(),
        "evil".to_string(),
        "evil".to_string(),
        "evil".to_string(),
        "evil".to_string(),
        Some(Github {
            owner: "evil".to_string(),
            repo: "evil".to_string(),
            sha: "evil".to_string(),
        }),
    );
    assert_eq!(refused, Err(SourceScanError::Unauthorized));
    assert_eq!(
        contract.purge_contract(intruder.clone(), "app.testnet".to_string()),
        Err(SourceScanError::Unauthorized)
    );
    assert_eq!(
        contract.set_owner(intruder.clone(), intruder.clone()),
        Err(SourceScanError::Unauthorized)
    );

    assert_eq!(contract.get_owner(), owner());
    let rec = contract.get_contract("app.testnet".to_string()).unwrap();
    assert_eq!(rec.cid, "cid");
    assert!(rec.github.is_none());
    let (all, _) = contract.get_contracts(0, 10).unwrap();
    assert_eq!(all.len(), 1);
}

#[test]
fn purge_of_absent_account_is_silent() {
    let mut contract = SourceScan::new(owner());
    register(&mut contract, "app.testnet");

    contract.purge_contract(owner(), "ghost.testnet".to_string()).unwrap();

    let (all, _) = contract.get_contracts(0, 10).unwrap();
    assert_eq!(all.len(), 1);
    assert_eq!(all[0].0, "app.testnet");
}

#[test]
fn listing_windows_follow_offset_and_limit() {
    let mut contract = SourceScan::new(owner());
    register(&mut contract, "a.testnet");
    register(&mut contract, "b.testnet");
    register(&mut contract, "c.testnet");

    let (page, pages) = contract.get_contracts(1, 1).unwrap();
    assert_eq!(page.len(), 1);
    assert_eq!(page[0].0, "b.testnet");
    assert_eq!(pages, 3);

    let (past_end, _) = contract.get_contracts(5, 2).unwrap();
    assert_eq!(past_end.len(), 0);
}
