//! The registry's end-to-end behaviour: ownership, registration,
//! engagement, listing and search.

use sourcescan::Github;
use sourcescan::SourceScan;
use sourcescan::SourceScanError;
use sourcescan::VoteType;

fn account(i: usize) -> String {
    let names = ["alice", "bob", "charlie", "danny", "eugene", "fargo"];
    names[i].to_string()
}

fn add_contract(contract: &mut SourceScan, account_id: String, with_github: bool) {
    let github_data = if with_github {
        Some(Github {
            owner: "owner".to_string(),
            repo: "repo".to_string(),
            sha: "sha".to_string(),
        })
    } else {
        None
    };

    contract
        .set_contract(
            account(0),
            account_id,
            "cid".to_string(),
            "code_hash".to_string(),
            "lang".to_string(),
            "entry_point".to_string(),
            "builder_image".to_string(),
            github_data,
        )
        .unwrap();
}

#[test]
fn init_constructor() {
    let contract = SourceScan::new(account(0));
    assert_eq!(contract.get_owner(), account(0));
}

#[test]
fn set_and_get_owner() {
    let mut contract = SourceScan::new(account(0));
    contract.set_owner(account(0), account(1)).unwrap();
    assert_eq!(contract.get_owner(), account(1));
}

#[test]
fn set_owner_unauthorized() {
    let mut contract = SourceScan::new(account(1));
    contract.set_owner(account(1), account(2)).unwrap();
    let refused = contract.set_owner(account(1), account(3));
    assert_eq!(refused, Err(SourceScanError::Unauthorized));
    assert_eq!(contract.get_owner(), account(2));
}

#[test]
fn set_and_get_contract() {
    let mut contract = SourceScan::new(account(0));

    add_contract(&mut contract, account(1), true);

    let contract_data = contract.get_contract(account(1)).unwrap();
    assert_eq!(contract_data.cid, "cid");
    assert_eq!(contract_data.code_hash, "code_hash");
    assert_eq!(contract_data.lang, "lang");
    assert_eq!(contract_data.entry_point, "entry_point");
    assert_eq!(contract_data.builder_image, "builder_image");
    assert!(contract_data.github.is_some());
}

#[test]
fn purge_and_verify_contract() {
    let mut contract = SourceScan::new(account(0));

    add_contract(&mut contract, account(1), true);

    contract.purge_contract(account(0), account(1)).unwrap();

    assert!(contract.get_contract(account(1)).is_none());
}

#[test]
fn purge_contract_unauthorized() {
    let mut contract = SourceScan::new(account(1));
    contract.set_owner(account(1), account(2)).unwrap();
    let refused = contract.purge_contract(account(1), account(2));
    assert_eq!(refused, Err(SourceScanError::Unauthorized));
}

#[test]
fn list_and_verify_contracts() {
    let mut contract = SourceScan::new(account(0));

    for i in 1..4 {
        add_contract(&mut contract, account(i), false);
    }

    let (contracts, total_pages) = contract.get_contracts(0, 2).unwrap();

    assert_eq!(contracts.len(), 2);
    assert_eq!(total_pages, 2);
}

#[test]
fn search_contracts() {
    let mut contract = SourceScan::new(account(0));

    add_contract(&mut contract, "account1.testnet".to_string(), false);
    add_contract(&mut contract, "account2.testnet".to_string(), false);

    let (search_results, _) = contract.search("account1".to_string(), 0, 10).unwrap();

    assert_eq!(search_results.len(), 1);
    assert_eq!(search_results[0].0, "account1.testnet");
}

#[test]
fn test_vote_functionality() {
    let mut contract = SourceScan::new(account(0));
    add_contract(&mut contract, account(1), false);

    contract.add_vote(account(0), account(1), 1, true).unwrap();

    let contract_data = contract.get_contract(account(1)).unwrap();
    assert_eq!(contract_data.votes.len(), 1);
    assert!(matches!(contract_data.votes.iter().next().unwrap().vote_type, VoteType::Upvote));

    contract.add_vote(account(0), account(1), 2, false).unwrap();

    let contract_data = contract.get_contract(account(1)).unwrap();
    assert!(matches!(contract_data.votes.iter().next().unwrap().vote_type, VoteType::Downvote));
}

#[test]
fn test_contract_update() {
    let mut contract = SourceScan::new(account(0));
    add_contract(&mut contract, account(1), false);

    contract.add_vote(account(0), account(1), 1, true).unwrap();

    add_contract(&mut contract, account(1), true);

    let contract_data = contract.get_contract(account(1)).unwrap();
    assert!(matches!(contract_data.votes.iter().next().unwrap().vote_type, VoteType::Upvote));
    assert!(contract_data.github.is_some());
    assert_eq!(contract_data.github.unwrap().owner, "owner");
}

#[test]
fn test_add_comment() {
    let mut contract = SourceScan::new(account(0));
    add_contract(&mut contract, account(1), false);

    contract
        .add_comment(account(0), account(1), 1, "Sample comment".to_string())
        .unwrap();

    let comments = contract.get_comments(account(1)).unwrap();
    assert_eq!(comments.len(), 1);
    assert_eq!(comments[0].content, "Sample comment");
}

#[test]
fn test_get_comments() {
    let mut contract = SourceScan::new(account(0));
    add_contract(&mut contract, account(1), false);

    contract
        .add_comment(account(0), account(1), 1, "First comment".to_string())
        .unwrap();
    contract
        .add_comment(account(0), account(1), 2, "Second comment".to_string())
        .unwrap();

    let comments = contract.get_comments(account(1)).unwrap();
    assert_eq!(comments.len(), 2);
    assert_eq!(comments[0].content, "First comment");
    assert_eq!(comments[1].content, "Second comment");
}

#[test]
fn vote_on_missing_contract_is_not_found() {
    let mut contract = SourceScan::new(account(0));
    let refused = contract.add_vote(account(0), account(1), 1, true);
    assert_eq!(refused, Err(SourceScanError::NotFound));
}

#[test]
fn comment_on_missing_contract_is_not_found() {
    let mut contract = SourceScan::new(account(0));
    let refused = contract.add_comment(account(0), account(1), 1, "hello".to_string());
    assert_eq!(refused, Err(SourceScanError::NotFound));
    let lookup = contract.get_comments(account(1));
    assert!(matches!(lookup, Err(SourceScanError::NotFound)));
}

#[test]
fn zero_limit_is_invalid_argument() {
    let mut contract = SourceScan::new(account(0));
    add_contract(&mut contract, account(1), false);
    assert!(matches!(
        contract.get_contracts(0, 0),
        Err(SourceScanError::InvalidArgument)
    ));
    assert!(matches!(
        contract.search("a".to_string(), 0, 0),
        Err(SourceScanError::InvalidArgument)
    ));
}
