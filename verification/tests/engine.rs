use timeable_mergeable_nft::engine::burn;
use timeable_mergeable_nft::engine::burn_timeable_nft;
use timeable_mergeable_nft::engine::change_fee_wallet;
use timeable_mergeable_nft::engine::check_admin_account;
use timeable_mergeable_nft::engine::check_timeable;
use timeable_mergeable_nft::engine::get_fee_wallet;
use timeable_mergeable_nft::engine::init;
use timeable_mergeable_nft::engine::merge;
use timeable_mergeable_nft::engine::mint;
use timeable_mergeable_nft::engine::mint_timeable_nft;
use timeable_mergeable_nft::engine::BurnAction;
use timeable_mergeable_nft::engine::TokenInfo;
use timeable_mergeable_nft::error::Error;
use timeable_mergeable_nft::registry::Registry;

const COLLECTION: u64 = 7;
const ALICE: u64 = 11;
const BOB: u64 = 22;

fn plain_payload() -> Vec<u8> {
    br#"{"name":"n","description":"d","asset":"a"}"#.to_vec()
}

fn timed_payload(expiry: u64) -> Vec<u8> {
    format!(r#"{{"name":"n","description":"d","asset":"a","timestamp":{}}}"#, expiry).into_bytes()
}

fn owned(owner: u64) -> TokenInfo {
    TokenInfo { payload: plain_payload(), owner }
}

fn unmergeable(owner: u64) -> TokenInfo {
    TokenInfo {
        payload: br#"{"name":"n","description":"d","asset":"a","mergeable":false}"#.to_vec(),
        owner,
    }
}

fn contains(haystack: &[u8], needle: &[u8]) -> bool {
    haystack.windows(needle.len()).any(|w| w == needle)
}

#[test]
fn monotonic_index() {
    let mut reg = Registry::new();
    let first = mint_timeable_nft(&mut reg, COLLECTION, &timed_payload(10), 500).unwrap();
    let second = mint_timeable_nft(&mut reg, COLLECTION, &timed_payload(20), 501).unwrap();
    let third = mint_timeable_nft(&mut reg, COLLECTION, &timed_payload(30), 502).unwrap();
    assert_eq!((first, second, third), (0, 1, 2));
    let entry = reg.get(1).unwrap();
    assert_eq!(entry.index, 1);
    assert_eq!(entry.expiry, 20);
    assert_eq!(entry.ledger, COLLECTION);
    assert_eq!(entry.token_id, 501);
    assert!(!entry.burnt);
}

#[test]
fn scheduled_mint_defaults_expiry_to_zero() {
    let mut reg = Registry::new();
    let idx = mint_timeable_nft(&mut reg, COLLECTION, &plain_payload(), 500).unwrap();
    assert_eq!(reg.get(idx).unwrap().expiry, 0);
}

#[test]
fn scheduled_mint_rejects_not_timeable() {
    let mut reg = Registry::new();
    let payload = br#"{"name":"n","description":"d","asset":"a","timeable":false}"#.to_vec();
    assert_eq!(
        mint_timeable_nft(&mut reg, COLLECTION, &payload, 500),
        Err(Error::NotTimeableNft)
    );
    assert_eq!(reg.len(), 0);
    assert_eq!(check_timeable(&payload), Err(Error::NotTimeableNft));
}

#[test]
fn scheduled_mint_rejects_malformed_payload() {
    let mut reg = Registry::new();
    assert_eq!(
        mint_timeable_nft(&mut reg, COLLECTION, &b"not a record".to_vec(), 500),
        Err(Error::DecodeError)
    );
    assert_eq!(reg.len(), 0);
}

#[test]
fn merge_atomic_on_foreign_token() {
    let ids = vec![1, 2, 3];
    let infos = vec![owned(ALICE), owned(BOB), owned(ALICE)];
    assert_eq!(merge(COLLECTION, &ids, ALICE, &infos), Err(Error::InvalidOwner));
}

#[test]
fn merge_rejects_unmergeable_token() {
    let ids = vec![1, 2];
    let infos = vec![owned(ALICE), unmergeable(ALICE)];
    assert_eq!(merge(COLLECTION, &ids, ALICE, &infos), Err(Error::NotMergableNft));
}

#[test]
fn merge_rejects_malformed_metadata() {
    let ids = vec![1];
    let infos = vec![TokenInfo { payload: b"garbage".to_vec(), owner: ALICE }];
    assert_eq!(merge(COLLECTION, &ids, ALICE, &infos), Err(Error::DecodeError));
}

#[test]
fn merge_reports_first_failure() {
    let ids = vec![1, 2];
    let infos = vec![unmergeable(ALICE), owned(BOB)];
    assert_eq!(merge(COLLECTION, &ids, ALICE, &infos), Err(Error::NotMergableNft));
}

#[test]
fn merge_rejects_mismatched_reports() {
    let ids = vec![1, 2];
    let infos = vec![owned(ALICE)];
    assert_eq!(merge(COLLECTION, &ids, ALICE, &infos), Err(Error::FatalError));
}

#[test]
fn merge_output() {
    let ids = vec![5, 9];
    let infos = vec![owned(ALICE), owned(ALICE)];
    let outcome = merge(COLLECTION, &ids, ALICE, &infos).unwrap();
    assert_eq!(
        outcome.burns,
        vec![
            BurnAction { ledger: COLLECTION, token_id: 5 },
            BurnAction { ledger: COLLECTION, token_id: 9 },
        ]
    );
    assert_eq!(outcome.mint.ledger, COLLECTION);
    assert_eq!(outcome.mint.owner, ALICE);
    assert!(contains(&outcome.mint.metadata, b"5,9"));
    let minted = timeable_mergeable_nft::decode::parse(&outcome.mint.metadata).unwrap();
    assert_eq!(minted.name, b"Dappend Merged Nft".to_vec());
    assert_eq!(minted.description, b"We merged 5,9 token ids".to_vec());
    assert_eq!(minted.timeable, None);
    assert_eq!(minted.mergeable, None);
}

#[test]
fn merge_of_nothing_mints_one_token() {
    let outcome = merge(COLLECTION, &vec![], ALICE, &vec![]).unwrap();
    assert_eq!(outcome.burns, vec![]);
    assert_eq!(outcome.mint.owner, ALICE);
    let minted = timeable_mergeable_nft::decode::parse(&outcome.mint.metadata).unwrap();
    assert_eq!(minted.description, b"We merged  token ids".to_vec());
}

#[test]
fn burn_requires_ownership() {
    assert_eq!(
        burn(COLLECTION, 5, ALICE, ALICE),
        Ok(BurnAction { ledger: COLLECTION, token_id: 5 })
    );
    assert_eq!(burn(COLLECTION, 5, ALICE, BOB), Err(Error::InvalidOwner));
}

#[test]
fn plain_mint_passes_through() {
    let action = mint(COLLECTION, ALICE, plain_payload());
    assert_eq!(action.ledger, COLLECTION);
    assert_eq!(action.owner, ALICE);
    assert_eq!(action.metadata, plain_payload());
}

#[test]
fn sweep_selectivity() {
    let mut reg = Registry::new();
    mint_timeable_nft(&mut reg, COLLECTION, &timed_payload(100), 500).unwrap();
    let untouched = burn_timeable_nft(&mut reg, 50);
    assert_eq!(untouched, vec![]);
    assert!(!reg.get(0).unwrap().burnt);
    let burnt = burn_timeable_nft(&mut reg, 150);
    assert_eq!(burnt, vec![BurnAction { ledger: COLLECTION, token_id: 500 }]);
    assert!(reg.get(0).unwrap().burnt);
    let again = burn_timeable_nft(&mut reg, 150);
    assert_eq!(again, vec![]);
    assert!(reg.get(0).unwrap().burnt);
}

#[test]
fn sweep_boundary_is_strict() {
    let mut reg = Registry::new();
    mint_timeable_nft(&mut reg, COLLECTION, &timed_payload(100), 500).unwrap();
    assert_eq!(burn_timeable_nft(&mut reg, 100), vec![]);
    assert_eq!(
        burn_timeable_nft(&mut reg, 101),
        vec![BurnAction { ledger: COLLECTION, token_id: 500 }]
    );
}

#[test]
fn sweep_idempotence() {
    let mut reg = Registry::new();
    mint_timeable_nft(&mut reg, COLLECTION, &timed_payload(10), 500).unwrap();
    mint_timeable_nft(&mut reg, COLLECTION, &timed_payload(9_999), 501).unwrap();
    mint_timeable_nft(&mut reg, COLLECTION, &timed_payload(20), 502).unwrap();
    let first = burn_timeable_nft(&mut reg, 1000);
    assert_eq!(
        first,
        vec![
            BurnAction { ledger: COLLECTION, token_id: 500 },
            BurnAction { ledger: COLLECTION, token_id: 502 },
        ]
    );
    let state_after_one: Vec<_> = (0..3).map(|i| reg.get(i).unwrap()).collect();
    let second = burn_timeable_nft(&mut reg, 1000);
    assert_eq!(second, vec![]);
    let state_after_two: Vec<_> = (0..3).map(|i| reg.get(i).unwrap()).collect();
    assert_eq!(state_after_one, state_after_two);
}

#[test]
fn sweep_skips_empty_slots() {
    let mut reg = Registry::new();
    let gap = reg.allocate_index();
    mint_timeable_nft(&mut reg, COLLECTION, &timed_payload(10), 500).unwrap();
    assert_eq!(
        burn_timeable_nft(&mut reg, 1000),
        vec![BurnAction { ledger: COLLECTION, token_id: 500 }]
    );
    assert_eq!(reg.get(gap), None);
}

#[test]
fn admin_gating() {
    let (_, mut admin) = init(ALICE, 99);
    assert_eq!(get_fee_wallet(&admin), 99);
    assert_eq!(change_fee_wallet(&mut admin, BOB, 55), Err(Error::AdminError));
    assert_eq!(get_fee_wallet(&admin), 99);
    assert_eq!(change_fee_wallet(&mut admin, ALICE, 55), Ok(()));
    assert_eq!(get_fee_wallet(&admin), 55);
    assert_eq!(check_admin_account(&admin, ALICE), Ok(()));
    assert_eq!(check_admin_account(&admin, BOB), Err(Error::AdminError));
}

#[test]
fn init_starts_empty() {
    let (reg, admin) = init(ALICE, 99);
    assert_eq!(reg.len(), 0);
    assert_eq!(reg.get(0), None);
    assert_eq!(admin.owner, ALICE);
    assert_eq!(admin.fee_wallet, 99);
}
