use vesting_contracts::{Address, BatchCreateData, Vault, VestingContract, VestingError};

fn addr(id: u64) -> Address {
    Address { id }
}

fn ledger(admin: Address, supply: i128) -> VestingContract {
    let mut c = VestingContract::new();
    c.initialize(admin, supply).unwrap();
    c
}

fn batch(recipients: Vec<Address>, amounts: Vec<i128>, starts: Vec<u64>, ends: Vec<u64>) -> BatchCreateData {
    BatchCreateData { recipients, amounts, start_times: starts, end_times: ends }
}

#[test]
fn test_admin_ownership_transfer() {
    let admin = addr(1);
    let new_admin = addr(2);
    let unauthorized_user = addr(3);
    let initial_supply = 1000000i128;
    let mut c = ledger(admin, initial_supply);
    assert_eq!(c.get_admin(), Ok(admin));
    assert_eq!(c.get_proposed_admin(), None);
    assert!(c.propose_new_admin(unauthorized_user, new_admin).is_err());
    c.propose_new_admin(admin, new_admin).unwrap();
    assert_eq!(c.get_proposed_admin(), Some(new_admin));
    assert!(c.accept_ownership(unauthorized_user).is_err());
    c.accept_ownership(new_admin).unwrap();
    assert_eq!(c.get_admin(), Ok(new_admin));
    assert_eq!(c.get_proposed_admin(), None);
}

#[test]
fn test_admin_access_control() {
    let admin = addr(1);
    let unauthorized_user = addr(2);
    let vault_owner = addr(3);
    let mut c = ledger(admin, 1000000i128);
    let result = c.create_vault_full(unauthorized_user, vault_owner, 1000i128, 100u64, 200u64);
    assert!(result.is_err());
    let vault_id = c.create_vault_full(admin, vault_owner, 1000i128, 100u64, 200u64).unwrap();
    assert_eq!(vault_id, 1);
    let vault_id2 = c.create_vault_lazy(admin, vault_owner, 500i128, 150u64, 250u64).unwrap();
    assert_eq!(vault_id2, 2);
}

#[test]
fn test_batch_operations_admin_control() {
    let admin = addr(1);
    let unauthorized_user = addr(2);
    let recipient1 = addr(3);
    let recipient2 = addr(4);
    let mut c = ledger(admin, 1000000i128);
    let data = || batch(vec![recipient1, recipient2], vec![1000i128, 2000i128], vec![100u64, 150u64], vec![200u64, 250u64]);
    assert!(c.batch_create_vaults_lazy(unauthorized_user, data()).is_err());
    assert!(c.batch_create_vaults_full(unauthorized_user, data()).is_err());
    let vault_ids = c.batch_create_vaults_lazy(admin, data()).unwrap();
    assert_eq!(vault_ids.len(), 2);
    assert_eq!(vault_ids.get(0), Some(&1u64));
    assert_eq!(vault_ids.get(1), Some(&2u64));
}

#[test]
fn test_claim_all_success() {
    let admin = addr(1);
    let owner = addr(2);
    let mut c = ledger(admin, 1_000_000i128);
    let id1 = c.create_vault_full(admin, owner, 1000i128, 0u64, 1000u64).unwrap();
    let id2 = c.create_vault_full(admin, owner, 2000i128, 0u64, 1000u64).unwrap();
    let id3 = c.create_vault_full(admin, owner, 3000i128, 0u64, 1000u64).unwrap();
    let results = c.claim_all(vec![id1, id2, id3], vec![100i128, 200i128, 300i128]).unwrap();
    assert_eq!(results.len(), 3);
    assert_eq!(results.get(0), Some(&100i128));
    assert_eq!(results.get(1), Some(&200i128));
    assert_eq!(results.get(2), Some(&300i128));
    let v1 = c.get_vault(id1).unwrap();
    assert_eq!(v1.released_amount, 100);
    let v2 = c.get_vault(id2).unwrap();
    assert_eq!(v2.released_amount, 200);
    let v3 = c.get_vault(id3).unwrap();
    assert_eq!(v3.released_amount, 300);
}

#[test]
fn test_claim_all_atomic_rollback_invalid_vault() {
    let admin = addr(1);
    let owner = addr(2);
    let mut c = ledger(admin, 1_000_000i128);
    let id1 = c.create_vault_full(admin, owner, 1000i128, 0u64, 1000u64).unwrap();
    let result = c.claim_all(vec![id1, 999u64], vec![100i128, 100i128]);
    assert!(result.is_err());
    let v1 = c.get_vault(id1).unwrap();
    assert_eq!(v1.released_amount, 0);
}

#[test]
fn test_claim_all_atomic_rollback_insufficient_tokens() {
    let admin = addr(1);
    let owner = addr(2);
    let mut c = ledger(admin, 1_000_000i128);
    let id1 = c.create_vault_full(admin, owner, 1000i128, 0u64, 1000u64).unwrap();
    let id2 = c.create_vault_full(admin, owner, 500i128, 0u64, 1000u64).unwrap();
    let result = c.claim_all(vec![id1, id2], vec![100i128, 9999i128]);
    assert!(result.is_err());
    let v1 = c.get_vault(id1).unwrap();
    assert_eq!(v1.released_amount, 0);
    let v2 = c.get_vault(id2).unwrap();
    assert_eq!(v2.released_amount, 0);
}

#[test]
fn test_claim_all_empty_list_fails() {
    let admin = addr(1);
    let mut c = ledger(admin, 1_000_000i128);
    let empty_ids: Vec<u64> = vec![];
    let empty_amounts: Vec<i128> = vec![];
    let result = c.claim_all(empty_ids, empty_amounts);
    assert!(result.is_err());
}

#[test]
fn test_claim_all_mismatched_lengths_fails() {
    let admin = addr(1);
    let owner = addr(2);
    let mut c = ledger(admin, 1_000_000i128);
    let id1 = c.create_vault_full(admin, owner, 1000i128, 0u64, 1000u64).unwrap();
    let result = c.claim_all(vec![id1], vec![100i128, 200i128]);
    assert!(result.is_err());
}

#[test]
fn full_vault_funds_from_admin_balance() {
    let admin = addr(1);
    let owner = addr(2);
    let mut c = ledger(admin, 1_000_000);
    assert_eq!(c.create_vault_full(admin, owner, 1000, 0, 1000), Ok(1));
    assert_eq!(c.get_contract_state(), (1000, 0, 999000));
    assert!(c.check_invariant());
    assert_eq!(c.get_user_vaults(owner), vec![1u64]);
}

#[test]
fn claim_all_reports_each_refusal() {
    let admin = addr(1);
    let owner = addr(2);
    let mut c = ledger(admin, 1_000_000);
    c.create_vault_full(admin, owner, 1000, 0, 1000).unwrap();
    c.create_vault_full(admin, owner, 500, 0, 1000).unwrap();
    c.create_vault_lazy(admin, owner, 700, 0, 1000).unwrap();
    assert_eq!(c.claim_all(vec![1, 999], vec![100, 100]), Err(VestingError::NotFound));
    assert_eq!(c.claim_all(vec![1, 2], vec![100, 9999]), Err(VestingError::InsufficientVaultBalance));
    assert_eq!(c.claim_all(vec![1, 3], vec![100, 100]), Err(VestingError::NotInitialized));
    assert_eq!(c.claim_all(vec![1, 2], vec![100, 0]), Err(VestingError::InvalidAmount));
    assert_eq!(c.claim_all(vec![1], vec![100, 200]), Err(VestingError::LengthMismatch));
    assert_eq!(c.claim_all(vec![], vec![]), Err(VestingError::EmptyBatch));
    assert_eq!(c.get_contract_state(), (2200, 0, 997800));
}

#[test]
fn claim_all_counts_repeated_ids_together() {
    let admin = addr(1);
    let owner = addr(2);
    let mut c = ledger(admin, 10_000);
    c.create_vault_full(admin, owner, 1000, 0, 1000).unwrap();
    assert_eq!(c.claim_all(vec![1, 1], vec![600, 600]), Err(VestingError::InsufficientVaultBalance));
    assert_eq!(c.get_contract_state(), (1000, 0, 9000));
    assert_eq!(c.claim_all(vec![1, 1], vec![600, 400]), Ok(vec![600, 400]));
    assert_eq!(c.get_contract_state(), (0, 1000, 9000));
    assert!(c.check_invariant());
}

#[test]
fn claim_tokens_checks_and_releases() {
    let admin = addr(1);
    let owner = addr(2);
    let mut c = ledger(admin, 5000);
    c.create_vault_full(admin, owner, 1000, 10, 20).unwrap();
    c.create_vault_lazy(admin, owner, 1000, 10, 20).unwrap();
    assert_eq!(c.claim_tokens(7, 10), Err(VestingError::NotFound));
    assert_eq!(c.claim_tokens(0, 10), Err(VestingError::NotFound));
    assert_eq!(c.claim_tokens(2, 10), Err(VestingError::NotInitialized));
    assert_eq!(c.claim_tokens(1, 0), Err(VestingError::InvalidAmount));
    assert_eq!(c.claim_tokens(1, -5), Err(VestingError::InvalidAmount));
    assert_eq!(c.claim_tokens(1, 1001), Err(VestingError::InsufficientVaultBalance));
    assert_eq!(c.claim_tokens(1, 400), Ok(400));
    assert_eq!(c.claim_tokens(1, 600), Ok(600));
    assert_eq!(c.claim_tokens(1, 1), Err(VestingError::InsufficientVaultBalance));
    assert_eq!(c.get_contract_state(), (1000, 1000, 3000));
    assert!(c.check_invariant());
}

#[test]
fn creation_refusals() {
    let admin = addr(1);
    let owner = addr(2);
    let mut fresh = VestingContract::new();
    assert_eq!(fresh.create_vault_full(admin, owner, 10, 0, 1), Err(VestingError::NotInitialized));
    assert_eq!(fresh.get_admin(), Err(VestingError::NotInitialized));
    let mut c = ledger(admin, 1000);
    assert_eq!(c.initialize(owner, 5), Err(VestingError::AlreadyInitialized));
    assert_eq!(c.create_vault_full(owner, owner, 10, 0, 1), Err(VestingError::Unauthorized));
    assert_eq!(c.create_vault_full(admin, owner, 0, 0, 1), Err(VestingError::InvalidAmount));
    assert_eq!(c.create_vault_lazy(admin, owner, 1001, 0, 1), Err(VestingError::InsufficientBalance));
    assert_eq!(c.create_vault_lazy(admin, owner, 1000, 0, 1), Ok(1));
    assert_eq!(c.get_contract_state(), (1000, 0, 0));
}

#[test]
fn ownership_transfer_refusals() {
    let admin = addr(1);
    let other = addr(2);
    let mut c = ledger(admin, 1000);
    assert_eq!(c.accept_ownership(admin), Err(VestingError::NoProposal));
    assert_eq!(c.propose_new_admin(other, other), Err(VestingError::Unauthorized));
    c.propose_new_admin(admin, addr(9)).unwrap();
    c.propose_new_admin(admin, other).unwrap();
    assert_eq!(c.accept_ownership(addr(9)), Err(VestingError::Unauthorized));
    assert_eq!(c.accept_ownership(other), Ok(()));
    assert_eq!(c.create_vault_full(admin, other, 10, 0, 1), Err(VestingError::Unauthorized));
    assert_eq!(c.create_vault_full(other, other, 10, 0, 1), Ok(1));
}

#[test]
fn lazy_batch_is_indexed_on_read() {
    let admin = addr(1);
    let r1 = addr(2);
    let r2 = addr(3);
    let mut c = ledger(admin, 1_000_000);
    let ids = c.batch_create_vaults_lazy(admin, batch(vec![r1, r2], vec![1000, 2000], vec![0, 5], vec![10, 20])).unwrap();
    assert_eq!(ids, vec![1u64, 2u64]);
    assert_eq!(c.get_contract_state(), (3000, 0, 997000));
    assert_eq!(c.get_user_vaults(r1), Vec::<u64>::new());
    assert_eq!(c.claim_tokens(1, 10), Err(VestingError::NotInitialized));
    let v = c.get_vault(1).unwrap();
    assert_eq!(
        v,
        Vault { owner: r1, total_amount: 1000, released_amount: 0, start_time: 0, end_time: 10, is_initialized: true }
    );
    assert_eq!(c.get_user_vaults(r1), vec![1u64]);
    assert_eq!(c.get_user_vaults(r2), Vec::<u64>::new());
    assert_eq!(c.claim_tokens(1, 10), Ok(10));
}

#[test]
fn materializing_twice_indexes_once() {
    let admin = addr(1);
    let owner = addr(2);
    let mut c = ledger(admin, 1000);
    c.create_vault_lazy(admin, owner, 100, 0, 1).unwrap();
    assert!(c.initialize_vault_metadata(1));
    assert!(!c.initialize_vault_metadata(1));
    assert!(!c.initialize_vault_metadata(5));
    assert_eq!(c.get_vault(5), Err(VestingError::NotFound));
    assert_eq!(c.get_user_vaults(owner), vec![1u64]);
}

#[test]
fn full_batch_indexes_in_order() {
    let admin = addr(1);
    let r = addr(2);
    let s = addr(3);
    let mut c = ledger(admin, 100);
    c.create_vault_lazy(admin, r, 5, 0, 1).unwrap();
    let ids = c.batch_create_vaults_full(admin, batch(vec![r, s, r], vec![10, 20, 30], vec![0, 0, 0], vec![1, 1, 1])).unwrap();
    assert_eq!(ids, vec![2u64, 3, 4]);
    assert_eq!(c.get_user_vaults(r), vec![2u64, 4]);
    assert_eq!(c.get_user_vaults(s), vec![3u64]);
    assert_eq!(c.get_contract_state(), (65, 0, 35));
}

#[test]
fn batch_refusals_change_nothing() {
    let admin = addr(1);
    let r = addr(2);
    let mut c = ledger(admin, 100);
    let mismatched = batch(vec![r, r], vec![10], vec![0, 0], vec![1, 1]);
    assert_eq!(c.batch_create_vaults_full(admin, mismatched), Err(VestingError::LengthMismatch));
    let nonpositive = batch(vec![r, r], vec![10, 0], vec![0, 0], vec![1, 1]);
    assert_eq!(c.batch_create_vaults_full(admin, nonpositive), Err(VestingError::InvalidAmount));
    let too_much = batch(vec![r, r], vec![60, 41], vec![0, 0], vec![1, 1]);
    assert_eq!(c.batch_create_vaults_lazy(admin, too_much), Err(VestingError::InsufficientBalance));
    let huge = batch(vec![r, r], vec![i128::MAX, i128::MAX], vec![0, 0], vec![1, 1]);
    assert_eq!(c.batch_create_vaults_lazy(admin, huge), Err(VestingError::InsufficientBalance));
    assert_eq!(c.get_contract_state(), (0, 0, 100));
    let exact = batch(vec![r, r], vec![60, 40], vec![0, 0], vec![1, 1]);
    assert_eq!(c.batch_create_vaults_lazy(admin, exact), Ok(vec![1u64, 2]));
    let empty = batch(vec![], vec![], vec![], vec![]);
    assert_eq!(c.batch_create_vaults_lazy(admin, empty), Ok(vec![]));
    assert_eq!(c.get_contract_state(), (100, 0, 0));
}

#[test]
fn negative_supply_funds_nothing() {
    let admin = addr(1);
    let owner = addr(2);
    let mut c = VestingContract::new();
    assert_eq!(c.initialize(admin, -1), Ok(()));
    assert_eq!(c.get_admin(), Ok(admin));
    assert_eq!(c.get_contract_state(), (0, 0, -1));
    assert!(c.check_invariant());
    assert_eq!(c.create_vault_full(admin, owner, 1, 0, 1), Err(VestingError::InsufficientBalance));
    let empty = batch(vec![], vec![], vec![], vec![]);
    assert_eq!(c.batch_create_vaults_lazy(admin, empty), Err(VestingError::InsufficientBalance));
    assert_eq!(c.get_contract_state(), (0, 0, -1));
    assert!(c.is_well_formed());
}

#[test]
fn well_formedness_check_spots_broken_ledgers() {
    let admin = addr(1);
    let owner = addr(2);
    assert!(VestingContract::new().is_well_formed());
    let mut c = ledger(admin, 1000);
    c.create_vault_full(admin, owner, 100, 0, 1).unwrap();
    c.create_vault_lazy(admin, owner, 200, 0, 1).unwrap();
    c.claim_tokens(1, 30).unwrap();
    assert!(c.is_well_formed());
    let mut overdrawn = ledger(admin, 1000);
    overdrawn.create_vault_full(admin, owner, 100, 0, 1).unwrap();
    overdrawn.vaults[0].released_amount = 101;
    assert!(!overdrawn.is_well_formed());
    let mut unbalanced = ledger(admin, 1000);
    unbalanced.admin_balance = 999;
    assert!(!unbalanced.is_well_formed());
    let mut repeated = ledger(admin, 1000);
    repeated.create_vault_full(admin, owner, 100, 0, 1).unwrap();
    repeated.index_log.push(1);
    assert!(!repeated.is_well_formed());
    let mut unindexed = ledger(admin, 1000);
    unindexed.create_vault_full(admin, owner, 100, 0, 1).unwrap();
    unindexed.index_log.clear();
    assert!(!unindexed.is_well_formed());
    let mut dangling = ledger(admin, 1000);
    dangling.index_log.push(3);
    assert!(!dangling.is_well_formed());
}
