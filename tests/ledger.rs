use mock_ledger::account::{AccountRecord, StorageEntry, TokenBalance, TokenRoles};
use mock_ledger::address::Address;
use mock_ledger::blockchain_wrapper::{decode_big_endian, is_native_token, BlockchainWrapper};
use mock_ledger::cache::{TxCache, TxInput};
use mock_ledger::updates::LedgerError;
use mock_ledger::world::{BlockInfo, ChainContext, World};

fn addr(b: u8) -> Address {
    let mut bytes = [0u8; 32];
    bytes[31] = b;
    Address::new(bytes)
}

fn tx(from: &Address, to: &Address) -> TxInput {
    TxInput {
        from: *from,
        to: *to,
        egld_value: 0,
        esdt_transfers: Vec::new(),
        func_name: b"call".to_vec(),
        args: Vec::new(),
        gas_limit: 5_000_000,
        gas_price: 1,
        tx_hash: [7u8; 32],
    }
}

fn world_with(balances: &[(u8, u64)]) -> World {
    let mut w = World::new();
    for (b, bal) in balances {
        w.add_account(AccountRecord::new(addr(*b), *bal));
    }
    w
}

fn balance(w: &World, b: u8) -> u64 {
    w.get_account(&addr(b)).unwrap().balance
}

fn total(w: &World, ids: &[u8]) -> u128 {
    ids.iter().map(|b| balance(w, *b) as u128).sum()
}

#[test]
fn native_transfer_then_commit() {
    let mut w = world_with(&[(1, 1000), (2, 2000)]);
    let updates = {
        let mut c = TxCache::new(&w, tx(&addr(1), &addr(2)));
        assert_eq!(c.transfer_native_balance(&addr(1), &addr(2), 1000), Ok(()));
        assert_eq!(c.get_balance(&addr(1)), Ok(0));
        assert_eq!(c.get_balance(&addr(2)), Ok(3000));
        c.into_blockchain_updates()
    };
    assert_eq!(balance(&w, 1), 1000);
    assert_eq!(w.apply(updates), Ok(()));
    assert_eq!(balance(&w, 1), 0);
    assert_eq!(balance(&w, 2), 3000);
}

#[test]
fn subtract_from_empty_balance_fails() {
    let mut w = world_with(&[(1, 0)]);
    let updates = {
        let mut c = TxCache::new(&w, tx(&addr(1), &addr(1)));
        assert_eq!(c.subtract_native_balance(&addr(1), 3), Err(LedgerError::InsufficientFunds));
        assert_eq!(c.get_balance(&addr(1)), Ok(0));
        c.into_blockchain_updates()
    };
    assert!(updates.entries().is_empty());
    assert_eq!(w.apply(updates), Ok(()));
    assert_eq!(balance(&w, 1), 0);
}

#[test]
fn token_transfer_then_commit() {
    let x = b"TOKX-123456".to_vec();
    let mut w = World::new();
    let mut a = AccountRecord::new(addr(1), 0);
    a.tokens.push(TokenBalance { token_id: x.clone(), nonce: 0, amount: 5 });
    w.add_account(a);
    w.add_account(AccountRecord::new(addr(2), 0));
    let updates = {
        let mut c = TxCache::new(&w, tx(&addr(1), &addr(2)));
        assert_eq!(c.transfer_token_balance(&addr(1), &addr(2), &x, 0, 5), Ok(()));
        c.into_blockchain_updates()
    };
    assert_eq!(w.apply(updates), Ok(()));
    assert_eq!(w.get_account(&addr(1)).unwrap().token_balance(&x, 0), 0);
    assert_eq!(w.get_account(&addr(2)).unwrap().token_balance(&x, 0), 5);
    let mut c = TxCache::new(&w, tx(&addr(1), &addr(2)));
    assert_eq!(
        c.transfer_token_balance(&addr(1), &addr(2), &x, 0, 1),
        Err(LedgerError::InsufficientFunds)
    );
    assert_eq!(c.get_esdt_balance(&addr(2), &x, 0), Ok(5));
}

#[test]
fn token_instances_are_independent() {
    let x = b"NFT-abcdef".to_vec();
    let mut w = World::new();
    let mut a = AccountRecord::new(addr(1), 0);
    a.tokens.push(TokenBalance { token_id: x.clone(), nonce: 1, amount: 1 });
    a.tokens.push(TokenBalance { token_id: x.clone(), nonce: 2, amount: 1 });
    w.add_account(a);
    w.add_account(AccountRecord::new(addr(2), 0));
    let updates = {
        let mut c = TxCache::new(&w, tx(&addr(1), &addr(2)));
        assert_eq!(c.transfer_token_balance(&addr(1), &addr(2), &x, 2, 1), Ok(()));
        assert_eq!(c.get_esdt_balance(&addr(1), &x, 1), Ok(1));
        assert_eq!(c.get_esdt_balance(&addr(1), &x, 2), Ok(0));
        c.into_blockchain_updates()
    };
    assert_eq!(w.apply(updates), Ok(()));
    assert_eq!(w.get_account(&addr(1)).unwrap().token_balance(&x, 1), 1);
    assert_eq!(w.get_account(&addr(2)).unwrap().token_balance(&x, 2), 1);
    assert_eq!(w.get_account(&addr(2)).unwrap().token_balance(&x, 1), 0);
}

#[test]
fn fresh_cache_reads_the_world() {
    let mut w = World::new();
    let mut a = AccountRecord::new(addr(1), 42);
    a.storage.push(StorageEntry { key: b"k".to_vec(), value: b"v".to_vec() });
    w.add_account(a);
    let c = TxCache::new(&w, tx(&addr(1), &addr(1)));
    assert_eq!(c.get_balance(&addr(1)), Ok(42));
    assert_eq!(c.read_storage(&addr(1), &b"k".to_vec()), Ok(b"v".to_vec()));
    assert_eq!(c.read_storage(&addr(1), &b"missing".to_vec()), Ok(Vec::new()));
    assert_eq!(c.get_esdt_balance(&addr(1), &b"T-1".to_vec(), 0), Ok(0));
}

#[test]
fn failed_apply_changes_nothing() {
    let mut w = world_with(&[(1, 1000), (2, 0)]);
    let updates = {
        let mut c = TxCache::new(&w, tx(&addr(1), &addr(2)));
        assert_eq!(c.transfer_native_balance(&addr(1), &addr(2), 1000), Ok(()));
        c.into_blockchain_updates()
    };
    w.add_account(AccountRecord::new(addr(1), 500));
    assert_eq!(w.apply(updates), Err(LedgerError::InvariantViolation));
    assert_eq!(balance(&w, 1), 500);
    assert_eq!(balance(&w, 2), 0);
}

#[test]
fn apply_to_unknown_account_fails() {
    let mut other = world_with(&[(1, 10), (9, 0)]);
    let updates = {
        let mut c = TxCache::new(&other, tx(&addr(1), &addr(9)));
        assert_eq!(c.transfer_native_balance(&addr(1), &addr(9), 10), Ok(()));
        c.into_blockchain_updates()
    };
    let mut w = world_with(&[(1, 10)]);
    assert_eq!(w.apply(updates), Err(LedgerError::UnknownAccount));
    assert_eq!(balance(&w, 1), 10);
    assert_eq!(balance(&other, 9), 0);
    other.add_account(AccountRecord::new(addr(3), 1));
}

#[test]
fn discarded_cache_leaves_world_unchanged() {
    let w = world_with(&[(1, 100), (2, 100)]);
    {
        let mut c = TxCache::new(&w, tx(&addr(1), &addr(2)));
        assert_eq!(c.transfer_native_balance(&addr(1), &addr(2), 60), Ok(()));
        assert_eq!(c.write_storage(&addr(2), &b"k".to_vec(), &b"v".to_vec()), Ok(()));
        assert_eq!(c.add_native_balance(&addr(2), 5), Ok(()));
    }
    assert_eq!(balance(&w, 1), 100);
    assert_eq!(balance(&w, 2), 100);
    assert!(w.get_account(&addr(2)).unwrap().storage.is_empty());
}

#[test]
fn transfers_conserve_supply() {
    let mut w = world_with(&[(1, 700), (2, 300), (3, 0)]);
    let before = total(&w, &[1, 2, 3]);
    let updates = {
        let mut c = TxCache::new(&w, tx(&addr(1), &addr(2)));
        assert_eq!(c.transfer_native_balance(&addr(1), &addr(2), 200), Ok(()));
        assert_eq!(c.transfer_native_balance(&addr(2), &addr(3), 450), Ok(()));
        assert_eq!(c.transfer_native_balance(&addr(3), &addr(1), 50), Ok(()));
        c.into_blockchain_updates()
    };
    assert_eq!(w.apply(updates), Ok(()));
    assert_eq!(total(&w, &[1, 2, 3]), before);
    assert_eq!(balance(&w, 1), 550);
    assert_eq!(balance(&w, 2), 50);
    assert_eq!(balance(&w, 3), 400);
}

#[test]
fn unknown_account_is_reported() {
    let w = world_with(&[(1, 5)]);
    let mut c = TxCache::new(&w, tx(&addr(1), &addr(1)));
    assert_eq!(c.get_balance(&addr(8)), Err(LedgerError::UnknownAccount));
    assert_eq!(c.subtract_native_balance(&addr(8), 1), Err(LedgerError::UnknownAccount));
    assert_eq!(c.transfer_native_balance(&addr(1), &addr(8), 1), Err(LedgerError::UnknownAccount));
    assert_eq!(c.write_storage(&addr(8), &vec![1], &vec![2]), Err(LedgerError::UnknownAccount));
    assert_eq!(c.read_storage(&addr(8), &vec![1]), Err(LedgerError::UnknownAccount));
    assert_eq!(c.get_balance(&addr(1)), Ok(5));
}

#[test]
fn balance_overflow_is_reported() {
    let w = world_with(&[(1, u64::MAX), (2, 1)]);
    let mut c = TxCache::new(&w, tx(&addr(1), &addr(2)));
    assert_eq!(c.add_native_balance(&addr(1), 1), Err(LedgerError::BalanceOverflow));
    assert_eq!(c.transfer_native_balance(&addr(2), &addr(1), 1), Err(LedgerError::BalanceOverflow));
    assert_eq!(c.add_native_balance(&addr(2), 10), Ok(()));
    assert_eq!(c.get_balance(&addr(2)), Ok(11));
    assert_eq!(c.get_balance(&addr(1)), Ok(u64::MAX));
}

#[test]
fn storage_writes_shadow_then_commit() {
    let mut w = World::new();
    let mut a = AccountRecord::new(addr(1), 0);
    a.storage.push(StorageEntry { key: b"k".to_vec(), value: b"old".to_vec() });
    w.add_account(a);
    let updates = {
        let mut c = TxCache::new(&w, tx(&addr(1), &addr(1)));
        assert_eq!(c.write_storage(&addr(1), &b"k".to_vec(), &b"new".to_vec()), Ok(()));
        assert_eq!(c.write_storage(&addr(1), &b"j".to_vec(), &b"x".to_vec()), Ok(()));
        assert_eq!(c.read_storage(&addr(1), &b"k".to_vec()), Ok(b"new".to_vec()));
        assert_eq!(w.get_account(&addr(1)).unwrap().storage_get(&b"k".to_vec()), b"old".to_vec());
        c.into_blockchain_updates()
    };
    assert_eq!(w.apply(updates), Ok(()));
    let rec = w.get_account(&addr(1)).unwrap();
    assert_eq!(rec.storage_get(&b"k".to_vec()), b"new".to_vec());
    assert_eq!(rec.storage_get(&b"j".to_vec()), b"x".to_vec());
}

#[test]
fn subtract_and_add_native() {
    let w = world_with(&[(1, 10)]);
    let mut c = TxCache::new(&w, tx(&addr(1), &addr(1)));
    assert_eq!(c.subtract_native_balance(&addr(1), 4), Ok(()));
    assert_eq!(c.subtract_native_balance(&addr(1), 7), Err(LedgerError::InsufficientFunds));
    assert_eq!(c.add_native_balance(&addr(1), 1), Ok(()));
    assert_eq!(c.get_balance(&addr(1)), Ok(7));
    let updates = c.into_blockchain_updates();
    assert_eq!(updates.entries().len(), 1);
    assert_eq!(updates.entries()[0].native_delta, -3);
}

#[test]
fn token_subtract_and_add() {
    let t = b"TOK-1".to_vec();
    let w = world_with(&[(1, 0)]);
    let mut c = TxCache::new(&w, tx(&addr(1), &addr(1)));
    assert_eq!(c.subtract_esdt_balance(&addr(1), &t, 0, 1), Err(LedgerError::InsufficientFunds));
    assert_eq!(c.add_esdt_balance(&addr(1), &t, 0, 9), Ok(()));
    assert_eq!(c.subtract_esdt_balance(&addr(1), &t, 0, 4), Ok(()));
    assert_eq!(c.get_esdt_balance(&addr(1), &t, 0), Ok(5));
    assert_eq!(c.add_esdt_balance(&addr(1), &t, 0, u64::MAX), Err(LedgerError::BalanceOverflow));
}

#[test]
fn wrapper_reports_transaction_context() {
    let mut w = world_with(&[(1, 50)]);
    let mut sc = AccountRecord::new(addr(2), 80);
    sc.contract_code = Some(b"code".to_vec());
    sc.owner = Some(addr(1));
    w.add_account(sc);
    let seed = [3u8; 48];
    w.set_context(ChainContext {
        current_block: BlockInfo { timestamp: 1000, nonce: 12, round: 13, epoch: 2, random_seed: seed },
        previous_block: BlockInfo::genesis(),
        state_root_hash: [9u8; 32],
    });
    let c = TxCache::new(&w, tx(&addr(1), &addr(2)));
    let bw = BlockchainWrapper::new(&c);
    assert!(bw.get_caller().equals(&addr(1)));
    assert_eq!(bw.get_caller_legacy(), addr(1).as_array());
    assert_eq!(bw.get_sc_address_legacy(), addr(2).as_array());
    assert!(bw.get_sc_address().equals(&addr(2)));
    assert!(bw.get_owner_address().unwrap().equals(&addr(1)));
    assert_eq!(bw.get_owner_address_legacy(), Some(addr(1).as_array()));
    assert_eq!(bw.check_caller_is_owner(), Ok(()));
    assert!(bw.is_smart_contract(&addr(2)));
    assert!(!bw.is_smart_contract_legacy(&addr(1).as_array()));
    assert!(!bw.is_smart_contract(&addr(7)));
    assert_eq!(bw.get_balance(&addr(1)), Ok(50));
    assert_eq!(bw.get_balance_legacy(&addr(2).as_array()), Ok(80));
    assert_eq!(bw.get_sc_balance(&b"EGLD".to_vec(), 0), Ok(80));
    assert_eq!(bw.get_sc_balance(&b"TOK-1".to_vec(), 0), Ok(0));
    assert_eq!(bw.get_gas_left(), 5_000_000);
    assert_eq!(bw.get_tx_hash_legacy(), [7u8; 32]);
    assert_eq!(bw.get_tx_hash(), vec![7u8; 32]);
    assert_eq!(bw.get_state_root_hash_legacy(), [9u8; 32]);
    assert_eq!(bw.get_state_root_hash(), vec![9u8; 32]);
    assert_eq!(bw.get_block_timestamp(), 1000);
    assert_eq!(bw.get_block_nonce(), 12);
    assert_eq!(bw.get_block_round(), 13);
    assert_eq!(bw.get_block_epoch(), 2);
    assert_eq!(bw.get_block_random_seed_legacy(), seed);
    assert_eq!(bw.get_block_random_seed(), seed.to_vec());
    assert_eq!(bw.get_prev_block_timestamp(), 0);
    assert_eq!(bw.get_prev_block_nonce(), 0);
    assert_eq!(bw.get_prev_block_round(), 0);
    assert_eq!(bw.get_prev_block_epoch(), 0);
    assert_eq!(bw.get_prev_block_random_seed_legacy(), [0u8; 48]);
    assert_eq!(bw.get_prev_block_random_seed(), vec![0u8; 48]);
    assert_eq!(bw.get_shard_of_address(&addr(5)), 0);
    assert_eq!(bw.get_shard_of_address_legacy(&addr(5).as_array()), 0);
}

#[test]
fn wrapper_rejects_non_owner() {
    let mut w = world_with(&[(1, 0), (3, 0)]);
    let mut sc = AccountRecord::new(addr(2), 0);
    sc.owner = Some(addr(1));
    w.add_account(sc);
    let c = TxCache::new(&w, tx(&addr(3), &addr(2)));
    let bw = BlockchainWrapper::new(&c);
    assert_eq!(bw.check_caller_is_owner(), Err(LedgerError::CallerNotOwner));
    let c2 = TxCache::new(&w, tx(&addr(1), &addr(3)));
    assert_eq!(BlockchainWrapper::new(&c2).check_caller_is_owner(), Err(LedgerError::CallerNotOwner));
    assert_eq!(BlockchainWrapper::new(&c2).get_owner_address_legacy(), None);
}

#[test]
fn wrapper_reads_token_data_and_rewards() {
    let t = b"SFT-aa".to_vec();
    let mut w = World::new();
    let mut sc = AccountRecord::new(addr(2), 0);
    sc.tokens.push(TokenBalance { token_id: t.clone(), nonce: 3, amount: 12 });
    sc.storage.push(StorageEntry { key: b"ELRONDreward".to_vec(), value: vec![1, 0] });
    w.add_account(sc);
    let c = TxCache::new(&w, tx(&addr(2), &addr(2)));
    let bw = BlockchainWrapper::new(&c);
    let d = bw.get_esdt_token_data(&addr(2), &t, 3).unwrap();
    assert_eq!((d.token_id.clone(), d.nonce, d.amount), (t.clone(), 3, 12));
    assert_eq!(bw.get_esdt_balance(&addr(2), &t, 3), Ok(12));
    assert_eq!(bw.get_sc_balance(&t, 3), Ok(12));
    assert_eq!(bw.get_cumulated_validator_rewards(), Ok(256));
    assert!(bw.get_esdt_token_data(&addr(4), &t, 3).is_err());
}

#[test]
fn rewards_that_overflow_are_reported() {
    let mut w = World::new();
    let mut sc = AccountRecord::new(addr(2), 0);
    sc.storage.push(StorageEntry { key: b"ELRONDreward".to_vec(), value: vec![1, 0, 0, 0, 0, 0, 0, 0, 0] });
    w.add_account(sc);
    let c = TxCache::new(&w, tx(&addr(2), &addr(2)));
    assert_eq!(BlockchainWrapper::new(&c).get_cumulated_validator_rewards(), Err(LedgerError::BalanceOverflow));
    let c2 = TxCache::new(&w, tx(&addr(2), &addr(6)));
    assert_eq!(BlockchainWrapper::new(&c2).get_cumulated_validator_rewards(), Err(LedgerError::UnknownAccount));
}

#[test]
fn decodes_big_endian_values() {
    assert_eq!(decode_big_endian(&vec![]), Some(0));
    assert_eq!(decode_big_endian(&vec![1, 2]), Some(258));
    assert_eq!(decode_big_endian(&vec![255; 8]), Some(u64::MAX));
    assert_eq!(decode_big_endian(&vec![0, 0, 0, 0, 0, 0, 0, 0, 0, 5]), Some(5));
    assert_eq!(decode_big_endian(&vec![1, 0, 0, 0, 0, 0, 0, 0, 0]), None);
    assert!(is_native_token(&b"EGLD".to_vec()));
    assert!(!is_native_token(&b"EGLX".to_vec()));
}

#[test]
fn add_account_replaces_record() {
    let mut w = world_with(&[(1, 5)]);
    w.add_account(AccountRecord::new(addr(1), 9));
    assert_eq!(balance(&w, 1), 9);
    assert!(w.get_account(&addr(2)).is_none());
}

#[test]
fn sender_nonce_counts_once_per_transaction() {
    let mut w = world_with(&[(1, 10), (2, 0)]);
    let updates = {
        let mut c = TxCache::new(&w, tx(&addr(1), &addr(2)));
        assert_eq!(c.increment_sender_nonce(), Ok(()));
        assert_eq!(c.increment_sender_nonce(), Ok(()));
        assert_eq!(c.transfer_native_balance(&addr(1), &addr(2), 4), Ok(()));
        c.into_blockchain_updates()
    };
    assert_eq!(updates.entries()[0].nonce_increment, 1);
    assert_eq!(w.apply(updates), Ok(()));
    assert_eq!(w.get_account(&addr(1)).unwrap().nonce, 1);
    assert_eq!(w.get_account(&addr(2)).unwrap().nonce, 0);
    assert_eq!(balance(&w, 2), 4);
    let mut c = TxCache::new(&w, tx(&addr(5), &addr(2)));
    assert_eq!(c.increment_sender_nonce(), Err(LedgerError::UnknownAccount));
}

#[test]
fn sender_nonce_at_limit_is_rejected() {
    let mut w = World::new();
    let mut a = AccountRecord::new(addr(1), 0);
    a.nonce = u64::MAX;
    w.add_account(a);
    let mut c = TxCache::new(&w, tx(&addr(1), &addr(1)));
    assert_eq!(c.increment_sender_nonce(), Err(LedgerError::InvariantViolation));
    assert!(c.into_blockchain_updates().entries().is_empty());
}

#[test]
fn wrapper_reads_roles_and_last_nonce() {
    let t = b"NFT-01".to_vec();
    let mut w = world_with(&[(1, 0)]);
    let mut sc = AccountRecord::new(addr(2), 0);
    sc.token_roles.push(TokenRoles { token_id: t.clone(), roles: 0b101, last_nonce: 17 });
    sc.token_roles.push(TokenRoles { token_id: t.clone(), roles: 0b010, last_nonce: 3 });
    w.add_account(sc);
    let c = TxCache::new(&w, tx(&addr(1), &addr(2)));
    let bw = BlockchainWrapper::new(&c);
    assert_eq!(bw.get_esdt_local_roles(&t), Ok(0b101));
    assert_eq!(bw.get_esdt_local_roles(&b"OTHER-1".to_vec()), Ok(0));
    assert_eq!(bw.get_current_esdt_nft_nonce(&addr(2), &t), Ok(17));
    assert_eq!(bw.get_current_esdt_nft_nonce(&addr(1), &t), Ok(0));
    assert_eq!(bw.get_current_esdt_nft_nonce(&addr(4), &t), Err(LedgerError::UnknownAccount));
}
