//! The ordered account and peer tables.

use rsnode::blocks::Epoch;
use rsnode::numbers::{Account, Amount, BlockHash};
use rsnode::store::{AccountInfo, EndpointKey, LmdbAccountStore, LmdbEnv, LmdbPeerStore};

fn account_from(value: u8) -> Account {
    let mut bytes = [0u8; 32];
    bytes[31] = value;
    Account::from_bytes(bytes)
}

fn hash_from(value: u8) -> BlockHash {
    let mut bytes = [0u8; 32];
    bytes[31] = value;
    BlockHash::from_bytes(bytes)
}

fn test_info() -> AccountInfo {
    AccountInfo {
        head: hash_from(7),
        representative: account_from(8),
        open_block: hash_from(9),
        balance: Amount::raw(42),
        modified: 77,
        block_count: 3,
        epoch: Epoch::Epoch0,
    }
}

fn default_info() -> AccountInfo {
    AccountInfo {
        head: BlockHash::zero(),
        representative: Account::zero(),
        open_block: BlockHash::zero(),
        balance: Amount::zero(),
        modified: 0,
        block_count: 0,
        epoch: Epoch::Epoch0,
    }
}

fn test_endpoint_key() -> EndpointKey {
    EndpointKey::new([1; 16], 123)
}

#[test]
fn account_store_empty_store() {
    let mut env = LmdbEnv::new();
    let store = LmdbAccountStore::new(&mut env);
    let account = account_from(1);
    assert_eq!(store.get(&account), None);
    assert_eq!(store.contains(&account), false);
    assert_eq!(store.count(), 0);
}

#[test]
fn add_one_account_with_nullables() {
    let mut env = LmdbEnv::new();
    let mut store = LmdbAccountStore::new(&mut env);
    let account = account_from(1);
    let info = test_info();
    store.put(&account, &info);
    assert_eq!(store.count(), 1);
    assert_eq!(store.get(&account), Some(info));
    let entries = store.begin();
    assert_eq!(entries.len(), 1);
    assert_eq!(entries[0].0, account);
    assert_eq!(entries[0].1, info);
}

#[test]
fn load_account() {
    let mut env = LmdbEnv::new();
    let mut store = LmdbAccountStore::new(&mut env);
    let account = account_from(1);
    let info = test_info();
    store.put(&account, &info);
    let result = store.get(&account);
    assert_eq!(result, Some(info));
}

#[test]
fn count() {
    let mut env = LmdbEnv::new();
    let mut store = LmdbAccountStore::new(&mut env);
    let info = test_info();
    store.put(&account_from(1), &info);
    store.put(&account_from(2), &info);
    assert_eq!(store.count(), 2);
}

#[test]
fn del() {
    let mut env = LmdbEnv::new();
    let mut store = LmdbAccountStore::new(&mut env);
    let account = account_from(1);
    let mut info = default_info();
    info.balance = Amount::raw(123);
    store.put(&account, &info);
    store.del(&account);
    assert_eq!(store.get(&account), None);
}

#[test]
fn begin_empty_store() {
    let mut env = LmdbEnv::new();
    let store = LmdbAccountStore::new(&mut env);
    assert!(store.begin().is_empty());
}

#[test]
fn begin() {
    let mut env = LmdbEnv::new();
    let mut store = LmdbAccountStore::new(&mut env);
    let account1 = account_from(1);
    let account2 = account_from(2);
    let mut info1 = default_info();
    info1.head = hash_from(1);
    let mut info2 = default_info();
    info2.head = hash_from(2);
    store.put(&account1, &info1);
    store.put(&account2, &info2);
    let entries = store.begin();
    assert_eq!(entries.len(), 2);
    assert_eq!(entries[0], (account1, info1));
    assert_eq!(entries[1], (account2, info2));
}

#[test]
fn begin_account() {
    let mut env = LmdbEnv::new();
    let mut store = LmdbAccountStore::new(&mut env);
    let account1 = account_from(1);
    let account3 = account_from(3);
    let mut info1 = default_info();
    info1.head = hash_from(1);
    let mut info3 = default_info();
    info3.head = hash_from(3);
    store.put(&account1, &info1);
    store.put(&account3, &info3);
    let entries = store.begin_account(&account_from(2));
    assert_eq!(entries.len(), 1);
    assert_eq!(entries[0], (account3, info3));
}

#[test]
fn for_each_par() {
    // The balances over the whole table, traversed in key order.
    let mut env = LmdbEnv::new();
    let mut store = LmdbAccountStore::new(&mut env);
    let account_1 = account_from(1);
    let account_max = Account::from_bytes([0xFF; 32]);
    let mut info_1 = default_info();
    info_1.balance = Amount::raw(1);
    let mut info_max = default_info();
    info_max.balance = Amount::raw(3);
    store.put(&account_1, &info_1);
    store.put(&account_max, &info_max);
    let mut balance_sum = Amount::zero();
    for (_, info) in store.begin() {
        balance_sum = balance_sum.wrapping_add(info.balance);
    }
    assert_eq!(balance_sum, Amount::raw(4));
}

#[test]
fn peer_store_empty_store() {
    let mut env = LmdbEnv::new();
    let store = LmdbPeerStore::new(&mut env);
    assert_eq!(store.count(), 0);
    assert_eq!(store.contains(&test_endpoint_key()), false);
    assert!(store.begin().is_empty());
}

#[test]
fn add_one_endpoint() {
    let mut env = LmdbEnv::new();
    let mut store = LmdbPeerStore::new(&mut env);
    let key = test_endpoint_key();
    store.put(&key, 0);
    assert_eq!(store.count(), 1);
    assert_eq!(store.contains(&key), true);
    let entries = store.begin();
    assert_eq!(entries.len(), 1);
    assert_eq!(entries[0].0, key);
}

#[test]
fn add_two_endpoints() {
    let mut env = LmdbEnv::new();
    let mut store = LmdbPeerStore::new(&mut env);
    let key1 = test_endpoint_key();
    let key2 = EndpointKey::new([2; 16], 123);
    store.put(&key1, 0);
    store.put(&key2, 0);
    assert_eq!(store.count(), 2);
    assert_eq!(store.contains(&key1), true);
    assert_eq!(store.contains(&key2), true);
}

#[test]
fn delete() {
    let mut env = LmdbEnv::new();
    let mut store = LmdbPeerStore::new(&mut env);
    let key1 = test_endpoint_key();
    let key2 = EndpointKey::new([2; 16], 123);
    store.put(&key1, 0);
    store.put(&key2, 0);
    store.del(&key1);
    assert_eq!(store.count(), 1);
    assert_eq!(store.contains(&key1), false);
    assert_eq!(store.contains(&key2), true);
}

#[test]
fn clear() {
    let mut env = LmdbEnv::new();
    let mut store = LmdbPeerStore::new(&mut env);
    store.put(&test_endpoint_key(), 5);
    store.put(&EndpointKey::new([2; 16], 9), 6);
    store.clear();
    assert_eq!(store.count(), 0);
}
