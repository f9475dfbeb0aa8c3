use ethserv::wallet::database::{AddressRecord, LedgerError, WalletDatabase};

const A: &str = "0x1111111111111111111111111111111111111111";
const B: &str = "0x2222222222222222222222222222222222222222";
const C: &str = "0x3333333333333333333333333333333333333333";
const PATH: &str = "m/44'/60'/0'/0/";
const OTHER: &str = "m/44'/60'/1'/0/";

fn record(address: &str, path: &str, addr_index: u32, created_at: u64) -> AddressRecord {
    AddressRecord {
        address: String::from(address),
        path: String::from(path),
        addr_index,
        created_at,
        last_used: None,
    }
}

#[test]
fn new_ledger_is_empty() {
    let db = WalletDatabase::new();
    assert_eq!(db.len(), 0);
    assert_eq!(db.get_max_index_for_path(PATH), None);
    assert!(!db.address_exists(A));
    assert!(db.get_all_indexes().is_empty());
    assert!(db.get_all_addresses().is_empty());
    assert!(db.get_all_addresses_by_path(PATH).is_empty());
}

#[test]
fn store_address_appends_a_record() {
    let mut db = WalletDatabase::new();
    assert_eq!(db.store_address(A, PATH, 1, 10), Ok(true));
    assert_eq!(db.len(), 1);
    assert!(db.address_exists(A));
    assert_eq!(db.get_max_index_for_path(PATH), Some(1));
    assert_eq!(db.get_address_by_path_and_index(PATH, 1), Some(String::from(A)));
    let rows = db.records();
    assert_eq!(rows[0].address, A);
    assert_eq!(rows[0].path, PATH);
    assert_eq!(rows[0].addr_index, 1);
    assert_eq!(rows[0].created_at, 10);
    assert_eq!(rows[0].last_used, None);
}

#[test]
fn store_address_refuses_a_taken_slot() {
    let mut db = WalletDatabase::new();
    assert_eq!(db.store_address(A, PATH, 1, 10), Ok(true));
    assert_eq!(db.store_address(B, PATH, 1, 11), Ok(false));
    assert_eq!(db.store_address(A, PATH, 1, 11), Ok(false));
    assert_eq!(db.len(), 1);
    assert!(!db.address_exists(B));
}

#[test]
fn store_address_refuses_a_taken_address() {
    let mut db = WalletDatabase::new();
    assert_eq!(db.store_address(A, PATH, 1, 10), Ok(true));
    assert_eq!(db.store_address(A, PATH, 2, 11), Err(LedgerError::AddressTaken));
    assert_eq!(db.store_address(A, OTHER, 1, 11), Err(LedgerError::AddressTaken));
    assert_eq!(db.len(), 1);
}

#[test]
fn same_index_under_another_path_is_accepted() {
    let mut db = WalletDatabase::new();
    assert_eq!(db.store_address(A, PATH, 1, 10), Ok(true));
    assert_eq!(db.store_address(B, OTHER, 1, 11), Ok(true));
    assert_eq!(db.get_address_by_path_and_index(OTHER, 1), Some(String::from(B)));
    assert_eq!(db.get_address_by_index(1), Some(String::from(A)));
    assert_eq!(db.get_address_by_index(2), None);
}

#[test]
fn max_index_is_per_path() {
    let mut db = WalletDatabase::new();
    db.store_address(A, PATH, 7, 1).unwrap();
    db.store_address(B, PATH, 3, 2).unwrap();
    db.store_address(C, OTHER, 9, 3).unwrap();
    assert_eq!(db.get_max_index_for_path(PATH), Some(7));
    assert_eq!(db.get_max_index_for_path(OTHER), Some(9));
    assert_eq!(db.get_max_index_for_path("m/0/"), None);
}

#[test]
fn update_last_used_stamps_only_the_named_address() {
    let mut db = WalletDatabase::new();
    db.store_address(A, PATH, 1, 1).unwrap();
    db.store_address(B, PATH, 2, 2).unwrap();
    assert!(db.update_last_used(B, 50));
    assert!(!db.update_last_used(C, 60));
    let rows = db.records();
    assert_eq!(rows.len(), 2);
    assert_eq!(rows[0].address, A);
    assert_eq!(rows[0].last_used, None);
    assert_eq!(rows[1].address, B);
    assert_eq!(rows[1].last_used, Some(50));
    assert_eq!(rows[1].created_at, 2);
    assert_eq!(rows[1].addr_index, 2);
}

#[test]
fn addresses_by_path_come_ordered_by_index() {
    let mut db = WalletDatabase::new();
    db.store_address(A, PATH, 5, 1).unwrap();
    db.store_address(B, OTHER, 1, 2).unwrap();
    db.store_address(C, PATH, 2, 3).unwrap();
    assert_eq!(
        db.get_all_addresses_by_path(PATH),
        vec![(String::from(C), 2u32), (String::from(A), 5u32)]
    );
    assert_eq!(db.get_all_addresses_by_path(OTHER), vec![(String::from(B), 1u32)]);
}

#[test]
fn all_addresses_come_ordered_by_creation() {
    let mut db = WalletDatabase::new();
    db.store_address(A, PATH, 1, 30).unwrap();
    db.store_address(B, OTHER, 1, 10).unwrap();
    db.store_address(C, PATH, 2, 10).unwrap();
    assert_eq!(
        db.get_all_addresses(),
        vec![
            (String::from(B), String::from(OTHER)),
            (String::from(C), String::from(PATH)),
            (String::from(A), String::from(PATH)),
        ]
    );
}

#[test]
fn all_indexes_are_distinct_and_rising() {
    let mut db = WalletDatabase::new();
    db.store_address(A, PATH, 5, 1).unwrap();
    db.store_address(B, OTHER, 5, 2).unwrap();
    db.store_address(C, PATH, 2, 3).unwrap();
    assert_eq!(db.get_all_indexes(), vec![2u32, 5u32]);
}

#[test]
fn from_records_accepts_what_keeps_the_rules() {
    let rows = vec![record(A, PATH, 1, 1), record(B, PATH, 2, 2), record(C, OTHER, 1, 3)];
    let db = WalletDatabase::from_records(rows).unwrap();
    assert_eq!(db.len(), 3);
    assert_eq!(db.get_max_index_for_path(PATH), Some(2));
}

#[test]
fn from_records_rejects_duplicates() {
    assert!(WalletDatabase::from_records(vec![record(A, PATH, 1, 1), record(A, PATH, 2, 2)])
        .is_none());
    assert!(WalletDatabase::from_records(vec![record(A, PATH, 1, 1), record(B, PATH, 1, 2)])
        .is_none());
    assert!(WalletDatabase::from_records(vec![]).is_some());
}

#[test]
fn n_successful_stores_leave_n_distinct_addresses() {
    let mut db = WalletDatabase::new();
    let addresses = [A, B, C];
    let mut stored = 0;
    for (i, a) in addresses.iter().enumerate() {
        if db.store_address(a, PATH, i as u32 + 1, i as u64) == Ok(true) {
            stored += 1;
        }
    }
    assert_eq!(stored, 3);
    let all = db.get_all_addresses();
    assert_eq!(all.len(), 3);
    for i in 0..all.len() {
        for j in 0..i {
            assert_ne!(all[i].0, all[j].0);
        }
    }
}
