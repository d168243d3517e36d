use toka::ledger::event::{LedgerEvent, LedgerEventKind, WALEntry};
use toka::ledger::ledger::Ledger;
use toka::ledger::storage::{MemoryStorage, Storage, WALStorage};

#[test]
fn test_memory_wal_storage() {
    let mut storage = MemoryStorage::new();

    let event = LedgerEvent::new(
        1,
        LedgerEventKind::Mint { credits: 100, reason: "test".to_string(), memo: None },
        None,
        None,
    );

    let wal_entry = WALEntry::new(1, event);

    storage.append_to_wal(wal_entry).unwrap();
    assert_eq!(storage.get_wal_sequence(), 1);

    let committed = storage.commit_wal().unwrap();
    assert_eq!(committed.len(), 1);
    assert!(committed[0].is_committed());

    storage.truncate_wal().unwrap();
    assert!(storage.is_available());
}

#[test]
fn new_ledger_holds_the_reserve() {
    let ledger = Ledger::new();
    assert_eq!(ledger.get_platform_reserve_balance(), 1_000_000_000);
    assert_eq!(ledger.get_account_balance("platform:revenue"), 0);
    assert_eq!(ledger.get_account_balance("nobody"), 0);
    assert_eq!(ledger.total_credits_in_circulation(), 0);
}

#[test]
fn purchase_unlock_and_payout_conserve_credits() {
    let mut ledger = Ledger::new();
    let mut storage = MemoryStorage::new();
    let supply_before = ledger.total_supply();

    let mut tx = ledger.begin_transaction();
    tx.mint(&ledger, "user123", 1000, "credit_purchase".to_string(), None).unwrap();
    tx.transfer(&ledger, "user123", "creator456", 250, "content_unlock".to_string(), None).unwrap();
    tx.burn(&ledger, "creator456", 100, "creator_cashout".to_string(), None).unwrap();
    assert_eq!(tx.staged_count(), 3);
    let ids = tx.commit(&mut ledger, &mut storage).unwrap();
    assert_eq!(ids.len(), 3);

    assert_eq!(ledger.get_account_balance("user123"), 750);
    assert_eq!(ledger.get_account_balance("creator456"), 150);
    assert_eq!(ledger.get_platform_reserve_balance(), 1_000_000_000 - 1000 + 100);
    assert_eq!(ledger.total_supply(), supply_before);
    assert!(ledger.validate_integrity().is_ok());
    assert_eq!(ledger.get_events().len(), 3);
}

#[test]
fn transfer_without_balance_is_refused() {
    let ledger = Ledger::new();
    let mut tx = ledger.begin_transaction();
    assert!(tx.transfer(&ledger, "alice", "bob", 10, "gift".to_string(), None).is_err());
    assert_eq!(tx.staged_count(), 0);
}

#[test]
fn zero_credit_mint_is_refused() {
    let ledger = Ledger::new();
    let mut tx = ledger.begin_transaction();
    assert!(tx.mint(&ledger, "alice", 0, "nothing".to_string(), None).is_err());
}

#[test]
fn self_transfer_is_refused() {
    let mut ledger = Ledger::new();
    let mut storage = MemoryStorage::new();
    let mut tx = ledger.begin_transaction();
    tx.mint(&ledger, "alice", 50, "purchase".to_string(), None).unwrap();
    tx.commit(&mut ledger, &mut storage).unwrap();
    let mut tx2 = ledger.begin_transaction();
    assert!(tx2.transfer(&ledger, "alice", "alice", 10, "loop".to_string(), None).is_err());
}

#[test]
fn pending_balances_count_staged_moves() {
    let ledger = Ledger::new();
    let mut tx = ledger.begin_transaction();
    tx.mint(&ledger, "alice", 40, "purchase".to_string(), None).unwrap();
    tx.transfer(&ledger, "alice", "bob", 15, "gift".to_string(), None).unwrap();
    let pending = tx.pending_balances();
    let alice = pending.iter().find(|(id, _)| id == "alice").map(|(_, b)| *b);
    let bob = pending.iter().find(|(id, _)| id == "bob").map(|(_, b)| *b);
    assert_eq!(alice, Some(25));
    assert_eq!(bob, Some(15));
    assert!(tx.rollback().is_ok());
}

#[test]
fn recovery_replays_the_write_ahead_log() {
    let mut ledger = Ledger::new();
    let mut storage = MemoryStorage::new();
    let mut tx = ledger.begin_transaction();
    tx.mint(&ledger, "alice", 70, "purchase".to_string(), None).unwrap();
    tx.commit(&mut ledger, &mut storage).unwrap();
    let recovered = Ledger::new_with_recovery(&mut storage).unwrap();
    assert_eq!(recovered.get_account_balance("alice"), 70);
}

#[test]
fn replay_applies_committed_events_and_refuses_gaps() {
    let empty = Ledger::replay(Vec::new()).unwrap();
    assert_eq!(empty.get_account_balance("platform_reserve"), Ledger::new().get_account_balance("platform_reserve"));
    let mut ledger = Ledger::new();
    let mut storage = MemoryStorage::new();
    let mut tx = ledger.begin_transaction();
    tx.mint(&ledger, "alice", 70, "purchase".to_string(), None).unwrap();
    let ids = tx.commit(&mut ledger, &mut storage).unwrap();
    assert_eq!(ids.len(), 1);
    let events = storage.recover_from_wal().unwrap();
    let replayed = Ledger::replay(events).unwrap();
    assert_eq!(replayed.get_account_balance("alice"), 70);
    let mut storage2 = MemoryStorage::new();
    let mut ledger2 = Ledger::new();
    let mut tx2 = ledger2.begin_transaction();
    tx2.mint(&ledger2, "bob", 5, "purchase".to_string(), None).unwrap();
    tx2.mint(&ledger2, "bob", 6, "purchase".to_string(), None).unwrap();
    tx2.commit(&mut ledger2, &mut storage2).unwrap();
    let mut events2 = storage2.recover_from_wal().unwrap();
    events2.remove(0);
    assert!(Ledger::replay(events2).is_err());
}

#[test]
fn memory_storage_loads_what_was_saved() {
    let mut storage = MemoryStorage::new();
    assert_eq!(storage.load_ledger().unwrap().get_account_balance("alice"), 0);
    let mut ledger = Ledger::new();
    let mut tx = ledger.begin_transaction();
    tx.mint(&ledger, "alice", 9, "purchase".to_string(), None).unwrap();
    tx.commit(&mut ledger, &mut storage).unwrap();
    storage.save_ledger(&ledger).unwrap();
    assert_eq!(storage.load_ledger().unwrap().get_account_balance("alice"), 9);
}
