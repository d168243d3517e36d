use toka::runtime::config::Environment;
use toka::runtime::user_ledger::{
    LedgerSyncResponse, TransactionType, UserLedger, UserLedgerEntry,
};

#[test]
fn test_environment_parsing() {
    assert_eq!(Environment::from_str("development").unwrap(), Environment::Development);
    assert_eq!(Environment::from_str("SANDBOX").unwrap(), Environment::Sandbox);
    assert_eq!(Environment::from_str("prod").unwrap(), Environment::Production);
    assert!(Environment::from_str("invalid").is_err());
}

#[test]
fn it_works() {
    let result = 2 + 2;
    assert_eq!(result, 4);
}

fn entry(id: u128, amount: u64, kind: TransactionType, timestamp: i64) -> UserLedgerEntry {
    UserLedgerEntry {
        transaction_id: id,
        counterparty_id: 99,
        amount_credits: amount,
        transaction_type: kind,
        timestamp,
        local_balance_after: 0,
        synced_to_server: false,
        content_id: None,
        fees_applied: None,
        description: None,
    }
}

#[test]
fn test_user_ledger_creation() {
    let user_id: u128 = 0x1234;
    let ledger = UserLedger::new(user_id);
    assert_eq!(ledger.user_id, user_id);
    assert_eq!(ledger.current_balance_credits, 0);
    assert_eq!(ledger.transactions.len(), 0);
    assert_eq!(ledger.pending_sync_count, 0);
}

#[test]
fn test_credit_purchase_transaction() {
    let mut ledger = UserLedger::new(1);
    let mut transaction = entry(2, 100, TransactionType::CreditPurchase, 1_700_000_000_000);
    transaction.description = Some("Purchased starter pack".to_string());
    let result = ledger.add_transaction(transaction);
    assert!(result.is_ok());
    assert_eq!(ledger.current_balance_credits, 100);
    assert_eq!(ledger.pending_sync_count, 1);
    assert_eq!(ledger.transactions[0].local_balance_after, 100);
}

#[test]
fn test_insufficient_balance_transaction() {
    let mut ledger = UserLedger::new(1);
    let mut transaction = entry(2, 100, TransactionType::ContentUnlock, 1_700_000_000_000);
    transaction.content_id = Some(3);
    let result = ledger.add_transaction(transaction);
    assert!(result.is_err());
    assert!(result.unwrap_err().contains("Insufficient balance"));
}

#[test]
fn test_server_authoritative_sync() {
    let mut ledger = UserLedger::new(1);
    ledger.current_balance_credits = 100;
    let sync_response = LedgerSyncResponse {
        success: true,
        server_balance_credits: 150,
        rejected_transactions: Vec::new(),
        missing_transactions: Vec::new(),
        updated_checksum: Some("abc123".to_string()),
        error_message: None,
    };
    ledger.process_sync_response(sync_response).unwrap();
    assert_eq!(ledger.current_balance_credits, 150);
}

#[test]
fn checksum_is_the_hex_length_of_user_balance_and_count() {
    let mut ledger = UserLedger::new(1);
    ledger.add_transaction(entry(2, 100, TransactionType::CreditPurchase, 5)).unwrap();
    // "00000000-0000-0000-0000-000000000001:100:1" has 42 characters.
    assert_eq!(ledger.ledger_checksum, Some("2a".to_string()));
}

#[test]
fn sync_drops_rejected_marks_others_and_sorts_by_time() {
    let mut ledger = UserLedger::new(1);
    ledger.add_transaction(entry(10, 100, TransactionType::CreditPurchase, 30)).unwrap();
    ledger.add_transaction(entry(11, 20, TransactionType::ContentUnlock, 10)).unwrap();
    let mut missing = entry(12, 5, TransactionType::BonusCredits, 20);
    missing.synced_to_server = true;
    let response = LedgerSyncResponse {
        success: true,
        server_balance_credits: 85,
        rejected_transactions: vec![11],
        missing_transactions: vec![missing],
        updated_checksum: None,
        error_message: None,
    };
    ledger.process_sync_response(response).unwrap();
    let ids: Vec<u128> = ledger.transactions.iter().map(|t| t.transaction_id).collect();
    assert_eq!(ids, vec![12, 10]);
    assert!(ledger.transactions.iter().all(|t| t.synced_to_server));
    assert_eq!(ledger.pending_sync_count, 0);
    assert_eq!(ledger.current_balance_credits, 85);
    assert!(ledger.last_sync_timestamp.is_some());
}

#[test]
fn failed_sync_reports_the_server_message() {
    let mut ledger = UserLedger::new(1);
    let response = LedgerSyncResponse {
        success: false,
        server_balance_credits: 0,
        rejected_transactions: Vec::new(),
        missing_transactions: Vec::new(),
        updated_checksum: None,
        error_message: None,
    };
    assert_eq!(ledger.process_sync_response(response), Err("Sync failed".to_string()));
}

#[test]
fn history_is_most_recent_first_and_limited() {
    let mut ledger = UserLedger::new(1);
    ledger.add_transaction(entry(1, 100, TransactionType::CreditPurchase, 10)).unwrap();
    ledger.add_transaction(entry(2, 10, TransactionType::ContentUnlock, 30)).unwrap();
    ledger.add_transaction(entry(3, 10, TransactionType::ContentUnlock, 20)).unwrap();
    let all = ledger.get_transaction_history(None, None);
    let ids: Vec<u128> = all.iter().map(|t| t.transaction_id).collect();
    assert_eq!(ids, vec![2, 3, 1]);
    let unlocks = ledger.get_transaction_history(Some(TransactionType::ContentUnlock), Some(1));
    assert_eq!(unlocks.len(), 1);
    assert_eq!(unlocks[0].transaction_id, 2);
}

#[test]
fn spending_counts_synced_outgoing_only() {
    let mut ledger = UserLedger::new(1);
    let mut a = entry(1, 30, TransactionType::ContentUnlock, 1);
    a.synced_to_server = true;
    let mut b = entry(2, 12, TransactionType::PlatformFee, 2);
    b.synced_to_server = true;
    let c = entry(3, 50, TransactionType::ContentUnlock, 3);
    let mut d = entry(4, 7, TransactionType::CreditPurchase, 4);
    d.synced_to_server = true;
    ledger.transactions = vec![a, b, c, d];
    assert_eq!(ledger.get_total_spending(), 42);
    let summary = ledger.get_spending_summary();
    assert_eq!(summary, vec![(TransactionType::ContentUnlock, 30), (TransactionType::PlatformFee, 12)]);
    assert_eq!(ledger.get_creator_earnings(), 30);
}
