use grpcurl::AccountStore;
use grpcurl::GrpcurlError;
use grpcurl::Timestamp;
use grpcurl::dollars;

fn t0() -> Timestamp {
    Timestamp { seconds: 1700000000, nanos: 0 }
}

#[test]
fn dollars_formatting() {
    assert_eq!(dollars(0), "$0.00");
    assert_eq!(dollars(5), "$0.05");
    assert_eq!(dollars(150), "$1.50");
    assert_eq!(dollars(-50), "$-0.50");
    assert_eq!(dollars(123456), "$1234.56");
}

#[test]
fn open_account_assigns_numbers() {
    let mut store = AccountStore::new();
    let first = store.open_account("alice", 1, 1000, t0());
    assert_eq!(first.account_number, 1);
    assert_eq!(first.account_type, 1);
    assert_eq!(first.balance_cents, 1000);
    let second = store.open_account("alice", 2, 0, t0());
    assert_eq!(second.account_number, 2);
}

#[test]
fn open_account_writes_initial_deposit() {
    let mut store = AccountStore::new();
    store.open_account("bob", 1, 250, t0());
    let accounts = store.get_all_accounts("bob");
    assert_eq!(accounts.len(), 1);
    assert_eq!(accounts[0].balance_cents, 250);
    let txns = store.accounts[0].get_transactions();
    assert_eq!(txns.len(), 1);
    assert_eq!(txns[0].seq_number, 1);
    assert_eq!(txns[0].amount_cents, 250);
    assert_eq!(txns[0].desc, "initial deposit");
}

#[test]
fn get_all_accounts_per_customer() {
    let mut store = AccountStore::new();
    store.open_account("alice", 1, 100, t0());
    store.open_account("bob", 1, 200, t0());
    store.open_account("alice", 2, 300, t0());
    let alice = store.get_all_accounts("alice");
    assert_eq!(alice.len(), 2);
    assert_eq!(alice[0].balance_cents, 100);
    assert_eq!(alice[1].balance_cents, 300);
    let nobody = store.get_all_accounts("carol");
    assert!(nobody.is_empty());
}

#[test]
fn new_transaction_updates_balance() {
    let mut store = AccountStore::new();
    store.open_account("alice", 1, 100, t0());
    let balance = store.accounts[0]
        .new_transaction(50, "deposit".to_string(), t0())
        .unwrap();
    assert_eq!(balance, 150);
    let txns = store.accounts[0].get_transactions();
    assert_eq!(txns.len(), 2);
    assert_eq!(txns[1].seq_number, 2);
}

#[test]
fn new_transaction_insufficient_funds() {
    let mut store = AccountStore::new();
    store.open_account("alice", 1, 100, t0());
    let err = store.accounts[0]
        .new_transaction(-150, "withdrawal".to_string(), t0())
        .unwrap_err();
    match err {
        GrpcurlError::GrpcStatus(_, m) => {
            assert_eq!(
                m,
                "insufficient funds: cannot withdraw $-1.50 when balance is $1.00"
            );
        },
        _ => panic!("expected a status error"),
    }
    // The balance is untouched on failure.
    assert_eq!(store.accounts[0].balance_cents, 100);
}

#[test]
fn clone_for_save_copies_everything() {
    let mut store = AccountStore::new();
    store.open_account("alice", 1, 100, t0());
    store.open_account("bob", 1, 200, t0());
    let copy = store.clone_for_save();
    assert_eq!(copy.last_account_num, 2);
    assert_eq!(copy.accounts.len(), 2);
    assert_eq!(copy.account_numbers, vec![1, 2]);
    assert_eq!(copy.customers, vec!["alice".to_string(), "bob".to_string()]);
    assert_eq!(copy.get_all_accounts("bob").len(), 1);
}
