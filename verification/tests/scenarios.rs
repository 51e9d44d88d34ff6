use minichain::ledger::{Blockchain, ConfirmationOutcome, SubmissionOutcome};

#[test]
fn simple_transfer_confirms() {
    let mut ledger = Blockchain::new();
    assert!(ledger.create_account(String::from("Alice"), 100).is_ok());
    assert!(ledger.create_account(String::from("Bob"), 50).is_ok());
    let r = ledger.transfer(String::from("Alice"), String::from("Bob"), 30);
    assert_eq!(r, SubmissionOutcome::Queued);
    assert_eq!(ledger.pending_transactions.len(), 1);
    match ledger.mint_block() {
        ConfirmationOutcome::Minted(record) => {
            assert_eq!(record.transactions.len(), 1);
            assert_eq!(record.transactions[0].from, Some(String::from("Alice")));
            assert_eq!(record.transactions[0].to, String::from("Bob"));
            assert_eq!(record.transactions[0].amount, 30);
            assert_eq!(ledger.chain.len(), 1);
            assert_eq!(ledger.chain[0].timestamp, record.timestamp);
            assert_eq!(ledger.chain[0].transactions.len(), 1);
        }
        ConfirmationOutcome::NothingToConfirm => panic!("a queued intent was not confirmed"),
    }
    assert_eq!(ledger.get_balance(&String::from("Alice")), Some(70));
    assert_eq!(ledger.get_balance(&String::from("Bob")), Some(80));
    assert_eq!(ledger.pending_transactions.len(), 0);
}

#[test]
fn transfer_to_missing_account_is_rejected() {
    let mut ledger = Blockchain::new();
    assert!(ledger.create_account(String::from("Alice"), 100).is_ok());
    let r = ledger.transfer(String::from("Alice"), String::from("Bob"), 10);
    assert_eq!(r, SubmissionOutcome::AccountNotFound);
    assert_eq!(ledger.pending_transactions.len(), 0);
}

#[test]
fn transfer_from_missing_account_is_rejected() {
    let mut ledger = Blockchain::new();
    assert!(ledger.create_account(String::from("Bob"), 100).is_ok());
    let r = ledger.transfer(String::from("Alice"), String::from("Bob"), 10);
    assert_eq!(r, SubmissionOutcome::AccountNotFound);
    assert_eq!(ledger.pending_transactions.len(), 0);
}

#[test]
fn overdraw_is_rejected() {
    let mut ledger = Blockchain::new();
    assert!(ledger.create_account(String::from("Alice"), 20).is_ok());
    let r = ledger.transfer(String::from("Alice"), String::from("Alice"), 50);
    assert_eq!(r, SubmissionOutcome::InsufficientFunds);
    assert_eq!(ledger.pending_transactions.len(), 0);
}

#[test]
fn second_confirmation_has_nothing_to_do() {
    let mut ledger = Blockchain::new();
    assert!(ledger.create_account(String::from("Alice"), 100).is_ok());
    assert!(ledger.create_account(String::from("Bob"), 0).is_ok());
    assert_eq!(
        ledger.transfer(String::from("Alice"), String::from("Bob"), 5),
        SubmissionOutcome::Queued
    );
    assert!(matches!(ledger.mint_block(), ConfirmationOutcome::Minted(_)));
    assert!(matches!(
        ledger.mint_block(),
        ConfirmationOutcome::NothingToConfirm
    ));
    assert_eq!(ledger.chain.len(), 1);
}

#[test]
fn self_transfer_with_funds_confirms() {
    let mut ledger = Blockchain::new();
    assert!(ledger.create_account(String::from("Alice"), 80).is_ok());
    assert_eq!(
        ledger.transfer(String::from("Alice"), String::from("Alice"), 50),
        SubmissionOutcome::Queued
    );
    assert!(matches!(ledger.mint_block(), ConfirmationOutcome::Minted(_)));
    assert_eq!(ledger.get_balance(&String::from("Alice")), Some(80));
}
