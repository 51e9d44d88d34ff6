use minichain::ledger::{Blockchain, ConfirmationOutcome, SubmissionOutcome};
use minichain::store::{AccountStore, StoreError};

#[test]
fn creating_a_taken_id_changes_nothing() {
    let mut ledger = Blockchain::new();
    assert!(ledger.create_account(String::from("Alice"), 100).is_ok());
    let r = ledger.create_account(String::from("Alice"), 7);
    assert_eq!(r, Err(StoreError::AlreadyExists));
    assert_eq!(ledger.get_balance(&String::from("Alice")), Some(100));
    assert_eq!(ledger.accounts.accounts.len(), 1);
}

#[test]
fn non_positive_amounts_never_queue() {
    let mut ledger = Blockchain::new();
    assert!(ledger.create_account(String::from("Alice"), 100).is_ok());
    assert!(ledger.create_account(String::from("Bob"), 100).is_ok());
    let r0 = ledger.transfer(String::from("Alice"), String::from("Bob"), 0);
    assert_eq!(r0, SubmissionOutcome::InvalidAmount);
    let rn = ledger.transfer(String::from("Alice"), String::from("Bob"), -5);
    assert_eq!(rn, SubmissionOutcome::InvalidAmount);
    assert_eq!(ledger.pending_transactions.len(), 0);
}

#[test]
fn confirmation_conserves_the_total_supply() {
    let mut ledger = Blockchain::new();
    assert!(ledger.create_account(String::from("Alice"), 100).is_ok());
    assert!(ledger.create_account(String::from("Bob"), 50).is_ok());
    assert!(ledger.create_account(String::from("Carol"), 25).is_ok());
    assert_eq!(ledger.accounts.total_supply(), 175);
    assert_eq!(
        ledger.transfer(String::from("Alice"), String::from("Bob"), 40),
        SubmissionOutcome::Queued
    );
    assert_eq!(
        ledger.transfer(String::from("Bob"), String::from("Carol"), 15),
        SubmissionOutcome::Queued
    );
    assert!(matches!(ledger.mint_block(), ConfirmationOutcome::Minted(_)));
    assert_eq!(ledger.accounts.total_supply(), 175);
    assert_eq!(ledger.get_balance(&String::from("Alice")), Some(60));
    assert_eq!(ledger.get_balance(&String::from("Bob")), Some(75));
    assert_eq!(ledger.get_balance(&String::from("Carol")), Some(40));
}

#[test]
fn empty_confirmation_appends_no_record() {
    let mut ledger = Blockchain::new();
    assert!(matches!(
        ledger.mint_block(),
        ConfirmationOutcome::NothingToConfirm
    ));
    assert_eq!(ledger.chain.len(), 0);
    assert!(ledger.create_account(String::from("Alice"), 10).is_ok());
    assert!(matches!(
        ledger.mint_block(),
        ConfirmationOutcome::NothingToConfirm
    ));
    assert_eq!(ledger.chain.len(), 0);
}

#[test]
fn intents_apply_in_queued_order() {
    let mut ledger = Blockchain::new();
    assert!(ledger.create_account(String::from("Alice"), 100).is_ok());
    assert!(ledger.create_account(String::from("Bob"), 0).is_ok());
    assert_eq!(
        ledger.transfer(String::from("Alice"), String::from("Bob"), 60),
        SubmissionOutcome::Queued
    );
    assert_eq!(
        ledger.transfer(String::from("Alice"), String::from("Bob"), 40),
        SubmissionOutcome::Queued
    );
    match ledger.mint_block() {
        ConfirmationOutcome::Minted(record) => {
            assert_eq!(record.transactions.len(), 2);
            assert_eq!(record.transactions[0].amount, 60);
            assert_eq!(record.transactions[1].amount, 40);
        }
        ConfirmationOutcome::NothingToConfirm => panic!("two queued intents were not confirmed"),
    }
    assert_eq!(ledger.get_balance(&String::from("Alice")), Some(0));
    assert_eq!(ledger.get_balance(&String::from("Bob")), Some(100));
}

#[test]
fn queued_debits_reserve_the_balance() {
    let mut ledger = Blockchain::new();
    assert!(ledger.create_account(String::from("Alice"), 100).is_ok());
    assert!(ledger.create_account(String::from("Bob"), 0).is_ok());
    assert_eq!(
        ledger.transfer(String::from("Alice"), String::from("Bob"), 60),
        SubmissionOutcome::Queued
    );
    // The second request alone would pass against the raw balance, but the
    // first already reserved 60 of it.
    assert_eq!(
        ledger.transfer(String::from("Alice"), String::from("Bob"), 60),
        SubmissionOutcome::InsufficientFunds
    );
    assert!(matches!(ledger.mint_block(), ConfirmationOutcome::Minted(_)));
    assert_eq!(ledger.get_balance(&String::from("Alice")), Some(40));
    assert_eq!(
        ledger.transfer(String::from("Alice"), String::from("Bob"), 40),
        SubmissionOutcome::Queued
    );
}

#[test]
fn balance_of_missing_account_is_none() {
    let ledger = Blockchain::new();
    assert_eq!(ledger.get_balance(&String::from("Nobody")), None);
}

#[test]
fn store_reports_missing_account_on_delta() {
    let mut store = AccountStore::new();
    assert!(store.create(String::from("Alice"), 5).is_ok());
    assert_eq!(
        store.apply_delta(&String::from("Bob"), 1),
        Err(StoreError::NotFound)
    );
    assert_eq!(store.apply_delta(&String::from("Alice"), 3), Ok(()));
    assert_eq!(store.get_balance(&String::from("Alice")), Some(8));
}

#[test]
fn creation_fits_guards_the_supply_bound() {
    let mut ledger = Blockchain::new();
    assert!(ledger.creation_fits(0));
    assert!(ledger.creation_fits(i64::MAX));
    assert!(!ledger.creation_fits(-1));
    assert!(ledger.create_account(String::from("Rich"), i64::MAX - 10).is_ok());
    assert!(ledger.creation_fits(10));
    assert!(!ledger.creation_fits(11));
}

#[test]
fn timestamps_count_seconds_since_the_epoch() {
    // 2001-09-09T01:46:40Z, long past; a sane clock stands after it.
    let t1 = minichain::clock::current_timestamp();
    let t2 = minichain::clock::current_timestamp();
    assert!(t1 >= 1_000_000_000);
    assert!(t2 >= t1);
}
