//! The ledger: accounts, the pending queue, and the confirmed history.
//!
//! Every operation keeps the ledger's invariant (`Blockchain::wf`): unique
//! account identifiers, non-negative balances, a pending queue of valid
//! intents none of which can overdraw its source, and a total supply that
//! stays within `i64` bounds.
//!
//! Submission policy: a transfer is accepted only if the source's balance
//! minus the debits already queued against it covers the amount. Checking
//! against this reserved balance, rather than the raw one, closes the window
//! in which several pending transfers could jointly overdraw one account
//! between confirmations; that hardened reading of the submission-time
//! balance check is the policy chosen and documented here.

use crate::clock::current_timestamp;
use crate::laws::lemma_confirmation_conserves_supply;
use crate::intent::{
    apply_tx, apply_txs, batch_ok, debit_total, lemma_debit_total_absent, lemma_debit_total_nonneg,
    lemma_debit_total_push, lemma_minted_total_push, lemma_step, lemma_txs_valid_positive,
    lemma_txs_valid_push, minted_total, positive_amounts, pre_credit, tx_debits, tx_valid,
    txs_valid, Block, Transaction,
};
use crate::store::{
    all_nonneg, balance_of, has_id, lemma_push_account, lemma_supply_nonneg, supply, Account,
    AccountStore, StoreError,
};
use vstd::prelude::*;

verus! {

/// The outcome of submitting a transfer.
#[derive(Clone, Copy, PartialEq, Eq, Structural, Debug)]
pub enum SubmissionOutcome {
    Queued,
    InsufficientFunds,
    AccountNotFound,
    InvalidAmount,
}

/// The outcome of a confirmation cycle: a freshly minted record, or nothing
/// to confirm.
#[derive(Debug)]
pub enum ConfirmationOutcome {
    Minted(Block),
    NothingToConfirm,
}

/// The ledger. It owns the account store, the pending queue of validated
/// intents, and the append-only history of confirmed records.
pub struct Blockchain {
    pub accounts: AccountStore,
    pub chain: Vec<Block>,
    pub pending_transactions: Vec<Transaction>,
}

impl Blockchain {
    /// The ledger's invariant. The queue of this ledger holds only user
    /// transfers (every queued intent names a source); system credits exist
    /// in the confirmation model, not in this queue.
    pub open spec fn wf(self) -> bool {
        &&& batch_ok(self.accounts.accounts@, self.pending_transactions@)
        &&& minted_total(self.pending_transactions@) == 0
    }

    /// What `transfer` decides for the given request: the first failed check
    /// in validation order, else `Queued`.
    pub open spec fn submit_decision(
        self,
        from: Seq<char>,
        to: Seq<char>,
        amount: int,
    ) -> SubmissionOutcome {
        if amount <= 0 {
            SubmissionOutcome::InvalidAmount
        } else if !self.accounts.spec_has(from) || !self.accounts.spec_has(to) {
            SubmissionOutcome::AccountNotFound
        } else if self.accounts.spec_balance(from) - debit_total(self.pending_transactions@, from)
            < amount {
            SubmissionOutcome::InsufficientFunds
        } else {
            SubmissionOutcome::Queued
        }
    }

    /// An empty ledger: no accounts, no pending intents, no history.
    pub fn new() -> (r: Self)
        ensures
            r.wf(),
            r.accounts.accounts@.len() == 0,
            supply(r.accounts.accounts@) == 0,
            r.chain@.len() == 0,
            r.pending_transactions@.len() == 0,
    {
        Blockchain {
            accounts: AccountStore::new(),
            chain: Vec::new(),
            pending_transactions: Vec::new(),
        }
    }

    /// Adds an account with the given starting balance, or reports the
    /// identifier as taken and leaves the ledger unchanged. The bounds on
    /// `balance` keep every balance non-negative and the total supply within
    /// `i64`; `creation_fits` tests them.
    pub fn create_account(&mut self, id: String, balance: i64) -> (r: Result<(), StoreError>)
        requires
            old(self).wf(),
            0 <= balance,
            supply(old(self).accounts.accounts@) + balance <= i64::MAX,
        ensures
            final(self).wf(),
            old(self).accounts.spec_has(id@) ==> r == Err::<(), StoreError>(
                StoreError::AlreadyExists,
            ) && *final(self) == *old(self),
            !old(self).accounts.spec_has(id@) ==> {
                &&& r == Ok::<(), StoreError>(())
                &&& final(self).accounts.accounts@ == old(self).accounts.accounts@.push(
                    Account { id, balance },
                )
                &&& final(self).accounts.spec_has(id@)
                &&& final(self).accounts.spec_balance(id@) == balance
                &&& forall|id2: Seq<char>| #[trigger]
                    final(self).accounts.spec_has(id2) == (old(self).accounts.spec_has(id2)
                        || id2 == id@)
                &&& forall|id2: Seq<char>| #[trigger]
                    old(self).accounts.spec_has(id2) ==> final(self).accounts.spec_balance(id2)
                        == old(self).accounts.spec_balance(id2)
                &&& supply(final(self).accounts.accounts@) == supply(
                    old(self).accounts.accounts@,
                ) + balance
                &&& final(self).pending_transactions == old(self).pending_transactions
                &&& final(self).chain == old(self).chain
            },
    {
        let ghost accs0 = self.accounts.accounts@;
        let ghost pend = self.pending_transactions@;
        let ghost idv = id@;
        let r = self.accounts.create(id, balance);
        proof {
            if !has_id(accs0, idv) {
                let a = self.accounts.accounts@.last();
                assert(self.accounts.accounts@ == accs0.push(a));
                assert(a.id@ == idv && a.balance == balance);
                lemma_push_account(accs0, a);
                let accs1 = self.accounts.accounts@;
                assert(all_nonneg(accs1)) by {
                    assert forall|i: int| 0 <= i < accs1.len() implies 0 <= (#[trigger] accs1[i]).balance by {
                        if i < accs0.len() {
                            assert(accs1[i] == accs0[i]);
                        } else {
                            assert(accs1[i] == a);
                        }
                    }
                }
                assert(txs_valid(accs1, pend)) by {
                    assert forall|k: int|
                        0 <= k < pend.len() implies tx_valid(accs1, #[trigger] pend[k]) by {
                        assert(tx_valid(accs0, pend[k]));
                        match pend[k].from {
                            Some(f) => {
                                assert(has_id(accs1, f@));
                            },
                            None => {},
                        }
                        assert(has_id(accs1, pend[k].to@));
                    }
                }
                assert forall|id2: Seq<char>|
                    has_id(accs1, id2) implies #[trigger] debit_total(pend, id2) <= balance_of(
                    accs1,
                    id2,
                ) by {
                    if has_id(accs0, id2) {
                        assert(debit_total(pend, id2) <= balance_of(accs0, id2));
                        assert(balance_of(accs1, id2) == balance_of(accs0, id2));
                    } else {
                        assert(id2 == idv);
                        lemma_debit_total_absent(accs0, pend, id2);
                    }
                }
            }
        }
        r
    }

    /// The confirmed balance of the account named `id`, if it exists.
    pub fn get_balance(&self, id: &String) -> (r: Option<i64>)
        requires
            self.wf(),
        ensures
            match r {
                Some(b) => self.accounts.spec_has(id@) && b as int == self.accounts.spec_balance(
                    id@,
                ),
                None => !self.accounts.spec_has(id@),
            },
    {
        self.accounts.get_balance(id)
    }

    /// The debits already queued against the account named `id`.
    fn reserved_total(&self, id: &String) -> (r: i64)
        requires
            self.wf(),
            self.accounts.spec_has(id@),
        ensures
            r as int == debit_total(self.pending_transactions@, id@),
            0 <= r,
    {
        let n = self.pending_transactions.len();
        let mut sum: i64 = 0;
        let mut k: usize = 0;
        proof {
            assert(self.pending_transactions@.skip(0) =~= self.pending_transactions@);
            lemma_txs_valid_positive(self.accounts.accounts@, self.pending_transactions@);
            assert(debit_total(self.pending_transactions@, id@) <= balance_of(
                self.accounts.accounts@,
                id@,
            ));
        }
        while k < n
            invariant
                k <= n,
                n == self.pending_transactions@.len(),
                positive_amounts(self.pending_transactions@),
                0 <= sum,
                sum + debit_total(self.pending_transactions@.skip(k as int), id@) == debit_total(
                    self.pending_transactions@,
                    id@,
                ),
                debit_total(self.pending_transactions@, id@) <= i64::MAX,
            decreases n - k,
        {
            let ghost pend = self.pending_transactions@;
            proof {
                assert(pend.skip(k as int).first() == pend[k as int]);
                assert(pend.skip(k as int).drop_first() =~= pend.skip(k as int + 1));
                assert(positive_amounts(pend.skip(k as int + 1))) by {
                    assert forall|j: int|
                        0 <= j < pend.skip(k as int + 1).len() implies 0 < (#[trigger] pend.skip(
                        k as int + 1,
                    )[j]).amount by {
                        assert(pend.skip(k as int + 1)[j] == pend[j + k + 1]);
                    }
                }
                lemma_debit_total_nonneg(pend.skip(k as int + 1), id@);
            }
            let t = &self.pending_transactions[k];
            match &t.from {
                Some(f) => {
                    if *f == *id {
                        sum = sum + t.amount;
                    }
                },
                None => {},
            }
            k = k + 1;
        }
        proof {
            assert(self.pending_transactions@.skip(n as int) =~= Seq::<Transaction>::empty());
        }
        sum
    }

    /// Validates a transfer request and, if every check passes, appends the
    /// intent to the pending queue; balances change only at confirmation.
    /// Checks, in order: the amount is positive, both accounts exist, and
    /// the source's balance net of its already queued debits covers the
    /// amount.
    pub fn transfer(&mut self, from: String, to: String, amount: i64) -> (r: SubmissionOutcome)
        requires
            old(self).wf(),
        ensures
            final(self).wf(),
            r == old(self).submit_decision(from@, to@, amount as int),
            r == SubmissionOutcome::Queued ==> final(self).pending_transactions@ == old(
                self,
            ).pending_transactions@.push(Transaction { from: Some(from), to, amount })
                && final(self).accounts == old(self).accounts && final(self).chain == old(
                self,
            ).chain,
            r != SubmissionOutcome::Queued ==> *final(self) == *old(self),
    {
        if amount <= 0 {
            return SubmissionOutcome::InvalidAmount;
        }
        if !self.accounts.contains(&from) || !self.accounts.contains(&to) {
            return SubmissionOutcome::AccountNotFound;
        }
        let bal = match self.accounts.get_balance(&from) {
            Some(b) => b,
            None => unreached(),
        };
        let reserved = self.reserved_total(&from);
        proof {
            assert(debit_total(self.pending_transactions@, from@) <= balance_of(
                self.accounts.accounts@,
                from@,
            ));
        }
        let available = bal - reserved;
        if available < amount {
            return SubmissionOutcome::InsufficientFunds;
        }
        let ghost accs = self.accounts.accounts@;
        let ghost pend = self.pending_transactions@;
        let ghost fromv = from@;
        let tx = Transaction { from: Some(from), to, amount };
        proof {
            assert(tx_valid(accs, tx));
            lemma_txs_valid_push(accs, pend, tx);
            lemma_minted_total_push(pend, tx);
            assert forall|id2: Seq<char>|
                has_id(accs, id2) implies #[trigger] debit_total(pend.push(tx), id2) <= balance_of(
                accs,
                id2,
            ) by {
                lemma_debit_total_push(pend, tx, id2);
                if id2 == fromv {
                    assert(tx_debits(tx, id2) == amount as int);
                    assert(debit_total(pend, id2) + amount <= balance_of(accs, id2));
                } else {
                    assert(tx_debits(tx, id2) == 0);
                    assert(debit_total(pend, id2) <= balance_of(accs, id2));
                }
            }
        }
        self.pending_transactions.push(tx);
        SubmissionOutcome::Queued
    }

    /// Confirms the pending batch: drains the queue, applies every intent in
    /// arrival order — the debit of the source, then the credit of the
    /// destination — and appends a timestamped record of the batch to the
    /// history. With an empty queue it reports `NothingToConfirm` and changes
    /// nothing.
    pub fn mint_block(&mut self) -> (r: ConfirmationOutcome)
        requires
            old(self).wf(),
        ensures
            final(self).wf(),
            final(self).accounts.accounts@ == apply_txs(
                old(self).accounts.accounts@,
                old(self).pending_transactions@,
            ),
            final(self).pending_transactions@.len() == 0,
            supply(final(self).accounts.accounts@) == supply(old(self).accounts.accounts@),
            match r {
                ConfirmationOutcome::NothingToConfirm => old(self).pending_transactions@.len() == 0
                    && *final(self) == *old(self),
                ConfirmationOutcome::Minted(b) => {
                    &&& old(self).pending_transactions@.len() > 0
                    &&& b.transactions@ == old(self).pending_transactions@
                    &&& final(self).chain@.len() == old(self).chain@.len() + 1
                    &&& final(self).chain@.drop_last() == old(self).chain@
                    &&& final(self).chain@.last().transactions@ == old(
                        self,
                    ).pending_transactions@
                    &&& final(self).chain@.last().timestamp == b.timestamp
                },
            },
    {
        if self.pending_transactions.len() == 0 {
            return ConfirmationOutcome::NothingToConfirm;
        }
        let ghost accs0 = self.accounts.accounts@;
        let ghost pend0 = self.pending_transactions@;
        let batch = self.pending_transactions.clone();
        proof {
            assert forall|i: int| 0 <= i < batch@.len() implies batch@[i] == pend0[i] by {
                assert(cloned::<Transaction>(pend0[i], batch@[i]));
            }
            assert(batch@ =~= pend0);
        }
        self.pending_transactions.clear();
        let ghost batchv = batch@;
        let n = batch.len();
        let mut k: usize = 0;
        proof {
            assert(batchv.skip(0) =~= batchv);
        }
        while k < n
            invariant
                k <= n,
                n == batch@.len(),
                batch@ == batchv,
                batchv == pend0,
                pend0 == old(self).pending_transactions@,
                accs0 == old(self).accounts.accounts@,
                self.pending_transactions@.len() == 0,
                self.chain == old(self).chain,
                batch_ok(self.accounts.accounts@, batch@.skip(k as int)),
                apply_txs(self.accounts.accounts@, batch@.skip(k as int)) == apply_txs(
                    accs0,
                    batchv,
                ),
            decreases n - k,
        {
            let ghost pre = self.accounts.accounts@;
            let ghost remaining = batch@.skip(k as int);
            proof {
                assert(remaining.first() == batch@[k as int]);
                assert(remaining.drop_first() =~= batch@.skip(k as int + 1));
                assert(remaining[0] == remaining.first());
                assert(tx_valid(pre, remaining[0]));
                lemma_step(pre, remaining);
            }
            let tx = &batch[k];
            match &tx.from {
                Some(f) => {
                    let _ = self.accounts.apply_delta(f, -tx.amount);
                },
                None => {},
            }
            proof {
                assert(self.accounts.accounts@ == pre_credit(pre, remaining.first()));
            }
            let _ = self.accounts.apply_delta(&tx.to, tx.amount);
            proof {
                assert(self.accounts.accounts@ == apply_tx(pre, remaining.first()));
                assert(batch_ok(self.accounts.accounts@, batch@.skip(k as int + 1)));
                assert(apply_txs(pre, remaining) == apply_txs(
                    self.accounts.accounts@,
                    remaining.drop_first(),
                ));
            }
            k = k + 1;
        }
        proof {
            assert(batchv.skip(n as int) =~= Seq::<Transaction>::empty());
            assert(apply_txs(self.accounts.accounts@, batchv.skip(n as int))
                == self.accounts.accounts@);
            assert(self.pending_transactions@ =~= batchv.skip(n as int));
            assert(batch_ok(self.accounts.accounts@, self.pending_transactions@));
            lemma_confirmation_conserves_supply(accs0, batchv);
        }
        let ts = current_timestamp();
        let stored = batch.clone();
        proof {
            assert forall|i: int| 0 <= i < stored@.len() implies stored@[i] == batch@[i] by {
                assert(cloned::<Transaction>(batch@[i], stored@[i]));
            }
            assert(stored@ =~= batch@);
        }
        self.chain.push(Block { transactions: stored, timestamp: ts });
        proof {
            assert(self.chain@.drop_last() =~= old(self).chain@);
        }
        ConfirmationOutcome::Minted(Block { transactions: batch, timestamp: ts })
    }

    /// Whether an account with the given starting balance can be created
    /// without breaching the ledger's balance bounds: the balance is
    /// non-negative and the total supply stays within `i64`.
    pub fn creation_fits(&self, balance: i64) -> (r: bool)
        requires
            self.wf(),
        ensures
            r == (0 <= balance && supply(self.accounts.accounts@) + balance <= i64::MAX),
    {
        if balance < 0 {
            return false;
        }
        proof {
            lemma_supply_nonneg(self.accounts.accounts@);
        }
        let s = self.accounts.total_supply();
        balance <= i64::MAX - s
    }
}

} // verus!
