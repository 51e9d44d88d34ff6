//! Laws of the confirmation model.
//!
//! These hold of any batch that satisfies the ledger's invariant
//! (`batch_ok`), and so of every batch the ledger confirms: `mint_block`
//! ensures the confirmed accounts equal `apply_txs` of the drained queue.

use crate::intent::{
    apply_tx, apply_txs, batch_ok, credit_total, debit_total, lemma_step, minted_total, tx_credits,
    tx_debits, tx_minted, Transaction,
};
use crate::store::{balance_of, has_id, supply, Account};
use vstd::prelude::*;

verus! {

/// Conservation under confirmation: applying a batch moves the total supply
/// by exactly the sum of its system credits. In particular, a batch of
/// transfers in which every intent names a source leaves the total balance
/// across all accounts unchanged.
pub proof fn lemma_confirmation_conserves_supply(accs: Seq<Account>, txs: Seq<Transaction>)
    requires
        batch_ok(accs, txs),
    ensures
        supply(apply_txs(accs, txs)) == supply(accs) + minted_total(txs),
    decreases txs.len(),
{
    if txs.len() > 0 {
        lemma_step(accs, txs);
        lemma_confirmation_conserves_supply(apply_tx(accs, txs.first()), txs.drop_first());
        assert(minted_total(txs) == tx_minted(txs.first()) + minted_total(txs.drop_first()));
    }
}

/// Per-account effect of confirmation: each account ends with its starting
/// balance, minus the sum of the amounts drawn from it as a source, plus the
/// sum of the amounts credited to it as a destination.
pub proof fn lemma_confirmation_account_delta(
    accs: Seq<Account>,
    txs: Seq<Transaction>,
    id: Seq<char>,
)
    requires
        batch_ok(accs, txs),
        has_id(accs, id),
    ensures
        balance_of(apply_txs(accs, txs), id) == balance_of(accs, id) - debit_total(txs, id)
            + credit_total(txs, id),
    decreases txs.len(),
{
    if txs.len() > 0 {
        lemma_step(accs, txs);
        let post = apply_tx(accs, txs.first());
        lemma_confirmation_account_delta(post, txs.drop_first(), id);
        assert(debit_total(txs, id) == tx_debits(txs.first(), id) + debit_total(
            txs.drop_first(),
            id,
        ));
        assert(credit_total(txs, id) == tx_credits(txs.first(), id) + credit_total(
            txs.drop_first(),
            id,
        ));
    }
}

/// A batch in which every intent names a source mints nothing; with
/// `lemma_confirmation_conserves_supply`, confirming such a batch leaves the
/// total supply unchanged.
pub proof fn lemma_sourced_batch_mints_nothing(txs: Seq<Transaction>)
    requires
        forall|k: int| 0 <= k < txs.len() ==> (#[trigger] txs[k]).from is Some,
    ensures
        minted_total(txs) == 0,
    decreases txs.len(),
{
    if txs.len() > 0 {
        assert(txs.first() == txs[0]);
        assert forall|k: int|
            0 <= k < txs.drop_first().len() implies (#[trigger] txs.drop_first()[k]).from
            is Some by {
            assert(txs.drop_first()[k] == txs[k + 1]);
        }
        lemma_sourced_batch_mints_nothing(txs.drop_first());
    }
}

/// Ordering: intents are applied in the order they were queued. Applying a
/// concatenation of two batches equals applying the earlier batch in full,
/// then the later one: of two queued intents, the earlier one's deltas are
/// in force before the later one's are applied.
pub proof fn lemma_apply_in_order(accs: Seq<Account>, early: Seq<Transaction>, late: Seq<Transaction>)
    ensures
        apply_txs(accs, early + late) == apply_txs(apply_txs(accs, early), late),
    decreases early.len(),
{
    if early.len() == 0 {
        assert(early + late =~= late);
    } else {
        assert((early + late).len() == early.len() + late.len());
        assert((early + late).first() == early.first());
        assert((early + late).drop_first() =~= early.drop_first() + late);
        lemma_apply_in_order(apply_tx(accs, early.first()), early.drop_first(), late);
        assert(apply_txs(accs, early + late) == apply_txs(
            apply_tx(accs, early.first()),
            (early + late).drop_first(),
        ));
    }
}

} // verus!
