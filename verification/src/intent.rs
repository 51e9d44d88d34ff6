//! Transfer intents, confirmed records, and the batch-application model.
//!
//! A validated transfer intent waits in the pending queue until a
//! confirmation drains the queue and applies every intent in arrival order:
//! first the debit of the source (absent for a system credit), then the
//! credit of the destination. `apply_txs` is the mathematical form of that
//! order, and `lemma_step` carries the ledger's invariant through one step.

use crate::store::{
    all_nonneg, balance_of, has_id, ids_unique, idx_of, lemma_balance_le_supply, lemma_idx_unique,
    lemma_with_delta, supply, with_delta, Account,
};
use vstd::prelude::*;

verus! {

/// A validated, not-yet-applied transfer. `from` of `None` denotes a
/// system-originated credit with no debited source.
#[derive(Debug)]
pub struct Transaction {
    pub from: Option<String>,
    pub to: String,
    pub amount: i64,
}

impl Clone for Transaction {
    fn clone(&self) -> (r: Self)
        ensures
            r == *self,
    {
        Transaction {
            from: match &self.from {
                Some(f) => Some(f.clone()),
                None => None,
            },
            to: self.to.clone(),
            amount: self.amount,
        }
    }
}

/// An immutable record of one confirmed batch: the intents applied together,
/// in arrival order, and the wall-clock second of the confirmation.
#[derive(Debug)]
pub struct Block {
    pub transactions: Vec<Transaction>,
    pub timestamp: u64,
}

/// What `t` debits from the account named `id`.
pub open spec fn tx_debits(t: Transaction, id: Seq<char>) -> int {
    match t.from {
        Some(f) => if f@ == id {
            t.amount as int
        } else {
            0
        },
        None => 0,
    }
}

/// What `t` credits to the account named `id`.
pub open spec fn tx_credits(t: Transaction, id: Seq<char>) -> int {
    if t.to@ == id {
        t.amount as int
    } else {
        0
    }
}

/// What `t` adds to the total supply: the amount of a system credit, else 0.
pub open spec fn tx_minted(t: Transaction) -> int {
    match t.from {
        Some(_) => 0,
        None => t.amount as int,
    }
}

/// The sum of the debits that `txs` draw from the account named `id`.
pub open spec fn debit_total(txs: Seq<Transaction>, id: Seq<char>) -> int
    decreases txs.len(),
{
    if txs.len() == 0 {
        0
    } else {
        tx_debits(txs.first(), id) + debit_total(txs.drop_first(), id)
    }
}

/// The sum of the credits that `txs` pay to the account named `id`.
pub open spec fn credit_total(txs: Seq<Transaction>, id: Seq<char>) -> int
    decreases txs.len(),
{
    if txs.len() == 0 {
        0
    } else {
        tx_credits(txs.first(), id) + credit_total(txs.drop_first(), id)
    }
}

/// The sum of the amounts that `txs` add to the total supply.
pub open spec fn minted_total(txs: Seq<Transaction>) -> int
    decreases txs.len(),
{
    if txs.len() == 0 {
        0
    } else {
        tx_minted(txs.first()) + minted_total(txs.drop_first())
    }
}

/// Every amount is positive.
pub open spec fn positive_amounts(txs: Seq<Transaction>) -> bool {
    forall|k: int| 0 <= k < txs.len() ==> 0 < (#[trigger] txs[k]).amount
}

/// `t` is a valid intent against the accounts `accs`: a positive amount, an
/// existing destination, and an existing source where one is named.
pub open spec fn tx_valid(accs: Seq<Account>, t: Transaction) -> bool {
    &&& 0 < t.amount
    &&& has_id(accs, t.to@)
    &&& match t.from {
        Some(f) => has_id(accs, f@),
        None => true,
    }
}

/// Every intent of `txs` is valid against `accs`.
pub open spec fn txs_valid(accs: Seq<Account>, txs: Seq<Transaction>) -> bool {
    forall|k: int| 0 <= k < txs.len() ==> tx_valid(accs, #[trigger] txs[k])
}

/// `accs` after the debit of `t`'s source (unchanged for a system credit).
pub open spec fn pre_credit(accs: Seq<Account>, t: Transaction) -> Seq<Account> {
    match t.from {
        Some(f) => with_delta(accs, f@, -(t.amount as int)),
        None => accs,
    }
}

/// `accs` after applying `t`: the debit of the source, then the credit of
/// the destination.
pub open spec fn apply_tx(accs: Seq<Account>, t: Transaction) -> Seq<Account> {
    with_delta(pre_credit(accs, t), t.to@, t.amount as int)
}

/// `accs` after applying every intent of `txs`, front to back: the order in
/// which the intents were queued.
pub open spec fn apply_txs(accs: Seq<Account>, txs: Seq<Transaction>) -> Seq<Account>
    decreases txs.len(),
{
    if txs.len() == 0 {
        accs
    } else {
        apply_txs(apply_tx(accs, txs.first()), txs.drop_first())
    }
}

/// The ledger's invariant over accounts and a queue of intents: unique
/// identifiers, non-negative balances, valid intents, no account's queued
/// debits above its balance, and a total supply that stays within `i64`
/// even after every queued system credit.
pub open spec fn batch_ok(accs: Seq<Account>, txs: Seq<Transaction>) -> bool {
    &&& ids_unique(accs)
    &&& all_nonneg(accs)
    &&& txs_valid(accs, txs)
    &&& forall|id: Seq<char>|
        has_id(accs, id) ==> #[trigger] debit_total(txs, id) <= balance_of(accs, id)
    &&& supply(accs) + minted_total(txs) <= i64::MAX
}

/// Validity of a queue survives dropping its first intent.
pub proof fn lemma_txs_valid_drop_first(accs: Seq<Account>, txs: Seq<Transaction>)
    requires
        txs_valid(accs, txs),
        0 < txs.len(),
    ensures
        txs_valid(accs, txs.drop_first()),
{
    assert forall|k: int|
        0 <= k < txs.drop_first().len() implies tx_valid(accs, #[trigger] txs.drop_first()[k]) by {
        assert(txs.drop_first()[k] == txs[k + 1]);
    }
}

/// Valid intents have positive amounts.
pub proof fn lemma_txs_valid_positive(accs: Seq<Account>, txs: Seq<Transaction>)
    requires
        txs_valid(accs, txs),
    ensures
        positive_amounts(txs),
{
    assert forall|k: int| 0 <= k < txs.len() implies 0 < (#[trigger] txs[k]).amount by {
        assert(tx_valid(accs, txs[k]));
    }
}

/// With positive amounts, no debit sum is negative.
pub proof fn lemma_debit_total_nonneg(txs: Seq<Transaction>, id: Seq<char>)
    requires
        positive_amounts(txs),
    ensures
        0 <= debit_total(txs, id),
    decreases txs.len(),
{
    if txs.len() > 0 {
        assert forall|k: int|
            0 <= k < txs.drop_first().len() implies 0 < (#[trigger] txs.drop_first()[k]).amount by {
            assert(txs.drop_first()[k] == txs[k + 1]);
        }
        assert(txs.first() == txs[0]);
        lemma_debit_total_nonneg(txs.drop_first(), id);
    }
}

/// With positive amounts, no minted sum is negative.
pub proof fn lemma_minted_total_nonneg(txs: Seq<Transaction>)
    requires
        positive_amounts(txs),
    ensures
        0 <= minted_total(txs),
    decreases txs.len(),
{
    if txs.len() > 0 {
        assert forall|k: int|
            0 <= k < txs.drop_first().len() implies 0 < (#[trigger] txs.drop_first()[k]).amount by {
            assert(txs.drop_first()[k] == txs[k + 1]);
        }
        assert(txs.first() == txs[0]);
        lemma_minted_total_nonneg(txs.drop_first());
    }
}

/// A queue of valid intents draws nothing from an absent account.
pub proof fn lemma_debit_total_absent(accs: Seq<Account>, txs: Seq<Transaction>, id: Seq<char>)
    requires
        txs_valid(accs, txs),
        !has_id(accs, id),
    ensures
        debit_total(txs, id) == 0,
    decreases txs.len(),
{
    if txs.len() > 0 {
        assert(txs.first() == txs[0]);
        assert(tx_valid(accs, txs[0]));
        assert(tx_debits(txs.first(), id) == 0);
        lemma_txs_valid_drop_first(accs, txs);
        lemma_debit_total_absent(accs, txs.drop_first(), id);
    }
}

/// Queueing one more intent adds its debit to the debit sum.
pub proof fn lemma_debit_total_push(txs: Seq<Transaction>, t: Transaction, id: Seq<char>)
    ensures
        debit_total(txs.push(t), id) == debit_total(txs, id) + tx_debits(t, id),
    decreases txs.len(),
{
    assert(txs.push(t).len() == txs.len() + 1);
    if txs.len() == 0 {
        assert(txs.push(t).first() == t);
        assert(txs.push(t).drop_first() =~= Seq::<Transaction>::empty());
        assert(debit_total(txs.push(t), id) == tx_debits(t, id) + debit_total(
            Seq::<Transaction>::empty(),
            id,
        ));
    } else {
        assert(txs.push(t).first() == txs.first());
        assert(txs.push(t).drop_first() =~= txs.drop_first().push(t));
        lemma_debit_total_push(txs.drop_first(), t, id);
        assert(debit_total(txs.push(t), id) == tx_debits(txs.first(), id) + debit_total(
            txs.drop_first().push(t),
            id,
        ));
    }
}

/// Queueing one more intent adds its minted amount to the minted sum.
pub proof fn lemma_minted_total_push(txs: Seq<Transaction>, t: Transaction)
    ensures
        minted_total(txs.push(t)) == minted_total(txs) + tx_minted(t),
    decreases txs.len(),
{
    assert(txs.push(t).len() == txs.len() + 1);
    if txs.len() == 0 {
        assert(txs.push(t).first() == t);
        assert(txs.push(t).drop_first() =~= Seq::<Transaction>::empty());
        assert(minted_total(txs.push(t)) == tx_minted(t) + minted_total(
            Seq::<Transaction>::empty(),
        ));
    } else {
        assert(txs.push(t).first() == txs.first());
        assert(txs.push(t).drop_first() =~= txs.drop_first().push(t));
        lemma_minted_total_push(txs.drop_first(), t);
        assert(minted_total(txs.push(t)) == tx_minted(txs.first()) + minted_total(
            txs.drop_first().push(t),
        ));
    }
}

/// A queue of valid intents stays valid when a valid intent joins it.
pub proof fn lemma_txs_valid_push(accs: Seq<Account>, txs: Seq<Transaction>, t: Transaction)
    requires
        txs_valid(accs, txs),
        tx_valid(accs, t),
    ensures
        txs_valid(accs, txs.push(t)),
{
    assert forall|k: int|
        0 <= k < txs.push(t).len() implies tx_valid(accs, #[trigger] txs.push(t)[k]) by {
        if k < txs.len() {
            assert(txs.push(t)[k] == txs[k]);
        } else {
            assert(txs.push(t)[k] == t);
        }
    }
}

/// One confirmation step. Under the ledger's invariant, the first queued
/// intent applies within `i64` bounds — the debit never overdraws its
/// source and the credit never overflows — and the invariant carries over
/// to the applied accounts and the remaining queue.
pub proof fn lemma_step(accs: Seq<Account>, txs: Seq<Transaction>)
    requires
        batch_ok(accs, txs),
        0 < txs.len(),
    ensures
        txs.first().from matches Some(f) ==> txs.first().amount as int <= balance_of(accs, f@),
        ids_unique(pre_credit(accs, txs.first())),
        all_nonneg(pre_credit(accs, txs.first())),
        has_id(pre_credit(accs, txs.first()), txs.first().to@),
        0 <= balance_of(pre_credit(accs, txs.first()), txs.first().to@),
        balance_of(pre_credit(accs, txs.first()), txs.first().to@) + txs.first().amount as int
            <= i64::MAX,
        batch_ok(apply_tx(accs, txs.first()), txs.drop_first()),
        supply(apply_tx(accs, txs.first())) == supply(accs) + tx_minted(txs.first()),
        forall|id: Seq<char>|
            #[trigger] has_id(apply_tx(accs, txs.first()), id) == has_id(accs, id),
        forall|id: Seq<char>|
            has_id(accs, id) ==> #[trigger] balance_of(apply_tx(accs, txs.first()), id)
                == balance_of(accs, id) - tx_debits(txs.first(), id) + tx_credits(
                txs.first(),
                id,
            ),
{
    let t = txs.first();
    let amt = t.amount as int;
    let rest = txs.drop_first();
    let mid = pre_credit(accs, t);
    let post = apply_tx(accs, t);

    assert(txs.first() == txs[0]);
    assert(tx_valid(accs, t));
    lemma_txs_valid_drop_first(accs, txs);
    lemma_txs_valid_positive(accs, txs);
    lemma_txs_valid_positive(accs, rest);
    lemma_minted_total_nonneg(txs);
    lemma_minted_total_nonneg(rest);

    // The debit stays within the balance: the queued debits of the source
    // include this amount, and they fit under its balance.
    match t.from {
        Some(f) => {
            assert(debit_total(txs, f@) <= balance_of(accs, f@));
            lemma_debit_total_nonneg(rest, f@);
            assert(debit_total(txs, f@) == amt + debit_total(rest, f@));
            assert(amt <= balance_of(accs, f@));
            lemma_with_delta(accs, f@, -amt);
        },
        None => {},
    }

    // Facts about the mid state: same identifiers, balances moved only at
    // the source, supply moved by the debit.
    assert(ids_unique(mid));
    assert(forall|id: Seq<char>| #[trigger] has_id(mid, id) == has_id(accs, id));
    assert(all_nonneg(mid)) by {
        assert forall|i: int| 0 <= i < mid.len() implies 0 <= (#[trigger] mid[i]).balance by {
            lemma_idx_unique(mid, mid[i].id@, i);
            assert(has_id(accs, mid[i].id@));
            match t.from {
                Some(f) => {
                    if mid[i].id@ == f@ {
                        assert(balance_of(mid, f@) == balance_of(accs, f@) - amt);
                        assert(debit_total(rest, f@) <= balance_of(accs, f@) - amt);
                        lemma_debit_total_nonneg(rest, f@);
                    } else {
                        assert(balance_of(mid, mid[i].id@) == balance_of(accs, mid[i].id@));
                        lemma_idx_unique(accs, mid[i].id@, idx_of(accs, mid[i].id@));
                    }
                },
                None => {},
            }
        }
    }

    // The credit fits: no balance exceeds the supply, and the supply stays
    // under `i64::MAX` even with this credit counted.
    assert(has_id(mid, t.to@));
    let j = crate::store::idx_of(mid, t.to@);
    assert(0 <= j < mid.len() && mid[j].id@ == t.to@);
    lemma_balance_le_supply(mid, j);
    lemma_idx_unique(mid, t.to@, j);
    match t.from {
        Some(f) => {
            assert(supply(mid) == supply(accs) - amt);
        },
        None => {
            assert(minted_total(txs) == amt + minted_total(rest));
        },
    }
    assert(balance_of(mid, t.to@) + amt <= i64::MAX);

    lemma_with_delta(mid, t.to@, amt);
    assert(supply(post) == supply(accs) + tx_minted(t));
    assert(forall|id: Seq<char>| #[trigger] has_id(post, id) == has_id(accs, id));

    // Per-account balance change of the whole step.
    assert forall|id: Seq<char>|
        has_id(accs, id) implies #[trigger] balance_of(post, id) == balance_of(accs, id)
        - tx_debits(t, id) + tx_credits(t, id) by {
        if id == t.to@ {
            match t.from {
                Some(f) => {
                    if f@ == id {
                        assert(balance_of(mid, id) == balance_of(accs, id) - amt);
                    } else {
                        assert(balance_of(mid, id) == balance_of(accs, id));
                    }
                },
                None => {},
            }
        } else {
            assert(balance_of(post, id) == balance_of(mid, id));
            match t.from {
                Some(f) => {
                    if f@ == id {
                        assert(balance_of(mid, id) == balance_of(accs, id) - amt);
                    } else {
                        assert(balance_of(mid, id) == balance_of(accs, id));
                    }
                },
                None => {},
            }
        }
    }

    // The invariant holds again of the applied accounts and the rest.
    assert(all_nonneg(post)) by {
        assert forall|i: int| 0 <= i < post.len() implies 0 <= (#[trigger] post[i]).balance by {
            lemma_idx_unique(post, post[i].id@, i);
            let id = post[i].id@;
            assert(has_id(accs, id));
            lemma_debit_total_nonneg(rest, id);
            assert(debit_total(txs, id) == tx_debits(t, id) + debit_total(rest, id));
            assert(debit_total(txs, id) <= balance_of(accs, id));
            assert(0 <= tx_credits(t, id));
            assert(balance_of(post, id) == balance_of(accs, id) - tx_debits(t, id) + tx_credits(
                t,
                id,
            ));
        }
    }
    assert(txs_valid(post, rest)) by {
        assert forall|k: int|
            0 <= k < rest.len() implies tx_valid(post, #[trigger] rest[k]) by {
            assert(tx_valid(accs, rest[k]));
            assert(has_id(post, rest[k].to@) == has_id(accs, rest[k].to@));
            match rest[k].from {
                Some(f) => {
                    assert(has_id(post, f@) == has_id(accs, f@));
                },
                None => {},
            }
        }
    }
    assert forall|id: Seq<char>|
        has_id(post, id) implies #[trigger] debit_total(rest, id) <= balance_of(post, id) by {
        assert(has_id(accs, id));
        assert(debit_total(txs, id) == tx_debits(t, id) + debit_total(rest, id));
        assert(debit_total(txs, id) <= balance_of(accs, id));
        assert(0 <= tx_credits(t, id));
        assert(balance_of(post, id) == balance_of(accs, id) - tx_debits(t, id) + tx_credits(
            t,
            id,
        ));
    }
    assert(minted_total(txs) == tx_minted(t) + minted_total(rest));
    assert(supply(post) + minted_total(rest) <= i64::MAX);
}

} // verus!
