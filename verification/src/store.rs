//! The account store: a mapping from account identifier to balance.
//!
//! Accounts are held in a vector whose entries carry pairwise distinct
//! identifiers; an account is created once and never removed or renamed.

use vstd::prelude::*;

verus! {

/// A named balance. The identifier is fixed at creation; the balance is
/// changed only through `apply_delta`.
#[derive(Debug)]
pub struct Account {
    pub id: String,
    pub balance: i64,
}

/// The recoverable failures of the account store.
#[derive(Clone, Copy, PartialEq, Eq, Structural, Debug)]
pub enum StoreError {
    AlreadyExists,
    NotFound,
}

/// No two entries carry the same identifier.
pub open spec fn ids_unique(accs: Seq<Account>) -> bool {
    forall|i: int, j: int|
        0 <= i < accs.len() && 0 <= j < accs.len() && i != j ==> accs[i].id@ != accs[j].id@
}

/// Some entry carries the identifier `id`.
pub open spec fn has_id(accs: Seq<Account>, id: Seq<char>) -> bool {
    exists|i: int| 0 <= i < accs.len() && accs[i].id@ == id
}

/// The position of the entry that carries `id` (meaningful under `has_id`).
pub open spec fn idx_of(accs: Seq<Account>, id: Seq<char>) -> int {
    choose|i: int| 0 <= i < accs.len() && accs[i].id@ == id
}

/// The balance of the entry that carries `id` (meaningful under `has_id`).
pub open spec fn balance_of(accs: Seq<Account>, id: Seq<char>) -> int {
    accs[idx_of(accs, id)].balance as int
}

/// Every balance is non-negative.
pub open spec fn all_nonneg(accs: Seq<Account>) -> bool {
    forall|i: int| 0 <= i < accs.len() ==> 0 <= #[trigger] accs[i].balance
}

/// The sum of all balances.
pub open spec fn supply(accs: Seq<Account>) -> int
    decreases accs.len(),
{
    if accs.len() == 0 {
        0
    } else {
        accs.first().balance + supply(accs.drop_first())
    }
}

/// Two account sequences carry the same identifiers at the same positions.
pub open spec fn same_ids(a: Seq<Account>, b: Seq<Account>) -> bool {
    &&& a.len() == b.len()
    &&& forall|i: int| 0 <= i < a.len() ==> #[trigger] a[i].id@ == b[i].id@
}

/// `accs` with `delta` added to the balance of the entry that carries `id`
/// (meaningful under `has_id`; callers keep the sum within `i64` bounds).
pub open spec fn with_delta(accs: Seq<Account>, id: Seq<char>, delta: int) -> Seq<Account> {
    let i = idx_of(accs, id);
    accs.update(i, Account { id: accs[i].id, balance: (accs[i].balance + delta) as i64 })
}

/// Under unique identifiers, any entry that carries `id` is the one that
/// `idx_of` picks.
pub proof fn lemma_idx_unique(accs: Seq<Account>, id: Seq<char>, i: int)
    requires
        ids_unique(accs),
        0 <= i < accs.len(),
        accs[i].id@ == id,
    ensures
        has_id(accs, id),
        idx_of(accs, id) == i,
        balance_of(accs, id) == accs[i].balance,
{
    assert(has_id(accs, id));
    let j = idx_of(accs, id);
    assert(0 <= j < accs.len() && accs[j].id@ == id);
}

/// Sequences with the same identifiers agree on membership and positions.
pub proof fn lemma_same_ids(a: Seq<Account>, b: Seq<Account>)
    requires
        same_ids(a, b),
        ids_unique(a),
    ensures
        ids_unique(b),
        forall|id: Seq<char>| #[trigger] has_id(b, id) == has_id(a, id),
        forall|id: Seq<char>| has_id(a, id) ==> #[trigger] idx_of(b, id) == idx_of(a, id),
{
    assert(ids_unique(b)) by {
        assert forall|i: int, j: int|
            0 <= i < b.len() && 0 <= j < b.len() && i != j implies b[i].id@ != b[j].id@ by {
            assert(a[i].id@ == b[i].id@);
            assert(a[j].id@ == b[j].id@);
        }
    }
    assert forall|id: Seq<char>| #[trigger] has_id(b, id) == has_id(a, id) by {
        if has_id(a, id) {
            let i = idx_of(a, id);
            assert(0 <= i < a.len() && a[i].id@ == id);
            assert(b[i].id@ == id);
        }
        if has_id(b, id) {
            let i = choose|i: int| 0 <= i < b.len() && b[i].id@ == id;
            assert(a[i].id@ == id);
        }
    }
    assert forall|id: Seq<char>| has_id(a, id) implies #[trigger] idx_of(b, id) == idx_of(a, id) by {
        let i = idx_of(a, id);
        assert(0 <= i < a.len() && a[i].id@ == id);
        assert(b[i].id@ == id);
        lemma_idx_unique(b, id, i);
    }
}

/// Appending an account adds its balance to the supply.
pub proof fn lemma_supply_push(accs: Seq<Account>, a: Account)
    ensures
        supply(accs.push(a)) == supply(accs) + a.balance,
    decreases accs.len(),
{
    assert(accs.push(a).len() == accs.len() + 1);
    if accs.len() == 0 {
        assert(accs.push(a).first() == a);
        assert(accs.push(a).drop_first() =~= Seq::<Account>::empty());
        assert(supply(accs.push(a)) == a.balance + supply(Seq::<Account>::empty()));
    } else {
        assert(accs.push(a).first() == accs.first());
        assert(accs.push(a).drop_first() =~= accs.drop_first().push(a));
        lemma_supply_push(accs.drop_first(), a);
    }
}

/// Replacing one entry moves the supply by the difference of the balances.
pub proof fn lemma_supply_update(accs: Seq<Account>, i: int, a: Account)
    requires
        0 <= i < accs.len(),
    ensures
        supply(accs.update(i, a)) == supply(accs) + a.balance - accs[i].balance,
    decreases accs.len(),
{
    if i == 0 {
        assert(accs.update(0, a).drop_first() =~= accs.drop_first());
    } else {
        assert(accs.update(i, a).drop_first() =~= accs.drop_first().update(i - 1, a));
        lemma_supply_update(accs.drop_first(), i - 1, a);
    }
}

/// With non-negative balances the supply is non-negative.
pub proof fn lemma_supply_nonneg(accs: Seq<Account>)
    requires
        all_nonneg(accs),
    ensures
        0 <= supply(accs),
    decreases accs.len(),
{
    if accs.len() > 0 {
        assert(all_nonneg(accs.drop_first())) by {
            assert forall|k: int|
                0 <= k < accs.drop_first().len() implies 0 <= #[trigger] accs.drop_first()[k].balance by {
                assert(accs.drop_first()[k] == accs[k + 1]);
            }
        }
        lemma_supply_nonneg(accs.drop_first());
    }
}

/// With non-negative balances no single balance exceeds the supply.
pub proof fn lemma_balance_le_supply(accs: Seq<Account>, i: int)
    requires
        all_nonneg(accs),
        0 <= i < accs.len(),
    ensures
        accs[i].balance <= supply(accs),
    decreases accs.len(),
{
    assert(all_nonneg(accs.drop_first())) by {
        assert forall|k: int|
            0 <= k < accs.drop_first().len() implies 0 <= #[trigger] accs.drop_first()[k].balance by {
            assert(accs.drop_first()[k] == accs[k + 1]);
        }
    }
    if i == 0 {
        lemma_supply_nonneg(accs.drop_first());
    } else {
        assert(accs.drop_first()[i - 1] == accs[i]);
        lemma_balance_le_supply(accs.drop_first(), i - 1);
    }
}

/// How `with_delta` changes the store: the targeted balance moves by `delta`,
/// every other entry and the identifier layout stay as they were.
pub proof fn lemma_with_delta(accs: Seq<Account>, id: Seq<char>, delta: int)
    requires
        ids_unique(accs),
        has_id(accs, id),
        i64::MIN <= balance_of(accs, id) + delta <= i64::MAX,
    ensures
        same_ids(accs, with_delta(accs, id, delta)),
        ids_unique(with_delta(accs, id, delta)),
        forall|id2: Seq<char>| #[trigger] has_id(with_delta(accs, id, delta), id2) == has_id(accs, id2),
        balance_of(with_delta(accs, id, delta), id) == balance_of(accs, id) + delta,
        forall|id2: Seq<char>|
            has_id(accs, id2) && id2 != id ==> #[trigger] balance_of(with_delta(accs, id, delta), id2)
                == balance_of(accs, id2),
        supply(with_delta(accs, id, delta)) == supply(accs) + delta,
{
    let i = idx_of(accs, id);
    assert(0 <= i < accs.len() && accs[i].id@ == id);
    let a = Account { id: accs[i].id, balance: (accs[i].balance + delta) as i64 };
    let accs2 = accs.update(i, a);
    assert(same_ids(accs, accs2));
    lemma_same_ids(accs, accs2);
    lemma_idx_unique(accs2, id, i);
    assert forall|id2: Seq<char>|
        has_id(accs, id2) && id2 != id implies #[trigger] balance_of(accs2, id2) == balance_of(
        accs,
        id2,
    ) by {
        let j = idx_of(accs, id2);
        assert(0 <= j < accs.len() && accs[j].id@ == id2);
        assert(j != i);
        lemma_idx_unique(accs2, id2, j);
    }
    lemma_supply_update(accs, i, a);
}

/// How appending a fresh account changes the store: the new identifier joins,
/// every existing entry keeps its position and balance.
pub proof fn lemma_push_account(accs: Seq<Account>, a: Account)
    requires
        ids_unique(accs),
        !has_id(accs, a.id@),
    ensures
        ids_unique(accs.push(a)),
        has_id(accs.push(a), a.id@),
        balance_of(accs.push(a), a.id@) == a.balance,
        forall|id2: Seq<char>|
            #[trigger] has_id(accs.push(a), id2) == (has_id(accs, id2) || id2 == a.id@),
        forall|id2: Seq<char>|
            has_id(accs, id2) ==> #[trigger] balance_of(accs.push(a), id2) == balance_of(accs, id2),
        supply(accs.push(a)) == supply(accs) + a.balance,
{
    let accs2 = accs.push(a);
    assert(accs2[accs.len() as int] == a);
    assert(ids_unique(accs2)) by {
        assert forall|i: int, j: int|
            0 <= i < accs2.len() && 0 <= j < accs2.len() && i != j implies accs2[i].id@
            != accs2[j].id@ by {
            if i < accs.len() && j < accs.len() {
                assert(accs2[i] == accs[i] && accs2[j] == accs[j]);
            } else if i < accs.len() {
                assert(accs2[i] == accs[i] && accs2[j] == a);
                assert(has_id(accs, accs[i].id@));
            } else {
                assert(accs2[j] == accs[j] && accs2[i] == a);
                assert(has_id(accs, accs[j].id@));
            }
        }
    }
    lemma_idx_unique(accs2, a.id@, accs.len() as int);
    assert forall|id2: Seq<char>|
        #[trigger] has_id(accs2, id2) == (has_id(accs, id2) || id2 == a.id@) by {
        if has_id(accs, id2) {
            let i = idx_of(accs, id2);
            assert(accs2[i] == accs[i]);
        }
        if has_id(accs2, id2) && id2 != a.id@ {
            let i = choose|i: int| 0 <= i < accs2.len() && accs2[i].id@ == id2;
            assert(i < accs.len());
            assert(accs2[i] == accs[i]);
        }
    }
    assert forall|id2: Seq<char>|
        has_id(accs, id2) implies #[trigger] balance_of(accs2, id2) == balance_of(accs, id2) by {
        let i = idx_of(accs, id2);
        assert(0 <= i < accs.len() && accs[i].id@ == id2);
        assert(accs2[i] == accs[i]);
        lemma_idx_unique(accs2, id2, i);
    }
    lemma_supply_push(accs, a);
}

/// The account store of the ledger.
pub struct AccountStore {
    pub accounts: Vec<Account>,
}

impl AccountStore {
    /// Identifiers are pairwise distinct.
    pub open spec fn wf(self) -> bool {
        ids_unique(self.accounts@)
    }

    /// An account with identifier `id` exists.
    pub open spec fn spec_has(self, id: Seq<char>) -> bool {
        has_id(self.accounts@, id)
    }

    /// The balance of the account with identifier `id`.
    pub open spec fn spec_balance(self, id: Seq<char>) -> int {
        balance_of(self.accounts@, id)
    }

    /// The sum of all balances.
    pub open spec fn spec_supply(self) -> int {
        supply(self.accounts@)
    }

    /// An empty store.
    pub fn new() -> (r: Self)
        ensures
            r.wf(),
            r.accounts@.len() == 0,
    {
        AccountStore { accounts: Vec::new() }
    }

    /// The position of the account named `id`, if any.
    fn find_index(&self, id: &String) -> (r: Option<usize>)
        ensures
            match r {
                Some(i) => i < self.accounts@.len() && self.accounts@[i as int].id@ == id@,
                None => !has_id(self.accounts@, id@),
            },
    {
        let n = self.accounts.len();
        let mut k: usize = 0;
        while k < n
            invariant
                k <= n,
                n == self.accounts@.len(),
                forall|j: int| 0 <= j < k ==> #[trigger] self.accounts@[j].id@ != id@,
            decreases n - k,
        {
            if self.accounts[k].id == *id {
                return Some(k);
            }
            k = k + 1;
        }
        None
    }

    /// Whether an account named `id` exists.
    pub fn contains(&self, id: &String) -> (r: bool)
        ensures
            r == has_id(self.accounts@, id@),
    {
        match self.find_index(id) {
            Some(_) => true,
            None => false,
        }
    }

    /// Adds a fresh account, or reports the identifier as taken.
    pub fn create(&mut self, id: String, balance: i64) -> (r: Result<(), StoreError>)
        requires
            old(self).wf(),
        ensures
            final(self).wf(),
            old(self).spec_has(id@) ==> r == Err::<(), StoreError>(StoreError::AlreadyExists)
                && *final(self) == *old(self),
            !old(self).spec_has(id@) ==> r == Ok::<(), StoreError>(()) && final(self).accounts@
                == old(self).accounts@.push(Account { id, balance }),
    {
        match self.find_index(&id) {
            Some(i) => {
                proof {
                    lemma_idx_unique(self.accounts@, id@, i as int);
                }
                Err(StoreError::AlreadyExists)
            },
            None => {
                let a = Account { id, balance };
                proof {
                    lemma_push_account(self.accounts@, a);
                }
                self.accounts.push(a);
                Ok(())
            },
        }
    }

    /// The balance of the account named `id`, if it exists.
    pub fn get_balance(&self, id: &String) -> (r: Option<i64>)
        requires
            self.wf(),
        ensures
            match r {
                Some(b) => self.spec_has(id@) && b as int == self.spec_balance(id@),
                None => !self.spec_has(id@),
            },
    {
        match self.find_index(id) {
            Some(i) => {
                proof {
                    lemma_idx_unique(self.accounts@, id@, i as int);
                }
                Some(self.accounts[i].balance)
            },
            None => None,
        }
    }

    /// Adds `delta` (which may be negative) to the balance of the account
    /// named `id`, or reports the account as missing. No lower bound is
    /// enforced at this layer.
    pub fn apply_delta(&mut self, id: &String, delta: i64) -> (r: Result<(), StoreError>)
        requires
            old(self).wf(),
            old(self).spec_has(id@) ==> i64::MIN <= old(self).spec_balance(id@) + delta
                <= i64::MAX,
        ensures
            final(self).wf(),
            !old(self).spec_has(id@) ==> r == Err::<(), StoreError>(StoreError::NotFound)
                && *final(self) == *old(self),
            old(self).spec_has(id@) ==> r == Ok::<(), StoreError>(()) && final(self).accounts@
                == with_delta(old(self).accounts@, id@, delta as int),
    {
        match self.find_index(id) {
            Some(i) => {
                proof {
                    lemma_idx_unique(self.accounts@, id@, i as int);
                }
                let b = self.accounts[i].balance;
                let entry = &mut self.accounts[i];
                entry.balance = b + delta;
                proof {
                    assert(self.accounts@ =~= with_delta(old(self).accounts@, id@, delta as int));
                    lemma_with_delta(old(self).accounts@, id@, delta as int);
                    lemma_same_ids(old(self).accounts@, self.accounts@);
                }
                Ok(())
            },
            None => Err(StoreError::NotFound),
        }
    }

    /// The sum of all balances, as a machine integer.
    pub fn total_supply(&self) -> (r: i64)
        requires
            self.wf(),
            all_nonneg(self.accounts@),
            supply(self.accounts@) <= i64::MAX,
        ensures
            r as int == supply(self.accounts@),
    {
        let n = self.accounts.len();
        let mut sum: i64 = 0;
        let mut k: usize = 0;
        proof {
            assert(self.accounts@.skip(0) =~= self.accounts@);
        }
        while k < n
            invariant
                k <= n,
                n == self.accounts@.len(),
                all_nonneg(self.accounts@),
                0 <= sum,
                sum + supply(self.accounts@.skip(k as int)) == supply(self.accounts@),
                supply(self.accounts@) <= i64::MAX,
            decreases n - k,
        {
            proof {
                assert(self.accounts@.skip(k as int).first() == self.accounts@[k as int]);
                assert(self.accounts@.skip(k as int).drop_first() =~= self.accounts@.skip(
                    k as int + 1,
                ));
                assert(all_nonneg(self.accounts@.skip(k as int + 1))) by {
                    assert forall|j: int|
                        0 <= j < self.accounts@.skip(k as int + 1).len() implies 0 <= #[trigger] self.accounts@.skip(
                        k as int + 1,
                    )[j].balance by {
                        assert(self.accounts@.skip(k as int + 1)[j] == self.accounts@[j + k + 1]);
                    }
                }
                lemma_supply_nonneg(self.accounts@.skip(k as int + 1));
            }
            sum = sum + self.accounts[k].balance;
            k = k + 1;
        }
        proof {
            assert(self.accounts@.skip(n as int) =~= Seq::<Account>::empty());
        }
        sum
    }
}

} // verus!
