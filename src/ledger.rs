use vstd::prelude::*;

use crate::utils::MultisenderError;

use crate::pairs::{
    keys_distinct, lemma_map_of_pairs_at, lemma_map_of_pairs_push, lemma_map_of_pairs_update,
    map_of_pairs,
};

verus! {

/// The key of a balance: (account, token), as sequences of characters.
pub type BalanceKey = (Seq<char>, Seq<char>);

/// One stored balance of one account in one token.
pub struct LedgerEntry {
    pub account_id: String,
    pub token_id: String,
    pub balance: u128,
}

/// A sparse mapping from (account, token) to balance.
///
/// Absent entries read as zero; every write materialises an entry, and
/// entries are never deleted.
pub struct Ledger {
    entries: Vec<LedgerEntry>,
}

pub open spec fn entry_key(e: LedgerEntry) -> BalanceKey {
    (e.account_id@, e.token_id@)
}

/// The (key, balance) pairs of a list of entries.
pub open spec fn entry_pairs(entries: Seq<LedgerEntry>) -> Seq<(BalanceKey, nat)> {
    entries.map_values(|e: LedgerEntry| (entry_key(e), e.balance as nat))
}

/// Whether `account` has an entry for some token.
pub open spec fn has_account(m: Map<BalanceKey, nat>, account: Seq<char>) -> bool {
    exists|t: Seq<char>| #[trigger] m.contains_key((account, t))
}

/// What a map reads at a key: its value, or zero where the key is absent.
pub open spec fn read_or_zero(m: Map<BalanceKey, nat>, k: BalanceKey) -> nat {
    if m.contains_key(k) {
        m[k]
    } else {
        0
    }
}

impl View for Ledger {
    type V = Map<BalanceKey, nat>;

    closed spec fn view(&self) -> Map<BalanceKey, nat> {
        map_of_pairs(self.pairs())
    }
}

impl Ledger {
    closed spec fn pairs(&self) -> Seq<(BalanceKey, nat)> {
        entry_pairs(self.entries@)
    }

    /// No two entries share a key.
    pub closed spec fn wf(&self) -> bool {
        keys_distinct(self.pairs())
    }

    /// The balance stored under `(account, token)`, zero when absent.
    pub open spec fn spec_balance(&self, account: Seq<char>, token: Seq<char>) -> nat {
        read_or_zero(self@, (account, token))
    }

    pub fn new() -> (r: Ledger)
        ensures
            r.wf(),
            r@ == Map::<BalanceKey, nat>::empty(),
    {
        let r = Ledger { entries: Vec::new() };
        assert(r.pairs() =~= Seq::<(BalanceKey, nat)>::empty());
        assert(r@ =~= Map::<BalanceKey, nat>::empty());
        r
    }

    /// Every stored balance fits a `u128`.
    pub proof fn lemma_bounded(&self, k: BalanceKey)
        requires
            self.wf(),
            self@.contains_key(k),
        ensures
            self@[k] <= u128::MAX,
    {
        let pairs = self.pairs();
        let j = choose|j: int| 0 <= j < pairs.len() && #[trigger] pairs[j].0 == k;
        lemma_map_of_pairs_at(pairs, j);
    }

    fn find(&self, account: &String, token: &String) -> (r: Option<usize>)
        requires
            self.wf(),
        ensures
            match r {
                Some(i) => i < self.entries@.len() && entry_key(self.entries@[i as int]) == (
                    account@,
                    token@,
                ),
                None => !self@.contains_key((account@, token@)),
            },
    {
        let n = self.entries.len();
        let mut i: usize = 0;
        while i < n
            invariant
                n == self.entries@.len(),
                i <= n,
                forall|j: int| 0 <= j < i ==> entry_key(#[trigger] self.entries@[j]) != (
                    account@,
                    token@,
                ),
            decreases n - i,
        {
            let e = &self.entries[i];
            if e.account_id == *account && e.token_id == *token {
                return Some(i);
            }
            i = i + 1;
        }
        proof {
            let pairs = self.pairs();
            if self@.contains_key((account@, token@)) {
                let j = choose|j: int|
                    0 <= j < pairs.len() && #[trigger] pairs[j].0 == (account@, token@);
                assert(pairs[j].0 == entry_key(self.entries@[j]));
            }
        }
        None
    }

    /// Whether `account` has an entry for some token.
    pub fn has_account(&self, account: &String) -> (r: bool)
        requires
            self.wf(),
        ensures
            r == has_account(self@, account@),
    {
        let n = self.entries.len();
        let mut i: usize = 0;
        while i < n
            invariant
                self.wf(),
                n == self.entries@.len(),
                i <= n,
                forall|j: int| 0 <= j < i ==> (#[trigger] self.entries@[j]).account_id@ != account@,
            decreases n - i,
        {
            if self.entries[i].account_id == *account {
                proof {
                    lemma_map_of_pairs_at(self.pairs(), i as int);
                    assert(self@.contains_key((account@, self.entries@[i as int].token_id@)));
                }
                return true;
            }
            i = i + 1;
        }
        proof {
            if has_account(self@, account@) {
                let t = choose|t: Seq<char>| #[trigger] self@.contains_key((account@, t));
                let pairs = self.pairs();
                let j = choose|j: int| 0 <= j < pairs.len() && #[trigger] pairs[j].0 == (account@, t);
                assert(pairs[j].0 == entry_key(self.entries@[j]));
            }
        }
        false
    }

    /// Whether an entry exists for `(account, token)`.
    pub fn contains(&self, account: &String, token: &String) -> (r: bool)
        requires
            self.wf(),
        ensures
            r == self@.contains_key((account@, token@)),
    {
        match self.find(account, token) {
            Some(i) => {
                proof {
                    lemma_map_of_pairs_at(self.pairs(), i as int);
                }
                true
            },
            None => false,
        }
    }

    /// The balance of `(account, token)`, zero for an absent entry.
    pub fn get_or_default(&self, account: &String, token: &String) -> (r: u128)
        requires
            self.wf(),
        ensures
            r as nat == self.spec_balance(account@, token@),
    {
        match self.find(account, token) {
            Some(i) => {
                proof {
                    lemma_map_of_pairs_at(self.pairs(), i as int);
                }
                self.entries[i].balance
            },
            None => 0,
        }
    }

    /// Stores `value` under `(account, token)`, creating the entry if needed.
    pub fn set(&mut self, account: &String, token: &String, value: u128)
        requires
            old(self).wf(),
        ensures
            final(self).wf(),
            final(self)@ == old(self)@.insert((account@, token@), value as nat),
    {
        let e = LedgerEntry { account_id: account.clone(), token_id: token.clone(), balance: value };
        match self.find(account, token) {
            Some(i) => {
                proof {
                    lemma_map_of_pairs_update(self.pairs(), i as int, value as nat);
                }
                let ghost before = self.pairs();
                self.entries.set(i, e);
                assert(self.pairs() =~= before.update(i as int, (before[i as int].0, value as nat)));
            },
            None => {
                proof {
                    lemma_map_of_pairs_push(self.pairs(), (account@, token@), value as nat);
                }
                let ghost before = self.pairs();
                self.entries.push(e);
                assert(self.pairs() =~= before.push(((account@, token@), value as nat)));
            },
        }
    }

    /// A copy of this ledger with the same entries.
    pub fn duplicate(&self) -> (r: Ledger)
        ensures
            r.wf() == self.wf(),
            r@ == self@,
    {
        let n = self.entries.len();
        let mut entries: Vec<LedgerEntry> = Vec::new();
        let mut i: usize = 0;
        while i < n
            invariant
                n == self.entries@.len(),
                i <= n,
                entries@.len() == i,
                forall|j: int|
                    0 <= j < i ==> entry_key(#[trigger] entries@[j]) == entry_key(self.entries@[j])
                        && entries@[j].balance == self.entries@[j].balance,
            decreases n - i,
        {
            let e = &self.entries[i];
            entries.push(
                LedgerEntry {
                    account_id: e.account_id.clone(),
                    token_id: e.token_id.clone(),
                    balance: e.balance,
                },
            );
            i = i + 1;
        }
        let r = Ledger { entries };
        assert(r.pairs() =~= self.pairs());
        r
    }

    /// The stored entries, one per key.
    pub fn entries(&self) -> (r: Vec<LedgerEntry>)
        requires
            self.wf(),
        ensures
            keys_distinct(entry_pairs(r@)),
            map_of_pairs(entry_pairs(r@)) == self@,
    {
        self.duplicate().entries
    }

    /// A ledger holding `entries`; where two share a key the later one is kept.
    pub fn from_entries(entries: &Vec<LedgerEntry>) -> (r: Ledger)
        ensures
            r.wf(),
            keys_distinct(entry_pairs(entries@)) ==> r@ == map_of_pairs(entry_pairs(entries@)),
    {
        let ghost pairs = entry_pairs(entries@);
        let mut r = Ledger::new();
        let n = entries.len();
        let mut i: usize = 0;
        assert(pairs.take(0) =~= Seq::<(BalanceKey, nat)>::empty());
        assert(map_of_pairs(pairs.take(0)) =~= Map::<BalanceKey, nat>::empty());
        while i < n
            invariant
                r.wf(),
                n == entries@.len(),
                pairs == entry_pairs(entries@),
                i <= n,
                keys_distinct(pairs) ==> r@ == map_of_pairs(pairs.take(i as int)),
            decreases n - i,
        {
            let e = &entries[i];
            proof {
                if keys_distinct(pairs) {
                    let pre = pairs.take(i as int);
                    assert(keys_distinct(pre));
                    if map_of_pairs(pre).contains_key(pairs[i as int].0) {
                        let j = choose|j: int| 0 <= j < pre.len() && #[trigger] pre[j].0 == pairs[i as int].0;
                        assert(pairs[j].0 == pairs[i as int].0);
                    }
                    lemma_map_of_pairs_push(pre, pairs[i as int].0, pairs[i as int].1);
                    assert(pairs.take(i + 1) =~= pre.push(pairs[i as int]));
                }
            }
            r.set(&e.account_id, &e.token_id, e.balance);
            i = i + 1;
        }
        assert(pairs.take(n as int) =~= pairs);
        r
    }

    /// Adds `amount` to the balance of `(account, token)`; refused, with
    /// nothing changed, where the sum would not fit a `u128`.
    pub fn credit(&mut self, account: &String, token: &String, amount: u128) -> (r: Result<
        (),
        MultisenderError,
    >)
        requires
            old(self).wf(),
        ensures
            final(self).wf(),
            old(self).spec_balance(account@, token@) + amount > u128::MAX ==> r == Err::<
                (),
                MultisenderError,
            >(MultisenderError::ArithmeticOverflow) && final(self)@ == old(self)@,
            old(self).spec_balance(account@, token@) + amount <= u128::MAX ==> r is Ok
                && final(self)@ == old(self)@.insert(
                (account@, token@),
                (old(self).spec_balance(account@, token@) + amount) as nat,
            ),
    {
        let previous = self.get_or_default(account, token);
        match previous.checked_add(amount) {
            None => Err(MultisenderError::ArithmeticOverflow),
            Some(total) => {
                self.set(account, token, total);
                Ok(())
            },
        }
    }

    /// Takes `amount` from the balance of `(account, token)`; refused, with
    /// nothing changed, where the balance is smaller.
    pub fn debit(&mut self, account: &String, token: &String, amount: u128) -> (r: Result<
        (),
        MultisenderError,
    >)
        requires
            old(self).wf(),
        ensures
            final(self).wf(),
            amount > old(self).spec_balance(account@, token@) ==> r == Err::<(), MultisenderError>(
                MultisenderError::InsufficientBalance,
            ) && final(self)@ == old(self)@,
            amount <= old(self).spec_balance(account@, token@) ==> r is Ok && final(self)@
                == old(self)@.insert(
                (account@, token@),
                (old(self).spec_balance(account@, token@) - amount) as nat,
            ),
    {
        let previous = self.get_or_default(account, token);
        if amount > previous {
            return Err(MultisenderError::InsufficientBalance);
        }
        self.set(account, token, previous - amount);
        Ok(())
    }
}

} // verus!
