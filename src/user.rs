use vstd::prelude::*;

use crate::ledger::{entry_pairs, BalanceKey, Ledger, LedgerEntry};
use crate::pairs::{keys_distinct, map_of_pairs};
use crate::utils::MultisenderError;

verus! {

/// How a statistics record is to change.
#[derive(Clone, Copy, Debug, PartialEq, Eq, Structural)]
pub enum UpdateUserStatsAction {
    /// Add to the record's deposit counter for a token.
    AddTokenDeposit,
    /// Reset the record's deposit counter for a token.
    RemoveTokenDeposit,
    /// Add to the record's lifetime total deposited for a token.
    AddTotalDeposited,
}

/// Per-token counters of one account.
pub struct UserStats {
    account_id: String,
    deposits: Ledger,
    total_deposited: Ledger,
}

/// A statistics record as stored, tagged with its layout.
pub enum UserVStats {
    Current(UserStats),
}

/// The counters of one account for one token.
pub struct UserStatsTokenOutput {
    pub account_id: String,
    pub token_id: String,
    pub deposit: u128,
    pub total_deposited: u128,
}

/// A statistics record as plain lists, for storage.
pub struct UserStatsParts {
    pub account_id: String,
    pub deposits: Vec<LedgerEntry>,
    pub total_deposited: Vec<LedgerEntry>,
}

/// The parts hold no repeated key.
pub open spec fn stats_parts_ok(p: UserStatsParts) -> bool {
    keys_distinct(entry_pairs(p.deposits@)) && keys_distinct(entry_pairs(p.total_deposited@))
}

/// The record that well-formed parts describe.
pub open spec fn stats_parts_view(p: UserStatsParts) -> UserStatsView {
    UserStatsView {
        account: p.account_id@,
        deposits: map_of_pairs(entry_pairs(p.deposits@)),
        total_deposited: map_of_pairs(entry_pairs(p.total_deposited@)),
    }
}

/// The abstract content of a statistics record.
pub struct UserStatsView {
    pub account: Seq<char>,
    pub deposits: Map<BalanceKey, nat>,
    pub total_deposited: Map<BalanceKey, nat>,
}

impl View for UserStats {
    type V = UserStatsView;

    closed spec fn view(&self) -> UserStatsView {
        UserStatsView {
            account: self.account_id@,
            deposits: self.deposits@,
            total_deposited: self.total_deposited@,
        }
    }
}

impl View for UserVStats {
    type V = UserStatsView;

    open spec fn view(&self) -> UserStatsView {
        match self {
            UserVStats::Current(s) => s@,
        }
    }
}

/// The deposit counter of `token` in a record.
pub open spec fn stats_deposit(s: UserStatsView, token: Seq<char>) -> nat {
    if s.deposits.contains_key((s.account, token)) {
        s.deposits[(s.account, token)]
    } else {
        0
    }
}

/// The lifetime total deposited of `token` in a record.
pub open spec fn stats_total(s: UserStatsView, token: Seq<char>) -> nat {
    if s.total_deposited.contains_key((s.account, token)) {
        s.total_deposited[(s.account, token)]
    } else {
        0
    }
}

/// What `action` with `balance` makes of the counters of `token`, or `None`
/// where a counter would overflow.
pub open spec fn stats_after(
    s: UserStatsView,
    token: Seq<char>,
    action: UpdateUserStatsAction,
    balance: Option<u128>,
) -> Option<UserStatsView> {
    match action {
        UpdateUserStatsAction::AddTotalDeposited => match balance {
            Some(b) => if stats_total(s, token) + b > u128::MAX {
                None
            } else {
                Some(
                    UserStatsView {
                        total_deposited: s.total_deposited.insert(
                            (s.account, token),
                            (stats_total(s, token) + b) as nat,
                        ),
                        ..s
                    },
                )
            },
            None => Some(s),
        },
        UpdateUserStatsAction::AddTokenDeposit => match balance {
            Some(b) => if stats_deposit(s, token) + b > u128::MAX {
                None
            } else {
                Some(
                    UserStatsView {
                        deposits: s.deposits.insert((s.account, token), (stats_deposit(s, token) + b) as nat),
                        ..s
                    },
                )
            },
            None => Some(s),
        },
        UpdateUserStatsAction::RemoveTokenDeposit => Some(
            UserStatsView { deposits: s.deposits.insert((s.account, token), 0), ..s },
        ),
    }
}

impl UserVStats {
    pub open spec fn wf(&self) -> bool {
        match self {
            UserVStats::Current(s) => s.wf(),
        }
    }
}

impl UserStats {
    /// Both maps are well formed.
    pub closed spec fn wf(&self) -> bool {
        self.deposits.wf() && self.total_deposited.wf()
    }

    /// An empty record for `account_id`.
    pub fn new(account_id: String) -> (r: UserStats)
        ensures
            r.wf(),
            r@ == (UserStatsView {
                account: account_id@,
                deposits: Map::empty(),
                total_deposited: Map::empty(),
            }),
    {
        UserStats { account_id, deposits: Ledger::new(), total_deposited: Ledger::new() }
    }

    /// The account this record belongs to.
    pub fn account(&self) -> (r: &String)
        ensures
            r@ == self@.account,
    {
        &self.account_id
    }

    /// This record as plain lists.
    pub fn to_parts(&self) -> (r: UserStatsParts)
        requires
            self.wf(),
        ensures
            stats_parts_ok(r),
            stats_parts_view(r) == self@,
    {
        UserStatsParts {
            account_id: self.account_id.clone(),
            deposits: self.deposits.entries(),
            total_deposited: self.total_deposited.entries(),
        }
    }

    /// The record that `parts` describe.
    pub fn from_parts(parts: &UserStatsParts) -> (r: UserStats)
        ensures
            r.wf(),
            r@.account == parts.account_id@,
            stats_parts_ok(*parts) ==> r@ == stats_parts_view(*parts),
    {
        UserStats {
            account_id: parts.account_id.clone(),
            deposits: Ledger::from_entries(&parts.deposits),
            total_deposited: Ledger::from_entries(&parts.total_deposited),
        }
    }

    /// A copy of this record.
    pub fn duplicate(&self) -> (r: UserStats)
        ensures
            r.wf() == self.wf(),
            r@ == self@,
    {
        UserStats {
            account_id: self.account_id.clone(),
            deposits: self.deposits.duplicate(),
            total_deposited: self.total_deposited.duplicate(),
        }
    }

    /// The deposit counter of `token_id`.
    pub fn deposit_of(&self, token_id: &String) -> (r: u128)
        requires
            self.wf(),
        ensures
            r as nat == stats_deposit(self@, token_id@),
    {
        self.deposits.get_or_default(&self.account_id, token_id)
    }

    /// The lifetime total deposited of `token_id`.
    pub fn total_deposited_of(&self, token_id: &String) -> (r: u128)
        requires
            self.wf(),
        ensures
            r as nat == stats_total(self@, token_id@),
    {
        self.total_deposited.get_or_default(&self.account_id, token_id)
    }

    /// Applies `action` with `balance` to the counters of `token_id`; an
    /// addition that would overflow is refused and changes nothing.
    pub fn update(&mut self, token_id: &String, action: UpdateUserStatsAction, balance: Option<u128>) -> (r:
        Result<(), MultisenderError>)
        requires
            old(self).wf(),
        ensures
            final(self).wf(),
            match stats_after(old(self)@, token_id@, action, balance) {
                Some(s) => r is Ok && final(self)@ == s,
                None => r == Err::<(), MultisenderError>(MultisenderError::ArithmeticOverflow)
                    && final(self)@ == old(self)@,
            },
    {
        match (action, balance) {
            (UpdateUserStatsAction::AddTotalDeposited, Some(b)) => {
                self.total_deposited.credit(&self.account_id, token_id, b)
            },
            (UpdateUserStatsAction::AddTokenDeposit, Some(b)) => {
                self.deposits.credit(&self.account_id, token_id, b)
            },
            (UpdateUserStatsAction::RemoveTokenDeposit, _) => {
                self.deposits.set(&self.account_id, token_id, 0);
                Ok(())
            },
            (_, None) => Ok(()),
        }
    }
}

impl From<UserVStats> for UserStats {
    fn from(v_stats: UserVStats) -> (r: UserStats) {
        match v_stats {
            UserVStats::Current(user_stats) => user_stats,
        }
    }
}

impl vstd::std_specs::convert::FromSpecImpl<UserVStats> for UserStats {
    open spec fn obeys_from_spec() -> bool {
        true
    }

    open spec fn from_spec(v: UserVStats) -> UserStats {
        match v {
            UserVStats::Current(s) => s,
        }
    }
}

impl UserStatsTokenOutput {
    /// The counters of `token_id` in `user_stats`.
    pub fn from_by_token(user_stats: UserStats, token_id: String) -> (r: UserStatsTokenOutput)
        requires
            user_stats.wf(),
        ensures
            r.account_id@ == user_stats@.account,
            r.token_id@ == token_id@,
            r.deposit as nat == stats_deposit(user_stats@, token_id@),
            r.total_deposited as nat == stats_total(user_stats@, token_id@),
    {
        let deposit = user_stats.deposit_of(&token_id);
        let total_deposited = user_stats.total_deposited_of(&token_id);
        UserStatsTokenOutput {
            account_id: user_stats.account_id,
            deposit,
            total_deposited,
            token_id,
        }
    }
}

} // verus!
