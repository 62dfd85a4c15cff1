use vstd::prelude::*;

use crate::ledger::{entry_pairs, has_account, read_or_zero, BalanceKey, Ledger, LedgerEntry};
use crate::pairs::{
    keys_distinct, lemma_map_of_pairs_at, lemma_map_of_pairs_push, lemma_map_of_pairs_remove,
    lemma_map_of_pairs_update,
    map_of_pairs,
};
use crate::user::{
    stats_after, stats_parts_ok, stats_parts_view, UpdateUserStatsAction, UserStats, UserStatsParts,
    UserStatsTokenOutput, UserStatsView, UserVStats,
};
use crate::utils::{MultisenderError, MAX_ACCOUNTS_PER_CALL, ONE_YOCTO, STORAGE_DEPOSIT};

verus! {

/// Who is calling, on behalf of which contract, with how much attached.
pub struct CallContext {
    /// The account that made this call.
    pub predecessor_account_id: String,
    /// The account of the multisender contract itself.
    pub current_account_id: String,
    /// The deposit attached to the call, in yoctoNEAR.
    pub attached_deposit: u128,
}

/// One line of a batch: send `amount` to `account_id`.
pub struct Operation {
    pub account_id: String,
    pub amount: u128,
}

impl View for Operation {
    type V = (Seq<char>, nat);

    open spec fn view(&self) -> (Seq<char>, nat) {
        (self.account_id@, self.amount as nat)
    }
}

/// What a pending transfer closes over, as plain values.
pub struct PendingView {
    pub account: Seq<char>,
    pub token: Seq<char>,
    pub recipient: Seq<char>,
    pub amount: nat,
}

/// A speculative debit awaiting the outcome of its external transfer: the
/// caller issues `ft_transfer(recipient, amount)` on `token_id` and reports
/// the outcome back under `id`.
pub struct PendingTransfer {
    pub id: u64,
    pub account_id: String,
    pub token_id: String,
    pub recipient: String,
    pub amount: u128,
}

impl View for PendingTransfer {
    type V = PendingView;

    open spec fn view(&self) -> PendingView {
        PendingView {
            account: self.account_id@,
            token: self.token_id@,
            recipient: self.recipient@,
            amount: self.amount as nat,
        }
    }
}

impl PendingTransfer {
    /// A copy of this pending transfer.
    pub fn duplicate(&self) -> (r: PendingTransfer)
        ensures
            r.id == self.id,
            r@ == self@,
    {
        PendingTransfer {
            id: self.id,
            account_id: self.account_id.clone(),
            token_id: self.token_id.clone(),
            recipient: self.recipient.clone(),
            amount: self.amount,
        }
    }
}

/// A transfer to issue with no reconciliation.
pub struct FtTransfer {
    pub token_id: String,
    pub receiver_id: String,
    pub amount: u128,
}

/// A storage registration to issue: `storage_deposit(account_id)` on
/// `token_id`, with `amount` attached.
pub struct StorageDeposit {
    pub token_id: String,
    pub account_id: String,
    pub amount: u128,
}

/// The abstract state of the multisender.
pub struct MultisenderView {
    pub owner_id: Seq<char>,
    /// Whitelisted tokens, in the order they were added.
    pub tokens: Seq<Seq<char>>,
    /// Balances by (account, token).
    pub deposits: Map<BalanceKey, nat>,
    /// Speculative debits awaiting their outcome, by id.
    pub pending: Map<u64, PendingView>,
    /// The id the next dispatched transfer gets.
    pub next_id: nat,
    /// Statistics records, by account.
    pub user_stats: Map<Seq<char>, UserStatsView>,
}

/// The custodial multisender: owner, token whitelist, ledger of deposits
/// and the transfers in flight.
pub struct MultisenderFt {
    owner_id: String,
    tokens: Vec<String>,
    deposits: Ledger,
    pending: Vec<PendingTransfer>,
    next_id: u64,
    user_stats: Vec<UserVStats>,
}

/// The whole state of a multisender as plain lists, for storage.
pub struct MultisenderParts {
    pub owner_id: String,
    pub tokens: Vec<String>,
    pub balances: Vec<LedgerEntry>,
    pub pending: Vec<PendingTransfer>,
    pub next_id: u64,
    pub user_stats: Vec<UserStatsParts>,
}

pub open spec fn pending_list_pairs(s: Seq<PendingTransfer>) -> Seq<(u64, PendingView)> {
    s.map_values(|p: PendingTransfer| (p.id, p@))
}

pub open spec fn stats_list_pairs(s: Seq<UserStatsParts>) -> Seq<(Seq<char>, UserStatsView)> {
    s.map_values(|p: UserStatsParts| (p.account_id@, stats_parts_view(p)))
}

/// The parts repeat no token, key, id or account, and every pending id lies
/// below the next id.
pub open spec fn parts_ok(p: MultisenderParts) -> bool {
    &&& p.tokens@.map_values(|t: String| t@).no_duplicates()
    &&& keys_distinct(entry_pairs(p.balances@))
    &&& keys_distinct(pending_list_pairs(p.pending@))
    &&& forall|i: int| 0 <= i < p.pending@.len() ==> (#[trigger] p.pending@[i]).id < p.next_id
    &&& keys_distinct(stats_list_pairs(p.user_stats@))
    &&& forall|i: int| 0 <= i < p.user_stats@.len() ==> stats_parts_ok(#[trigger] p.user_stats@[i])
}

/// The state that well-formed parts describe.
pub open spec fn parts_view(p: MultisenderParts) -> MultisenderView {
    MultisenderView {
        owner_id: p.owner_id@,
        tokens: p.tokens@.map_values(|t: String| t@),
        deposits: map_of_pairs(entry_pairs(p.balances@)),
        pending: map_of_pairs(pending_list_pairs(p.pending@)),
        next_id: p.next_id as nat,
        user_stats: map_of_pairs(stats_list_pairs(p.user_stats@)),
    }
}

pub open spec fn ops_view(ops: Seq<Operation>) -> Seq<(Seq<char>, nat)> {
    ops.map_values(|o: Operation| o@)
}

/// Sum of the amounts of a batch.
pub open spec fn sum_amounts(ops: Seq<(Seq<char>, nat)>) -> nat
    decreases ops.len(),
{
    if ops.len() == 0 {
        0
    } else {
        sum_amounts(ops.drop_last()) + ops.last().1
    }
}

pub open spec fn is_whitelisted(v: MultisenderView, token: Seq<char>) -> bool {
    v.tokens.contains(token)
}

pub open spec fn balance_in(v: MultisenderView, account: Seq<char>, token: Seq<char>) -> nat {
    read_or_zero(v.deposits, (account, token))
}

/// Facts every reachable state satisfies: balances and amounts fit a `u128`,
/// and pending ids lie below the next id.
pub open spec fn view_ok(v: MultisenderView) -> bool {
    &&& forall|k: BalanceKey| #[trigger] v.deposits.contains_key(k) ==> v.deposits[k] <= u128::MAX
    &&& forall|id: u64| #[trigger]
        v.pending.contains_key(id) ==> id < v.next_id && v.pending[id].amount <= u128::MAX
    &&& v.next_id <= u64::MAX
}

/// Outcome of crediting an inbound transfer of `amount` of `token` to `account`.
pub open spec fn deposit_result(
    v: MultisenderView,
    account: Seq<char>,
    token: Seq<char>,
    amount: nat,
) -> Result<MultisenderView, MultisenderError> {
    if !is_whitelisted(v, token) {
        Err(MultisenderError::TokenNotWhitelisted)
    } else if balance_in(v, account, token) + amount > u128::MAX {
        Err(MultisenderError::ArithmeticOverflow)
    } else {
        Ok(
            MultisenderView {
                deposits: v.deposits.insert((account, token), balance_in(v, account, token) + amount),
                ..v
            },
        )
    }
}

/// Why a batch from `caller` fails admission, if it does: the token must be
/// whitelisted, the batch within the cap, the caller known for the token,
/// and the sum within the caller's balance.
pub open spec fn admission_error(
    v: MultisenderView,
    caller: Seq<char>,
    token: Seq<char>,
    ops: Seq<(Seq<char>, nat)>,
) -> Option<MultisenderError> {
    if !is_whitelisted(v, token) {
        Some(MultisenderError::TokenNotWhitelisted)
    } else if ops.len() > MAX_ACCOUNTS_PER_CALL {
        Some(MultisenderError::TooManyAccounts)
    } else if !v.deposits.contains_key((caller, token)) {
        Some(MultisenderError::UnknownUser)
    } else if sum_amounts(ops) > balance_in(v, caller, token) {
        Some(MultisenderError::InsufficientBalance)
    } else {
        None
    }
}

/// Why a batch with reconciliation would be refused, if it would: admission,
/// then room for one pending id per line.
pub open spec fn batch_error(
    v: MultisenderView,
    caller: Seq<char>,
    token: Seq<char>,
    ops: Seq<(Seq<char>, nat)>,
) -> Option<MultisenderError> {
    match admission_error(v, caller, token, ops) {
        Some(e) => Some(e),
        None => if v.next_id + ops.len() > u64::MAX {
            Some(MultisenderError::ArithmeticOverflow)
        } else {
            None
        },
    }
}

/// Why a batch without reconciliation would be refused, if it would: exactly
/// one yoctoNEAR must be attached, then admission.
pub open spec fn unsafe_batch_error(
    v: MultisenderView,
    attached: nat,
    caller: Seq<char>,
    token: Seq<char>,
    ops: Seq<(Seq<char>, nat)>,
) -> Option<MultisenderError> {
    if attached != ONE_YOCTO {
        Some(MultisenderError::OneYoctoRequired)
    } else {
        admission_error(v, caller, token, ops)
    }
}

/// The pending transfer that line `j` of a batch becomes.
pub open spec fn batch_line(
    caller: Seq<char>,
    token: Seq<char>,
    ops: Seq<(Seq<char>, nat)>,
    j: int,
) -> PendingView {
    PendingView { account: caller, token: token, recipient: ops[j].0, amount: ops[j].1 }
}

/// The pending map once the first `n` lines of a batch are dispatched.
pub open spec fn batch_pending(
    v: MultisenderView,
    caller: Seq<char>,
    token: Seq<char>,
    ops: Seq<(Seq<char>, nat)>,
    n: nat,
) -> Map<u64, PendingView> {
    Map::new(
        |id: u64| v.pending.contains_key(id) || (v.next_id <= id < v.next_id + n),
        |id: u64|
            if v.pending.contains_key(id) {
                v.pending[id]
            } else {
                batch_line(caller, token, ops, id - v.next_id)
            },
    )
}

/// The state after an admitted batch is dispatched with reconciliation: the
/// whole sum is debited and each line awaits its outcome under its own id.
pub open spec fn after_batch(
    v: MultisenderView,
    caller: Seq<char>,
    token: Seq<char>,
    ops: Seq<(Seq<char>, nat)>,
) -> MultisenderView {
    MultisenderView {
        deposits: v.deposits.insert(
            (caller, token),
            (balance_in(v, caller, token) - sum_amounts(ops)) as nat,
        ),
        pending: batch_pending(v, caller, token, ops, ops.len()),
        next_id: v.next_id + ops.len(),
        ..v
    }
}

/// The state after an admitted batch is dispatched with no reconciliation.
pub open spec fn after_batch_unsafe(
    v: MultisenderView,
    caller: Seq<char>,
    token: Seq<char>,
    ops: Seq<(Seq<char>, nat)>,
) -> MultisenderView {
    MultisenderView {
        deposits: v.deposits.insert(
            (caller, token),
            (balance_in(v, caller, token) - sum_amounts(ops)) as nat,
        ),
        ..v
    }
}

/// Why withdrawing all of `token` for `account` would be refused, if it
/// would. An account with no entry at all is unknown; a known account with
/// no entry for `token` holds a zero balance of it.
pub open spec fn withdraw_error(
    v: MultisenderView,
    attached: nat,
    account: Seq<char>,
    token: Seq<char>,
) -> Option<MultisenderError> {
    if attached != ONE_YOCTO {
        Some(MultisenderError::OneYoctoRequired)
    } else if !is_whitelisted(v, token) {
        Some(MultisenderError::TokenNotWhitelisted)
    } else if !has_account(v.deposits, account) {
        Some(MultisenderError::UnknownUser)
    } else if balance_in(v, account, token) == 0 {
        Some(MultisenderError::NothingToWithdraw)
    } else if v.next_id + 1 > u64::MAX {
        Some(MultisenderError::ArithmeticOverflow)
    } else {
        None
    }
}

/// The state after a withdrawal is dispatched: the balance is zeroed and the
/// whole amount awaits its outcome.
pub open spec fn after_withdraw(
    v: MultisenderView,
    account: Seq<char>,
    token: Seq<char>,
) -> MultisenderView {
    MultisenderView {
        deposits: v.deposits.insert((account, token), 0),
        pending: v.pending.insert(
            v.next_id as u64,
            PendingView {
                account: account,
                token: token,
                recipient: account,
                amount: balance_in(v, account, token),
            },
        ),
        next_id: v.next_id + 1,
        ..v
    }
}

/// Outcome of reporting that pending transfer `id` succeeded or failed. Only
/// the contract itself may report; a failure credits the amount back.
pub open spec fn complete_result(
    v: MultisenderView,
    predecessor: Seq<char>,
    current: Seq<char>,
    id: u64,
    succeeded: bool,
) -> Result<MultisenderView, MultisenderError> {
    if predecessor != current {
        Err(MultisenderError::NotAllowed)
    } else if !v.pending.contains_key(id) {
        Err(MultisenderError::UnknownOperation)
    } else if succeeded {
        Ok(MultisenderView { pending: v.pending.remove(id), ..v })
    } else {
        let p = v.pending[id];
        let restored = balance_in(v, p.account, p.token) + p.amount;
        if restored > u128::MAX {
            Err(MultisenderError::ArithmeticOverflow)
        } else {
            Ok(
                MultisenderView {
                    deposits: v.deposits.insert((p.account, p.token), restored),
                    pending: v.pending.remove(id),
                    ..v
                },
            )
        }
    }
}

pub proof fn lemma_sum_prefix(ops: Seq<(Seq<char>, nat)>, i: int)
    requires
        0 <= i < ops.len(),
    ensures
        sum_amounts(ops.take(i + 1)) == sum_amounts(ops.take(i)) + ops[i].1,
        sum_amounts(ops.take(i + 1)) <= sum_amounts(ops),
    decreases ops.len(),
{
    assert(ops.take(i + 1).drop_last() =~= ops.take(i));
    if i + 1 < ops.len() {
        lemma_sum_prefix(ops.drop_last(), i);
        assert(ops.drop_last().take(i + 1) =~= ops.take(i + 1));
        assert(ops.drop_last().take(i) =~= ops.take(i));
    } else {
        assert(ops.take(i + 1) =~= ops);
    }
}

impl View for MultisenderFt {
    type V = MultisenderView;

    closed spec fn view(&self) -> MultisenderView {
        MultisenderView {
            owner_id: self.owner_id@,
            tokens: self.tokens@.map_values(|t: String| t@),
            deposits: self.deposits@,
            pending: map_of_pairs(self.pending_pairs()),
            next_id: self.next_id as nat,
            user_stats: map_of_pairs(self.stats_pairs()),
        }
    }
}

impl MultisenderFt {
    closed spec fn stats_pairs(&self) -> Seq<(Seq<char>, UserStatsView)> {
        self.user_stats@.map_values(|s: UserVStats| (s@.account, s@))
    }

    closed spec fn pending_pairs(&self) -> Seq<(u64, PendingView)> {
        self.pending@.map_values(|p: PendingTransfer| (p.id, p@))
    }

    /// The internal invariant: the ledger is well formed, the whitelist holds
    /// no duplicate, pending ids are distinct and below the next id.
    pub closed spec fn wf(&self) -> bool {
        &&& self.deposits.wf()
        &&& self@.tokens.no_duplicates()
        &&& keys_distinct(self.pending_pairs())
        &&& keys_distinct(self.stats_pairs())
        &&& forall|i: int| 0 <= i < self.user_stats@.len() ==> (#[trigger] self.user_stats@[i]).wf()
        &&& forall|id: u64| #[trigger]
            self@.pending.contains_key(id) ==> id < self.next_id && self@.pending[id].amount
                <= u128::MAX
    }

    /// A well-formed multisender is in a reachable shape.
    pub proof fn lemma_view_ok(&self)
        requires
            self.wf(),
        ensures
            view_ok(self@),
    {
        assert forall|k: BalanceKey| #[trigger]
            self@.deposits.contains_key(k) implies self@.deposits[k] <= u128::MAX by {
            self.deposits.lemma_bounded(k);
        }
    }

    /// A multisender owned by `owner_id`, with no token and no balance.
    pub fn new(owner_id: String) -> (r: MultisenderFt)
        ensures
            r.wf(),
            r@ == (MultisenderView {
                owner_id: owner_id@,
                tokens: Seq::empty(),
                deposits: Map::empty(),
                pending: Map::empty(),
                next_id: 0,
                user_stats: Map::empty(),
            }),
    {
        let r = MultisenderFt {
            owner_id,
            tokens: Vec::new(),
            deposits: Ledger::new(),
            pending: Vec::new(),
            next_id: 0,
            user_stats: Vec::new(),
        };
        assert(r@.tokens =~= Seq::<Seq<char>>::empty());
        assert(r.pending_pairs() =~= Seq::<(u64, PendingView)>::empty());
        assert(r@.pending =~= Map::<u64, PendingView>::empty());
        assert(r.stats_pairs() =~= Seq::<(Seq<char>, UserStatsView)>::empty());
        assert(r@.user_stats =~= Map::<Seq<char>, UserStatsView>::empty());
        r
    }

    /// Whether `token_id` is whitelisted.
    pub fn is_token_whitelisted(&self, token_id: &String) -> (r: bool)
        ensures
            r == is_whitelisted(self@, token_id@),
    {
        let n = self.tokens.len();
        let mut i: usize = 0;
        while i < n
            invariant
                n == self.tokens@.len(),
                i <= n,
                forall|j: int| 0 <= j < i ==> (#[trigger] self.tokens@[j])@ != token_id@,
            decreases n - i,
        {
            if self.tokens[i] == *token_id {
                assert(self@.tokens[i as int] == token_id@);
                return true;
            }
            i = i + 1;
        }
        proof {
            if self@.tokens.contains(token_id@) {
                let j = choose|j: int| 0 <= j < self@.tokens.len() && self@.tokens[j] == token_id@;
                assert(self.tokens@[j]@ == token_id@);
            }
        }
        false
    }

    /// Credits `deposit_amount` of `token_id` to `account_id`.
    pub fn deposit(&mut self, account_id: &String, token_id: &String, deposit_amount: u128) -> (r:
        Result<(), MultisenderError>)
        requires
            old(self).wf(),
        ensures
            final(self).wf(),
            match deposit_result(old(self)@, account_id@, token_id@, deposit_amount as nat) {
                Ok(v) => r is Ok && final(self)@ == v,
                Err(e) => r == Err::<(), MultisenderError>(e) && final(self)@ == old(self)@,
            },
    {
        if !self.is_token_whitelisted(token_id) {
            return Err(MultisenderError::TokenNotWhitelisted);
        }
        let ghost before = self@;
        let r = self.deposits.credit(account_id, token_id, deposit_amount);
        assert(self@.pending == before.pending);
        assert(self@.user_stats == before.user_stats);
        r
    }

    /// Handles a notification from token contract `ctx.predecessor_account_id`
    /// that `amount` was sent to the pool on behalf of `sender_id`. Returns
    /// the amount to give back: zero once credited, all of it when `msg` is
    /// not empty.
    pub fn ft_on_transfer(
        &mut self,
        ctx: &CallContext,
        sender_id: &String,
        amount: u128,
        msg: &String,
    ) -> (r: Result<u128, MultisenderError>)
        requires
            old(self).wf(),
        ensures
            final(self).wf(),
            !is_whitelisted(old(self)@, ctx.predecessor_account_id@) ==> r == Err::<
                u128,
                MultisenderError,
            >(MultisenderError::TokenNotWhitelisted) && final(self)@ == old(self)@,
            is_whitelisted(old(self)@, ctx.predecessor_account_id@) && msg@.len() > 0 ==> r == Ok::<
                u128,
                MultisenderError,
            >(amount) && final(self)@ == old(self)@,
            is_whitelisted(old(self)@, ctx.predecessor_account_id@) && msg@.len() == 0 ==> match deposit_result(
                old(self)@,
                sender_id@,
                ctx.predecessor_account_id@,
                amount as nat,
            ) {
                Ok(v) => r == Ok::<u128, MultisenderError>(0) && final(self)@ == v,
                Err(e) => r == Err::<u128, MultisenderError>(e) && final(self)@ == old(self)@,
            },
    {
        let token_id = &ctx.predecessor_account_id;
        if !self.is_token_whitelisted(token_id) {
            return Err(MultisenderError::TokenNotWhitelisted);
        }
        if !msg.as_str().is_empty() {
            return Ok(amount);
        }
        match self.deposit(sender_id, token_id, amount) {
            Ok(()) => Ok(0),
            Err(e) => Err(e),
        }
    }

    /// Hands ownership to `new_owner`; only the owner may.
    pub fn transfer_ownership(&mut self, ctx: &CallContext, new_owner: String) -> (r: Result<
        (),
        MultisenderError,
    >)
        requires
            old(self).wf(),
        ensures
            final(self).wf(),
            ctx.predecessor_account_id@ != old(self)@.owner_id ==> r == Err::<(), MultisenderError>(
                MultisenderError::NotAllowed,
            ) && final(self)@ == old(self)@,
            ctx.predecessor_account_id@ == old(self)@.owner_id ==> r is Ok && final(self)@ == (
            MultisenderView { owner_id: new_owner@, ..old(self)@ }),
    {
        if ctx.predecessor_account_id != self.owner_id {
            return Err(MultisenderError::NotAllowed);
        }
        self.owner_id = new_owner;
        Ok(())
    }

    /// Adds `token_id` to the whitelist; only the owner may, and only once.
    /// Returns the registration of the pool account with the token contract.
    pub fn whitelist_token(&mut self, ctx: &CallContext, token_id: String) -> (r: Result<
        StorageDeposit,
        MultisenderError,
    >)
        requires
            old(self).wf(),
        ensures
            final(self).wf(),
            ctx.predecessor_account_id@ != old(self)@.owner_id ==> r is Err && r->Err_0
                == MultisenderError::NotAllowed && final(self)@ == old(self)@,
            ctx.predecessor_account_id@ == old(self)@.owner_id && is_whitelisted(
                old(self)@,
                token_id@,
            ) ==> r is Err && r->Err_0 == MultisenderError::TokenAlreadyWhitelisted
                && final(self)@ == old(self)@,
            ctx.predecessor_account_id@ == old(self)@.owner_id && !is_whitelisted(
                old(self)@,
                token_id@,
            ) ==> r is Ok && final(self)@ == (MultisenderView {
                tokens: old(self)@.tokens.push(token_id@),
                ..old(self)@
            }) && r->Ok_0.token_id@ == token_id@ && r->Ok_0.account_id@
                == ctx.current_account_id@ && r->Ok_0.amount == STORAGE_DEPOSIT,
    {
        if ctx.predecessor_account_id != self.owner_id {
            return Err(MultisenderError::NotAllowed);
        }
        if self.is_token_whitelisted(&token_id) {
            return Err(MultisenderError::TokenAlreadyWhitelisted);
        }
        let registration = StorageDeposit {
            token_id: token_id.clone(),
            account_id: ctx.current_account_id.clone(),
            amount: STORAGE_DEPOSIT,
        };
        let ghost before = self@;
        self.tokens.push(token_id);
        assert(self@.tokens =~= before.tokens.push(registration.token_id@));
        Ok(registration)
    }

    /// Registers each of `accounts` with token contract `token_id`, paid from
    /// the deposit attached to the call.
    pub fn multi_storage_deposit(
        &self,
        ctx: &CallContext,
        token_id: &String,
        accounts: &Vec<String>,
    ) -> (r: Result<Vec<StorageDeposit>, MultisenderError>)
        ensures
            accounts@.len() > MAX_ACCOUNTS_PER_CALL ==> r is Err && r->Err_0
                == MultisenderError::TooManyAccounts,
            accounts@.len() <= MAX_ACCOUNTS_PER_CALL && ctx.attached_deposit < STORAGE_DEPOSIT
                * accounts@.len() ==> r is Err && r->Err_0 == MultisenderError::SmallDeposit,
            accounts@.len() <= MAX_ACCOUNTS_PER_CALL && ctx.attached_deposit >= STORAGE_DEPOSIT
                * accounts@.len() && !is_whitelisted(self@, token_id@) ==> r is Err && r->Err_0
                == MultisenderError::TokenNotWhitelisted,
            accounts@.len() <= MAX_ACCOUNTS_PER_CALL && ctx.attached_deposit >= STORAGE_DEPOSIT
                * accounts@.len() && is_whitelisted(self@, token_id@) ==> r is Ok && r->Ok_0@.len()
                == accounts@.len() && forall|j: int|
                0 <= j < accounts@.len() ==> (#[trigger] r->Ok_0@[j]).token_id@ == token_id@
                    && r->Ok_0@[j].account_id@ == accounts@[j]@ && r->Ok_0@[j].amount
                    == STORAGE_DEPOSIT,
    {
        let n = accounts.len();
        if n > MAX_ACCOUNTS_PER_CALL {
            return Err(MultisenderError::TooManyAccounts);
        }
        let total_bond: u128 = STORAGE_DEPOSIT * (n as u128);
        if ctx.attached_deposit < total_bond {
            return Err(MultisenderError::SmallDeposit);
        }
        if !self.is_token_whitelisted(token_id) {
            return Err(MultisenderError::TokenNotWhitelisted);
        }
        let mut out: Vec<StorageDeposit> = Vec::new();
        let mut i: usize = 0;
        while i < n
            invariant
                n == accounts@.len(),
                i <= n,
                out@.len() == i,
                forall|j: int|
                    0 <= j < i ==> (#[trigger] out@[j]).token_id@ == token_id@
                        && out@[j].account_id@ == accounts@[j]@ && out@[j].amount
                        == STORAGE_DEPOSIT,
            decreases n - i,
        {
            out.push(
                StorageDeposit {
                    token_id: token_id.clone(),
                    account_id: accounts[i].clone(),
                    amount: STORAGE_DEPOSIT,
                },
            );
            i = i + 1;
        }
        Ok(out)
    }

    fn find_pending(&self, id: u64) -> (r: Option<usize>)
        requires
            self.wf(),
        ensures
            match r {
                Some(i) => i < self.pending@.len() && self.pending@[i as int].id == id
                    && self@.pending.contains_key(id) && self@.pending[id]
                    == self.pending@[i as int]@,
                None => !self@.pending.contains_key(id),
            },
    {
        let n = self.pending.len();
        let mut i: usize = 0;
        while i < n
            invariant
                self.wf(),
                n == self.pending@.len(),
                i <= n,
                forall|j: int| 0 <= j < i ==> (#[trigger] self.pending@[j]).id != id,
            decreases n - i,
        {
            if self.pending[i].id == id {
                proof {
                    lemma_map_of_pairs_at(self.pending_pairs(), i as int);
                }
                return Some(i);
            }
            i = i + 1;
        }
        proof {
            let pairs = self.pending_pairs();
            if self@.pending.contains_key(id) {
                let j = choose|j: int| 0 <= j < pairs.len() && #[trigger] pairs[j].0 == id;
                assert(pairs[j].0 == self.pending@[j].id);
            }
        }
        None
    }

    /// Records `p` as awaiting its outcome and moves the next id past it.
    fn push_pending(&mut self, p: PendingTransfer)
        requires
            old(self).wf(),
            p.id == old(self).next_id,
            old(self).next_id < u64::MAX,
        ensures
            final(self).wf(),
            final(self)@ == (MultisenderView {
                pending: old(self)@.pending.insert(p.id, p@),
                next_id: old(self)@.next_id + 1,
                ..old(self)@
            }),
    {
        let ghost before = self.pending_pairs();
        let ghost pv = p@;
        let ghost pid = p.id;
        proof {
            lemma_map_of_pairs_push(before, pid, pv);
        }
        self.pending.push(p);
        self.next_id = self.next_id + 1;
        assert(self.pending_pairs() =~= before.push((pid, pv)));
    }

    /// Withdraws the whole balance of `token_id` held for `account_id` back to
    /// that account. Returns the transfer to issue; its outcome is reported
    /// through `on_withdraw`.
    pub fn withdraw_all(&mut self, ctx: &CallContext, account_id: &String, token_id: &String) -> (r:
        Result<PendingTransfer, MultisenderError>)
        requires
            old(self).wf(),
        ensures
            final(self).wf(),
            match withdraw_error(old(self)@, ctx.attached_deposit as nat, account_id@, token_id@) {
                Some(e) => r is Err && r->Err_0 == e && final(self)@ == old(self)@,
                None => r is Ok && final(self)@ == after_withdraw(old(self)@, account_id@, token_id@)
                    && r->Ok_0.id == old(self)@.next_id && r->Ok_0@ == final(self)@.pending[r->Ok_0.id],
            },
    {
        if ctx.attached_deposit != ONE_YOCTO {
            return Err(MultisenderError::OneYoctoRequired);
        }
        if !self.is_token_whitelisted(token_id) {
            return Err(MultisenderError::TokenNotWhitelisted);
        }
        if !self.deposits.has_account(account_id) {
            return Err(MultisenderError::UnknownUser);
        }
        let amount = self.deposits.get_or_default(account_id, token_id);
        if amount == 0 {
            return Err(MultisenderError::NothingToWithdraw);
        }
        if self.next_id == u64::MAX {
            return Err(MultisenderError::ArithmeticOverflow);
        }
        let ghost before = self@;
        self.deposits.set(account_id, token_id, 0);
        assert(self@.pending == before.pending);
        assert(self@.tokens == before.tokens);
        let handle = PendingTransfer {
            id: self.next_id,
            account_id: account_id.clone(),
            token_id: token_id.clone(),
            recipient: account_id.clone(),
            amount,
        };
        let record = handle.duplicate();
        self.push_pending(record);
        Ok(handle)
    }

    /// Settles pending transfer `id`: on failure its amount is credited back
    /// to the account it was debited from; on success nothing more changes.
    fn complete(&mut self, ctx: &CallContext, id: u64, succeeded: bool) -> (r: Result<
        (),
        MultisenderError,
    >)
        requires
            old(self).wf(),
        ensures
            final(self).wf(),
            match complete_result(
                old(self)@,
                ctx.predecessor_account_id@,
                ctx.current_account_id@,
                id,
                succeeded,
            ) {
                Ok(v) => r is Ok && final(self)@ == v,
                Err(e) => r is Err && r->Err_0 == e && final(self)@ == old(self)@,
            },
    {
        if ctx.predecessor_account_id != ctx.current_account_id {
            return Err(MultisenderError::NotAllowed);
        }
        let i = match self.find_pending(id) {
            None => {
                return Err(MultisenderError::UnknownOperation);
            },
            Some(i) => i,
        };
        let ghost v0 = self@;
        if !succeeded {
            let p = &self.pending[i];
            if let Err(e) = self.deposits.credit(&p.account_id, &p.token_id, p.amount) {
                return Err(e);
            }
        }
        let ghost before = self.pending_pairs();
        proof {
            lemma_map_of_pairs_remove(before, i as int);
        }
        self.pending.remove(i);
        assert(self.pending_pairs() =~= before.remove(i as int));
        assert(self@ == complete_result(v0, ctx.predecessor_account_id@, ctx.current_account_id@, id, succeeded).unwrap());
        Ok(())
    }

    /// Reports the outcome of a withdrawal issued by `withdraw_all`.
    pub fn on_withdraw(&mut self, ctx: &CallContext, id: u64, succeeded: bool) -> (r: Result<
        (),
        MultisenderError,
    >)
        requires
            old(self).wf(),
        ensures
            final(self).wf(),
            match complete_result(
                old(self)@,
                ctx.predecessor_account_id@,
                ctx.current_account_id@,
                id,
                succeeded,
            ) {
                Ok(v) => r is Ok && final(self)@ == v,
                Err(e) => r is Err && r->Err_0 == e && final(self)@ == old(self)@,
            },
    {
        self.complete(ctx, id, succeeded)
    }

    /// Reports the outcome of one transfer of a batch issued by
    /// `multisend_from_balance`.
    pub fn on_transfer_from_balance(&mut self, ctx: &CallContext, id: u64, succeeded: bool) -> (r:
        Result<(), MultisenderError>)
        requires
            old(self).wf(),
        ensures
            final(self).wf(),
            match complete_result(
                old(self)@,
                ctx.predecessor_account_id@,
                ctx.current_account_id@,
                id,
                succeeded,
            ) {
                Ok(v) => r is Ok && final(self)@ == v,
                Err(e) => r is Err && r->Err_0 == e && final(self)@ == old(self)@,
            },
    {
        self.complete(ctx, id, succeeded)
    }

    /// Checks a batch from `caller` against the whitelist, the size cap and
    /// the caller's balance. Returns that balance and the batch's sum.
    fn admit_batch(&self, caller: &String, token_id: &String, accounts: &Vec<Operation>) -> (r:
        Result<(u128, u128), MultisenderError>)
        requires
            self.wf(),
        ensures
            match admission_error(self@, caller@, token_id@, ops_view(accounts@)) {
                Some(e) => r is Err && r->Err_0 == e,
                None => r is Ok && r->Ok_0.0 as nat == balance_in(self@, caller@, token_id@)
                    && r->Ok_0.1 as nat == sum_amounts(ops_view(accounts@)),
            },
    {
        let ghost ops = ops_view(accounts@);
        if !self.is_token_whitelisted(token_id) {
            return Err(MultisenderError::TokenNotWhitelisted);
        }
        let n = accounts.len();
        if n > MAX_ACCOUNTS_PER_CALL {
            return Err(MultisenderError::TooManyAccounts);
        }
        if !self.deposits.contains(caller, token_id) {
            return Err(MultisenderError::UnknownUser);
        }
        let balance = self.deposits.get_or_default(caller, token_id);
        let mut total: u128 = 0;
        let mut i: usize = 0;
        assert(ops.take(0) =~= Seq::<(Seq<char>, nat)>::empty());
        while i < n
            invariant
                n == accounts@.len(),
                ops == ops_view(accounts@),
                i <= n,
                total as nat == sum_amounts(ops.take(i as int)),
                total <= balance,
                balance as nat == balance_in(self@, caller@, token_id@),
                is_whitelisted(self@, token_id@),
                n <= MAX_ACCOUNTS_PER_CALL,
                self@.deposits.contains_key((caller@, token_id@)),
            decreases n - i,
        {
            let amount = accounts[i].amount;
            proof {
                lemma_sum_prefix(ops, i as int);
                assert(ops[i as int].1 == amount as nat);
            }
            if amount > balance - total {
                assert(sum_amounts(ops) > balance_in(self@, caller@, token_id@));
                return Err(MultisenderError::InsufficientBalance);
            }
            total = total + amount;
            i = i + 1;
        }
        assert(ops.take(n as int) =~= ops);
        Ok((balance, total))
    }

    /// Sends a batch from the caller's balance of `token_id`, one transfer per
    /// line. The whole sum is checked against the balance first; each line is
    /// then debited and handed back as a pending transfer, whose outcome is
    /// reported through `on_transfer_from_balance`.
    pub fn multisend_from_balance(
        &mut self,
        ctx: &CallContext,
        token_id: &String,
        accounts: &Vec<Operation>,
    ) -> (r: Result<Vec<PendingTransfer>, MultisenderError>)
        requires
            old(self).wf(),
        ensures
            final(self).wf(),
            match batch_error(
                old(self)@,
                ctx.predecessor_account_id@,
                token_id@,
                ops_view(accounts@),
            ) {
                Some(e) => r is Err && r->Err_0 == e && final(self)@ == old(self)@,
                None => r is Ok && final(self)@ == after_batch(
                    old(self)@,
                    ctx.predecessor_account_id@,
                    token_id@,
                    ops_view(accounts@),
                ) && r->Ok_0@.len() == accounts@.len() && forall|j: int|
                    0 <= j < accounts@.len() ==> (#[trigger] r->Ok_0@[j]).id == old(self)@.next_id
                        + j && r->Ok_0@[j]@ == batch_line(
                        ctx.predecessor_account_id@,
                        token_id@,
                        ops_view(accounts@),
                        j,
                    ),
            },
    {
        let caller = &ctx.predecessor_account_id;
        let ghost ops = ops_view(accounts@);
        let ghost v0 = self@;
        let ghost key = (caller@, token_id@);
        let (balance, _total) = match self.admit_batch(caller, token_id, accounts) {
            Err(e) => {
                return Err(e);
            },
            Ok(p) => p,
        };
        let n = accounts.len();
        if self.next_id > u64::MAX - (n as u64) {
            return Err(MultisenderError::ArithmeticOverflow);
        }
        let mut remaining: u128 = balance;
        let mut handles: Vec<PendingTransfer> = Vec::new();
        let mut i: usize = 0;
        assert(ops.take(0) =~= Seq::<(Seq<char>, nat)>::empty());
        assert(v0.deposits.insert(key, balance as nat) =~= v0.deposits);
        assert(batch_pending(v0, caller@, token_id@, ops, 0) =~= v0.pending);
        proof {
            self.lemma_view_ok();
        }
        while i < n
            invariant
                self.wf(),
                n == accounts@.len(),
                ops == ops_view(accounts@),
                i <= n,
                v0 == old(self)@,
                key == (caller@, token_id@),
                balance as nat == balance_in(v0, caller@, token_id@),
                sum_amounts(ops) <= balance,
                v0.next_id + n <= u64::MAX,
                view_ok(v0),
                remaining as nat == balance - sum_amounts(ops.take(i as int)),
                self@ == (MultisenderView {
                    deposits: v0.deposits.insert(key, remaining as nat),
                    pending: batch_pending(v0, caller@, token_id@, ops, i as nat),
                    next_id: (v0.next_id + i) as nat,
                    ..v0
                }),
                handles@.len() == i,
                forall|j: int|
                    0 <= j < i ==> (#[trigger] handles@[j]).id == v0.next_id + j && handles@[j]@
                        == batch_line(caller@, token_id@, ops, j),
            decreases n - i,
        {
            let op = &accounts[i];
            proof {
                lemma_sum_prefix(ops, i as int);
            }
            remaining = remaining - op.amount;
            let ghost mid = self@;
            if self.deposits.debit(caller, token_id, op.amount).is_err() {
                return Err(MultisenderError::InsufficientBalance);
            }
            assert(self@.pending == mid.pending);
            assert(self@.deposits =~= v0.deposits.insert(key, remaining as nat));
            let handle = PendingTransfer {
                id: self.next_id,
                account_id: caller.clone(),
                token_id: token_id.clone(),
                recipient: op.account_id.clone(),
                amount: op.amount,
            };
            let record = handle.duplicate();
            let ghost new_id = record.id;
            let ghost rv = record@;
            assert(ops[i as int] == accounts@[i as int]@);
            assert(rv == batch_line(caller@, token_id@, ops, i as int));
            self.push_pending(record);
            assert(!v0.pending.contains_key(new_id));
            assert(self@.pending =~= batch_pending(v0, caller@, token_id@, ops, (i + 1) as nat));
            handles.push(handle);
            i = i + 1;
        }
        assert(ops.take(n as int) =~= ops);
        Ok(handles)
    }

    /// Sends a batch like `multisend_from_balance`, but debits the whole sum at
    /// once and keeps no record: a transfer that fails is not credited back.
    /// Exactly one yoctoNEAR must be attached.
    pub fn multisend_from_balance_unsafe(
        &mut self,
        ctx: &CallContext,
        token_id: &String,
        accounts: &Vec<Operation>,
    ) -> (r: Result<Vec<FtTransfer>, MultisenderError>)
        requires
            old(self).wf(),
        ensures
            final(self).wf(),
            match unsafe_batch_error(
                old(self)@,
                ctx.attached_deposit as nat,
                ctx.predecessor_account_id@,
                token_id@,
                ops_view(accounts@),
            ) {
                Some(e) => r is Err && r->Err_0 == e && final(self)@ == old(self)@,
                None => r is Ok && final(self)@ == after_batch_unsafe(
                    old(self)@,
                    ctx.predecessor_account_id@,
                    token_id@,
                    ops_view(accounts@),
                ) && r->Ok_0@.len() == accounts@.len() && forall|j: int|
                    0 <= j < accounts@.len() ==> (#[trigger] r->Ok_0@[j]).token_id@ == token_id@
                        && r->Ok_0@[j].receiver_id@ == accounts@[j].account_id@
                        && r->Ok_0@[j].amount == accounts@[j].amount,
            },
    {
        if ctx.attached_deposit != ONE_YOCTO {
            return Err(MultisenderError::OneYoctoRequired);
        }
        let caller = &ctx.predecessor_account_id;
        let (_balance, total) = match self.admit_batch(caller, token_id, accounts) {
            Err(e) => {
                return Err(e);
            },
            Ok(p) => p,
        };
        let n = accounts.len();
        let mut transfers: Vec<FtTransfer> = Vec::new();
        let mut i: usize = 0;
        while i < n
            invariant
                n == accounts@.len(),
                i <= n,
                transfers@.len() == i,
                forall|j: int|
                    0 <= j < i ==> (#[trigger] transfers@[j]).token_id@ == token_id@
                        && transfers@[j].receiver_id@ == accounts@[j].account_id@
                        && transfers@[j].amount == accounts@[j].amount,
            decreases n - i,
        {
            transfers.push(
                FtTransfer {
                    token_id: token_id.clone(),
                    receiver_id: accounts[i].account_id.clone(),
                    amount: accounts[i].amount,
                },
            );
            i = i + 1;
        }
        let ghost before = self@;
        if self.deposits.debit(caller, token_id, total).is_err() {
            return Err(MultisenderError::InsufficientBalance);
        }
        assert(self@.pending == before.pending);
        Ok(transfers)
    }

    /// The owner's account id.
    pub fn get_owner(&self) -> (r: String)
        ensures
            r@ == self@.owner_id,
    {
        self.owner_id.clone()
    }

    /// The whitelisted tokens, in the order they were added.
    pub fn get_whitelisted_tokens(&self) -> (r: Vec<String>)
        requires
            self.wf(),
        ensures
            r@.map_values(|t: String| t@) == self@.tokens,
            r@.map_values(|t: String| t@).no_duplicates(),
    {
        let n = self.tokens.len();
        let mut out: Vec<String> = Vec::new();
        let mut i: usize = 0;
        while i < n
            invariant
                n == self.tokens@.len(),
                i <= n,
                out@.len() == i,
                forall|j: int| 0 <= j < i ==> (#[trigger] out@[j])@ == self.tokens@[j]@,
            decreases n - i,
        {
            out.push(self.tokens[i].clone());
            i = i + 1;
        }
        assert(out@.map_values(|t: String| t@) =~= self@.tokens);
        out
    }

    /// The balance of `token_id` held for `account_id`, zero if none.
    pub fn get_user_deposit_by_token(&self, account_id: &String, token_id: &String) -> (r: u128)
        requires
            self.wf(),
        ensures
            r as nat == balance_in(self@, account_id@, token_id@),
    {
        self.deposits.get_or_default(account_id, token_id)
    }

    /// The statistics record of `account_id`: the stored one, or an empty one.
    pub open spec fn stats_or_empty(v: MultisenderView, account: Seq<char>) -> UserStatsView {
        if v.user_stats.contains_key(account) {
            v.user_stats[account]
        } else {
            UserStatsView { account: account, deposits: Map::empty(), total_deposited: Map::empty() }
        }
    }

    fn find_stats(&self, account_id: &String) -> (r: Option<usize>)
        requires
            self.wf(),
        ensures
            match r {
                Some(i) => i < self.user_stats@.len() && self.user_stats@[i as int]@.account
                    == account_id@ && self@.user_stats.contains_key(account_id@)
                    && self@.user_stats[account_id@] == self.user_stats@[i as int]@,
                None => !self@.user_stats.contains_key(account_id@),
            },
    {
        let n = self.user_stats.len();
        let mut i: usize = 0;
        while i < n
            invariant
                self.wf(),
                n == self.user_stats@.len(),
                i <= n,
                forall|j: int| 0 <= j < i ==> (#[trigger] self.user_stats@[j])@.account != account_id@,
            decreases n - i,
        {
            let UserVStats::Current(s) = &self.user_stats[i];
            if *s.account() == *account_id {
                proof {
                    lemma_map_of_pairs_at(self.stats_pairs(), i as int);
                }
                return Some(i);
            }
            i = i + 1;
        }
        proof {
            let pairs = self.stats_pairs();
            if self@.user_stats.contains_key(account_id@) {
                let j = choose|j: int| 0 <= j < pairs.len() && #[trigger] pairs[j].0 == account_id@;
                assert(pairs[j].0 == self.user_stats@[j]@.account);
            }
        }
        None
    }

    /// A copy of the statistics record of `account_id`, empty if it has none.
    pub fn internal_get_stats(&self, account_id: &String) -> (r: UserStats)
        requires
            self.wf(),
        ensures
            r.wf(),
            r@ == Self::stats_or_empty(self@, account_id@),
    {
        match self.find_stats(account_id) {
            Some(i) => {
                let UserVStats::Current(s) = &self.user_stats[i];
                assert(self.user_stats@[i as int].wf());
                s.duplicate()
            },
            None => UserStats::new(account_id.clone()),
        }
    }

    /// Applies `update_action` with `balance` to the counters of `token_id`
    /// in the statistics record of `account_id`, creating the record if
    /// needed. An addition that would overflow is refused and changes nothing.
    pub fn internal_update_user_stats(
        &mut self,
        account_id: &String,
        token_id: &String,
        update_action: UpdateUserStatsAction,
        balance: Option<u128>,
    ) -> (r: Result<(), MultisenderError>)
        requires
            old(self).wf(),
        ensures
            final(self).wf(),
            match stats_after(
                Self::stats_or_empty(old(self)@, account_id@),
                token_id@,
                update_action,
                balance,
            ) {
                Some(s) => r is Ok && final(self)@ == (MultisenderView {
                    user_stats: old(self)@.user_stats.insert(account_id@, s),
                    ..old(self)@
                }),
                None => r == Err::<(), MultisenderError>(MultisenderError::ArithmeticOverflow)
                    && final(self)@ == old(self)@,
            },
    {
        let ghost before = self.stats_pairs();
        match self.find_stats(account_id) {
            Some(i) => {
                let UserVStats::Current(mut stats) = self.user_stats.remove(i);
                assert(before[i as int] == (stats@.account, stats@));
                assert(stats.wf());
                let res = stats.update(token_id, update_action, balance);
                proof {
                    lemma_map_of_pairs_update(before, i as int, stats@);
                }
                let ghost sv = stats@;
                self.user_stats.insert(i, UserVStats::Current(stats));
                assert(self.stats_pairs() =~= before.update(i as int, (before[i as int].0, sv)));
                assert(forall|j: int|
                    0 <= j < self.user_stats@.len() ==> (#[trigger] self.user_stats@[j]).wf());
                if res.is_err() {
                    assert(self@.user_stats =~= old(self)@.user_stats);
                }
                res
            },
            None => {
                let mut stats = UserStats::new(account_id.clone());
                let res = stats.update(token_id, update_action, balance);
                if res.is_err() {
                    return res;
                }
                proof {
                    lemma_map_of_pairs_push(before, account_id@, stats@);
                }
                let ghost sv = stats@;
                self.user_stats.push(UserVStats::Current(stats));
                assert(self.stats_pairs() =~= before.push((account_id@, sv)));
                res
            },
        }
    }

    /// The counters of `token_id` in the statistics record of `account_id`.
    pub fn get_stats(&self, account_id: &String, token_id: String) -> (r: UserStatsTokenOutput)
        requires
            self.wf(),
        ensures
            r.account_id@ == account_id@,
            r.token_id@ == token_id@,
            r.deposit as nat == crate::user::stats_deposit(
                Self::stats_or_empty(self@, account_id@),
                token_id@,
            ),
            r.total_deposited as nat == crate::user::stats_total(
                Self::stats_or_empty(self@, account_id@),
                token_id@,
            ),
    {
        let user_stats = self.internal_get_stats(account_id);
        UserStatsTokenOutput::from_by_token(user_stats, token_id)
    }

    /// The whole state as plain lists.
    pub fn export(&self) -> (r: MultisenderParts)
        requires
            self.wf(),
        ensures
            parts_ok(r),
            parts_view(r) == self@,
    {
        let n = self.pending.len();
        let mut pending: Vec<PendingTransfer> = Vec::new();
        let mut i: usize = 0;
        while i < n
            invariant
                n == self.pending@.len(),
                i <= n,
                pending@.len() == i,
                forall|j: int|
                    0 <= j < i ==> (#[trigger] pending@[j]).id == self.pending@[j].id && pending@[j]@
                        == self.pending@[j]@,
            decreases n - i,
        {
            pending.push(self.pending[i].duplicate());
            i = i + 1;
        }
        assert(pending_list_pairs(pending@) =~= self.pending_pairs());
        let m = self.user_stats.len();
        let mut stats: Vec<UserStatsParts> = Vec::new();
        let mut k: usize = 0;
        while k < m
            invariant
                self.wf(),
                m == self.user_stats@.len(),
                k <= m,
                stats@.len() == k,
                forall|j: int|
                    0 <= j < k ==> stats_parts_ok(#[trigger] stats@[j]) && stats_parts_view(stats@[j])
                        == self.user_stats@[j]@,
            decreases m - k,
        {
            let UserVStats::Current(s) = &self.user_stats[k];
            assert(self.user_stats@[k as int].wf());
            stats.push(s.to_parts());
            k = k + 1;
        }
        assert(stats_list_pairs(stats@) =~= self.stats_pairs());
        let r = MultisenderParts {
            owner_id: self.owner_id.clone(),
            tokens: self.get_whitelisted_tokens(),
            balances: self.deposits.entries(),
            pending,
            next_id: self.next_id,
            user_stats: stats,
        };
        assert forall|j: int| 0 <= j < r.pending@.len() implies (#[trigger] r.pending@[j]).id
            < r.next_id by {
            lemma_map_of_pairs_at(self.pending_pairs(), j);
            assert(self.pending_pairs()[j].0 == self.pending@[j].id);
            assert(self@.pending.contains_key(self.pending@[j].id));
            assert(self.pending@[j].id < self.next_id);
            assert(r.pending@[j].id == self.pending@[j].id);
        }
        r
    }

    /// The state that `parts` describe. Where they repeat a token, id or
    /// account, or hold an id at or above the next id, the offending item is
    /// dropped; balances repeated under one key keep the later one.
    pub fn import(parts: &MultisenderParts) -> (r: MultisenderFt)
        ensures
            r.wf(),
            parts_ok(*parts) ==> r@ == parts_view(*parts),
    {
        let mut r = MultisenderFt::new(parts.owner_id.clone());
        r.next_id = parts.next_id;
        r.deposits = Ledger::from_entries(&parts.balances);
        let ghost tv = parts.tokens@.map_values(|t: String| t@);
        let nt = parts.tokens.len();
        let mut i: usize = 0;
        assert(r@.tokens =~= tv.take(0));
        while i < nt
            invariant
                r.wf(),
                nt == parts.tokens@.len(),
                tv == parts.tokens@.map_values(|t: String| t@),
                i <= nt,
                r@.pending == Map::<u64, PendingView>::empty(),
                r@.user_stats == Map::<Seq<char>, UserStatsView>::empty(),
                r@.owner_id == parts.owner_id@,
                r@.next_id == parts.next_id,
                keys_distinct(entry_pairs(parts.balances@)) ==> r@.deposits == map_of_pairs(
                    entry_pairs(parts.balances@),
                ),
                tv.no_duplicates() ==> r@.tokens == tv.take(i as int),
            decreases nt - i,
        {
            let t = &parts.tokens[i];
            if !r.is_token_whitelisted(t) {
                let ghost before = r@.tokens;
                r.tokens.push(t.clone());
                assert(r@.tokens =~= before.push(t@));
                assert(tv.take(i + 1) =~= tv.take(i as int).push(tv[i as int]));
            } else {
                proof {
                    if tv.no_duplicates() {
                        let j = choose|j: int| 0 <= j < r@.tokens.len() && r@.tokens[j] == t@;
                        assert(tv[j] == tv[i as int]);
                    }
                }
            }
            i = i + 1;
        }
        assert(tv.take(nt as int) =~= tv);
        let ghost pp = pending_list_pairs(parts.pending@);
        let np = parts.pending.len();
        let mut i: usize = 0;
        assert(map_of_pairs(pp.take(0)) =~= Map::<u64, PendingView>::empty());
        while i < np
            invariant
                r.wf(),
                np == parts.pending@.len(),
                pp == pending_list_pairs(parts.pending@),
                i <= np,
                r@.user_stats == Map::<Seq<char>, UserStatsView>::empty(),
                r@.owner_id == parts.owner_id@,
                r@.next_id == parts.next_id,
                keys_distinct(entry_pairs(parts.balances@)) ==> r@.deposits == map_of_pairs(
                    entry_pairs(parts.balances@),
                ),
                tv.no_duplicates() ==> r@.tokens == tv,
                parts_ok(*parts) ==> r@.pending == map_of_pairs(pp.take(i as int)),
            decreases np - i,
        {
            let p = &parts.pending[i];
            proof {
                if parts_ok(*parts) {
                    assert(parts.pending@[i as int].id < parts.next_id);
                }
            }
            if p.id < r.next_id {
                if r.find_pending(p.id).is_none() {
                    let q = p.duplicate();
                    let ghost before = r.pending_pairs();
                    proof {
                        lemma_map_of_pairs_push(before, q.id, q@);
                        if parts_ok(*parts) {
                            let pre = pp.take(i as int);
                            assert(keys_distinct(pre));
                            assert(pp.take(i + 1) =~= pre.push(pp[i as int]));
                            lemma_map_of_pairs_push(pre, pp[i as int].0, pp[i as int].1);
                        }
                    }
                    r.pending.push(q);
                    assert(r.pending_pairs() =~= before.push((p.id, p@)));
                } else {
                    proof {
                        if parts_ok(*parts) {
                            let pre = pp.take(i as int);
                            let j = choose|j: int| 0 <= j < pre.len() && #[trigger] pre[j].0 == p.id;
                            assert(pp[j].0 == pp[i as int].0);
                        }
                    }
                }
            }
            i = i + 1;
        }
        assert(pp.take(np as int) =~= pp);
        let ghost sp = stats_list_pairs(parts.user_stats@);
        let ns = parts.user_stats.len();
        let mut i: usize = 0;
        assert(map_of_pairs(sp.take(0)) =~= Map::<Seq<char>, UserStatsView>::empty());
        while i < ns
            invariant
                r.wf(),
                ns == parts.user_stats@.len(),
                sp == stats_list_pairs(parts.user_stats@),
                i <= ns,
                r@.owner_id == parts.owner_id@,
                r@.next_id == parts.next_id,
                keys_distinct(entry_pairs(parts.balances@)) ==> r@.deposits == map_of_pairs(
                    entry_pairs(parts.balances@),
                ),
                tv.no_duplicates() ==> r@.tokens == tv,
                parts_ok(*parts) ==> r@.pending == map_of_pairs(pp),
                parts_ok(*parts) ==> r@.user_stats == map_of_pairs(sp.take(i as int)),
            decreases ns - i,
        {
            let sp_i = &parts.user_stats[i];
            let stats = UserStats::from_parts(sp_i);
            if r.find_stats(&sp_i.account_id).is_none() {
                let ghost before = r.stats_pairs();
                let ghost sv = stats@;
                proof {
                    lemma_map_of_pairs_push(before, sv.account, sv);
                    if parts_ok(*parts) {
                        assert(stats_parts_ok(parts.user_stats@[i as int]));
                        let pre = sp.take(i as int);
                        assert(keys_distinct(pre));
                        assert(sp.take(i + 1) =~= pre.push(sp[i as int]));
                        lemma_map_of_pairs_push(pre, sp[i as int].0, sp[i as int].1);
                    }
                }
                let ghost old_stats = r.user_stats@;
                let ghost old_view = r@;
                r.user_stats.push(UserVStats::Current(stats));
                assert(r@.pending == old_view.pending);
                assert(r.stats_pairs() =~= before.push((sv.account, sv)));
                assert forall|j: int| 0 <= j < r.user_stats@.len() implies (#[trigger] r.user_stats@[j]).wf() by {
                    if j < old_stats.len() {
                        assert(r.user_stats@[j] == old_stats[j]);
                    }
                }

            } else {
                proof {
                    if parts_ok(*parts) {
                        let pre = sp.take(i as int);
                        let j = choose|j: int|
                            0 <= j < pre.len() && #[trigger] pre[j].0 == sp_i.account_id@;
                        assert(sp[j].0 == sp[i as int].0);
                    }
                }
            }
            i = i + 1;
        }
        assert(sp.take(ns as int) =~= sp);
        r
    }
}

} // verus!
