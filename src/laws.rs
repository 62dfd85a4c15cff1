use vstd::prelude::*;

use crate::contract::{
    admission_error, after_batch, after_batch_unsafe, after_withdraw, balance_in, batch_error, batch_line,
    batch_pending, complete_result, deposit_result, is_whitelisted, lemma_sum_prefix,
    sum_amounts, unsafe_batch_error, view_ok, withdraw_error, MultisenderView, PendingView,
};
use crate::utils::MultisenderError;

verus! {

/// The state after reporting, in order, the outcome `succeeded` for the `n`
/// consecutive ids starting at `first`. A report that is refused, or for an
/// id beyond the id type, leaves the state as it was.
pub open spec fn complete_run(
    v: MultisenderView,
    predecessor: Seq<char>,
    current: Seq<char>,
    first: nat,
    n: nat,
    succeeded: bool,
) -> MultisenderView
    decreases n,
{
    if n == 0 {
        v
    } else {
        let prev = complete_run(v, predecessor, current, first, (n - 1) as nat, succeeded);
        if first + n - 1 > u64::MAX {
            prev
        } else {
            match complete_result(prev, predecessor, current, (first + n - 1) as u64, succeeded) {
                Ok(w) => w,
                Err(_) => prev,
            }
        }
    }
}

/// Every accepted deposit, batch, withdrawal and report keeps each balance
/// between zero and the largest `u128`, and every pending id below the next.
pub proof fn lemma_transitions_keep_balances_in_range(
    v: MultisenderView,
    account: Seq<char>,
    token: Seq<char>,
    amount: nat,
    ops: Seq<(Seq<char>, nat)>,
    attached: nat,
    predecessor: Seq<char>,
    current: Seq<char>,
    id: u64,
    succeeded: bool,
)
    requires
        view_ok(v),
    ensures
        deposit_result(v, account, token, amount) is Ok ==> view_ok(
            deposit_result(v, account, token, amount)->Ok_0,
        ),
        batch_error(v, account, token, ops) is None ==> view_ok(after_batch(v, account, token, ops)),
        admission_error(v, account, token, ops) is None ==> view_ok(
            after_batch_unsafe(v, account, token, ops),
        ),
        withdraw_error(v, attached, account, token) is None ==> view_ok(
            after_withdraw(v, account, token),
        ),
        complete_result(v, predecessor, current, id, succeeded) is Ok ==> view_ok(
            complete_result(v, predecessor, current, id, succeeded)->Ok_0,
        ),
{
    if batch_error(v, account, token, ops) is None {
        let w = after_batch(v, account, token, ops);
        assert forall|q: u64| #[trigger] w.pending.contains_key(q) implies q < w.next_id
            && w.pending[q].amount <= u128::MAX by {
            if !v.pending.contains_key(q) {
                let j = q - v.next_id;
                assert(sum_amounts(ops.take(j + 1)) <= sum_amounts(ops)) by {
                    lemma_sum_prefix(ops, j);
                }
                assert(ops[j].1 <= sum_amounts(ops.take(j + 1))) by {
                    lemma_sum_prefix(ops, j);
                }
            }
        }
    }
}

/// One step of a run of failed reports over a batch: after `k` of them the
/// balance holds back the lines not yet reported, and those lines still wait.
proof fn lemma_run_step(
    v: MultisenderView,
    caller: Seq<char>,
    token: Seq<char>,
    ops: Seq<(Seq<char>, nat)>,
    predecessor: Seq<char>,
    current: Seq<char>,
    succeeded: bool,
    k: nat,
)
    requires
        view_ok(v),
        batch_error(v, caller, token, ops) is None,
        predecessor == current,
        k <= ops.len(),
    ensures
        ({
            let s = complete_run(
                after_batch(v, caller, token, ops),
                predecessor,
                current,
                v.next_id,
                k,
                succeeded,
            );
            &&& s.owner_id == v.owner_id
            &&& s.tokens == v.tokens
            &&& s.next_id == v.next_id + ops.len()
            &&& s.deposits == v.deposits.insert(
                (caller, token),
                (balance_in(v, caller, token) - sum_amounts(ops) + (if succeeded {
                    0
                } else {
                    sum_amounts(ops.take(k as int))
                })) as nat,
            )
            &&& s.pending == Map::new(
                |id: u64| v.pending.contains_key(id) || (v.next_id + k <= id < v.next_id + ops.len()),
                |id: u64|
                    if v.pending.contains_key(id) {
                        v.pending[id]
                    } else {
                        batch_line(caller, token, ops, id - v.next_id)
                    },
            )
        }),
    decreases k,
{
    let b = after_batch(v, caller, token, ops);
    let key = (caller, token);
    if k == 0 {
        assert(ops.take(0) =~= Seq::<(Seq<char>, nat)>::empty());
        let m = Map::new(
            |id: u64| v.pending.contains_key(id) || (v.next_id + 0 <= id < v.next_id + ops.len()),
            |id: u64|
                if v.pending.contains_key(id) {
                    v.pending[id]
                } else {
                    batch_line(caller, token, ops, id - v.next_id)
                },
        );
        assert(b.pending =~= m);
        assert(b.deposits =~= v.deposits.insert(
            key,
            (balance_in(v, caller, token) - sum_amounts(ops) + (if succeeded {
                0
            } else {
                sum_amounts(ops.take(0))
            })) as nat,
        ));
    } else {
        let j = (k - 1) as nat;
        lemma_run_step(v, caller, token, ops, predecessor, current, succeeded, j);
        lemma_sum_prefix(ops, j as int);
        let prev = complete_run(b, predecessor, current, v.next_id, j, succeeded);
        let id = (v.next_id + j) as u64;
        assert(id - v.next_id == j);
        assert(!v.pending.contains_key(id));
        assert(prev.pending.contains_key(id));
        assert(prev.pending[id] == batch_line(caller, token, ops, j as int));
        let r = complete_result(prev, predecessor, current, id, succeeded);
        assert(balance_in(prev, caller, token) == (balance_in(v, caller, token) - sum_amounts(ops)
            + (if succeeded {
            0
        } else {
            sum_amounts(ops.take(j as int))
        })) as nat);
        assert(r is Ok);
        let s = r->Ok_0;
        assert(complete_run(b, predecessor, current, v.next_id, k, succeeded) == s);
        let m = Map::new(
            |q: u64| v.pending.contains_key(q) || (v.next_id + k <= q < v.next_id + ops.len()),
            |q: u64|
                if v.pending.contains_key(q) {
                    v.pending[q]
                } else {
                    batch_line(caller, token, ops, q - v.next_id)
                },
        );
        assert(s.pending =~= m);
        assert(s.deposits =~= v.deposits.insert(
            key,
            (balance_in(v, caller, token) - sum_amounts(ops) + (if succeeded {
                0
            } else {
                sum_amounts(ops.take(k as int))
            })) as nat,
        ));
    }
}

/// The state after a batch is submitted with reconciliation: dispatched
/// when admitted, unchanged when refused.
pub open spec fn submit_batch(
    v: MultisenderView,
    caller: Seq<char>,
    token: Seq<char>,
    ops: Seq<(Seq<char>, nat)>,
) -> MultisenderView {
    if batch_error(v, caller, token, ops) is None {
        after_batch(v, caller, token, ops)
    } else {
        v
    }
}

/// Reports for ids at or above the next id change nothing.
proof fn lemma_run_idle(
    v: MultisenderView,
    predecessor: Seq<char>,
    current: Seq<char>,
    n: nat,
    succeeded: bool,
)
    requires
        view_ok(v),
    ensures
        complete_run(v, predecessor, current, v.next_id, n, succeeded) == v,
    decreases n,
{
    if n > 0 {
        lemma_run_idle(v, predecessor, current, (n - 1) as nat, succeeded);
    }
}

/// When a batch whose sum is within the sender's balance is submitted and
/// every one of its transfers fails and is reported, the sender's balance is
/// back where it was, and no line of the batch is left pending.
pub proof fn lemma_failed_batch_restores_balance(
    v: MultisenderView,
    caller: Seq<char>,
    token: Seq<char>,
    ops: Seq<(Seq<char>, nat)>,
    contract_id: Seq<char>,
)
    requires
        view_ok(v),
        sum_amounts(ops) <= balance_in(v, caller, token),
    ensures
        ({
            let s = complete_run(
                submit_batch(v, caller, token, ops),
                contract_id,
                contract_id,
                v.next_id,
                ops.len(),
                false,
            );
            &&& balance_in(s, caller, token) == balance_in(v, caller, token)
            &&& s.pending == v.pending
        }),
{
    if batch_error(v, caller, token, ops) is None {
        lemma_run_step(v, caller, token, ops, contract_id, contract_id, false, ops.len());
        assert(ops.take(ops.len() as int) =~= ops);
        let s = complete_run(
            after_batch(v, caller, token, ops),
            contract_id,
            contract_id,
            v.next_id,
            ops.len(),
            false,
        );
        assert(s.pending =~= v.pending);
    } else {
        lemma_run_idle(v, contract_id, contract_id, ops.len(), false);
    }
}

/// When a batch is submitted and every one of its transfers succeeds and is
/// reported, the sender's balance is what it was less the batch's sum if the
/// batch was admitted, and untouched if it was refused; no line is left
/// pending either way.
pub proof fn lemma_successful_batch_spends_sum(
    v: MultisenderView,
    caller: Seq<char>,
    token: Seq<char>,
    ops: Seq<(Seq<char>, nat)>,
    contract_id: Seq<char>,
)
    requires
        view_ok(v),
    ensures
        ({
            let s = complete_run(
                submit_batch(v, caller, token, ops),
                contract_id,
                contract_id,
                v.next_id,
                ops.len(),
                true,
            );
            &&& batch_error(v, caller, token, ops) is None ==> balance_in(s, caller, token)
                == balance_in(v, caller, token) - sum_amounts(ops)
            &&& batch_error(v, caller, token, ops) is Some ==> s == v
            &&& s.pending == v.pending
        }),
{
    if batch_error(v, caller, token, ops) is None {
        lemma_run_step(v, caller, token, ops, contract_id, contract_id, true, ops.len());
        let s = complete_run(
            after_batch(v, caller, token, ops),
            contract_id,
            contract_id,
            v.next_id,
            ops.len(),
            true,
        );
        assert(s.pending =~= v.pending);
    } else {
        lemma_run_idle(v, contract_id, contract_id, ops.len(), true);
    }
}

/// A pending transfer is settled at most once: after one accepted report,
/// any further report for the same id is refused and changes nothing.
pub proof fn lemma_report_settles_once(
    v: MultisenderView,
    predecessor: Seq<char>,
    current: Seq<char>,
    id: u64,
    first: bool,
    second: bool,
)
    requires
        complete_result(v, predecessor, current, id, first) is Ok,
    ensures
        complete_result(
            complete_result(v, predecessor, current, id, first)->Ok_0,
            predecessor,
            current,
            id,
            second,
        ) == Err::<MultisenderView, MultisenderError>(MultisenderError::UnknownOperation),
{
}

/// Deposits, batches and withdrawals of a token that is not whitelisted are
/// refused.
pub proof fn lemma_whitelist_gate(
    v: MultisenderView,
    account: Seq<char>,
    token: Seq<char>,
    amount: nat,
    ops: Seq<(Seq<char>, nat)>,
)
    requires
        !is_whitelisted(v, token),
    ensures
        deposit_result(v, account, token, amount) == Err::<MultisenderView, MultisenderError>(
            MultisenderError::TokenNotWhitelisted,
        ),
        batch_error(v, account, token, ops) == Some(MultisenderError::TokenNotWhitelisted),
        withdraw_error(v, 1, account, token) == Some(MultisenderError::TokenNotWhitelisted),
{
}

/// A batch whose sum exceeds the sender's balance is refused as a whole.
pub proof fn lemma_overdrawn_batch_refused(
    v: MultisenderView,
    caller: Seq<char>,
    token: Seq<char>,
    ops: Seq<(Seq<char>, nat)>,
)
    requires
        sum_amounts(ops) > balance_in(v, caller, token),
    ensures
        batch_error(v, caller, token, ops) is Some,
{
}

/// Reports for two different pending transfers may arrive in either order:
/// where both orders are accepted, they end in the same state.
pub proof fn lemma_reports_commute(
    v: MultisenderView,
    predecessor: Seq<char>,
    current: Seq<char>,
    i: u64,
    si: bool,
    j: u64,
    sj: bool,
)
    requires
        i != j,
        complete_result(v, predecessor, current, i, si) is Ok,
        complete_result(v, predecessor, current, j, sj) is Ok,
        complete_result(
            complete_result(v, predecessor, current, i, si)->Ok_0,
            predecessor,
            current,
            j,
            sj,
        ) is Ok,
        complete_result(
            complete_result(v, predecessor, current, j, sj)->Ok_0,
            predecessor,
            current,
            i,
            si,
        ) is Ok,
    ensures
        complete_result(
            complete_result(v, predecessor, current, i, si)->Ok_0,
            predecessor,
            current,
            j,
            sj,
        ) == complete_result(
            complete_result(v, predecessor, current, j, sj)->Ok_0,
            predecessor,
            current,
            i,
            si,
        ),
{
    let vi = complete_result(v, predecessor, current, i, si)->Ok_0;
    let vj = complete_result(v, predecessor, current, j, sj)->Ok_0;
    let a = complete_result(vi, predecessor, current, j, sj)->Ok_0;
    let b = complete_result(vj, predecessor, current, i, si)->Ok_0;
    assert(a.pending =~= b.pending);
    assert(a.deposits =~= b.deposits);
}

/// One request against the ledger, as plain values.
pub enum Step {
    Deposit { account: Seq<char>, token: Seq<char>, amount: nat },
    Batch { caller: Seq<char>, token: Seq<char>, ops: Seq<(Seq<char>, nat)> },
    UnsafeBatch { attached: nat, caller: Seq<char>, token: Seq<char>, ops: Seq<(Seq<char>, nat)> },
    Withdraw { attached: nat, account: Seq<char>, token: Seq<char> },
    Report { predecessor: Seq<char>, current: Seq<char>, id: u64, succeeded: bool },
}

/// The state after one request: its effect when accepted, the same state
/// when refused.
pub open spec fn apply_step(v: MultisenderView, step: Step) -> MultisenderView {
    match step {
        Step::Deposit { account, token, amount } => match deposit_result(v, account, token, amount) {
            Ok(w) => w,
            Err(_) => v,
        },
        Step::Batch { caller, token, ops } => submit_batch(v, caller, token, ops),
        Step::UnsafeBatch { attached, caller, token, ops } => if unsafe_batch_error(
            v,
            attached,
            caller,
            token,
            ops,
        ) is None {
            after_batch_unsafe(v, caller, token, ops)
        } else {
            v
        },
        Step::Withdraw { attached, account, token } => if withdraw_error(
            v,
            attached,
            account,
            token,
        ) is None {
            after_withdraw(v, account, token)
        } else {
            v
        },
        Step::Report { predecessor, current, id, succeeded } => match complete_result(
            v,
            predecessor,
            current,
            id,
            succeeded,
        ) {
            Ok(w) => w,
            Err(_) => v,
        },
    }
}

/// The state after a sequence of requests, in order.
pub open spec fn apply_steps(v: MultisenderView, steps: Seq<Step>) -> MultisenderView
    decreases steps.len(),
{
    if steps.len() == 0 {
        v
    } else {
        apply_step(apply_steps(v, steps.drop_last()), steps.last())
    }
}

/// Whatever sequence of deposits, batches, withdrawals and reports runs, no
/// balance ever goes below zero or beyond the largest `u128`, starting from
/// any reachable state (an empty multisender among them).
pub proof fn lemma_balances_never_negative(v: MultisenderView, steps: Seq<Step>)
    requires
        view_ok(v),
    ensures
        view_ok(apply_steps(v, steps)),
        forall|k: (Seq<char>, Seq<char>)| #[trigger]
            apply_steps(v, steps).deposits.contains_key(k) ==> 0 <= apply_steps(v, steps).deposits[k]
                <= u128::MAX,
    decreases steps.len(),
{
    if steps.len() > 0 {
        lemma_balances_never_negative(v, steps.drop_last());
        let w = apply_steps(v, steps.drop_last());
        match steps.last() {
            Step::Deposit { account, token, amount } => {
                lemma_transitions_keep_balances_in_range(
                    w, account, token, amount, Seq::empty(), 0, Seq::empty(), Seq::empty(), 0, true);
            },
            Step::Batch { caller, token, ops } => {
                lemma_transitions_keep_balances_in_range(
                    w, caller, token, 0, ops, 0, Seq::empty(), Seq::empty(), 0, true);
            },
            Step::UnsafeBatch { attached, caller, token, ops } => {
                lemma_transitions_keep_balances_in_range(
                    w, caller, token, 0, ops, attached, Seq::empty(), Seq::empty(), 0, true);
            },
            Step::Withdraw { attached, account, token } => {
                lemma_transitions_keep_balances_in_range(
                    w, account, token, 0, Seq::empty(), attached, Seq::empty(), Seq::empty(), 0, true);
            },
            Step::Report { predecessor, current, id, succeeded } => {
                lemma_transitions_keep_balances_in_range(
                    w, Seq::empty(), Seq::empty(), 0, Seq::empty(), 0, predecessor, current, id, succeeded);
            },
        }
    }
}

} // verus!
