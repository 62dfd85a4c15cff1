use multisender_ft::contract::{CallContext, MultisenderFt, Operation};
use multisender_ft::user::{UpdateUserStatsAction, UserStats, UserStatsTokenOutput, UserVStats};
use multisender_ft::utils::{account_from_str, yocto_ft, MultisenderError, STORAGE_DEPOSIT};

const POOL: &str = "multisender.near";
const OWNER: &str = "owner.near";

fn ctx(predecessor: &str, attached: u128) -> CallContext {
    CallContext {
        predecessor_account_id: predecessor.to_string(),
        current_account_id: POOL.to_string(),
        attached_deposit: attached,
    }
}

fn s(v: &str) -> String {
    v.to_string()
}

fn op(account: &str, amount: u128) -> Operation {
    Operation { account_id: s(account), amount }
}

/// A multisender with `token` whitelisted and `amount` of it deposited by `who`.
fn funded(token: &str, who: &str, amount: u128) -> MultisenderFt {
    let mut m = MultisenderFt::new(s(OWNER));
    m.whitelist_token(&ctx(OWNER, 0), s(token)).unwrap();
    assert_eq!(m.ft_on_transfer(&ctx(token, 0), &s(who), amount, &s("")), Ok(0));
    m
}

#[test]
fn batch_with_one_failure_keeps_failed_amount() {
    let mut m = funded("x.near", "a.near", 1000);
    let ops = vec![op("b.near", 300), op("c.near", 700)];
    let handles = m.multisend_from_balance(&ctx("a.near", 0), &s("x.near"), &ops).unwrap();
    assert_eq!(handles.len(), 2);
    assert_eq!(m.get_user_deposit_by_token(&s("a.near"), &s("x.near")), 0);
    assert_eq!(handles[0].recipient, "b.near");
    assert_eq!(handles[0].amount, 300);
    assert_eq!(handles[1].recipient, "c.near");
    assert_eq!(handles[1].amount, 700);
    assert_eq!(m.on_transfer_from_balance(&ctx(POOL, 0), handles[0].id, false), Ok(()));
    assert_eq!(m.on_transfer_from_balance(&ctx(POOL, 0), handles[1].id, true), Ok(()));
    assert_eq!(m.get_user_deposit_by_token(&s("a.near"), &s("x.near")), 300);
}

#[test]
fn withdraw_all_of_withdrawn_balance_is_refused() {
    let mut m = funded("y.near", "a.near", 5);
    let h = m.withdraw_all(&ctx("a.near", 1), &s("a.near"), &s("y.near")).unwrap();
    assert_eq!(h.amount, 5);
    assert_eq!(m.on_withdraw(&ctx(POOL, 0), h.id, true), Ok(()));
    assert_eq!(m.get_user_deposit_by_token(&s("a.near"), &s("y.near")), 0);
    let r = m.withdraw_all(&ctx("a.near", 1), &s("a.near"), &s("y.near"));
    assert_eq!(r.err(), Some(MultisenderError::NothingToWithdraw));
}

#[test]
fn whitelisting_twice_is_refused() {
    let mut m = MultisenderFt::new(s(OWNER));
    let reg = m.whitelist_token(&ctx(OWNER, 0), s("z.near")).unwrap();
    assert_eq!(reg.token_id, "z.near");
    assert_eq!(reg.account_id, POOL);
    assert_eq!(reg.amount, STORAGE_DEPOSIT);
    let again = m.whitelist_token(&ctx(OWNER, 0), s("z.near"));
    assert_eq!(again.err(), Some(MultisenderError::TokenAlreadyWhitelisted));
    assert_eq!(m.get_whitelisted_tokens(), vec![s("z.near")]);
}

#[test]
fn all_failures_restore_balance() {
    let mut m = funded("x.near", "a.near", 1000);
    let ops = vec![op("b.near", 100), op("c.near", 250), op("b.near", 0)];
    let handles = m.multisend_from_balance(&ctx("a.near", 0), &s("x.near"), &ops).unwrap();
    assert_eq!(m.get_user_deposit_by_token(&s("a.near"), &s("x.near")), 650);
    for h in &handles {
        assert_eq!(m.on_transfer_from_balance(&ctx(POOL, 0), h.id, false), Ok(()));
    }
    assert_eq!(m.get_user_deposit_by_token(&s("a.near"), &s("x.near")), 1000);
}

#[test]
fn all_successes_spend_sum() {
    let mut m = funded("x.near", "a.near", 1000);
    let ops = vec![op("b.near", 100), op("c.near", 250)];
    let handles = m.multisend_from_balance(&ctx("a.near", 0), &s("x.near"), &ops).unwrap();
    for h in handles.iter().rev() {
        assert_eq!(m.on_transfer_from_balance(&ctx(POOL, 0), h.id, true), Ok(()));
    }
    assert_eq!(m.get_user_deposit_by_token(&s("a.near"), &s("x.near")), 650);
}

#[test]
fn second_withdraw_report_does_not_credit_twice() {
    let mut m = funded("x.near", "a.near", 40);
    let h = m.withdraw_all(&ctx("a.near", 1), &s("a.near"), &s("x.near")).unwrap();
    assert_eq!(m.get_user_deposit_by_token(&s("a.near"), &s("x.near")), 0);
    assert_eq!(m.on_withdraw(&ctx(POOL, 0), h.id, false), Ok(()));
    assert_eq!(m.get_user_deposit_by_token(&s("a.near"), &s("x.near")), 40);
    assert_eq!(m.on_withdraw(&ctx(POOL, 0), h.id, false), Err(MultisenderError::UnknownOperation));
    assert_eq!(m.on_withdraw(&ctx(POOL, 0), h.id, true), Err(MultisenderError::UnknownOperation));
    assert_eq!(m.get_user_deposit_by_token(&s("a.near"), &s("x.near")), 40);
}

#[test]
fn non_whitelisted_token_is_refused_everywhere() {
    let mut m = funded("x.near", "a.near", 10);
    let r = m.ft_on_transfer(&ctx("w.near", 0), &s("a.near"), 10, &s(""));
    assert_eq!(r, Err(MultisenderError::TokenNotWhitelisted));
    assert_eq!(m.get_user_deposit_by_token(&s("a.near"), &s("w.near")), 0);
    let r = m.multisend_from_balance(&ctx("a.near", 0), &s("w.near"), &vec![op("b.near", 1)]);
    assert_eq!(r.err(), Some(MultisenderError::TokenNotWhitelisted));
    let r = m.deposit(&s("a.near"), &s("w.near"), 3);
    assert_eq!(r, Err(MultisenderError::TokenNotWhitelisted));
    let r = m.withdraw_all(&ctx("a.near", 1), &s("a.near"), &s("w.near"));
    assert_eq!(r.err(), Some(MultisenderError::TokenNotWhitelisted));
    assert_eq!(m.get_user_deposit_by_token(&s("a.near"), &s("x.near")), 10);
}

#[test]
fn overdrawn_batch_is_refused_whole() {
    let mut m = funded("x.near", "a.near", 500);
    let ops = vec![op("b.near", 300), op("c.near", 201)];
    let r = m.multisend_from_balance(&ctx("a.near", 0), &s("x.near"), &ops);
    assert_eq!(r.err(), Some(MultisenderError::InsufficientBalance));
    assert_eq!(m.get_user_deposit_by_token(&s("a.near"), &s("x.near")), 500);
    let r = m.multisend_from_balance_unsafe(&ctx("a.near", 1), &s("x.near"), &ops);
    assert_eq!(r.err(), Some(MultisenderError::InsufficientBalance));
    assert_eq!(m.get_user_deposit_by_token(&s("a.near"), &s("x.near")), 500);
}

#[test]
fn overflowing_batch_sum_is_insufficient() {
    let mut m = funded("x.near", "a.near", 500);
    let ops = vec![op("b.near", u128::MAX), op("c.near", u128::MAX)];
    let r = m.multisend_from_balance(&ctx("a.near", 0), &s("x.near"), &ops);
    assert_eq!(r.err(), Some(MultisenderError::InsufficientBalance));
}

#[test]
fn balance_never_goes_negative() {
    let mut m = funded("x.near", "a.near", 10);
    let r = m.multisend_from_balance(&ctx("a.near", 0), &s("x.near"), &vec![op("b.near", 11)]);
    assert_eq!(r.err(), Some(MultisenderError::InsufficientBalance));
    let h = m.multisend_from_balance(&ctx("a.near", 0), &s("x.near"), &vec![op("b.near", 10)]).unwrap();
    assert_eq!(m.get_user_deposit_by_token(&s("a.near"), &s("x.near")), 0);
    let r = m.multisend_from_balance(&ctx("a.near", 0), &s("x.near"), &vec![op("b.near", 1)]);
    assert_eq!(r.err(), Some(MultisenderError::InsufficientBalance));
    assert_eq!(m.on_transfer_from_balance(&ctx(POOL, 0), h[0].id, true), Ok(()));
    assert_eq!(m.get_user_deposit_by_token(&s("a.near"), &s("x.near")), 0);
}

#[test]
fn empty_batch_is_admitted_and_changes_nothing() {
    let mut m = funded("x.near", "a.near", 10);
    let handles = m.multisend_from_balance(&ctx("a.near", 0), &s("x.near"), &vec![]).unwrap();
    assert!(handles.is_empty());
    assert_eq!(m.get_user_deposit_by_token(&s("a.near"), &s("x.near")), 10);
}

#[test]
fn unknown_user_is_refused() {
    let mut m = funded("x.near", "a.near", 10);
    let r = m.multisend_from_balance(&ctx("b.near", 0), &s("x.near"), &vec![op("c.near", 0)]);
    assert_eq!(r.err(), Some(MultisenderError::UnknownUser));
    let r = m.withdraw_all(&ctx("b.near", 1), &s("b.near"), &s("x.near"));
    assert_eq!(r.err(), Some(MultisenderError::UnknownUser));
}

#[test]
fn too_many_lines_are_refused() {
    let mut m = funded("x.near", "a.near", 1000);
    let mut ops = Vec::new();
    for _ in 0..51 {
        ops.push(op("b.near", 1));
    }
    let r = m.multisend_from_balance(&ctx("a.near", 0), &s("x.near"), &ops);
    assert_eq!(r.err(), Some(MultisenderError::TooManyAccounts));
    ops.pop();
    let r = m.multisend_from_balance(&ctx("a.near", 0), &s("x.near"), &ops).unwrap();
    assert_eq!(r.len(), 50);
    assert_eq!(m.get_user_deposit_by_token(&s("a.near"), &s("x.near")), 950);
}

#[test]
fn unsafe_batch_debits_sum_and_forgets() {
    let mut m = funded("x.near", "a.near", 1000);
    let ops = vec![op("b.near", 300), op("c.near", 200)];
    let t = m.multisend_from_balance_unsafe(&ctx("a.near", 1), &s("x.near"), &ops).unwrap();
    assert_eq!(t.len(), 2);
    assert_eq!(t[0].receiver_id, "b.near");
    assert_eq!(t[0].amount, 300);
    assert_eq!(t[1].token_id, "x.near");
    assert_eq!(m.get_user_deposit_by_token(&s("a.near"), &s("x.near")), 500);
}

#[test]
fn deposit_with_message_is_returned() {
    let mut m = funded("x.near", "a.near", 10);
    let r = m.ft_on_transfer(&ctx("x.near", 0), &s("a.near"), 7, &s("hello"));
    assert_eq!(r, Ok(7));
    assert_eq!(m.get_user_deposit_by_token(&s("a.near"), &s("x.near")), 10);
    let r = m.ft_on_transfer(&ctx("x.near", 0), &s("a.near"), 7, &s(""));
    assert_eq!(r, Ok(0));
    assert_eq!(m.get_user_deposit_by_token(&s("a.near"), &s("x.near")), 17);
}

#[test]
fn deposit_overflow_is_refused() {
    let mut m = funded("x.near", "a.near", u128::MAX);
    let r = m.ft_on_transfer(&ctx("x.near", 0), &s("a.near"), 1, &s(""));
    assert_eq!(r, Err(MultisenderError::ArithmeticOverflow));
    assert_eq!(m.get_user_deposit_by_token(&s("a.near"), &s("x.near")), u128::MAX);
}

#[test]
fn credit_back_overflow_is_refused_and_kept_pending() {
    let mut m = funded("x.near", "a.near", 10);
    let h = m.multisend_from_balance(&ctx("a.near", 0), &s("x.near"), &vec![op("b.near", 10)]).unwrap();
    assert_eq!(m.deposit(&s("a.near"), &s("x.near"), u128::MAX), Ok(()));
    let r = m.on_transfer_from_balance(&ctx(POOL, 0), h[0].id, false);
    assert_eq!(r, Err(MultisenderError::ArithmeticOverflow));
    assert_eq!(m.on_transfer_from_balance(&ctx(POOL, 0), h[0].id, true), Ok(()));
}

#[test]
fn withdraw_needs_one_yocto() {
    let mut m = funded("x.near", "a.near", 10);
    let r = m.withdraw_all(&ctx("a.near", 0), &s("a.near"), &s("x.near"));
    assert_eq!(r.err(), Some(MultisenderError::OneYoctoRequired));
    let r = m.withdraw_all(&ctx("a.near", 2), &s("a.near"), &s("x.near"));
    assert_eq!(r.err(), Some(MultisenderError::OneYoctoRequired));
    assert_eq!(m.get_user_deposit_by_token(&s("a.near"), &s("x.near")), 10);
}

#[test]
fn reports_only_from_the_contract_itself() {
    let mut m = funded("x.near", "a.near", 10);
    let h = m.withdraw_all(&ctx("a.near", 1), &s("a.near"), &s("x.near")).unwrap();
    assert_eq!(h.recipient, "a.near");
    let r = m.on_withdraw(&ctx("a.near", 0), h.id, false);
    assert_eq!(r, Err(MultisenderError::NotAllowed));
    assert_eq!(m.get_user_deposit_by_token(&s("a.near"), &s("x.near")), 0);
    assert_eq!(m.on_withdraw(&ctx(POOL, 0), h.id + 7, false), Err(MultisenderError::UnknownOperation));
}

#[test]
fn only_owner_manages() {
    let mut m = MultisenderFt::new(s(OWNER));
    let r = m.whitelist_token(&ctx("mallory.near", 0), s("x.near"));
    assert_eq!(r.err(), Some(MultisenderError::NotAllowed));
    assert!(!m.is_token_whitelisted(&s("x.near")));
    assert_eq!(m.transfer_ownership(&ctx("mallory.near", 0), s("mallory.near")), Err(MultisenderError::NotAllowed));
    assert_eq!(m.get_owner(), OWNER);
    assert_eq!(m.transfer_ownership(&ctx(OWNER, 0), s("new.near")), Ok(()));
    assert_eq!(m.get_owner(), "new.near");
    assert!(m.whitelist_token(&ctx("new.near", 0), s("x.near")).is_ok());
    assert!(m.is_token_whitelisted(&s("x.near")));
}

#[test]
fn storage_registration_checks() {
    let m = funded("x.near", "a.near", 10);
    let accounts = vec![s("b.near"), s("c.near")];
    let r = m.multi_storage_deposit(&ctx("a.near", 2 * STORAGE_DEPOSIT - 1), &s("x.near"), &accounts);
    assert_eq!(r.err(), Some(MultisenderError::SmallDeposit));
    let r = m.multi_storage_deposit(&ctx("a.near", 2 * STORAGE_DEPOSIT), &s("w.near"), &accounts);
    assert_eq!(r.err(), Some(MultisenderError::TokenNotWhitelisted));
    let many: Vec<String> = (0..51).map(|i| format!("u{}.near", i)).collect();
    let r = m.multi_storage_deposit(&ctx("a.near", u128::MAX), &s("x.near"), &many);
    assert_eq!(r.err(), Some(MultisenderError::TooManyAccounts));
    let r = m.multi_storage_deposit(&ctx("a.near", 2 * STORAGE_DEPOSIT), &s("x.near"), &accounts).unwrap();
    assert_eq!(r.len(), 2);
    assert_eq!(r[1].account_id, "c.near");
    assert_eq!(r[1].token_id, "x.near");
    assert_eq!(r[0].amount, 1_250_000_000_000_000_000_000);
}

#[test]
fn yocto_ft_divides_by_power_of_ten() {
    assert_eq!(yocto_ft(1_500_000_000_000_000_000, 18), 1);
    assert_eq!(yocto_ft(123_456, 3), 123);
    assert_eq!(yocto_ft(99, 2), 0);
    assert_eq!(yocto_ft(7, 0), 7);
    assert_eq!(yocto_ft(u128::MAX, 38), 3);
}

#[test]
fn account_ids_are_validated() {
    assert_eq!(account_from_str("alice.near"), Some(s("alice.near")));
    assert_eq!(account_from_str("a-b_c.d"), Some(s("a-b_c.d")));
    assert_eq!(account_from_str("A"), None);
    assert_eq!(account_from_str("Alice.near"), None);
    assert_eq!(account_from_str("bad..dots"), None);
    assert_eq!(account_from_str(""), None);
}

#[test]
fn user_stats_counters() {
    let mut stats = UserStats::new(s("a.near"));
    assert_eq!(stats.update(&s("x.near"), UpdateUserStatsAction::AddTotalDeposited, Some(5)), Ok(()));
    assert_eq!(stats.update(&s("x.near"), UpdateUserStatsAction::AddTotalDeposited, Some(6)), Ok(()));
    assert_eq!(stats.update(&s("x.near"), UpdateUserStatsAction::AddTokenDeposit, Some(4)), Ok(()));
    assert_eq!(stats.update(&s("x.near"), UpdateUserStatsAction::AddTokenDeposit, None), Ok(()));
    let out = UserStatsTokenOutput::from_by_token(stats.duplicate(), s("x.near"));
    assert_eq!(out.account_id, "a.near");
    assert_eq!(out.token_id, "x.near");
    assert_eq!(out.deposit, 4);
    assert_eq!(out.total_deposited, 11);
    assert_eq!(stats.update(&s("x.near"), UpdateUserStatsAction::RemoveTokenDeposit, None), Ok(()));
    assert_eq!(stats.update(&s("x.near"), UpdateUserStatsAction::AddTotalDeposited, Some(u128::MAX)), Err(MultisenderError::ArithmeticOverflow));
    let restored: UserStats = UserStats::from(UserVStats::Current(stats));
    let out = UserStatsTokenOutput::from_by_token(restored, s("x.near"));
    assert_eq!(out.deposit, 0);
    assert_eq!(out.total_deposited, 11);
}

#[test]
fn contract_stats_records() {
    let mut m = MultisenderFt::new(s(OWNER));
    let out = m.get_stats(&s("a.near"), s("x.near"));
    assert_eq!((out.deposit, out.total_deposited), (0, 0));
    assert_eq!(m.internal_update_user_stats(&s("a.near"), &s("x.near"), UpdateUserStatsAction::AddTokenDeposit, Some(9)), Ok(()));
    assert_eq!(m.internal_update_user_stats(&s("a.near"), &s("x.near"), UpdateUserStatsAction::AddTotalDeposited, Some(3)), Ok(()));
    assert_eq!(m.internal_update_user_stats(&s("b.near"), &s("x.near"), UpdateUserStatsAction::AddTokenDeposit, Some(1)), Ok(()));
    let out = m.get_stats(&s("a.near"), s("x.near"));
    assert_eq!(out.account_id, "a.near");
    assert_eq!((out.deposit, out.total_deposited), (9, 3));
    let out = m.get_stats(&s("b.near"), s("x.near"));
    assert_eq!((out.deposit, out.total_deposited), (1, 0));
    let copy = m.internal_get_stats(&s("a.near"));
    assert_eq!(copy.account(), "a.near");
    assert_eq!(copy.deposit_of(&s("x.near")), 9);
}

#[test]
fn error_messages() {
    assert_eq!(MultisenderError::TokenAlreadyWhitelisted.message(), "Token is already whitelisted!");
    assert!(MultisenderError::NothingToWithdraw.message().starts_with("No tokens"));
}

#[test]
fn export_then_import_keeps_state() {
    let mut m = funded("x.near", "a.near", 1000);
    m.whitelist_token(&ctx(OWNER, 0), s("y.near")).unwrap();
    let h = m.multisend_from_balance(&ctx("a.near", 0), &s("x.near"), &vec![op("b.near", 400)]).unwrap();
    m.internal_update_user_stats(&s("a.near"), &s("x.near"), UpdateUserStatsAction::AddTotalDeposited, Some(1000)).unwrap();
    let mut back = MultisenderFt::import(&m.export());
    assert_eq!(back.get_owner(), OWNER);
    assert_eq!(back.get_whitelisted_tokens(), vec![s("x.near"), s("y.near")]);
    assert_eq!(back.get_user_deposit_by_token(&s("a.near"), &s("x.near")), 600);
    assert_eq!(back.get_stats(&s("a.near"), s("x.near")).total_deposited, 1000);
    assert_eq!(back.on_transfer_from_balance(&ctx(POOL, 0), h[0].id, false), Ok(()));
    assert_eq!(back.get_user_deposit_by_token(&s("a.near"), &s("x.near")), 1000);
}

#[test]
fn withdraw_all_of_empty_balance_is_refused() {
    let mut m = funded("x.near", "a.near", 1000);
    m.whitelist_token(&ctx(OWNER, 0), s("y.near")).unwrap();
    assert_eq!(m.get_user_deposit_by_token(&s("a.near"), &s("y.near")), 0);
    let r = m.withdraw_all(&ctx("a.near", 1), &s("a.near"), &s("y.near"));
    assert_eq!(r.err(), Some(MultisenderError::NothingToWithdraw));
    assert_eq!(m.get_user_deposit_by_token(&s("a.near"), &s("x.near")), 1000);
    let again = m.withdraw_all(&ctx("a.near", 1), &s("a.near"), &s("x.near")).unwrap();
    assert_eq!(again.amount, 1000);
}

#[test]
fn unsafe_batch_needs_one_yocto() {
    let mut m = funded("x.near", "a.near", 1000);
    let ops = vec![op("b.near", 300)];
    let r = m.multisend_from_balance_unsafe(&ctx("a.near", 0), &s("x.near"), &ops);
    assert_eq!(r.err(), Some(MultisenderError::OneYoctoRequired));
    let r = m.multisend_from_balance_unsafe(&ctx("a.near", 2), &s("x.near"), &ops);
    assert_eq!(r.err(), Some(MultisenderError::OneYoctoRequired));
    assert_eq!(m.get_user_deposit_by_token(&s("a.near"), &s("x.near")), 1000);
    assert!(m.multisend_from_balance_unsafe(&ctx("a.near", 1), &s("x.near"), &ops).is_ok());
    assert_eq!(m.get_user_deposit_by_token(&s("a.near"), &s("x.near")), 700);
}

#[test]
fn whitelist_has_no_duplicates() {
    let mut m = MultisenderFt::new(s(OWNER));
    m.whitelist_token(&ctx(OWNER, 0), s("x.near")).unwrap();
    m.whitelist_token(&ctx(OWNER, 0), s("y.near")).unwrap();
    assert!(m.whitelist_token(&ctx(OWNER, 0), s("x.near")).is_err());
    assert_eq!(m.get_whitelisted_tokens(), vec![s("x.near"), s("y.near")]);
}
