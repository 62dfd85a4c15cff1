use multisender_ft::ledger::{Ledger, LedgerEntry};
use multisender_ft::utils::MultisenderError;

fn s(v: &str) -> String {
    v.to_string()
}

#[test]
fn absent_entry_reads_zero() {
    let l = Ledger::new();
    assert_eq!(l.get_or_default(&s("a"), &s("x")), 0);
    assert!(!l.contains(&s("a"), &s("x")));
}

#[test]
fn credit_then_debit() {
    let mut l = Ledger::new();
    assert_eq!(l.credit(&s("a"), &s("x"), 70), Ok(()));
    assert_eq!(l.credit(&s("a"), &s("x"), 30), Ok(()));
    assert_eq!(l.get_or_default(&s("a"), &s("x")), 100);
    assert_eq!(l.debit(&s("a"), &s("x"), 101), Err(MultisenderError::InsufficientBalance));
    assert_eq!(l.get_or_default(&s("a"), &s("x")), 100);
    assert_eq!(l.debit(&s("a"), &s("x"), 100), Ok(()));
    assert_eq!(l.get_or_default(&s("a"), &s("x")), 0);
    assert!(l.contains(&s("a"), &s("x")));
    assert_eq!(l.get_or_default(&s("a"), &s("y")), 0);
    assert_eq!(l.get_or_default(&s("b"), &s("x")), 0);
}

#[test]
fn credit_overflow_is_refused() {
    let mut l = Ledger::new();
    l.set(&s("a"), &s("x"), u128::MAX - 1);
    assert_eq!(l.credit(&s("a"), &s("x"), 2), Err(MultisenderError::ArithmeticOverflow));
    assert_eq!(l.get_or_default(&s("a"), &s("x")), u128::MAX - 1);
    assert_eq!(l.credit(&s("a"), &s("x"), 1), Ok(()));
    assert_eq!(l.get_or_default(&s("a"), &s("x")), u128::MAX);
}

#[test]
fn debit_of_absent_entry_is_refused() {
    let mut l = Ledger::new();
    assert_eq!(l.debit(&s("a"), &s("x"), 1), Err(MultisenderError::InsufficientBalance));
    assert_eq!(l.debit(&s("a"), &s("x"), 0), Ok(()));
    assert!(l.contains(&s("a"), &s("x")));
}

#[test]
fn entries_round_trip() {
    let mut l = Ledger::new();
    l.set(&s("a"), &s("x"), 1);
    l.set(&s("b"), &s("x"), 2);
    l.set(&s("a"), &s("y"), 3);
    l.set(&s("a"), &s("x"), 4);
    let entries = l.entries();
    assert_eq!(entries.len(), 3);
    let back = Ledger::from_entries(&entries);
    assert_eq!(back.get_or_default(&s("a"), &s("x")), 4);
    assert_eq!(back.get_or_default(&s("b"), &s("x")), 2);
    assert_eq!(back.get_or_default(&s("a"), &s("y")), 3);
}

#[test]
fn from_entries_keeps_later_duplicate() {
    let entries = vec![
        LedgerEntry { account_id: s("a"), token_id: s("x"), balance: 1 },
        LedgerEntry { account_id: s("a"), token_id: s("x"), balance: 9 },
    ];
    let l = Ledger::from_entries(&entries);
    assert_eq!(l.get_or_default(&s("a"), &s("x")), 9);
    assert_eq!(l.entries().len(), 1);
}
