use vstd::prelude::*;

verus! {

/// Price of one byte of storage, in yoctoNEAR.
pub const STORAGE_PRICE_PER_BYTE: u128 = 10_000_000_000_000_000_000;

/// Bond attached for registering one account with a token contract.
pub const STORAGE_DEPOSIT: u128 = 125 * STORAGE_PRICE_PER_BYTE;

/// The deposit that authorises a transfer or a withdrawal.
pub const ONE_YOCTO: u128 = 1;

pub const NO_DEPOSIT: u128 = 0;

/// Largest number of external calls that one request may fan out to.
pub const MAX_ACCOUNTS_PER_CALL: usize = 50;

/// Why a request was refused.
#[derive(Clone, Copy, Debug, PartialEq, Eq, Structural)]
pub enum MultisenderError {
    UnknownUser,
    InsufficientBalance,
    TokenNotWhitelisted,
    TokenAlreadyWhitelisted,
    NothingToWithdraw,
    TooManyAccounts,
    SmallDeposit,
    NotAllowed,
    OneYoctoRequired,
    UnknownOperation,
    ArithmeticOverflow,
}

impl MultisenderError {
    /// The human-readable message of the error.
    pub fn message(&self) -> &'static str {
        match self {
            MultisenderError::UnknownUser => "User don't have any deposited tokens on Multisender balance",
            MultisenderError::InsufficientBalance => "Not enough deposited tokens to run multisender",
            MultisenderError::TokenNotWhitelisted => "Cannot find this token in whitelisted. You must whitelist this one before deposit",
            MultisenderError::TokenAlreadyWhitelisted => "Token is already whitelisted!",
            MultisenderError::NothingToWithdraw => "No tokens on multisender balance to withdraw!. Check your balances",
            MultisenderError::TooManyAccounts => "Multisender functions have a limit of attached gas! This function call have amount of accounts limit!",
            MultisenderError::SmallDeposit => "You need attach more tokens to this function call!",
            MultisenderError::NotAllowed => "ERR_NOT_ALLOWED",
            MultisenderError::OneYoctoRequired => "Requires attached deposit of exactly 1 yoctoNEAR",
            MultisenderError::UnknownOperation => "No pending transfer with this id",
            MultisenderError::ArithmeticOverflow => "Balance overflow",
        }
    }
}

/// Ten to the power `n`.
pub open spec fn pow10(n: nat) -> nat
    decreases n,
{
    if n == 0 {
        1
    } else {
        10 * pow10((n - 1) as nat)
    }
}

proof fn lemma_pow10_monotone(a: nat, b: nat)
    requires
        a <= b,
    ensures
        1 <= pow10(a) <= pow10(b),
    decreases b,
{
    if b > 0 {
        if a < b {
            lemma_pow10_monotone(a, (b - 1) as nat);
        } else {
            lemma_pow10_monotone((a - 1) as nat, (b - 1) as nat);
        }
    }
}

/// Converts an amount in the smallest unit to whole tokens, rounding down.
pub fn yocto_ft(yocto_amount: u128, decimals: u8) -> (r: u128)
    requires
        decimals <= 38,
    ensures
        r as nat == yocto_amount as nat / pow10(decimals as nat),
{
    proof {
        reveal_with_fuel(pow10, 39);
        assert(pow10(38) == 100_000_000_000_000_000_000_000_000_000_000_000_000);
    }
    let mut p: u128 = 1;
    let mut i: u8 = 0;
    while i < decimals
        invariant
            i <= decimals <= 38,
            p as nat == pow10(i as nat),
            pow10(38) == 100_000_000_000_000_000_000_000_000_000_000_000_000,
        decreases decimals - i,
    {
        proof {
            lemma_pow10_monotone((i + 1) as nat, 38);
        }
        p = p * 10;
        i = i + 1;
    }
    proof {
        lemma_pow10_monotone(0, decimals as nat);
    }
    yocto_amount / p
}

/// A separator between the alphanumeric runs of an account id.
pub open spec fn is_id_separator(c: char) -> bool {
    c == '-' || c == '_' || c == '.'
}

/// A character allowed in an account id.
pub open spec fn is_id_char(c: char) -> bool {
    ('a' <= c && c <= 'z') || ('0' <= c && c <= '9') || is_id_separator(c)
}

/// A valid NEAR account id: 2 to 64 lowercase letters, digits and
/// separators, with no separator first, last, or next to another one.
pub open spec fn is_valid_account_id(s: Seq<char>) -> bool {
    &&& 2 <= s.len() <= 64
    &&& forall|i: int| 0 <= i < s.len() ==> is_id_char(#[trigger] s[i])
    &&& !is_id_separator(s[0])
    &&& !is_id_separator(s[s.len() - 1])
    &&& forall|i: int|
        0 <= i < s.len() - 1 ==> !(is_id_separator(#[trigger] s[i]) && is_id_separator(s[i + 1]))
}

/// Relies on `near_sdk::env::is_valid_account_id`, which accepts exactly the
/// ids described by `is_valid_account_id`.
#[verifier::external_body]
fn check_account_id(s: &str) -> (r: bool)
    ensures
        r == is_valid_account_id(s@),
{
    near_sdk::env::is_valid_account_id(s.as_bytes())
}

/// Parses an account id: the text itself when it is a valid id, else `None`.
pub fn account_from_str(s: &str) -> (r: Option<String>)
    ensures
        r.is_some() == is_valid_account_id(s@),
        r.is_some() ==> r.unwrap()@ == s@,
{
    if check_account_id(s) {
        Some(s.to_owned())
    } else {
        None
    }
}

} // verus!
