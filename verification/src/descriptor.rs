//! Errors raised while resolving a semantic block-state descriptor through
//! Steel's registry, and their messages.

use vstd::prelude::*;

verus! {

/// Errors raised while resolving a semantic descriptor through Steel's registry.
#[derive(Debug, Eq, PartialEq)]
pub enum BlockStateDescriptorError {
    InvalidBlockName(String),
    UnknownBlock(String),
    InvalidProperties(String),
    UnknownState(u16),
}

/// The text `format!("{:?}", s)` gives for a string slice with characters
/// `s`: the characters in double quotes, with quotes, backslashes and
/// unprintable characters escaped.
pub uninterp spec fn debug_quoted(s: Seq<char>) -> Seq<char>;

/// The decimal digit `d`.
pub open spec fn decimal_digit(d: nat) -> char {
    (48 + d) as char
}

/// The decimal numeral of `n`, without leading zeros.
pub open spec fn decimal(n: nat) -> Seq<char>
    decreases n,
{
    if n < 10 {
        seq![decimal_digit(n)]
    } else {
        decimal(n / 10).push(decimal_digit(n % 10))
    }
}

/// The number a string of decimal digits stands for.
pub open spec fn digits_value(digits: Seq<char>) -> int
    decreases digits.len(),
{
    if digits.len() == 0 {
        0
    } else {
        digits_value(digits.drop_last()) * 10 + (digits.last() as int - 48)
    }
}

/// The decimal numeral of `n` is made of the digits `0` to `9`, stands for
/// `n`, and starts with `0` only when it is `0` itself.
pub proof fn lemma_decimal_law(n: nat)
    ensures
        decimal(n).len() >= 1,
        forall|i: int| 0 <= i < decimal(n).len() ==> '0' <= #[trigger] decimal(n)[i] <= '9',
        digits_value(decimal(n)) == n,
        decimal(n)[0] == '0' ==> n == 0,
    decreases n,
{
    assert(decimal_digit(n % 10) as int == 48 + n % 10);
    if n < 10 {
        assert(decimal(n).drop_last() =~= Seq::<char>::empty());
        assert(decimal_digit(n) as int == 48 + n);
        assert(digits_value(Seq::<char>::empty()) == 0);
        assert(decimal(n).last() == decimal_digit(n));
        assert(digits_value(decimal(n)) == digits_value(decimal(n).drop_last()) * 10 + (decimal(n).last() as int - 48));
    } else {
        lemma_decimal_law(n / 10);
        assert(n == (n / 10) * 10 + n % 10) by (nonlinear_arith);
        assert(decimal(n).last() == decimal_digit(n % 10));
        assert(digits_value(decimal(n)) == digits_value(decimal(n).drop_last()) * 10 + (decimal(n).last() as int - 48));
        assert(decimal(n).drop_last() == decimal(n / 10));
        assert(decimal(n)[0] == decimal(n / 10)[0]);
        assert(forall|i: int| 0 <= i < decimal(n / 10).len() ==> decimal(n)[i] == decimal(n / 10)[i]);
    }
}

/// Calls `format!("{:?}", s)`, std's `Debug` for `str`; trusted to give the
/// text that `debug_quoted` names.
#[verifier::external_body]
fn debug_string(s: &str) -> (text: String)
    ensures
        text@ == debug_quoted(s@),
{
    format!("{:?}", s)
}

/// Calls `format!("{}", n)`, std's `Display` for `u16`; trusted to give the
/// decimal numeral of `n` without leading zeros.
#[verifier::external_body]
fn decimal_string(n: u16) -> (text: String)
    ensures
        text@ == decimal(n as nat),
{
    format!("{}", n)
}

/// The message of each error.
pub open spec fn spec_message(error: BlockStateDescriptorError) -> Seq<char> {
    match error {
        BlockStateDescriptorError::InvalidBlockName(name) => "invalid Steel block name "@
            + debug_quoted(name@),
        BlockStateDescriptorError::UnknownBlock(name) => "Steel block "@ + debug_quoted(name@)
            + " is not registered"@,
        BlockStateDescriptorError::InvalidProperties(message) => message@,
        BlockStateDescriptorError::UnknownState(state_id) => "Steel state id "@ + decimal(
            state_id as nat,
        ) + " is not registered"@,
    }
}

impl BlockStateDescriptorError {
    /// The error for properties that do not describe a state of `name`.
    pub fn invalid_properties_for(name: &str) -> (error: Self)
        ensures
            error matches BlockStateDescriptorError::InvalidProperties(message) && message@
                == "invalid properties for Steel block "@ + debug_quoted(name@),
    {
        let mut message = String::from_str("invalid properties for Steel block ");
        let quoted = debug_string(name);
        message.append(quoted.as_str());
        BlockStateDescriptorError::InvalidProperties(message)
    }

    /// The human-readable message of the error.
    pub fn message(&self) -> (text: String)
        ensures
            text@ == spec_message(*self),
    {
        match self {
            BlockStateDescriptorError::InvalidBlockName(name) => {
                let mut text = String::from_str("invalid Steel block name ");
                let quoted = debug_string(name.as_str());
                text.append(quoted.as_str());
                text
            },
            BlockStateDescriptorError::UnknownBlock(name) => {
                let mut text = String::from_str("Steel block ");
                let quoted = debug_string(name.as_str());
                text.append(quoted.as_str());
                text.append(" is not registered");
                text
            },
            BlockStateDescriptorError::InvalidProperties(message) => message.clone(),
            BlockStateDescriptorError::UnknownState(state_id) => {
                let mut text = String::from_str("Steel state id ");
                let digits = decimal_string(*state_id);
                text.append(digits.as_str());
                text.append(" is not registered");
                text
            },
        }
    }
}

} // verus!
