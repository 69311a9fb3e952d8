//! Amounts of wei and token base units, 256-bit numbers carried as their
//! thirty-two big-endian bytes, and their decimal renderings.
use vstd::prelude::*;

use crate::text::decimal;

verus! {

/// The number that big-endian bytes spell.
pub open spec fn be_value(bytes: Seq<u8>) -> nat
    decreases bytes.len(),
{
    if bytes.len() == 0 {
        0
    } else {
        be_value(bytes.drop_last()) * 256 + bytes.last() as nat
    }
}

/// Ten to the power `k`.
pub open spec fn pow10(k: nat) -> nat
    decreases k,
{
    if k == 0 {
        1
    } else {
        10 * pow10((k - 1) as nat)
    }
}

/// `s` with zeros put in front until it is `width` characters long.
pub open spec fn zero_padded(s: Seq<char>, width: nat) -> Seq<char> {
    if s.len() >= width {
        s
    } else {
        Seq::new((width - s.len()) as nat, |i: int| '0') + s
    }
}

/// `n` base units shown in a unit of `k` decimals: the whole units, a
/// period, and the remainder zero-padded to `k` digits (at least one digit,
/// so `k == 0` shows `.0`).
pub open spec fn units_text(n: nat, k: nat) -> Seq<char> {
    decimal(n / pow10(k)) + seq!['.'] + zero_padded(decimal(n % pow10(k)), k)
}

/// `U256`'s `Display` of the number the bytes spell, by ruint: its decimal
/// digits without leading zeros.
#[verifier::external_body]
pub(crate) fn u256_decimal(amount: &[u8; 32]) -> (text: String)
    ensures
        text@ == decimal(be_value(amount@)),
{
    alloy::primitives::U256::from_be_bytes(*amount).to_string()
}

/// alloy's `format_units` of the number the bytes spell, in a unit of
/// `decimals` decimals (at most 77, the largest unit alloy knows): the
/// quotient by ten to the `decimals`, a period, and the remainder padded
/// with zeros on the left to `decimals` digits.
#[verifier::external_body]
pub(crate) fn format_units(amount: &[u8; 32], decimals: u8) -> (text: String)
    requires
        decimals <= 77,
    ensures
        text@ == units_text(be_value(amount@), decimals as nat),
{
    match alloy::primitives::utils::format_units(alloy::primitives::U256::from_be_bytes(*amount), decimals) {
        Ok(text) => text,
        Err(e) => e.to_string(),
    }
}

/// ruint's `saturating_to::<u64>` of the number the bytes spell: the number
/// itself when it fits in a `u64`, else `u64::MAX`.
#[verifier::external_body]
pub(crate) fn saturating_u64(amount: &[u8; 32]) -> (value: u64)
    ensures
        value == (if be_value(amount@) > u64::MAX { u64::MAX as nat } else { be_value(amount@) }),
{
    alloy::primitives::U256::from_be_bytes(*amount).saturating_to::<u64>()
}

} // verus!
