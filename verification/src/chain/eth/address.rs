//! Ethereum addresses as text: reading hexadecimal, and the EIP-55
//! mixed-case rendering that alloy prints.
use vstd::prelude::*;

use crate::text::{hex_char, hex_lower, hex_value, is_hex_digit};

verus! {

/// The digits of an address, after the one `0x` or `0X` it may start with.
pub open spec fn address_digits(s: Seq<char>) -> Seq<char> {
    if s.len() >= 2 && s[0] == '0' && (s[1] == 'x' || s[1] == 'X') {
        s.skip(2)
    } else {
        s
    }
}

/// The twenty bytes that a hexadecimal address denotes: forty digits of
/// either case after the optional prefix, two per byte, high digit first.
pub open spec fn address_of_hex(s: Seq<char>) -> Option<Seq<u8>> {
    let d = address_digits(s);
    if d.len() == 40 && forall|i: int| 0 <= i < 40 ==> #[trigger] is_hex_digit(d[i]) {
        Some(Seq::new(20, |i: int| (hex_value(d[2 * i]) * 16 + hex_value(d[2 * i + 1])) as u8))
    } else {
        None
    }
}

/// The `i`-th hexadecimal digit of some bytes, high digit of each byte first.
pub open spec fn nibble(bytes: Seq<u8>, i: int) -> int {
    if i % 2 == 0 {
        bytes[i / 2] as int / 16
    } else {
        bytes[i / 2] as int % 16
    }
}

/// `c` is the hexadecimal digit of `v`, a letter in either case.
pub open spec fn hex_digit_either_case(c: char, v: int) -> bool {
    c == hex_char(v) || (10 <= v < 16 && c == (v - 10 + 'A' as int) as char)
}

/// What alloy's `Display` of a hexadecimal parse error prints for the text.
pub uninterp spec fn hex_error_text(s: Seq<char>) -> Seq<char>;

/// The EIP-55 text alloy renders for an address.
pub uninterp spec fn checksum_text(bytes: Seq<u8>) -> Seq<char>;

/// Reads an address with alloy's `Address::from_str`, which decodes
/// hexadecimal text of exactly twenty bytes after an optional `0x` or `0X`,
/// in either case and without checking the EIP-55 case. On failure it gives
/// the text of alloy's parse error.
#[verifier::external_body]
pub(crate) fn address_from_hex(s: &str) -> (parsed: Result<[u8; 20], String>)
    ensures
        parsed matches Ok(b) ==> address_of_hex(s@) == Some(b@),
        parsed matches Err(e) ==> address_of_hex(s@) is None && e@ == hex_error_text(s@),
{
    match s.parse::<alloy::primitives::Address>() {
        Ok(address) => Ok(address.into_array()),
        Err(e) => Err(e.to_string()),
    }
}

/// Renders an address with alloy's `Display`: `0x` and forty hexadecimal
/// digits, where EIP-55 upper-cases some of the letters by a hash of the
/// address. Which letters, the contract leaves to the name `checksum_text`.
#[verifier::external_body]
pub(crate) fn address_checksum_text(bytes: &[u8; 20]) -> (text: String)
    ensures
        text@ == checksum_text(bytes@),
        text@.len() == 42,
        text@[0] == '0',
        text@[1] == 'x',
        forall|i: int| 0 <= i < 40 ==> hex_digit_either_case(#[trigger] text@[i + 2], nibble(bytes@, i)),
{
    alloy::primitives::Address::new(*bytes).to_string()
}

/// Renders a 32-byte hash with alloy's `B256` `Display`: `0x` and the bytes
/// in lower-case hexadecimal, in order.
#[verifier::external_body]
pub(crate) fn b256_text(bytes: &[u8; 32]) -> (text: String)
    ensures
        text@ == "0x"@ + hex_lower(bytes@),
{
    alloy::primitives::B256::new(*bytes).to_string()
}

/// Reading back the EIP-55 text of an address gives the address.
pub proof fn lemma_checksum_text_parses(b: Seq<u8>, t: Seq<char>)
    requires
        b.len() == 20,
        t.len() == 42,
        t[0] == '0',
        t[1] == 'x',
        forall|i: int| 0 <= i < 40 ==> hex_digit_either_case(#[trigger] t[i + 2], nibble(b, i)),
    ensures
        address_of_hex(t) == Some(b),
{
    let d = address_digits(t);
    assert(d =~= t.skip(2));
    assert forall|i: int| 0 <= i < 40 implies #[trigger] is_hex_digit(d[i]) && hex_value(d[i]) == nibble(b, i) by {
        assert(d[i] == t[i + 2]);
        assert(hex_digit_either_case(t[i + 2], nibble(b, i)));
        assert(0 <= nibble(b, i) < 16);
    }
    let parsed = Seq::new(20, |i: int| (hex_value(d[2 * i]) * 16 + hex_value(d[2 * i + 1])) as u8);
    assert forall|i: int| 0 <= i < 20 implies parsed[i] == b[i] by {
        assert(hex_value(d[2 * i]) == nibble(b, 2 * i));
        assert(hex_value(d[2 * i + 1]) == nibble(b, 2 * i + 1));
        assert((2 * i) / 2 == i);
        assert((2 * i + 1) / 2 == i);
        assert((2 * i) % 2 == 0);
        assert((2 * i + 1) % 2 == 1);
    }
    assert(parsed =~= b);
}

} // verus!
