//! What the Bitcoin commands read from the user's text before they act: a
//! recipient address for the wallet's network, an amount in satoshis, and a
//! parent transaction id.
use vstd::prelude::*;

use crate::btc::address::Network;
use crate::chain::btc::dtos::{txid_error_text, txid_from_hex, txid_of_hex};
use crate::chain::btc::providers::electrum_client::is_ascii_digit;

verus! {

/// What `bitcoin` makes of an address for a network: the output script it
/// pays to, or the text of the parse error with whether the text did parse
/// (then as an address of another network).
pub uninterp spec fn address_parse_of(address: Seq<char>, network: Network) -> Result<Seq<u8>, (bool, Seq<char>)>;

/// Reads an address with `bitcoin::Address::from_str`, checks it with
/// `require_network` for the network, and gives its `script_pubkey` as bytes.
/// A parse error gives `false` with the error's `Display` text; a network
/// mismatch gives `true` with that error's text.
#[verifier::external_body]
fn parse_address(address: &str, network: Network) -> (parsed: Result<Vec<u8>, (bool, String)>)
    ensures
        parsed matches Ok(s) ==> (address_parse_of(address@, network) matches Ok(x) && x == s@),
        parsed matches Err(e) ==> (address_parse_of(address@, network) matches Err(t) && t.0 == e.0 && t.1 == e.1@),
{
    let network = match network {
        Network::Bitcoin => bitcoin::Network::Bitcoin,
        Network::Testnet => bitcoin::Network::Testnet,
        Network::Testnet4 => bitcoin::Network::Testnet4,
        Network::Signet => bitcoin::Network::Signet,
        Network::Regtest => bitcoin::Network::Regtest,
    };
    match address.parse::<bitcoin::Address<bitcoin::address::NetworkUnchecked>>() {
        Err(e) => Err((false, e.to_string())),
        Ok(unchecked) => match unchecked.require_network(network) {
            Ok(checked) => Ok(checked.script_pubkey().to_bytes()),
            Err(e) => Err((true, e.to_string())),
        },
    }
}

/// The output script of an address for the network, or the parse error
/// after `malformed` or the network error after `mismatch`.
pub open spec fn recipient_result(
    address: Seq<char>,
    network: Network,
    malformed: Seq<char>,
    mismatch: Seq<char>,
) -> Result<Seq<u8>, Seq<char>> {
    match address_parse_of(address, network) {
        Ok(script) => Ok(script),
        Err((false, e)) => Err(malformed + e),
        Err((true, e)) => Err(mismatch + e),
    }
}

/// Checks that an address is one of the network's and gives the script it
/// pays to; the errors say whether the text is no address or an address of
/// another network.
pub fn check_recipient(address: &str, network: Network) -> (r: Result<Vec<u8>, String>)
    ensures
        r matches Ok(s) ==> recipient_result(address@, network, "invalid address: "@, "invalid address network: "@)
            == Ok::<Seq<u8>, Seq<char>>(s@),
        r matches Err(e) ==> recipient_result(address@, network, "invalid address: "@, "invalid address network: "@)
            == Err::<Seq<u8>, Seq<char>>(e@),
{
    match parse_address(address, network) {
        Ok(script) => Ok(script),
        Err((checked, e)) => {
            let mut message = if checked {
                "invalid address network: ".to_owned()
            } else {
                "invalid address: ".to_owned()
            };
            message.append(e.as_str());
            Err(message)
        },
    }
}

/// The script a payment's recipient address pays to, checked for the
/// network; the errors name the recipient.
pub fn recipient_script(address: &str, network: Network) -> (r: Result<Vec<u8>, String>)
    ensures
        r matches Ok(s) ==> recipient_result(
            address@,
            network,
            "invalid recipient address: "@,
            "recipient address network mismatch: "@,
        ) == Ok::<Seq<u8>, Seq<char>>(s@),
        r matches Err(e) ==> recipient_result(
            address@,
            network,
            "invalid recipient address: "@,
            "recipient address network mismatch: "@,
        ) == Err::<Seq<u8>, Seq<char>>(e@),
{
    match parse_address(address, network) {
        Ok(script) => Ok(script),
        Err((checked, e)) => {
            let mut message = if checked {
                "recipient address network mismatch: ".to_owned()
            } else {
                "invalid recipient address: ".to_owned()
            };
            message.append(e.as_str());
            Err(message)
        },
    }
}

/// Reads decimal digits from the left onto `acc`, as `u64::from_str` does:
/// the first character that is no digit is an invalid digit, and a value
/// past `u64::MAX` is too large, whichever comes first.
pub open spec fn u64_digits(d: Seq<char>, acc: nat) -> Result<u64, Seq<char>>
    decreases d.len(),
{
    if d.len() == 0 {
        Ok(acc as u64)
    } else if !is_ascii_digit(d[0]) {
        Err("invalid digit found in string"@)
    } else if acc * 10 + ((d[0] as int) - ('0' as int)) > u64::MAX {
        Err("number too large to fit in target type"@)
    } else {
        u64_digits(d.drop_first(), (acc * 10 + ((d[0] as int) - ('0' as int))) as nat)
    }
}

/// A `u64` as `u64::from_str` reads it: an optional `+`, then at least one
/// decimal digit; the text of its error otherwise.
pub open spec fn u64_of_text(s: Seq<char>) -> Result<u64, Seq<char>> {
    if s.len() == 0 {
        Err("cannot parse integer from empty string"@)
    } else if s[0] == '+' && s.len() == 1 {
        Err("invalid digit found in string"@)
    } else if s[0] == '+' {
        u64_digits(s.drop_first(), 0)
    } else {
        u64_digits(s, 0)
    }
}

/// The amount to send, in satoshis, read from its decimal text.
pub fn parse_send_value(text: &str) -> (r: Result<u64, String>)
    ensures
        r matches Ok(v) ==> u64_of_text(text@) == Ok::<u64, Seq<char>>(v),
        r matches Err(e) ==> u64_of_text(text@) matches Err(t) && e@ == "invalid value: "@ + t,
{
    let n = text.unicode_len();
    let mut message = "invalid value: ".to_owned();
    if n == 0 {
        message.append("cannot parse integer from empty string");
        return Err(message);
    }
    let mut i: usize = 0;
    if text.get_char(0) == '+' {
        if n == 1 {
            message.append("invalid digit found in string");
            return Err(message);
        }
        i = 1;
    }
    let ghost d = text@.skip(i as int);
    proof {
        assert(u64_of_text(text@) == u64_digits(d, 0)) by {
            if i == 0 {
                assert(d =~= text@);
            } else {
                assert(d =~= text@.drop_first());
            }
        }
    }
    let mut acc: u64 = 0;
    while i < n
        invariant
            i <= n,
            n == text@.len(),
            u64_of_text(text@) == u64_digits(text@.skip(i as int), acc as nat),
            message@ == "invalid value: "@,
        decreases n - i,
    {
        let c = text.get_char(i);
        let ghost rest = text@.skip(i as int);
        proof {
            assert(rest[0] == c);
            assert(rest.drop_first() =~= text@.skip(i + 1));
        }
        if !('0' <= c && c <= '9') {
            message.append("invalid digit found in string");
            return Err(message);
        }
        let digit = (c as u32 - '0' as u32) as u64;
        if acc > (u64::MAX - digit) / 10 {
            proof {
                assert(acc * 10 + digit > u64::MAX) by (nonlinear_arith)
                    requires
                        acc > (u64::MAX - digit) / 10,
                        digit <= 9,
                ;
            }
            message.append("number too large to fit in target type");
            return Err(message);
        }
        proof {
            assert(acc * 10 + digit <= u64::MAX) by (nonlinear_arith)
                requires
                    acc <= (u64::MAX - digit) / 10,
                    digit <= 9,
            ;
        }
        acc = acc * 10 + digit;
        i = i + 1;
    }
    proof {
        assert(text@.skip(i as int).len() == 0);
    }
    Ok(acc)
}

/// Reads the parent transaction id that a fee bump names.
pub fn parse_parent_txid(text: &str) -> (r: Result<[u8; 32], String>)
    ensures
        r matches Ok(b) ==> txid_of_hex(text@) == Some(b@),
        r matches Err(e) ==> txid_of_hex(text@) is None && e@ == "invalid parent_tx_id: "@ + txid_error_text(text@),
{
    match txid_from_hex(text) {
        Ok(b) => Ok(b),
        Err(e) => {
            let mut message = "invalid parent_tx_id: ".to_owned();
            message.append(e.as_str());
            Err(message)
        },
    }
}

} // verus!
