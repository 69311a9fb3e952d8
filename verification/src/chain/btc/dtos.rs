//! Values exchanged with the user interface.
use vstd::prelude::*;

use crate::btc::address::{path_text, DerivePathSlice, HARDENED};
use crate::chain::btc::account::{AccountIndex, UtxoSelectionStrategy};
use crate::chain::btc::utxo::{utxo_label, KeyDerivationPathLabelMap, OutPoint, Utxo};
use crate::text::{decimal, hex_char, hex_value, is_hex_digit, push_decimal, u64_to_decimal};

verus! {

// ---------------------------------------------------------------------------
// Transaction ids as hexadecimal text
// ---------------------------------------------------------------------------

/// The transaction id that 64 hexadecimal digits denote. Transaction ids
/// are displayed in reverse byte order, so the last two digits give the first byte.
pub open spec fn txid_of_hex(s: Seq<char>) -> Option<Seq<u8>> {
    if s.len() == 64 && forall|i: int| 0 <= i < 64 ==> #[trigger] is_hex_digit(s[i]) {
        Some(Seq::new(32, |i: int| (hex_value(s[62 - 2 * i]) * 16 + hex_value(s[63 - 2 * i])) as u8))
    } else {
        None
    }
}

/// The lower-case hexadecimal text of a transaction id, last byte first.
pub open spec fn txid_hex(b: Seq<u8>) -> Seq<char> {
    Seq::new(
        64,
        |k: int|
            if k % 2 == 0 {
                hex_char(b[31 - k / 2] as int / 16)
            } else {
                hex_char(b[31 - k / 2] as int % 16)
            },
    )
}

/// Bytes of a character in UTF-8.
pub open spec fn char_utf8_len(c: char) -> nat {
    if (c as u32) < 0x80 {
        1
    } else if (c as u32) < 0x800 {
        2
    } else if (c as u32) < 0x1_0000 {
        3
    } else {
        4
    }
}

/// Bytes of a text in UTF-8.
pub open spec fn utf8_len(s: Seq<char>) -> nat
    decreases s.len(),
{
    if s.len() == 0 {
        0
    } else {
        utf8_len(s.drop_last()) + char_utf8_len(s.last())
    }
}

/// What `bitcoin`'s `Display` of a transaction id parse error prints for a
/// text that does not parse: the hex array parser first checks the length
/// in bytes (64), then each digit.
pub open spec fn txid_error_text(s: Seq<char>) -> Seq<char> {
    if utf8_len(s) == 64 {
        "failed to parse hex digit"@
    } else {
        "failed to parse hex"@
    }
}

/// Parses a transaction id with `bitcoin::Txid::from_str`: exactly 64
/// hexadecimal digits of either case, read as bytes in reverse order. On
/// failure it gives the text of `bitcoin`'s parse error.
#[verifier::external_body]
pub(crate) fn txid_from_hex(s: &str) -> (parsed: Result<[u8; 32], String>)
    ensures
        parsed matches Ok(b) ==> txid_of_hex(s@) == Some(b@),
        parsed matches Err(e) ==> txid_of_hex(s@) is None && e@ == txid_error_text(s@),
{
    match <::bitcoin::Txid as core::str::FromStr>::from_str(s) {
        Ok(txid) => Ok(::bitcoin::hashes::Hash::to_byte_array(txid)),
        Err(e) => Err(e.to_string()),
    }
}

/// Renders a transaction id with `bitcoin::Txid`'s `Display`: 64 lower-case
/// hexadecimal digits, bytes in reverse order.
#[verifier::external_body]
fn txid_to_hex(bytes: &[u8; 32]) -> (text: String)
    ensures
        text@ == txid_hex(bytes@),
{
    <::bitcoin::Txid as ::bitcoin::hashes::Hash>::from_byte_array(*bytes).to_string()
}

/// Printing a transaction id and parsing the text gives the id back.
pub proof fn lemma_txid_hex_roundtrip(b: Seq<u8>)
    requires
        b.len() == 32,
    ensures
        txid_of_hex(txid_hex(b)) == Some(b),
{
    let s = txid_hex(b);
    assert forall|i: int| 0 <= i < 64 implies #[trigger] is_hex_digit(s[i]) by {
        let byte = b[31 - i / 2] as int;
        assert(0 <= byte / 16 < 16);
    }
    let parsed = Seq::new(32, |i: int| (hex_value(s[62 - 2 * i]) * 16 + hex_value(s[63 - 2 * i])) as u8);
    assert forall|i: int| 0 <= i < 32 implies parsed[i] == b[i] by {
        let byte = b[i] as int;
        assert((62 - 2 * i) / 2 == 31 - i);
        assert((63 - 2 * i) / 2 == 31 - i);
        assert(hex_value(s[62 - 2 * i]) == byte / 16);
        assert(hex_value(s[63 - 2 * i]) == byte % 16);
    }
    assert(parsed =~= b);
}

// ---------------------------------------------------------------------------
// Outpoints
// ---------------------------------------------------------------------------

pub struct OutPointDto {
    pub tx_id: String,
    pub vout: u32,
}

/// The outpoint key a DTO denotes, if its transaction id parses.
pub open spec fn outpoint_of_dto(d: OutPointDto) -> Option<(Seq<u8>, u32)> {
    match txid_of_hex(d.tx_id@) {
        Some(b) => Some((b, d.vout)),
        None => None,
    }
}

impl OutPointDto {
    /// The DTO of an outpoint: its transaction id in display order.
    pub fn from_outpoint(value: OutPoint) -> (dto: Self)
        ensures
            dto.tx_id@ == txid_hex(value.txid@),
            dto.vout == value.vout,
    {
        Self { tx_id: txid_to_hex(&value.txid), vout: value.vout }
    }

    /// The outpoint a DTO names; fails on a malformed transaction id.
    pub fn to_outpoint(&self) -> (op: Result<OutPoint, String>)
        ensures
            op matches Ok(o) ==> outpoint_of_dto(*self) == Some((o.txid@, o.vout)),
            op matches Err(e) ==> outpoint_of_dto(*self) is None && e@ == "invalid txid "@
                + txid_error_text(self.tx_id@),
    {
        match txid_from_hex(self.tx_id.as_str()) {
            Ok(txid) => Ok(OutPoint { txid, vout: self.vout }),
            Err(e) => {
                let mut msg = "invalid txid ".to_owned();
                msg.append(e.as_str());
                Err(msg)
            },
        }
    }

    /// `txid:vout`, as the outpoint is displayed.
    pub fn to_string(&self) -> (s: String)
        ensures
            s@ == self.tx_id@ + ":"@ + decimal(self.vout as nat),
    {
        let mut s = self.tx_id.clone();
        s.append(":");
        push_decimal(&mut s, self.vout as u64);
        s
    }
}

// ---------------------------------------------------------------------------
// Other DTOs
// ---------------------------------------------------------------------------

pub struct BuildTx {
    pub value: String,
    pub recipient: String,
    pub utxo_selection_method: UtxoSelectionStrategy,
}

pub struct SendTx {}

pub struct BroadcastResult {
    pub tx_id: String,
}

pub struct DerivedAddressDto {
    pub label: String,
    pub path: String,
    pub address: String,
}

pub struct AccountMetaDto {
    pub index: AccountIndex,
    pub name: String,
}

pub struct BitcoinUnlockDto {
    pub accounts: Vec<AccountMetaDto>,
    pub active_account: ActiveAccountDto,
}

pub struct UtxoDto {
    pub utxo_id: OutPointDto,
    pub value: String,
    pub deriv_path: String,
    pub address_label: Option<String>,
}

pub struct ActiveAccountDto {
    pub index: u32,
    /** main external address to accept payments */
    pub address: String,
    pub total_balance: String,
    pub utxo: Vec<UtxoDto>,
}

/// The DTO shows the output: its value in decimal, its outpoint, its
/// derivation path, and the label the map gives that path.
pub open spec fn is_utxo_dto(dto: UtxoDto, u: Utxo, labels: Seq<(DerivePathSlice, String)>) -> bool {
    &&& dto.value@ == decimal(u.output.value as nat)
    &&& dto.utxo_id.tx_id@ == txid_hex(u.tx_id@)
    &&& dto.utxo_id.vout == u.vout
    &&& dto.deriv_path@ == path_text(u.derivation)
    &&& dto.address_label matches Some(l) ==> utxo_label(u, labels) == Some(l@)
    &&& dto.address_label is None ==> utxo_label(u, labels) is None
}

impl Utxo {
    pub fn to_dto(&self, address_label_map: &KeyDerivationPathLabelMap) -> (dto: UtxoDto)
        requires
            self.derivation.account < HARDENED,
        ensures
            is_utxo_dto(dto, *self, address_label_map@),
    {
        UtxoDto {
            value: u64_to_decimal(self.output.value),
            utxo_id: OutPointDto::from_outpoint(self.outpoint()),
            deriv_path: self.derivation.to_string(),
            address_label: self.label(address_label_map),
        }
    }
}

} // verus!
