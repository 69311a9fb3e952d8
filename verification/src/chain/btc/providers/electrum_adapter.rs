//! Reading Electrum answers: the scripthash an address is queried by, and
//! the unspent outputs a `listunspent` answer lists.
use vstd::prelude::*;

use crate::btc::address::DerivePath;
use crate::chain::btc::dtos::{txid_error_text, txid_from_hex, txid_of_hex};
use crate::chain::btc::utxo::{TxOut, Utxo};
use crate::text::{hex_digit_str, hex_lower};

verus! {

/// The SHA-256 digest of some bytes.
pub uninterp spec fn sha256_of(data: Seq<u8>) -> Seq<u8>;

/// Hashes bytes with `bitcoin::hashes::sha256::Hash::hash`.
#[verifier::external_body]
fn sha256_digest(data: &[u8]) -> (digest: [u8; 32])
    ensures
        digest@ == sha256_of(data@),
{
    ::bitcoin::hashes::Hash::to_byte_array(
        <::bitcoin::hashes::sha256::Hash as ::bitcoin::hashes::Hash>::hash(data),
    )
}

/// The bytes in reverse order.
pub open spec fn reversed(b: Seq<u8>) -> Seq<u8> {
    Seq::new(b.len(), |i: int| b[b.len() - 1 - i])
}

/// The Electrum scripthash of a locking script: the SHA-256 of the script,
/// bytes in reverse order, as lower-case hexadecimal.
pub fn scripthash(script_pubkey: &[u8]) -> (hash: String)
    ensures
        hash@ == hex_lower(reversed(sha256_of(script_pubkey@))),
{
    let digest = sha256_digest(script_pubkey);
    let ghost d = digest@;
    let mut hash = String::new();
    let mut i: usize = 32;
    assert(reversed(d).take(0) =~= Seq::<u8>::empty());
    while i > 0
        invariant
            i <= 32,
            d == digest@,
            d.len() == 32,
            hash@ == hex_lower(reversed(d).take(32 - i)),
        decreases i,
    {
        let b = digest[i - 1];
        hash.append(hex_digit_str(b / 16));
        hash.append(hex_digit_str(b % 16));
        proof {
            let r = reversed(d);
            let t = 32 - i;
            assert(r.take(t + 1).drop_last() =~= r.take(t));
            assert(r[t] == b);
            assert(hex_lower(r.take(t)) + seq![crate::text::hex_digit_char(b as nat / 16)] + seq![
                crate::text::hex_digit_char(b as nat % 16),
            ] =~= hex_lower(r.take(t + 1)));
        }
        i = i - 1;
    }
    proof {
        assert(reversed(d).take(32) =~= reversed(d));
    }
    hash
}

/// One entry of an Electrum `listunspent` answer.
pub struct RawUtxo {
    pub tx_hash: String,
    pub tx_pos: u32,
    pub value: u64,
    pub height: u32,
}

/// The wallet output an answer entry describes, at an address with the
/// given script and derivation path.
pub open spec fn is_wallet_utxo(u: Utxo, raw: RawUtxo, script: Seq<u8>, derivation: DerivePath) -> bool {
    &&& txid_of_hex(raw.tx_hash@) == Some(u.tx_id@)
    &&& u.vout == raw.tx_pos
    &&& u.output.value == raw.value
    &&& u.output.script_pubkey@ == script
    &&& u.derivation == derivation
    &&& u.height == raw.height
}

/// The wallet outputs of one address's `listunspent` answer, in order; an
/// error naming the first malformed transaction id.
pub fn wallet_utxos(raw: Vec<RawUtxo>, script_pubkey: &Vec<u8>, derivation: DerivePath) -> (utxos:
    Result<Vec<Utxo>, String>)
    ensures
        utxos matches Ok(v) ==> v@.len() == raw@.len() && forall|k: int|
            0 <= k < v@.len() ==> is_wallet_utxo(#[trigger] v@[k], raw@[k], script_pubkey@, derivation),
        utxos matches Err(e) ==> exists|k: int|
            0 <= k < raw@.len() && txid_of_hex(#[trigger] raw@[k].tx_hash@) is None && (forall|m: int|
                0 <= m < k ==> txid_of_hex(#[trigger] raw@[m].tx_hash@) is Some) && e@ == "txid: "@
                + txid_error_text(raw@[k].tx_hash@),
{
    let mut utxos: Vec<Utxo> = Vec::new();
    let mut k: usize = 0;
    while k < raw.len()
        invariant
            k <= raw@.len(),
            utxos@.len() == k,
            forall|m: int| 0 <= m < k ==> is_wallet_utxo(#[trigger] utxos@[m], raw@[m], script_pubkey@, derivation),
        decreases raw@.len() - k,
    {
        let entry = &raw[k];
        let tx_id = match txid_from_hex(entry.tx_hash.as_str()) {
            Ok(tx_id) => tx_id,
            Err(e) => {
                proof {
                    assert forall|m: int| 0 <= m < k implies txid_of_hex(#[trigger] raw@[m].tx_hash@) is Some by {
                        assert(is_wallet_utxo(utxos@[m], raw@[m], script_pubkey@, derivation));
                    }
                }
                let mut msg = "txid: ".to_owned();
                msg.append(e.as_str());
                return Err(msg);
            },
        };
        let mut script: Vec<u8> = Vec::new();
        let mut j: usize = 0;
        while j < script_pubkey.len()
            invariant
                j <= script_pubkey@.len(),
                script@ == script_pubkey@.take(j as int),
            decreases script_pubkey@.len() - j,
        {
            script.push(script_pubkey[j]);
            j = j + 1;
            proof {
                assert(script@ =~= script_pubkey@.take(j as int));
            }
        }
        proof {
            assert(script_pubkey@.take(j as int) =~= script_pubkey@);
        }
        utxos.push(
            Utxo {
                tx_id,
                vout: entry.tx_pos,
                output: TxOut { value: entry.value, script_pubkey: script },
                derivation,
                height: entry.height,
            },
        );
        k = k + 1;
    }
    Ok(utxos)
}

} // verus!
