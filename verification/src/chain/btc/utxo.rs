//! Unspent transaction outputs owned by the wallet.
use vstd::prelude::*;

use crate::btc::address::{path_slice, Change, DerivePath, DerivePathSlice, HARDENED};

verus! {

/// A transaction output: its value in satoshis and its locking script.
pub struct TxOut {
    pub value: u64,
    pub script_pubkey: Vec<u8>,
}

/// Reference to an output of a transaction: the transaction id (as stored,
/// in internal byte order) and the output number.
pub struct OutPoint {
    pub txid: [u8; 32],
    pub vout: u32,
}

/// The key a map of outputs uses for an outpoint.
pub open spec fn outpoint_key(op: OutPoint) -> (Seq<u8>, u32) {
    (op.txid@, op.vout)
}

#[derive(Debug, Clone)]
pub struct BlockHeader {
    pub hash: [u8; 32],
    pub height: u32,
}

pub struct Utxo {
    pub tx_id: [u8; 32],
    pub vout: u32,
    pub output: TxOut,
    pub derivation: DerivePath,
    pub height: u32,
}

/// The outpoint key of an unspent output.
pub open spec fn utxo_key(u: Utxo) -> (Seq<u8>, u32) {
    (u.tx_id@, u.vout)
}

/// Map from raw derivation path components to the label given to that path.
/// A later entry for the same path takes precedence over an earlier one.
pub type KeyDerivationPathLabelMap = Vec<(DerivePathSlice, String)>;

/// The label a label map gives to a path: the last entry for it, if any.
pub open spec fn label_lookup(entries: Seq<(DerivePathSlice, String)>, key: Seq<u32>) -> Option<
    Seq<char>,
>
    decreases entries.len(),
{
    if entries.len() == 0 {
        None
    } else if entries.last().0@ == key {
        Some(entries.last().1@)
    } else {
        label_lookup(entries.drop_last(), key)
    }
}

/// The label shown for an output: change outputs are labelled "Change",
/// receiving outputs carry the label of their derivation path, if any.
pub open spec fn utxo_label(u: Utxo, entries: Seq<(DerivePathSlice, String)>) -> Option<Seq<char>> {
    match u.derivation.change {
        Change::Internal => Some("Change"@),
        Change::External => label_lookup(entries, path_slice(u.derivation)),
    }
}

/// Two sets of raw path components are equal.
pub fn slice_eq(a: &DerivePathSlice, b: &DerivePathSlice) -> (eq: bool)
    ensures
        eq == (a@ == b@),
{
    let eq = a[0] == b[0] && a[1] == b[1] && a[2] == b[2] && a[3] == b[3] && a[4] == b[4];
    proof {
        if eq {
            assert(a@ =~= b@);
        }
    }
    eq
}

/// Two transaction ids are equal.
pub fn txid_eq(a: &[u8; 32], b: &[u8; 32]) -> (eq: bool)
    ensures
        eq == (a@ == b@),
{
    let mut i: usize = 0;
    while i < 32
        invariant
            i <= 32,
            a@.len() == 32,
            b@.len() == 32,
            forall|j: int| 0 <= j < i ==> a@[j] == b@[j],
        decreases 32 - i,
    {
        if a[i] != b[i] {
            return false;
        }
        i = i + 1;
    }
    assert(a@ =~= b@);
    true
}

/// Looks a path up in a label map: the label of its last entry, cloned.
pub fn lookup_label(map: &KeyDerivationPathLabelMap, key: &DerivePathSlice) -> (label: Option<String>)
    ensures
        label matches Some(l) ==> label_lookup(map@, key@) == Some(l@),
        label is None ==> label_lookup(map@, key@) is None,
{
    let mut i = map.len();
    assert(map@.take(i as int) =~= map@);
    while i > 0
        invariant
            i <= map@.len(),
            label_lookup(map@, key@) == label_lookup(map@.take(i as int), key@),
        decreases i,
    {
        let ghost prefix = map@.take(i as int);
        assert(prefix.drop_last() =~= map@.take(i - 1));
        if slice_eq(&map[i - 1].0, key) {
            return Some(map[i - 1].1.clone());
        }
        i = i - 1;
    }
    None
}

impl Utxo {
    pub fn outpoint(&self) -> (op: OutPoint)
        ensures
            op.txid@ == self.tx_id@,
            op.vout == self.vout,
    {
        OutPoint { txid: self.tx_id, vout: self.vout }
    }

    pub fn label(&self, schema_label_map: &KeyDerivationPathLabelMap) -> (label: Option<String>)
        requires
            self.derivation.account < HARDENED,
        ensures
            label matches Some(l) ==> utxo_label(*self, schema_label_map@) == Some(l@),
            label is None ==> utxo_label(*self, schema_label_map@) is None,
    {
        match self.derivation.change {
            Change::Internal => Some("Change".to_owned()),
            Change::External => lookup_label(schema_label_map, &self.derivation.to_slice()),
        }
    }
}

} // verus!
