//! The stored form of a Bitcoin wallet: plain records of its accounts, their
//! derivation paths and their unspent outputs.
use vstd::prelude::*;

use crate::btc::address::{DerivePath, LabeledDerivationPath};
use crate::chain::btc::account::{insert_all, keys_distinct, Account, AccountIndex, KeyChain, UtxoSet};
use crate::chain::btc::config::BitcoinConfig;
use crate::chain::btc::utxo::{utxo_key, TxOut, Utxo};
use crate::chain::btc::wallet::BitcoinWallet;

verus! {

/// An unspent output as stored.
pub struct UtxoStored {
    pub txid: [u8; 32],
    pub vout: u32,
    pub value: u64,
    pub script_pubkey: Vec<u8>,
    pub derivation: DerivePath,
    pub height: u32,
}

/// An account as stored.
pub struct AccountStored {
    pub name: String,
    pub index: AccountIndex,
    pub paths: Vec<LabeledDerivationPath>,
    pub utxos: Vec<UtxoStored>,
}

/// A wallet as stored.
pub struct WalletStored {
    pub active_account: AccountIndex,
    pub accounts: Vec<AccountStored>,
}

/// A byte-for-byte copy.
fn copy_bytes(bytes: &Vec<u8>) -> (copy: Vec<u8>)
    ensures
        copy@ == bytes@,
{
    let mut copy: Vec<u8> = Vec::new();
    let mut j: usize = 0;
    while j < bytes.len()
        invariant
            j <= bytes@.len(),
            copy@ == bytes@.take(j as int),
        decreases bytes@.len() - j,
    {
        copy.push(bytes[j]);
        j = j + 1;
        proof {
            assert(copy@ =~= bytes@.take(j as int));
        }
    }
    proof {
        assert(bytes@.take(j as int) =~= bytes@);
    }
    copy
}

/// The record stores exactly the output.
pub open spec fn stores_utxo(s: UtxoStored, u: Utxo) -> bool {
    &&& s.txid == u.tx_id
    &&& s.vout == u.vout
    &&& s.value == u.output.value
    &&& s.script_pubkey@ == u.output.script_pubkey@
    &&& s.derivation == u.derivation
    &&& s.height == u.height
}

/// The output a record describes.
pub open spec fn utxo_of_stored(s: UtxoStored) -> Utxo {
    Utxo {
        tx_id: s.txid,
        vout: s.vout,
        output: TxOut { value: s.value, script_pubkey: s.script_pubkey },
        derivation: s.derivation,
        height: s.height,
    }
}

/// The record stores exactly the path.
pub open spec fn stores_path(s: LabeledDerivationPath, p: LabeledDerivationPath) -> bool {
    s.label@ == p.label@ && s.derive_path == p.derive_path
}

impl UtxoStored {
    pub fn from_utxo(u: &Utxo) -> (stored: UtxoStored)
        ensures
            stores_utxo(stored, *u),
    {
        UtxoStored {
            txid: u.tx_id,
            vout: u.vout,
            value: u.output.value,
            script_pubkey: copy_bytes(&u.output.script_pubkey),
            derivation: u.derivation,
            height: u.height,
        }
    }

    pub fn into_utxo(self) -> (u: Utxo)
        ensures
            u == utxo_of_stored(self),
            stores_utxo(self, u),
    {
        Utxo {
            tx_id: self.txid,
            vout: self.vout,
            output: TxOut { script_pubkey: self.script_pubkey, value: self.value },
            derivation: self.derivation,
            height: self.height,
        }
    }
}

/// A copy of a labelled path.
fn copy_path(p: &LabeledDerivationPath) -> (copy: LabeledDerivationPath)
    ensures
        stores_path(copy, *p),
{
    LabeledDerivationPath { label: p.label.clone(), derive_path: p.derive_path }
}

/// The record holds the account's name, index, paths and outputs, in the
/// account's order.
pub open spec fn account_recorded(s: AccountStored, a: Account) -> bool {
    &&& s.name@ == a.name@
    &&& s.index == a.index
    &&& s.paths@.len() == a.keychain.paths@.len()
    &&& forall|j: int| 0 <= j < s.paths@.len() ==> stores_path(#[trigger] s.paths@[j], a.keychain.paths@[j])
    &&& s.utxos@.len() == a.utxo_set.entries@.len()
    &&& forall|j: int| 0 <= j < s.utxos@.len() ==> stores_utxo(#[trigger] s.utxos@[j], a.utxo_set.entries@[j])
}

/// The account is the one the record describes: its outputs are the
/// recorded ones keyed by outpoint, a later record of an outpoint replacing
/// an earlier one.
pub open spec fn account_restored(a: Account, s: AccountStored) -> bool {
    &&& a.name@ == s.name@
    &&& a.index == s.index
    &&& a.keychain.paths@ == s.paths@
    &&& keys_distinct(a.utxo_set.entries@)
    &&& insert_all(a.utxo_set.entries@) == insert_all(s.utxos@.map_values(|u: UtxoStored| utxo_of_stored(u)))
}

/// Two outputs are the same output: same outpoint, value, script, path and
/// height.
pub open spec fn same_utxo(x: Utxo, y: Utxo) -> bool {
    &&& utxo_key(x) == utxo_key(y)
    &&& x.output.value == y.output.value
    &&& x.output.script_pubkey@ == y.output.script_pubkey@
    &&& x.derivation == y.derivation
    &&& x.height == y.height
}

/// Inserting the same outputs in the same order builds maps with the same
/// outpoints and the same output at each.
proof fn lemma_insert_all_same(xs: Seq<Utxo>, ys: Seq<Utxo>)
    requires
        xs.len() == ys.len(),
        forall|j: int| 0 <= j < xs.len() ==> same_utxo(#[trigger] xs[j], ys[j]),
    ensures
        insert_all(xs).dom() == insert_all(ys).dom(),
        forall|k: (Seq<u8>, u32)| #[trigger] insert_all(xs).contains_key(k) ==> same_utxo(insert_all(xs)[k], insert_all(ys)[k]),
    decreases xs.len(),
{
    if xs.len() > 0 {
        let n = xs.len() - 1;
        assert(same_utxo(xs[n], ys[n]));
        assert forall|j: int| 0 <= j < xs.drop_last().len() implies same_utxo(#[trigger] xs.drop_last()[j], ys.drop_last()[j]) by {
            assert(same_utxo(xs[j], ys[j]));
        }
        lemma_insert_all_same(xs.drop_last(), ys.drop_last());
        assert(insert_all(xs).dom() =~= insert_all(ys).dom());
    } else {
        assert(insert_all(xs).dom() =~= insert_all(ys).dom());
    }
}

/// `b` is `a` as far as a record can tell: the same name, index and
/// labelled paths, and the same output at each outpoint.
pub open spec fn same_account(b: Account, a: Account) -> bool {
    &&& b.name@ == a.name@
    &&& b.index == a.index
    &&& b.keychain.paths@.len() == a.keychain.paths@.len()
    &&& forall|j: int| 0 <= j < b.keychain.paths@.len() ==> stores_path(#[trigger] b.keychain.paths@[j], a.keychain.paths@[j])
    &&& insert_all(b.utxo_set.entries@).dom() == insert_all(a.utxo_set.entries@).dom()
    &&& forall|k: (Seq<u8>, u32)| #[trigger] insert_all(b.utxo_set.entries@).contains_key(k) ==> same_utxo(
        insert_all(b.utxo_set.entries@)[k],
        insert_all(a.utxo_set.entries@)[k],
    )
}

/// What is stored is what is read back: an account restored from the record
/// of an account has its name, index and labelled paths, and the same
/// output at each of its outpoints.
pub proof fn lemma_account_roundtrip(a: Account, s: AccountStored, b: Account)
    requires
        account_recorded(s, a),
        account_restored(b, s),
    ensures
        same_account(b, a),
{
    let restored = s.utxos@.map_values(|u: UtxoStored| utxo_of_stored(u));
    assert forall|j: int| 0 <= j < restored.len() implies same_utxo(#[trigger] restored[j], a.utxo_set.entries@[j]) by {
        assert(stores_utxo(s.utxos@[j], a.utxo_set.entries@[j]));
    }
    lemma_insert_all_same(restored, a.utxo_set.entries@);
}

/// The record of a wallet: which account is active, and each account's
/// record, in order.
pub open spec fn wallet_recorded(s: WalletStored, w: BitcoinWallet) -> bool {
    &&& s.active_account == w.active_account
    &&& s.accounts@.len() == w.accounts@.len()
    &&& forall|j: int| 0 <= j < s.accounts@.len() ==> account_recorded(#[trigger] s.accounts@[j], w.accounts@[j])
}

/// The wallet a record describes, on the given settings.
pub open spec fn wallet_restored(w: BitcoinWallet, s: WalletStored, config: BitcoinConfig) -> bool {
    &&& w.active_account == s.active_account
    &&& w.config == config
    &&& w.accounts@.len() == s.accounts@.len()
    &&& forall|j: int| 0 <= j < w.accounts@.len() ==> account_restored(#[trigger] w.accounts@[j], s.accounts@[j])
}

/// A wallet read back from its record is the wallet that was stored: the
/// same active account, and the same accounts in the same order.
pub proof fn lemma_wallet_roundtrip(w: BitcoinWallet, s: WalletStored, r: BitcoinWallet)
    requires
        wallet_recorded(s, w),
        wallet_restored(r, s, w.config),
    ensures
        r.active_account == w.active_account,
        r.config == w.config,
        r.accounts@.len() == w.accounts@.len(),
        forall|j: int| 0 <= j < r.accounts@.len() ==> same_account(#[trigger] r.accounts@[j], w.accounts@[j]),
{
    assert forall|j: int| 0 <= j < r.accounts@.len() implies same_account(#[trigger] r.accounts@[j], w.accounts@[j]) by {
        lemma_account_roundtrip(w.accounts@[j], s.accounts@[j], r.accounts@[j]);
    }
}

impl AccountStored {
    /// The record of an account: its name, index, paths and outputs, in the
    /// account's order.
    pub fn from_account(a: &Account) -> (stored: AccountStored)
        ensures
            account_recorded(stored, *a),
    {
        let mut paths: Vec<LabeledDerivationPath> = Vec::new();
        let mut j: usize = 0;
        while j < a.keychain.paths.len()
            invariant
                j <= a.keychain.paths@.len(),
                paths@.len() == j,
                forall|k: int| 0 <= k < j ==> stores_path(#[trigger] paths@[k], a.keychain.paths@[k]),
            decreases a.keychain.paths@.len() - j,
        {
            paths.push(copy_path(&a.keychain.paths[j]));
            j = j + 1;
        }
        let mut utxos: Vec<UtxoStored> = Vec::new();
        let mut j: usize = 0;
        while j < a.utxo_set.entries.len()
            invariant
                j <= a.utxo_set.entries@.len(),
                utxos@.len() == j,
                forall|k: int| 0 <= k < j ==> stores_utxo(#[trigger] utxos@[k], a.utxo_set.entries@[k]),
            decreases a.utxo_set.entries@.len() - j,
        {
            utxos.push(UtxoStored::from_utxo(&a.utxo_set.entries[j]));
            j = j + 1;
        }
        AccountStored { name: a.name.clone(), index: a.index, paths, utxos }
    }

    /// The account a record describes. Outputs are keyed by their outpoint,
    /// so of two records of one outpoint the later one is kept.
    pub fn into_account(self) -> (a: Account)
        ensures
            account_restored(a, self),
    {
        let AccountStored { name, index, paths, utxos } = self;
        let ghost stored = utxos@;
        let mut restored: Vec<Utxo> = Vec::new();
        let mut rest = utxos;
        let ghost mut k: int = 0;
        assert(stored.skip(0) =~= stored);
        assert(restored@ =~= stored.take(0).map_values(|s: UtxoStored| utxo_of_stored(s)));
        while rest.len() > 0
            invariant
                0 <= k <= stored.len(),
                rest@ == stored.skip(k),
                restored@ == stored.take(k).map_values(|s: UtxoStored| utxo_of_stored(s)),
            decreases rest@.len(),
        {
            let s = rest.remove(0);
            proof {
                assert(s == stored[k]);
                assert(stored.skip(k).remove(0) =~= stored.skip(k + 1));
            }
            restored.push(s.into_utxo());
            proof {
                assert(restored@ =~= stored.take(k + 1).map_values(|s: UtxoStored| utxo_of_stored(s)));
                k = k + 1;
            }
        }
        proof {
            assert(stored.take(k) =~= stored);
        }
        let mut utxo_set = UtxoSet { entries: Vec::new() };
        utxo_set.replace_all(restored);
        Account { name, index, keychain: KeyChain { paths }, utxo_set }
    }
}

impl WalletStored {
    /// The record of a wallet: which account is active, and every account.
    pub fn from_wallet(w: &BitcoinWallet) -> (stored: WalletStored)
        ensures
            wallet_recorded(stored, *w),
    {
        let mut accounts: Vec<AccountStored> = Vec::new();
        let mut j: usize = 0;
        while j < w.accounts.len()
            invariant
                j <= w.accounts@.len(),
                accounts@.len() == j,
                forall|i: int| 0 <= i < j ==> account_recorded(#[trigger] accounts@[i], w.accounts@[i]),
            decreases w.accounts@.len() - j,
        {
            accounts.push(AccountStored::from_account(&w.accounts[j]));
            j = j + 1;
        }
        WalletStored { active_account: w.active_account, accounts }
    }
}

impl BitcoinWallet {
    /// The wallet a record describes, on the given network settings.
    pub fn from_dto(dto: WalletStored, config: BitcoinConfig) -> (w: BitcoinWallet)
        ensures
            wallet_restored(w, dto, config),
    {
        let WalletStored { active_account, accounts: stored } = dto;
        let ghost all = stored@;
        let mut accounts: Vec<Account> = Vec::new();
        let mut rest = stored;
        let ghost mut k: int = 0;
        assert(all.skip(0) =~= all);
        while rest.len() > 0
            invariant
                0 <= k <= all.len(),
                rest@ == all.skip(k),
                accounts@.len() == k,
                forall|j: int| 0 <= j < k ==> account_restored(#[trigger] accounts@[j], all[j]),
            decreases rest@.len(),
        {
            let s = rest.remove(0);
            proof {
                assert(s == all[k]);
                assert(all.skip(k).remove(0) =~= all.skip(k + 1));
            }
            accounts.push(s.into_account());
            proof {
                k = k + 1;
            }
        }
        BitcoinWallet { active_account, accounts, config }
    }
}

} // verus!
