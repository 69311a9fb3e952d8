//! What the wallet shows of an account: its outputs, largest first, and a
//! summary of the account with its balance.
use vstd::prelude::*;

use crate::btc::address::{path_slice, path_text, Change, LabeledDerivationPath, HARDENED};
use crate::chain::btc::account::{accounts_unhardened, value_sum, Account};
use crate::chain::btc::coin_selection::{is_largest_first_order, largest_first_order};
use crate::chain::btc::dtos::{is_utxo_dto, txid_hex, ActiveAccountDto, BitcoinUnlockDto, DerivedAddressDto, UtxoDto};
use crate::chain::btc::account::paths_on;
use crate::chain::btc::keys::{derive_taproot, taproot_child_of};

use crate::btc::address::DerivePathSlice;
use crate::chain::btc::utxo::{label_lookup, Utxo};
use crate::chain::btc::wallet::{account_position, lemma_account_position, BitcoinWallet};
use crate::text::{decimal, u64_to_decimal};

verus! {

/// At most this many outputs are listed.
pub const UTXO_DISPLAY_LIMIT: usize = 500;

/// The values of some outputs, in order.
pub open spec fn entry_values(entries: Seq<Utxo>) -> Seq<u64> {
    entries.map_values(|u: Utxo| u.output.value)
}

/// The label the key chain gives a path: that of its last entry for it.
pub open spec fn path_label(paths: Seq<LabeledDerivationPath>, key: Seq<u32>) -> Option<Seq<char>>
    decreases paths.len(),
{
    if paths.len() == 0 {
        None
    } else if path_slice(paths.last().derive_path) == key {
        Some(paths.last().label@)
    } else {
        path_label(paths.drop_last(), key)
    }
}

/// The label shown for an output: "Change" on the internal chain, else the
/// label of its path.
pub open spec fn shown_label(u: Utxo, paths: Seq<LabeledDerivationPath>) -> Option<Seq<char>> {
    match u.derivation.change {
        Change::Internal => Some("Change"@),
        Change::External => path_label(paths, path_slice(u.derivation)),
    }
}

/// The DTO shows the output, labelled by the key chain.
pub open spec fn shows_utxo(dto: UtxoDto, u: Utxo, paths: Seq<LabeledDerivationPath>) -> bool {
    &&& dto.value@ == decimal(u.output.value as nat)
    &&& dto.utxo_id.tx_id@ == txid_hex(u.tx_id@)
    &&& dto.utxo_id.vout == u.vout
    &&& dto.deriv_path@ == path_text(u.derivation)
    &&& dto.address_label matches Some(l) ==> shown_label(u, paths) == Some(l@)
    &&& dto.address_label is None ==> shown_label(u, paths) is None
}

/// Every output's path has an unhardened account number.
pub open spec fn derivations_unhardened(entries: Seq<Utxo>) -> bool {
    forall|j: int| 0 <= j < entries.len() ==> (#[trigger] entries[j]).derivation.account < HARDENED
}

/// A label map built from a key chain answers as the key chain does.
proof fn lemma_label_map(map: Seq<(DerivePathSlice, String)>, paths: Seq<LabeledDerivationPath>, key: Seq<u32>)
    requires
        map.len() == paths.len(),
        forall|j: int| 0 <= j < map.len() ==> (#[trigger] map[j]).0@ == path_slice(paths[j].derive_path)
            && map[j].1@ == paths[j].label@,
    ensures
        label_lookup(map, key) == path_label(paths, key),
    decreases map.len(),
{
    if map.len() > 0 {
        let n = map.len() - 1;
        assert(map[n].0@ == path_slice(paths[n].derive_path));
        lemma_label_map(map.drop_last(), paths.drop_last(), key);
    }
}

/// The account's outputs as the wallet lists them: largest value first,
/// outputs of equal value in the order the set holds them.
pub fn utxo_views(account: &Account) -> (views: Vec<UtxoDto>)
    requires
        accounts_unhardened(account.keychain.paths@),
        derivations_unhardened(account.utxo_set.entries@),
    ensures
        views@.len() == account.utxo_set.entries@.len(),
        exists|order: Seq<usize>|
            #[trigger] is_largest_first_order(entry_values(account.utxo_set.entries@), order)
                && forall|k: int| 0 <= k < views@.len() ==> shows_utxo(
                #[trigger] views@[k],
                account.utxo_set.entries@[order[k] as int],
                account.keychain.paths@,
            ),
{
    let ghost entries = account.utxo_set.entries@;
    let ghost paths = account.keychain.paths@;
    let map = account.keychain.to_label_map();
    let mut values: Vec<u64> = Vec::new();
    let mut j: usize = 0;
    while j < account.utxo_set.entries.len()
        invariant
            j <= entries.len(),
            entries == account.utxo_set.entries@,
            values@ == entry_values(entries.take(j as int)),
        decreases entries.len() - j,
    {
        values.push(account.utxo_set.entries[j].output.value);
        j = j + 1;
        proof {
            assert(values@ =~= entry_values(entries.take(j as int)));
        }
    }
    proof {
        assert(entries.take(j as int) =~= entries);
    }
    let order = largest_first_order(values.as_slice());
    let mut views: Vec<UtxoDto> = Vec::new();
    let mut k: usize = 0;
    while k < order.len()
        invariant
            k <= order@.len(),
            entries == account.utxo_set.entries@,
            paths == account.keychain.paths@,
            derivations_unhardened(entries),
            is_largest_first_order(entry_values(entries), order@),
            map@.len() == paths.len(),
            forall|i: int| 0 <= i < map@.len() ==> (#[trigger] map@[i]).0@ == path_slice(paths[i].derive_path)
                && map@[i].1@ == paths[i].label@,
            views@.len() == k,
            forall|i: int| 0 <= i < k ==> shows_utxo(#[trigger] views@[i], entries[order@[i] as int], paths),
        decreases order@.len() - k,
    {
        let at = order[k];
        proof {
            assert(order@[k as int] < entries.len());
        }
        let dto = account.utxo_set.entries[at].to_dto(&map);
        proof {
            let u = entries[at as int];
            lemma_label_map(map@, paths, path_slice(u.derivation));
            assert(is_utxo_dto(dto, u, map@));
        }
        views.push(dto);
        k = k + 1;
    }
    views
}

/// The outputs listed for the active account: the first `UTXO_DISPLAY_LIMIT`
/// of `utxo_views`.
pub fn get_utxos(account: &Account) -> (views: Vec<UtxoDto>)
    requires
        accounts_unhardened(account.keychain.paths@),
        derivations_unhardened(account.utxo_set.entries@),
    ensures
        views@.len() == if account.utxo_set.entries@.len() < UTXO_DISPLAY_LIMIT {
            account.utxo_set.entries@.len()
        } else {
            UTXO_DISPLAY_LIMIT as nat
        },
        exists|order: Seq<usize>|
            #[trigger] is_largest_first_order(entry_values(account.utxo_set.entries@), order)
                && forall|k: int| 0 <= k < views@.len() ==> shows_utxo(
                #[trigger] views@[k],
                account.utxo_set.entries@[order[k] as int],
                account.keychain.paths@,
            ),
{
    let mut views = utxo_views(account);
    let ghost all = views@;
    views.truncate(UTXO_DISPLAY_LIMIT);
    proof {
        assert forall|k: int| 0 <= k < views@.len() implies views@[k] == all[k] by {}
    }
    views
}

/// The active account as the wallet shows it: its index, its main receiving
/// address (derived from the key outside this library), its balance in
/// decimal and its outputs, largest first.
pub fn get_account_info(account: &Account, main_address: String) -> (info: ActiveAccountDto)
    requires
        accounts_unhardened(account.keychain.paths@),
        derivations_unhardened(account.utxo_set.entries@),
        value_sum(account.utxo_set.entries@) <= u64::MAX,
    ensures
        info.index == account.index,
        info.address@ == main_address@,
        info.total_balance@ == decimal(value_sum(account.utxo_set.entries@)),
        info.utxo@.len() == account.utxo_set.entries@.len(),
        exists|order: Seq<usize>|
            #[trigger] is_largest_first_order(entry_values(account.utxo_set.entries@), order)
                && forall|k: int| 0 <= k < info.utxo@.len() ==> shows_utxo(
                #[trigger] info.utxo@[k],
                account.utxo_set.entries@[order[k] as int],
                account.keychain.paths@,
            ),
{
    let utxo = utxo_views(account);
    let total = account.utxo_set.total_value();
    ActiveAccountDto {
        index: account.index,
        address: main_address,
        total_balance: u64_to_decimal(total),
        utxo,
    }
}

/// The account can be shown: its paths and outputs have unhardened account
/// numbers, and its balance fits in 64 bits.
pub open spec fn account_showable(a: Account) -> bool {
    &&& accounts_unhardened(a.keychain.paths@)
    &&& derivations_unhardened(a.utxo_set.entries@)
    &&& value_sum(a.utxo_set.entries@) <= u64::MAX
}

/// What unlocking the Bitcoin side shows: every account, and the active one
/// in full; an error when the active account does not exist.
pub fn unlock(wallet: &BitcoinWallet, main_address: String) -> (unlocked: Result<BitcoinUnlockDto, String>)
    requires
        forall|j: int| 0 <= j < wallet.accounts@.len() ==> account_showable(#[trigger] wallet.accounts@[j]),
    ensures
        account_position(wallet.accounts@, wallet.active_account) is None ==> (unlocked matches Err(e)
            && e@ == "account not found"@),
        account_position(wallet.accounts@, wallet.active_account) matches Some(j) ==> (unlocked matches Ok(
            u,
        ) && u.active_account.index == wallet.accounts@[j].index && u.active_account.address@
            == main_address@ && u.active_account.total_balance@ == decimal(
            value_sum(wallet.accounts@[j].utxo_set.entries@),
        ) && u.accounts@.len() == wallet.accounts@.len() && forall|k: int|
            0 <= k < u.accounts@.len() ==> (#[trigger] u.accounts@[k]).index == wallet.accounts@[k].index
                && u.accounts@[k].name@ == wallet.accounts@[k].name@),
{
    let account = match wallet.active_account() {
        Ok(account) => account,
        Err(e) => return Err(e),
    };
    proof {
        lemma_account_position(wallet.accounts@, wallet.active_account);
        let j = account_position(wallet.accounts@, wallet.active_account).unwrap();
        assert(account_showable(wallet.accounts@[j]));
    }
    let accounts = wallet.list_all_accounts();
    let active_account = get_account_info(account, main_address);
    Ok(BitcoinUnlockDto { accounts, active_account })
}

/// The receiving addresses of an account: for each path on its external
/// chain, in key-chain order, the path's text, its label and the address of
/// its key; the first error when a key cannot be derived.
pub fn get_external_addresess(account: &Account, master: &[u8; 78]) -> (addresses: Result<Vec<DerivedAddressDto>, String>)
    ensures
        addresses matches Ok(v) ==> {
            let ext = paths_on(account.keychain.paths@, Change::External);
            &&& v@.len() == ext.len()
            &&& forall|k: int|
                0 <= k < v@.len() ==> {
                    &&& (#[trigger] v@[k]).path@ == path_text(ext[k].derive_path)
                    &&& v@[k].label@ == ext[k].label@
                    &&& taproot_child_of(master@, ext[k].derive_path) matches Ok(t) && t.2 == v@[k].address@
                }
        },
        addresses matches Err(e) ==> {
            let ext = paths_on(account.keychain.paths@, Change::External);
            exists|k: int|
                0 <= k < ext.len() && (taproot_child_of(master@, (#[trigger] ext[k]).derive_path) matches Err(t)
                    && t == e@)
        },
{
    let ext = account.keychain.paths_by_change(&Change::External);
    let ghost view_ext = paths_on(account.keychain.paths@, Change::External);
    let mut out: Vec<DerivedAddressDto> = Vec::new();
    let mut k: usize = 0;
    while k < ext.len()
        invariant
            k <= ext@.len(),
            ext@.map_values(|p: &LabeledDerivationPath| *p) == view_ext,
            view_ext == paths_on(account.keychain.paths@, Change::External),
            out@.len() == k,
            forall|m: int|
                0 <= m < k ==> {
                    &&& (#[trigger] out@[m]).path@ == path_text(view_ext[m].derive_path)
                    &&& out@[m].label@ == view_ext[m].label@
                    &&& taproot_child_of(master@, view_ext[m].derive_path) matches Ok(t) && t.2 == out@[m].address@
                },
        decreases ext@.len() - k,
    {
        let labeled = ext[k];
        assert(*labeled == view_ext[k as int]);
        let child = match derive_taproot(master, &labeled.derive_path) {
            Ok(child) => child,
            Err(e) => return Err(e),
        };
        out.push(
            DerivedAddressDto {
                path: labeled.derive_path.to_string(),
                label: labeled.label.clone(),
                address: child.address,
            },
        );
        k = k + 1;
    }
    Ok(out)
}

} // verus!
