//! Bitcoin accounts: the derivation paths in use (the key chain) and the
//! unspent outputs owned (the UTXO set).
use vstd::prelude::*;

use crate::btc::address::{
    path_slice, Change, DerivePath, DerivePathSlice, LabeledDerivationPath, Network, Purpose,
    HARDENED,
};
use crate::chain::btc::coin_selection::{is_selection, lemma_picked_le_total, lemma_selection_len, picked_sum, select, selection_for, total};
use crate::chain::btc::dtos::{outpoint_of_dto, OutPointDto};
use crate::chain::btc::keys::{derive_taproot, is_taproot_child, taproot_child_of, TaprootChild};
use crate::chain::btc::service::entry_values;
use crate::chain::btc::utxo::{
    outpoint_key, txid_eq, utxo_key, KeyDerivationPathLabelMap, OutPoint, Utxo,
};

verus! {

pub type AccountIndex = u32;

pub struct KeyChain {
    pub paths: Vec<LabeledDerivationPath>,
}

/// The paths of a key chain that lie on the given chain, in key-chain order.
pub open spec fn paths_on(paths: Seq<LabeledDerivationPath>, change: Change) -> Seq<
    LabeledDerivationPath,
>
    decreases paths.len(),
{
    if paths.len() == 0 {
        Seq::empty()
    } else if paths.last().derive_path.change == change {
        paths_on(paths.drop_last(), change).push(paths.last())
    } else {
        paths_on(paths.drop_last(), change)
    }
}

/// Address index `i` is in use on the given chain.
pub open spec fn index_used(paths: Seq<LabeledDerivationPath>, change: Change, i: u32) -> bool {
    exists|j: int|
        0 <= j < paths.len() && (#[trigger] paths[j]).derive_path.change == change
            && paths[j].derive_path.index == i
}

/// Every path has a non-hardened account number, so it can be written as raw components.
pub open spec fn accounts_unhardened(paths: Seq<LabeledDerivationPath>) -> bool {
    forall|j: int| 0 <= j < paths.len() ==> (#[trigger] paths[j]).derive_path.account < HARDENED
}

impl KeyChain {
    /// The key chain of a fresh account: its main receiving path only.
    pub fn default(network: Network, account: AccountIndex) -> (chain: Self)
        ensures
            chain.paths@.len() == 1,
            chain.paths@[0].label@ == "main"@,
            chain.paths@[0].derive_path == (DerivePath {
                purpose: Purpose::Bip86,
                account,
                network,
                change: Change::External,
                index: 0,
            }),
    {
        let mut paths = Vec::new();
        paths.push(
            LabeledDerivationPath {
                label: "main".to_owned(),
                derive_path: DerivePath {
                    purpose: Purpose::Bip86,
                    network,
                    account,
                    change: Change::External,
                    index: 0,
                },
            },
        );
        Self { paths }
    }

    /// Returns the first index that hasn't been used yet for a specific change type.
    ///
    /// Every smaller index is in use; `u32::MAX` is returned, in use, only
    /// when every index is in use.
    pub fn next_unused_index(&self, change: Change) -> (index: u32)
        ensures
            forall|i: u32| i < index ==> index_used(self.paths@, change, i),
            !index_used(self.paths@, change, index) || (index == u32::MAX && forall|i: u32|
                index_used(self.paths@, change, i)),
    {
        let mut candidate: u32 = 0;
        loop
            invariant
                forall|i: u32| i < candidate ==> index_used(self.paths@, change, i),
            decreases u32::MAX - candidate,
        {
            // Is `candidate` in use on this chain?
            let mut used = false;
            let mut j: usize = 0;
            while j < self.paths.len()
                invariant
                    j <= self.paths@.len(),
                    used ==> index_used(self.paths@, change, candidate),
                    !used ==> forall|k: int|
                        0 <= k < j ==> !((#[trigger] self.paths@[k]).derive_path.change == change
                            && self.paths@[k].derive_path.index == candidate),
                decreases self.paths@.len() - j,
            {
                let p = &self.paths[j];
                if p.derive_path.change == change && p.derive_path.index == candidate {
                    used = true;
                }
                j = j + 1;
            }
            if !used {
                return candidate;
            }
            if candidate == u32::MAX {
                return candidate;
            }
            candidate = candidate + 1;
        }
    }

    /// Checks if a specific path is already present in the keychain.
    pub fn contains_path(&self, path: DerivePath) -> (found: bool)
        ensures
            found == exists|j: int|
                0 <= j < self.paths@.len() && (#[trigger] self.paths@[j]).derive_path == path,
    {
        let mut j: usize = 0;
        while j < self.paths.len()
            invariant
                j <= self.paths@.len(),
                forall|k: int| 0 <= k < j ==> (#[trigger] self.paths@[k]).derive_path != path,
            decreases self.paths@.len() - j,
        {
            if self.paths[j].derive_path == path {
                return true;
            }
            j = j + 1;
        }
        false
    }

    /// Returns the paths belonging to the internal (change) or external chain.
    pub fn paths_by_change(&self, change: &Change) -> (on_chain: Vec<&LabeledDerivationPath>)
        ensures
            on_chain@.map_values(|p: &LabeledDerivationPath| *p) == paths_on(self.paths@, *change),
    {
        let mut on_chain: Vec<&LabeledDerivationPath> = Vec::new();
        let mut j: usize = 0;
        while j < self.paths.len()
            invariant
                j <= self.paths@.len(),
                on_chain@.map_values(|p: &LabeledDerivationPath| *p) == paths_on(
                    self.paths@.take(j as int),
                    *change,
                ),
            decreases self.paths@.len() - j,
        {
            let ghost before = on_chain@;
            proof {
                assert(self.paths@.take(j + 1).drop_last() =~= self.paths@.take(j as int));
            }
            if self.paths[j].derive_path.change == *change {
                on_chain.push(&self.paths[j]);
                proof {
                    assert(on_chain@.map_values(|p: &LabeledDerivationPath| *p) =~= before.map_values(
                        |p: &LabeledDerivationPath| *p,
                    ).push(self.paths@[j as int]));
                }
            }
            j = j + 1;
        }
        proof {
            assert(self.paths@.take(j as int) =~= self.paths@);
        }
        on_chain
    }

    /// Creates a lookup map of raw path slices to their respective labels.
    pub fn to_label_map(&self) -> (map: KeyDerivationPathLabelMap)
        requires
            accounts_unhardened(self.paths@),
        ensures
            map@.len() == self.paths@.len(),
            forall|j: int|
                0 <= j < map@.len() ==> (#[trigger] map@[j]).0@ == path_slice(
                    self.paths@[j].derive_path,
                ) && map@[j].1@ == self.paths@[j].label@,
    {
        let mut map: KeyDerivationPathLabelMap = Vec::new();
        let mut j: usize = 0;
        while j < self.paths.len()
            invariant
                j <= self.paths@.len(),
                accounts_unhardened(self.paths@),
                map@.len() == j,
                forall|k: int|
                    0 <= k < j ==> (#[trigger] map@[k]).0@ == path_slice(self.paths@[k].derive_path)
                        && map@[k].1@ == self.paths@[k].label@,
            decreases self.paths@.len() - j,
        {
            let entry = &self.paths[j];
            map.push((entry.derive_path.to_slice(), entry.label.clone()));
            j = j + 1;
        }
        map
    }

    /// Registers a new path in the keychain.
    pub fn push(&mut self, child: LabeledDerivationPath)
        ensures
            final(self).paths@ == old(self).paths@.push(child),
    {
        self.paths.push(child);
    }
}

// ---------------------------------------------------------------------------
// UTXO set
// ---------------------------------------------------------------------------

pub struct UtxoSet {
    /// The unspent outputs, at most one per outpoint.
    pub entries: Vec<Utxo>,
}

/// No two entries share an outpoint.
pub open spec fn keys_distinct(entries: Seq<Utxo>) -> bool {
    forall|a: int, b: int|
        0 <= a < entries.len() && 0 <= b < entries.len() && a != b ==> utxo_key(
            #[trigger] entries[a],
        ) != utxo_key(#[trigger] entries[b])
}

/// The map that inserting `utxos` in order builds: a later output with the
/// same outpoint replaces an earlier one.
pub open spec fn insert_all(utxos: Seq<Utxo>) -> Map<(Seq<u8>, u32), Utxo>
    decreases utxos.len(),
{
    if utxos.len() == 0 {
        Map::empty()
    } else {
        insert_all(utxos.drop_last()).insert(utxo_key(utxos.last()), utxos.last())
    }
}

/// Sum of the values of some outputs.
pub open spec fn value_sum(utxos: Seq<Utxo>) -> nat
    decreases utxos.len(),
{
    if utxos.len() == 0 {
        0
    } else {
        value_sum(utxos.drop_last()) + utxos.last().output.value as nat
    }
}

/// The outputs of `entries` at the given outpoints, in the order asked,
/// skipping outpoints that are not in the set.
pub open spec fn outputs_at(entries: Seq<Utxo>, keys: Seq<(Seq<u8>, u32)>) -> Seq<Utxo>
    decreases keys.len(),
{
    if keys.len() == 0 {
        Seq::empty()
    } else {
        let rest = outputs_at(entries, keys.drop_last());
        if exists|j: int| 0 <= j < entries.len() && utxo_key(#[trigger] entries[j]) == keys.last() {
            let j = choose|j: int| 0 <= j < entries.len() && utxo_key(#[trigger] entries[j]) == keys.last();
            rest.push(entries[j])
        } else {
            rest
        }
    }
}

/// With distinct keys, replacing an entry in place inserts it into the map.
proof fn lemma_insert_all_update(entries: Seq<Utxo>, j: int, u: Utxo)
    requires
        keys_distinct(entries),
        0 <= j < entries.len(),
        utxo_key(entries[j]) == utxo_key(u),
    ensures
        insert_all(entries.update(j, u)) =~= insert_all(entries).insert(utxo_key(u), u),
    decreases entries.len(),
{
    let n = entries.len();
    if j == n - 1 {
        assert(entries.update(j, u).drop_last() =~= entries.drop_last());
        // The earlier entries do not hold this key.
        lemma_insert_all_domain(entries.drop_last());
        assert(insert_all(entries).insert(utxo_key(u), u) =~= insert_all(entries.drop_last()).insert(
            utxo_key(u),
            u,
        ));
    } else {
        assert(entries.update(j, u).drop_last() =~= entries.drop_last().update(j, u));
        lemma_insert_all_update(entries.drop_last(), j, u);
        assert(utxo_key(entries.last()) != utxo_key(u)) by {
            assert(utxo_key(entries[n - 1]) != utxo_key(entries[j]));
        }
    }
}

/// The keys of the map built from some outputs are exactly their outpoints.
proof fn lemma_insert_all_domain(entries: Seq<Utxo>)
    ensures
        forall|k: (Seq<u8>, u32)|
            #[trigger] insert_all(entries).contains_key(k) <==> exists|j: int|
                0 <= j < entries.len() && utxo_key(#[trigger] entries[j]) == k,
    decreases entries.len(),
{
    if entries.len() > 0 {
        let prev = entries.drop_last();
        let last = entries.last();
        let n = entries.len() as int;
        lemma_insert_all_domain(prev);
        assert forall|k: (Seq<u8>, u32)|
            #[trigger] insert_all(entries).contains_key(k) <==> exists|j: int|
                0 <= j < entries.len() && utxo_key(#[trigger] entries[j]) == k by {
            assert(insert_all(entries) == insert_all(prev).insert(utxo_key(last), last));
            let in_prev = insert_all(prev).contains_key(k);
            if in_prev {
                let j = choose|j: int| 0 <= j < prev.len() && utxo_key(#[trigger] prev[j]) == k;
                assert(entries[j] == prev[j]);
            }
            if k == utxo_key(last) {
                assert(utxo_key(entries[n - 1]) == k);
            }
            if exists|j: int| 0 <= j < entries.len() && utxo_key(#[trigger] entries[j]) == k {
                let j = choose|j: int| 0 <= j < entries.len() && utxo_key(#[trigger] entries[j]) == k;
                if j < n - 1 {
                    assert(prev[j] == entries[j]);
                    assert(in_prev);
                }
            }
        }
    }
}

/// Two outpoints are the same.
fn outpoint_eq(a: &OutPoint, b: &OutPoint) -> (eq: bool)
    ensures
        eq == (outpoint_key(*a) == outpoint_key(*b)),
{
    a.vout == b.vout && txid_eq(&a.txid, &b.txid)
}

impl UtxoSet {
    /// Position of the output at an outpoint, if the set holds one.
    pub fn position_of(&self, op: &OutPoint) -> (pos: Option<usize>)
        ensures
            pos matches Some(j) ==> j < self.entries@.len() && utxo_key(self.entries@[j as int])
                == outpoint_key(*op),
            pos is None ==> forall|j: int|
                0 <= j < self.entries@.len() ==> utxo_key(#[trigger] self.entries@[j])
                    != outpoint_key(*op),
    {
        let mut j: usize = 0;
        while j < self.entries.len()
            invariant
                j <= self.entries@.len(),
                forall|k: int|
                    0 <= k < j ==> utxo_key(#[trigger] self.entries@[k]) != outpoint_key(*op),
            decreases self.entries@.len() - j,
        {
            let e = &self.entries[j];
            if outpoint_eq(&e.outpoint(), op) {
                return Some(j);
            }
            j = j + 1;
        }
        None
    }

    /// Whether the set holds an output at the outpoint.
    pub fn contains_key(&self, op: &OutPoint) -> (found: bool)
        ensures
            found == exists|j: int|
                0 <= j < self.entries@.len() && utxo_key(#[trigger] self.entries@[j])
                    == outpoint_key(*op),
    {
        match self.position_of(op) {
            Some(_) => true,
            None => false,
        }
    }

    /// Adds an output, replacing any output at the same outpoint.
    pub fn insert(&mut self, utxo: Utxo)
        requires
            keys_distinct(old(self).entries@),
        ensures
            keys_distinct(final(self).entries@),
            insert_all(final(self).entries@) == insert_all(old(self).entries@).insert(
                utxo_key(utxo),
                utxo,
            ),
    {
        let ghost before = self.entries@;
        match self.position_of(&utxo.outpoint()) {
            Some(j) => {
                self.entries.set(j, utxo);
                proof {
                    lemma_insert_all_update(before, j as int, utxo);
                    assert forall|a: int, b: int|
                        0 <= a < self.entries@.len() && 0 <= b < self.entries@.len() && a != b
                            implies utxo_key(#[trigger] self.entries@[a]) != utxo_key(
                        #[trigger] self.entries@[b],
                    ) by {
                        assert(utxo_key(before[a]) != utxo_key(before[b]));
                    }
                }
            },
            None => {
                self.entries.push(utxo);
                proof {
                    assert(self.entries@.drop_last() =~= before);
                }
            },
        }
    }

    /// Replaces the current set of UTXOs with a new collection.
    pub fn replace_all(&mut self, utxos: Vec<Utxo>)
        ensures
            keys_distinct(final(self).entries@),
            insert_all(final(self).entries@) == insert_all(utxos@),
    {
        self.entries.clear();
        let ghost all = utxos@;
        let mut rest = utxos;
        let mut k: usize = 0;
        let n = rest.len();
        assert(self.entries@ =~= Seq::<Utxo>::empty());
        assert(all.skip(0) =~= all);
        while k < n
            invariant
                n == all.len(),
                rest@ == all.skip(k as int),
                k <= n,
                keys_distinct(self.entries@),
                insert_all(self.entries@) == insert_all(all.take(k as int)),
            decreases n - k,
        {
            let u = rest.remove(0);
            proof {
                assert(u == all[k as int]);
                assert(all.take(k + 1).drop_last() =~= all.take(k as int));
                assert(all.skip(k as int).remove(0) =~= all.skip(k + 1));
            }
            self.insert(u);
            k = k + 1;
        }
        proof {
            assert(all.take(n as int) =~= all);
        }
    }

    /// Calculates the sum of all unspent outputs in satoshis.
    pub fn total_value(&self) -> (total: u64)
        requires
            value_sum(self.entries@) <= u64::MAX,
        ensures
            total == value_sum(self.entries@),
    {
        let mut total: u64 = 0;
        let mut j: usize = 0;
        while j < self.entries.len()
            invariant
                j <= self.entries@.len(),
                value_sum(self.entries@) <= u64::MAX,
                total == value_sum(self.entries@.take(j as int)),
            decreases self.entries@.len() - j,
        {
            proof {
                assert(self.entries@.take(j + 1).drop_last() =~= self.entries@.take(j as int));
                lemma_value_sum_prefix(self.entries@, j + 1);
            }
            total = total + self.entries[j].output.value;
            j = j + 1;
        }
        proof {
            assert(self.entries@.take(j as int) =~= self.entries@);
        }
        total
    }

    /// Selects a subset of UTXOs based on the provided strategy.
    pub fn select(&self, method: UtxoSelectionStrategy) -> (picked: Vec<&Utxo>)
        requires
            keys_distinct(self.entries@),
            method matches UtxoSelectionStrategy::Manual(dtos) ==> forall|j: int|
                0 <= j < dtos@.len() ==> #[trigger] outpoint_of_dto(dtos@[j]) is Some,
            method is Auto ==> self.entries@.len() < i32::MAX && value_sum(self.entries@) <= u64::MAX,
        ensures
            method matches UtxoSelectionStrategy::Manual(dtos) ==> picked@.map_values(
                |u: &Utxo| *u,
            ) == outputs_at(
                self.entries@,
                dtos@.map_values(|d: OutPointDto| outpoint_of_dto(d).unwrap()),
            ),
            method matches UtxoSelectionStrategy::Auto(min) ==> auto_picks(
                self.entries@,
                min as u64,
                picked@.map_values(|u: &Utxo| *u),
            ),
    {
        match method {
            UtxoSelectionStrategy::Manual(out_point_dtos) => {
                let ghost dtos = out_point_dtos@;
                let mut outpoints: Vec<OutPoint> = Vec::new();
                let mut j: usize = 0;
                while j < out_point_dtos.len()
                    invariant
                        j <= dtos.len(),
                        dtos == out_point_dtos@,
                        forall|i: int| 0 <= i < dtos.len() ==> #[trigger] outpoint_of_dto(dtos[i]) is Some,
                        outpoints@.len() == j,
                        forall|i: int|
                            0 <= i < j ==> outpoint_key(#[trigger] outpoints@[i]) == outpoint_of_dto(
                                dtos[i],
                            ).unwrap(),
                    decreases dtos.len() - j,
                {
                    assert(outpoint_of_dto(dtos[j as int]) is Some);
                    let op = match out_point_dtos[j].to_outpoint() {
                        Ok(op) => op,
                        Err(_) => {
                            return Vec::new();
                        },
                    };
                    outpoints.push(op);
                    j = j + 1;
                }
                proof {
                    assert(outpoints@.map_values(|op: OutPoint| outpoint_key(op)) =~= dtos.map_values(
                        |d: OutPointDto| outpoint_of_dto(d).unwrap(),
                    ));
                }
                self.select_by_outpoints(outpoints)
            },
            UtxoSelectionStrategy::Auto(min_value) => self.select_automatically(min_value as u64),
        }
    }

    /// Automated coin selection for a minimum value: the coin selection of
    /// `select` over the values of the outputs.
    fn select_automatically(&self, min_value: u64) -> (picked: Vec<&Utxo>)
        requires
            self.entries@.len() < i32::MAX,
            value_sum(self.entries@) <= u64::MAX,
        ensures
            auto_picks(self.entries@, min_value, picked@.map_values(|u: &Utxo| *u)),
    {
        let ghost entries = self.entries@;
        let mut values: Vec<u64> = Vec::new();
        let mut j: usize = 0;
        while j < self.entries.len()
            invariant
                j <= entries.len(),
                entries == self.entries@,
                values@ == entry_values(entries.take(j as int)),
            decreases entries.len() - j,
        {
            values.push(self.entries[j].output.value);
            j = j + 1;
            proof {
                assert(values@ =~= entry_values(entries.take(j as int)));
            }
        }
        proof {
            assert(entries.take(j as int) =~= entries);
            lemma_total_entry_values(entries);
        }
        let sel = select(values.as_slice(), min_value);
        let ghost view_sel = sel@;
        let mut picked: Vec<&Utxo> = Vec::new();
        let mut k: usize = 0;
        while k < sel.len()
            invariant
                k <= view_sel.len(),
                view_sel == sel@,
                entries == self.entries@,
                values@ == entry_values(entries),
                selection_for(values@, min_value, view_sel),
                picked@.map_values(|u: &Utxo| *u) == view_sel.take(k as int).map_values(
                    |i: usize| entries[i as int],
                ),
            decreases view_sel.len() - k,
        {
            assert(is_selection(values@, view_sel));
            assert(view_sel[k as int] < values@.len());
            let i = sel[k];
            let ghost before = picked@;
            picked.push(&self.entries[i]);
            proof {
                assert(view_sel.take(k + 1) =~= view_sel.take(k as int).push(i));
                assert(picked@ == before.push(&self.entries@[i as int]));
                assert(picked@.map_values(|u: &Utxo| *u) =~= before.map_values(|u: &Utxo| *u).push(
                    entries[i as int],
                ));
                assert(view_sel.take(k + 1).map_values(|i: usize| entries[i as int]) =~= view_sel.take(
                    k as int,
                ).map_values(|i: usize| entries[i as int]).push(entries[i as int]));
            }
            k = k + 1;
        }
        proof {
            assert(view_sel.take(k as int) =~= view_sel);
        }
        picked
    }

    /// Retrieves specific UTXOs by their outpoints, ignoring any that aren't in this set.
    fn select_by_outpoints(&self, selected_outpoints: Vec<OutPoint>) -> (picked: Vec<&Utxo>)
        requires
            keys_distinct(self.entries@),
        ensures
            picked@.map_values(|u: &Utxo| *u) == outputs_at(
                self.entries@,
                selected_outpoints@.map_values(|op: OutPoint| outpoint_key(op)),
            ),
    {
        let ghost keys = selected_outpoints@.map_values(|op: OutPoint| outpoint_key(op));
        let mut picked: Vec<&Utxo> = Vec::new();
        let mut j: usize = 0;
        while j < selected_outpoints.len()
            invariant
                j <= selected_outpoints@.len(),
                keys == selected_outpoints@.map_values(|op: OutPoint| outpoint_key(op)),
                keys_distinct(self.entries@),
                picked@.map_values(|u: &Utxo| *u) == outputs_at(self.entries@, keys.take(j as int)),
            decreases selected_outpoints@.len() - j,
        {
            let ghost before = picked@;
            proof {
                assert(keys.take(j + 1).drop_last() =~= keys.take(j as int));
                assert(keys.take(j + 1).last() == outpoint_key(selected_outpoints@[j as int]));
            }
            match self.position_of(&selected_outpoints[j]) {
                Some(pos) => {
                    picked.push(&self.entries[pos]);
                    proof {
                        let k = keys.take(j + 1).last();
                        let c = choose|c: int|
                            0 <= c < self.entries@.len() && utxo_key(#[trigger] self.entries@[c]) == k;
                        if c != pos {
                            assert(utxo_key(self.entries@[c]) != utxo_key(self.entries@[pos as int]));
                        }
                        assert(picked@.map_values(|u: &Utxo| *u) =~= before.map_values(
                            |u: &Utxo| *u,
                        ).push(self.entries@[pos as int]));
                    }
                },
                None => {},
            }
            j = j + 1;
        }
        proof {
            assert(keys.take(j as int) =~= keys);
        }
        picked
    }
}

/// The sum of a prefix of the outputs never exceeds the sum of all of them.
pub(crate) proof fn lemma_value_sum_prefix(utxos: Seq<Utxo>, k: int)
    requires
        0 <= k <= utxos.len(),
    ensures
        value_sum(utxos.take(k)) <= value_sum(utxos),
    decreases utxos.len(),
{
    if k < utxos.len() {
        assert(utxos.drop_last().take(k) =~= utxos.take(k));
        lemma_value_sum_prefix(utxos.drop_last(), k);
    } else {
        assert(utxos.take(k) =~= utxos);
    }
}

/// The outputs automatic selection picks for a minimum value: the outputs
/// at the indices that `select` chooses from their values.
pub open spec fn auto_picks(entries: Seq<Utxo>, min_value: u64, picked: Seq<Utxo>) -> bool {
    exists|sel: Seq<usize>|
        #[trigger] selection_for(entry_values(entries), min_value, sel) && picked == sel.map_values(
            |i: usize| entries[i as int],
        )
}

/// The values of the outputs add up to their value.
pub(crate) proof fn lemma_total_entry_values(entries: Seq<Utxo>)
    ensures
        total(entry_values(entries)) == value_sum(entries),
    decreases entries.len(),
{
    if entries.len() > 0 {
        assert(entry_values(entries).drop_last() =~= entry_values(entries.drop_last()));
        lemma_total_entry_values(entries.drop_last());
    }
}

/// The outputs at some indices are worth what those indices pick of their values.
proof fn lemma_value_sum_picked(entries: Seq<Utxo>, sel: Seq<usize>)
    requires
        forall|j: int| 0 <= j < sel.len() ==> #[trigger] sel[j] < entries.len(),
    ensures
        value_sum(sel.map_values(|i: usize| entries[i as int])) == picked_sum(entry_values(entries), sel),
    decreases sel.len(),
{
    if sel.len() > 0 {
        assert(sel.map_values(|i: usize| entries[i as int]).drop_last() =~= sel.drop_last().map_values(
            |i: usize| entries[i as int],
        ));
        lemma_value_sum_picked(entries, sel.drop_last());
    }
}

/// Automatic selection covers the minimum whenever the outputs can: for a
/// positive minimum no larger than what the set holds, it picks at least one
/// output, each at most once, worth at least the minimum; it picks nothing
/// only when the minimum is 0 or the set holds less.
pub proof fn lemma_auto_picks_cover(entries: Seq<Utxo>, min_value: u64, picked: Seq<Utxo>)
    requires
        auto_picks(entries, min_value, picked),
        entries.len() <= usize::MAX,
    ensures
        0 < min_value <= value_sum(entries) ==> {
            &&& picked.len() > 0
            &&& value_sum(picked) >= min_value
            &&& value_sum(picked) <= value_sum(entries)
            &&& exists|sel: Seq<usize>|
                sel.no_duplicates() && picked == sel.map_values(|i: usize| entries[i as int]) && forall|j: int|
                    0 <= j < sel.len() ==> #[trigger] sel[j] < entries.len()
        },
        (min_value == 0 || value_sum(entries) < min_value) ==> picked.len() == 0,
        picked.len() <= entries.len(),
{
    let sel = choose|sel: Seq<usize>|
        #[trigger] selection_for(entry_values(entries), min_value, sel) && picked == sel.map_values(
            |i: usize| entries[i as int],
        );
    let values = entry_values(entries);
    lemma_total_entry_values(entries);
    if 0 < min_value <= value_sum(entries) {
        assert(values.len() == entries.len());
        assert(is_selection(values, sel));
        lemma_value_sum_picked(entries, sel);
        lemma_picked_le_total(values, sel);
        lemma_selection_len(values, sel);
        if sel.len() == 0 {
            assert(picked_sum(values, sel) == 0);
        }
    }
}

pub enum UtxoSelectionStrategy {
    Manual(Vec<OutPointDto>),
    Auto(u32),
}

pub struct Account {
    pub index: AccountIndex,
    pub name: String,
    pub keychain: KeyChain,
    pub utxo_set: UtxoSet,
}

/// A fresh account: its index and name, its main receiving path (labelled
/// "main") only, and no outputs.
pub open spec fn is_fresh_account(a: Account, network: Network, index: AccountIndex, name: Seq<char>) -> bool {
    &&& a.index == index
    &&& a.name@ == name
    &&& a.keychain.paths@.len() == 1
    &&& a.keychain.paths@[0].label@ == "main"@
    &&& a.keychain.paths@[0].derive_path == (DerivePath {
        purpose: Purpose::Bip86,
        account: index,
        network,
        change: Change::External,
        index: 0,
    })
    &&& a.utxo_set.entries@.len() == 0
}

impl Account {
    pub fn new(network: Network, account: AccountIndex, name: String) -> (created: Self)
        ensures
            is_fresh_account(created, network, account, name@),
    {
        Self {
            index: account,
            name,
            keychain: KeyChain::default(network, account),
            utxo_set: UtxoSet { entries: Vec::new() },
        }
    }

    /// The path of the account's main receiving address: BIP-86, external
    /// chain, index 0.
    pub fn main_path(&self, network: Network) -> (path: DerivePath)
        ensures
            path == main_path_of(self.index, network),
    {
        DerivePath { purpose: Purpose::Bip86, network, account: self.index, change: Change::External, index: 0 }
    }

    /// The paths whose addresses make up the account's address map, in the
    /// order they are derived: every key-chain path other than the main
    /// receiving one, then the main receiving path. A key-chain path whose
    /// key cannot be derived is left out of the map; the main one must be
    /// derivable.
    pub fn address_map_paths(&self, network: Network) -> (paths: Vec<DerivePath>)
        ensures
            paths@ == paths_except(self.keychain.paths@, main_path_of(self.index, network)).push(
                main_path_of(self.index, network),
            ),
    {
        let main = self.main_path(network);
        let mut paths: Vec<DerivePath> = Vec::new();
        let mut j: usize = 0;
        while j < self.keychain.paths.len()
            invariant
                j <= self.keychain.paths@.len(),
                main == main_path_of(self.index, network),
                paths@ == paths_except(self.keychain.paths@.take(j as int), main),
            decreases self.keychain.paths@.len() - j,
        {
            let p = self.keychain.paths[j].derive_path;
            proof {
                assert(self.keychain.paths@.take(j + 1).drop_last() =~= self.keychain.paths@.take(j as int));
            }
            if p != main {
                paths.push(p);
            }
            j = j + 1;
        }
        proof {
            assert(self.keychain.paths@.take(j as int) =~= self.keychain.paths@);
        }
        paths.push(main);
        paths
    }

    /// The key of the account's main receiving address, and its path.
    pub fn main_key(&self, master: &[u8; 78], network: Network) -> (key: Result<(TaprootChild, DerivePath), String>)
        ensures
            key matches Ok(k) ==> k.1 == main_path_of(self.index, network) && is_taproot_child(k.0, master@, k.1),
            key matches Err(e) ==> (taproot_child_of(master@, main_path_of(self.index, network)) matches Err(t)
                && t == e@),
    {
        let path = self.main_path(network);
        match derive_taproot(master, &path) {
            Ok(child) => Ok((child, path)),
            Err(e) => Err(e),
        }
    }

    /// Every address of the account's key chain with its path, the main
    /// receiving address last: key-chain paths whose key cannot be derived
    /// are left out; the main key must be derivable, else its error.
    pub fn derive_address_path_map(&self, master: &[u8; 78], network: Network) -> (map: Result<
        Vec<(TaprootChild, DerivePath)>,
        String,
    >)
        ensures
            taproot_child_of(master@, main_path_of(self.index, network)) matches Err(t) ==> (map matches Err(e)
                && e@ == t),
            taproot_child_of(master@, main_path_of(self.index, network)) matches Ok(t) ==> (map matches Ok(v)
                && v@.map_values(|e: (TaprootChild, DerivePath)| child_view(e)) == derived_children(
                master@,
                paths_except(self.keychain.paths@, main_path_of(self.index, network)),
            ).push((t, main_path_of(self.index, network)))),
    {
        let (main, main_path) = match self.main_key(master, network) {
            Ok(k) => k,
            Err(e) => return Err(e),
        };
        let paths = self.address_map_paths(network);
        let n = paths.len() - 1;
        let ghost others = paths_except(self.keychain.paths@, main_path_of(self.index, network));
        proof {
            assert(paths@.take(n as int) =~= others);
        }
        let mut map: Vec<(TaprootChild, DerivePath)> = Vec::new();
        let mut k: usize = 0;
        while k < n
            invariant
                k <= n,
                n == paths@.len() - 1,
                paths@.take(n as int) == others,
                map@.map_values(|e: (TaprootChild, DerivePath)| child_view(e)) == derived_children(
                    master@,
                    others.take(k as int),
                ),
            decreases n - k,
        {
            let path = paths[k];
            let ghost before = map@;
            proof {
                assert(others.take(k + 1).drop_last() =~= others.take(k as int));
                assert(others.take(k + 1).last() == path);
            }
            match derive_taproot(master, &path) {
                Ok(child) => {
                    map.push((child, path));
                    proof {
                        assert(map@.map_values(|e: (TaprootChild, DerivePath)| child_view(e)) =~= before.map_values(
                            |e: (TaprootChild, DerivePath)| child_view(e),
                        ).push(child_view((child, path))));
                    }
                },
                Err(_) => {},
            }
            k = k + 1;
        }
        proof {
            assert(others.take(n as int) =~= others);
        }
        let ghost before = map@;
        map.push((main, main_path));
        proof {
            assert(map@.map_values(|e: (TaprootChild, DerivePath)| child_view(e)) =~= before.map_values(
                |e: (TaprootChild, DerivePath)| child_view(e),
            ).push(child_view((main, main_path))));
        }
        Ok(map)
    }
}

/// A derived key with its path, as plain values.
pub open spec fn child_view(e: (TaprootChild, DerivePath)) -> ((Seq<u8>, Seq<u8>, Seq<char>), DerivePath) {
    ((e.0.xonly@, e.0.script_pubkey@, e.0.address@), e.1)
}

/// The taproot keys of the paths whose keys can be derived, each with its
/// path, in order; paths whose key cannot be derived are left out.
pub open spec fn derived_children(master: Seq<u8>, paths: Seq<DerivePath>) -> Seq<
    ((Seq<u8>, Seq<u8>, Seq<char>), DerivePath),
>
    decreases paths.len(),
{
    if paths.len() == 0 {
        Seq::empty()
    } else {
        let prev = derived_children(master, paths.drop_last());
        match taproot_child_of(master, paths.last()) {
            Ok(t) => prev.push((t, paths.last())),
            Err(_) => prev,
        }
    }
}

/// The path of an account's main receiving address.
pub open spec fn main_path_of(index: AccountIndex, network: Network) -> DerivePath {
    DerivePath { purpose: Purpose::Bip86, account: index, network, change: Change::External, index: 0 }
}

/// The paths of a key chain other than `excluded`, in key-chain order.
pub open spec fn paths_except(paths: Seq<LabeledDerivationPath>, excluded: DerivePath) -> Seq<DerivePath>
    decreases paths.len(),
{
    if paths.len() == 0 {
        Seq::empty()
    } else if paths.last().derive_path == excluded {
        paths_except(paths.drop_last(), excluded)
    } else {
        paths_except(paths.drop_last(), excluded).push(paths.last().derive_path)
    }
}

} // verus!
