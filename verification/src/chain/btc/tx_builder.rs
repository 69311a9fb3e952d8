//! Amounts of a payment transaction: the miner fee, the recipient's amount
//! and the change returned to the wallet.
use vstd::prelude::*;

use crate::btc::address::{Change, DerivePath, LabeledDerivationPath, Network, Purpose};
use crate::chain::btc::account::{
    auto_picks, index_used, keys_distinct, lemma_auto_picks_cover, outputs_at, value_sum, Account,
    UtxoSelectionStrategy,
};
use crate::chain::btc::dtos::{outpoint_of_dto, OutPointDto};
use crate::chain::btc::keys::{derive_taproot, taproot_child_of};
use crate::chain::btc::utxo::{utxo_key, Utxo};

verus! {

/// Outputs below this many satoshis are dust and are not created.
pub const UTXO_DUST_VALUE: u64 = 330;

/// The fee never goes below this many satoshis.
pub const MIN_RELAY_FEE: u64 = 16;

/// Weight units of a key-path taproot transaction: 42 of overhead, 229 per
/// input and 172 per output (10.5, 57.25 and 43 virtual bytes).
pub open spec fn taproot_weight(input_count: nat, output_count: nat) -> nat {
    42 + 229 * input_count + 172 * output_count
}

/// Virtual size of a key-path taproot transaction: its weight divided by
/// four, rounded up.
pub fn estimate_taproot_vbytes(input_count: usize, output_count: usize) -> (vbytes: u64)
    requires
        taproot_weight(input_count as nat, output_count as nat) <= u64::MAX,
    ensures
        vbytes == (taproot_weight(input_count as nat, output_count as nat) + 3) / 4,
{
    // We multiply by 4 to work in Weight Units (integers) and divide at the end
    // to avoid floating point math inaccuracies.
    let weight_units: u64 = 42 + (229 * input_count as u64) + (172 * output_count as u64);
    // vBytes is Weight / 4, rounded up to the nearest integer
    if weight_units % 4 == 0 {
        weight_units / 4
    } else {
        weight_units / 4 + 1
    }
}

pub struct ResolvedAmounts {
    pub send_value_sat: u64,
    pub change_value_sat: u64,
    pub has_change: bool,
}

/// Number of outputs the fee is estimated for: a sweep (sending exactly the
/// selected inputs) has only the recipient's output, any other payment also
/// has a change output.
pub fn fee_output_count(total_input: u64, requested_send_value: u64) -> (count: usize)
    ensures
        count == if requested_send_value == total_input { 1usize } else { 2usize },
{
    if requested_send_value == total_input {
        1
    } else {
        2
    }
}

/// The fee actually charged: the required fee, at least the relay minimum.
pub open spec fn charged_fee(required_fee: u64) -> u64 {
    if required_fee > MIN_RELAY_FEE {
        required_fee
    } else {
        MIN_RELAY_FEE
    }
}

/// The amounts of a payment of `requested_send_value` from inputs worth
/// `total_input`, or the error that refuses it.
pub open spec fn resolved_amounts(total_input: u64, requested_send_value: u64, required_fee: u64) -> Result<
    ResolvedAmounts,
    Seq<char>,
> {
    let fee = charged_fee(required_fee);
    if requested_send_value == total_input {
        if total_input < fee {
            Err("insufficient funds to cover miner fee"@)
        } else {
            Ok(ResolvedAmounts { send_value_sat: (total_input - fee) as u64, change_value_sat: 0, has_change: false })
        }
    } else if requested_send_value + fee > u64::MAX {
        Err("overflow calculating required amount"@)
    } else if total_input < requested_send_value + fee {
        Err("insufficient funds to cover send amount and miner fee"@)
    } else {
        let leftover = (total_input - requested_send_value - fee) as u64;
        let has_change = leftover >= UTXO_DUST_VALUE;
        Ok(
            ResolvedAmounts {
                send_value_sat: requested_send_value,
                change_value_sat: if has_change { leftover } else { 0 },
                has_change,
            },
        )
    }
}

/// Resolve the recipient and change amounts after accounting for the miner fee.
///
/// `required_fee` is the fee for the virtual size estimated with
/// `fee_output_count(total_input, requested_send_value)` outputs.
///
/// When `requested_send_value` equals `total_input`, the transaction sweeps the
/// selected UTXOs: the fee is subtracted from the send amount and no change
/// output is produced. Otherwise the fee is added on top of the requested send
/// value, and any leftover above the dust threshold becomes change.
pub fn resolve_amounts(total_input: u64, requested_send_value: u64, required_fee: u64) -> (result:
    Result<ResolvedAmounts, String>)
    ensures
        result matches Ok(a) ==> resolved_amounts(total_input, requested_send_value, required_fee) == Ok::<
            ResolvedAmounts,
            Seq<char>,
        >(a),
        result matches Err(e) ==> resolved_amounts(total_input, requested_send_value, required_fee)
            == Err::<ResolvedAmounts, Seq<char>>(e@),
{
    let is_sweep = requested_send_value == total_input;
    let fee = if required_fee > MIN_RELAY_FEE {
        required_fee
    } else {
        MIN_RELAY_FEE
    };

    let (send_value_sat, potential_change) = if is_sweep {
        let send = match total_input.checked_sub(fee) {
            Some(send) => send,
            None => return Err("insufficient funds to cover miner fee".to_owned()),
        };
        (send, 0)
    } else {
        let total_required = match requested_send_value.checked_add(fee) {
            Some(total) => total,
            None => return Err("overflow calculating required amount".to_owned()),
        };
        let change = match total_input.checked_sub(total_required) {
            Some(change) => change,
            None => return Err("insufficient funds to cover send amount and miner fee".to_owned()),
        };
        (requested_send_value, change)
    };

    let has_change = potential_change >= UTXO_DUST_VALUE;
    let change_value_sat = if has_change {
        potential_change
    } else {
        0
    };

    Ok(ResolvedAmounts { send_value_sat, change_value_sat, has_change })
}

/// Nothing is created or lost: whenever a payment is resolved, the
/// recipient's amount, the change and the fee paid add up to the inputs, the
/// fee paid is at least the charged fee, and it exceeds it only by dust that
/// was not worth a change output.
pub proof fn lemma_amounts_balance(total_input: u64, requested_send_value: u64, required_fee: u64)
    requires
        resolved_amounts(total_input, requested_send_value, required_fee) is Ok,
    ensures
        match resolved_amounts(total_input, requested_send_value, required_fee) {
            Ok(a) => {
                let paid = total_input - a.send_value_sat - a.change_value_sat;
                &&& paid >= charged_fee(required_fee)
                &&& paid < charged_fee(required_fee) + UTXO_DUST_VALUE
                &&& a.has_change <==> a.change_value_sat > 0
                &&& a.has_change ==> a.change_value_sat >= UTXO_DUST_VALUE
            },
            Err(_) => false,
        },
{
}

/// The sum of the values of the chosen outputs.
pub fn inputs_total(utxos: &Vec<&Utxo>) -> (total: u64)
    requires
        value_sum(utxos@.map_values(|u: &Utxo| *u)) <= u64::MAX,
    ensures
        total == value_sum(utxos@.map_values(|u: &Utxo| *u)),
{
    let ghost all = utxos@.map_values(|u: &Utxo| *u);
    let mut total: u64 = 0;
    let mut j: usize = 0;
    while j < utxos.len()
        invariant
            j <= utxos@.len(),
            all == utxos@.map_values(|u: &Utxo| *u),
            value_sum(all) <= u64::MAX,
            total == value_sum(all.take(j as int)),
        decreases utxos@.len() - j,
    {
        proof {
            assert(all.take(j + 1).drop_last() =~= all.take(j as int));
            crate::chain::btc::account::lemma_value_sum_prefix(all, j + 1);
        }
        total = total + utxos[j].output.value;
        j = j + 1;
    }
    proof {
        assert(all.take(j as int) =~= all);
    }
    total
}

/// `labeled` is the path of a change output of the account: the next unused
/// index on its internal chain, labelled "Change".
pub open spec fn is_next_change_path(account: Account, network: Network, labeled: LabeledDerivationPath) -> bool {
    &&& labeled.label@ == "Change"@
    &&& labeled.derive_path.purpose == Purpose::Bip86
    &&& labeled.derive_path.network == network
    &&& labeled.derive_path.account == account.index
    &&& labeled.derive_path.change == Change::Internal
    &&& forall|i: u32| i < labeled.derive_path.index ==> index_used(account.keychain.paths@, Change::Internal, i)
    &&& !index_used(account.keychain.paths@, Change::Internal, labeled.derive_path.index) || (
    labeled.derive_path.index == u32::MAX && forall|i: u32| index_used(account.keychain.paths@, Change::Internal, i))
}

/// Change addresses are not reused: once a payment's (unused) change path
/// is recorded in the key chain, the next change path has a larger index,
/// unless every index is taken.
pub proof fn lemma_change_path_advances(
    account: Account,
    network: Network,
    first: LabeledDerivationPath,
    after: Account,
    second: LabeledDerivationPath,
)
    requires
        is_next_change_path(account, network, first),
        !index_used(account.keychain.paths@, Change::Internal, first.derive_path.index),
        after.index == account.index,
        after.keychain.paths@ == account.keychain.paths@.push(first),
        is_next_change_path(after, network, second),
    ensures
        second.derive_path.index > first.derive_path.index || (second.derive_path.index == u32::MAX
            && forall|i: u32| index_used(after.keychain.paths@, Change::Internal, i)),
{
    let before = account.keychain.paths@;
    let now = after.keychain.paths@;
    let k = first.derive_path.index;
    let s = second.derive_path.index;
    if s <= k {
        if s == k {
            assert(now[before.len() as int] == first);
            assert(index_used(now, Change::Internal, k));
        } else {
            assert(index_used(before, Change::Internal, s));
            let j = choose|j: int|
                0 <= j < before.len() && (#[trigger] before[j]).derive_path.change == Change::Internal
                    && before[j].derive_path.index == s;
            assert(now[j] == before[j]);
            assert(index_used(now, Change::Internal, s));
        }
    }
}

/// The path of the change output: the next unused index on the account's
/// internal chain, labelled "Change".
pub fn change_key_path(account: &Account, network: Network) -> (labeled: LabeledDerivationPath)
    ensures
        is_next_change_path(*account, network, labeled),
        labeled.label@ == "Change"@,
        labeled.derive_path.purpose == Purpose::Bip86,
        labeled.derive_path.network == network,
        labeled.derive_path.account == account.index,
        labeled.derive_path.change == Change::Internal,
        forall|i: u32|
            i < labeled.derive_path.index ==> index_used(account.keychain.paths@, Change::Internal, i),
        !index_used(account.keychain.paths@, Change::Internal, labeled.derive_path.index) || (
        labeled.derive_path.index == u32::MAX && forall|i: u32|
            index_used(account.keychain.paths@, Change::Internal, i)),
{
    let change_index = account.keychain.next_unused_index(Change::Internal);
    LabeledDerivationPath {
        label: "Change".to_owned(),
        derive_path: DerivePath {
            purpose: Purpose::Bip86,
            network,
            account: account.index,
            change: Change::Internal,
            index: change_index,
        },
    }
}

/// `picked` is what a selection strategy picks from the entries: for a
/// manual one, the outputs at the outpoints asked, in the order asked; for
/// an automatic one, the coin selection for its minimum value.
pub open spec fn strategy_picks(entries: Seq<Utxo>, method: UtxoSelectionStrategy, picked: Seq<Utxo>) -> bool {
    match method {
        UtxoSelectionStrategy::Manual(dtos) => picked == outputs_at(
            entries,
            dtos@.map_values(|d: OutPointDto| outpoint_of_dto(d).unwrap()),
        ),
        UtxoSelectionStrategy::Auto(min) => auto_picks(entries, min as u64, picked),
    }
}

/// A strategy picks nothing: none of the outpoints asked is held, or the
/// minimum is 0 or more than the outputs hold.
pub open spec fn picks_nothing(entries: Seq<Utxo>, method: UtxoSelectionStrategy) -> bool {
    match method {
        UtxoSelectionStrategy::Manual(dtos) => outputs_at(
            entries,
            dtos@.map_values(|d: OutPointDto| outpoint_of_dto(d).unwrap()),
        ).len() == 0,
        UtxoSelectionStrategy::Auto(min) => min == 0 || value_sum(entries) < min,
    }
}

/// The outputs at some outpoints are never more than the outpoints asked.
proof fn lemma_outputs_at_len(entries: Seq<Utxo>, keys: Seq<(Seq<u8>, u32)>)
    ensures
        outputs_at(entries, keys).len() <= keys.len(),
    decreases keys.len(),
{
    if keys.len() > 0 {
        lemma_outputs_at_len(entries, keys.drop_last());
    }
}

/// The inputs a payment spends, their value, and the virtual size the
/// payment is estimated at.
pub struct PaymentInputs<'a> {
    pub utxos: Vec<&'a Utxo>,
    pub total_input: u64,
    pub estimated_vbytes: u64,
}

/// First half of building a payment: picks the inputs by the strategy,
/// adds up their value, and estimates the virtual size for the outputs the
/// fee is charged for (one for a sweep, two otherwise). The fee for that
/// size is then worked out from the fee rate, and `plan_payment` does the
/// rest.
pub fn select_payment_inputs<'a>(
    account: &'a Account,
    method: UtxoSelectionStrategy,
    send_value_sat: u64,
) -> (selected: Result<PaymentInputs<'a>, String>)
    requires
        keys_distinct(account.utxo_set.entries@),
        method matches UtxoSelectionStrategy::Manual(dtos) ==> (forall|j: int|
            0 <= j < dtos@.len() ==> #[trigger] outpoint_of_dto(dtos@[j]) is Some) && taproot_weight(
            dtos@.len(),
            2,
        ) <= u64::MAX && value_sum(
            outputs_at(
                account.utxo_set.entries@,
                dtos@.map_values(|d: OutPointDto| outpoint_of_dto(d).unwrap()),
            ),
        ) <= u64::MAX,
        method is Auto ==> account.utxo_set.entries@.len() < i32::MAX && value_sum(account.utxo_set.entries@)
            <= u64::MAX && taproot_weight(account.utxo_set.entries@.len(), 2) <= u64::MAX,
    ensures
        selected matches Ok(p) ==> {
            let picked = p.utxos@.map_values(|u: &Utxo| *u);
            &&& strategy_picks(account.utxo_set.entries@, method, picked)
            &&& picked.len() > 0
            &&& p.total_input == value_sum(picked)
            &&& p.estimated_vbytes == (taproot_weight(
                picked.len(),
                if send_value_sat == p.total_input { 1 } else { 2 },
            ) + 3) / 4
        },
        selected is Err <==> picks_nothing(account.utxo_set.entries@, method),
        selected matches Err(e) ==> e@ == "no utxos selected for transaction"@,
{
    let ghost m = method;
    let utxos = account.utxo_set.select(method);
    let ghost picked = utxos@.map_values(|u: &Utxo| *u);
    proof {
        match m {
            UtxoSelectionStrategy::Manual(dtos) => {
                lemma_outputs_at_len(
                    account.utxo_set.entries@,
                    dtos@.map_values(|d: OutPointDto| outpoint_of_dto(d).unwrap()),
                );
            },
            UtxoSelectionStrategy::Auto(min) => {
                lemma_auto_picks_cover(account.utxo_set.entries@, min as u64, picked);
            },
        }
    }
    if utxos.len() == 0 {
        return Err("no utxos selected for transaction".to_owned());
    }
    let total_input = inputs_total(&utxos);
    let outputs = fee_output_count(total_input, send_value_sat);
    let estimated_vbytes = estimate_taproot_vbytes(utxos.len(), outputs);
    Ok(PaymentInputs { utxos, total_input, estimated_vbytes })
}

/// What a payment pays: the resolved amounts, how many outputs it has, and
/// the path its change goes to.
pub struct PaymentPlan {
    pub amounts: ResolvedAmounts,
    pub output_count: usize,
    pub change_key_path: LabeledDerivationPath,
}

/// Second half of building a payment: given the fee required for the
/// estimated size, resolves the amounts, and picks the change path. A
/// payment has a change output (the first) only where the change is not
/// dust; the recipient's output comes last.
pub fn plan_payment(
    account: &Account,
    total_input: u64,
    send_value_sat: u64,
    required_fee: u64,
    network: Network,
) -> (plan: Result<PaymentPlan, String>)
    ensures
        plan matches Ok(p) ==> {
            &&& resolved_amounts(total_input, send_value_sat, required_fee) == Ok::<
                ResolvedAmounts,
                Seq<char>,
            >(p.amounts)
            &&& p.output_count == if p.amounts.has_change { 2usize } else { 1usize }
            &&& is_next_change_path(*account, network, p.change_key_path)
        },
        plan matches Err(e) ==> resolved_amounts(total_input, send_value_sat, required_fee) == Err::<
            ResolvedAmounts,
            Seq<char>,
        >(e@),
{
    let amounts = resolve_amounts(total_input, send_value_sat, required_fee)?;
    let output_count: usize = if amounts.has_change { 2 } else { 1 };
    let change_key_path = change_key_path(account, network);
    Ok(PaymentPlan { amounts, output_count, change_key_path })
}

/// Sequence number of a payment's inputs: final, no replacement signalled.
pub const PAYMENT_SEQUENCE: u32 = 0xFFFF_FFFF;

/// An input of an unsigned transaction: the outpoint it spends, its sequence
/// number, the output it spends, that output's path and the x-only key of
/// that path, which signs the input by the key path.
pub struct LayoutInput {
    pub tx_id: [u8; 32],
    pub vout: u32,
    pub sequence: u32,
    pub value: u64,
    pub script_pubkey: Vec<u8>,
    pub derivation: DerivePath,
    pub internal_key: [u8; 32],
}

/// An output of an unsigned transaction.
pub struct LayoutOutput {
    pub value: u64,
    pub script_pubkey: Vec<u8>,
}

/// The inputs and outputs of an unsigned transaction, in order.
pub struct TxLayout {
    pub inputs: Vec<LayoutInput>,
    pub outputs: Vec<LayoutOutput>,
}

/// The input spends the output with the sequence number, and carries the
/// output and the x-only key of its path from the master key.
pub open spec fn is_layout_input(i: LayoutInput, u: Utxo, sequence: u32, master: Seq<u8>) -> bool {
    &&& i.tx_id == u.tx_id
    &&& i.vout == u.vout
    &&& i.sequence == sequence
    &&& i.value == u.output.value
    &&& i.script_pubkey@ == u.output.script_pubkey@
    &&& i.derivation == u.derivation
    &&& taproot_child_of(master, u.derivation) matches Ok(t) && t.0 == i.internal_key@
}

/// An output by its value and script.
pub open spec fn output_view(o: LayoutOutput) -> (u64, Seq<u8>) {
    (o.value, o.script_pubkey@)
}

/// Every input spends the output at the same place with the sequence number.
pub open spec fn inputs_laid_out(inputs: Seq<LayoutInput>, utxos: Seq<&Utxo>, sequence: u32, master: Seq<u8>) -> bool {
    &&& inputs.len() == utxos.len()
    &&& forall|k: int| 0 <= k < inputs.len() ==> is_layout_input(#[trigger] inputs[k], *utxos[k], sequence, master)
}

/// The key of some output's path cannot be derived: the first such, with
/// the error prefixed as the input's.
pub open spec fn input_key_error(utxos: Seq<&Utxo>, master: Seq<u8>, e: Seq<char>) -> bool {
    exists|k: int|
        0 <= k < utxos.len() && (forall|j: int| 0 <= j < k ==> taproot_child_of(master, #[trigger] utxos[j].derivation) is Ok)
            && (taproot_child_of(master, #[trigger] utxos[k].derivation) matches Err(t) && e
            == "failed to derive child key: "@ + t)
}

/// Every output's key can be derived.
pub open spec fn input_keys_derive(utxos: Seq<&Utxo>, master: Seq<u8>) -> bool {
    forall|k: int| 0 <= k < utxos.len() ==> taproot_child_of(master, #[trigger] utxos[k].derivation) is Ok
}

/// The inputs spending the outputs in order, each with the sequence number
/// and the key of its path; the first output whose key cannot be derived
/// fails them.
pub fn layout_inputs(master: &[u8; 78], utxos: &Vec<&Utxo>, sequence: u32) -> (inputs: Result<Vec<LayoutInput>, String>)
    ensures
        inputs matches Ok(v) ==> inputs_laid_out(v@, utxos@, sequence, master@) && input_keys_derive(utxos@, master@),
        inputs matches Err(e) ==> input_key_error(utxos@, master@, e@),
{
    let mut out: Vec<LayoutInput> = Vec::new();
    let mut k: usize = 0;
    while k < utxos.len()
        invariant
            k <= utxos@.len(),
            inputs_laid_out(out@, utxos@.take(k as int), sequence, master@),
            forall|j: int| 0 <= j < k ==> taproot_child_of(master@, #[trigger] utxos@[j].derivation) is Ok,
        decreases utxos@.len() - k,
    {
        let u: &Utxo = utxos[k];
        match derive_taproot(master, &u.derivation) {
            Ok(child) => {
                let script = u.output.script_pubkey.clone();
                proof {
                    assert(script@ =~= u.output.script_pubkey@);
                }
                let input = LayoutInput {
                    tx_id: u.tx_id,
                    vout: u.vout,
                    sequence,
                    value: u.output.value,
                    script_pubkey: script,
                    derivation: u.derivation,
                    internal_key: child.xonly,
                };
                let ghost prev = out@;
                out.push(input);
                proof {
                    assert forall|m: int| 0 <= m < out@.len() implies is_layout_input(
                        #[trigger] out@[m],
                        *utxos@.take(k + 1)[m],
                        sequence,
                        master@,
                    ) by {
                        if m < k {
                            assert(out@[m] == prev[m]);
                            assert(utxos@.take(k + 1)[m] == utxos@.take(k as int)[m]);
                        }
                    }
                }
            },
            Err(e) => {
                let mut message = "failed to derive child key: ".to_owned();
                message.append(e.as_str());
                proof {
                    assert(taproot_child_of(master@, utxos@[k as int].derivation) is Err);
                }
                return Err(message);
            },
        }
        k = k + 1;
    }
    proof {
        assert(utxos@.take(k as int) =~= utxos@);
    }
    Ok(out)
}

/// The outputs of a payment: the change to the change path's key first,
/// where there is change, then the recipient's.
pub open spec fn payment_outputs(
    amounts: ResolvedAmounts,
    change_script: Seq<u8>,
    recipient_script: Seq<u8>,
) -> Seq<(u64, Seq<u8>)> {
    if amounts.has_change {
        seq![(amounts.change_value_sat, change_script), (amounts.send_value_sat, recipient_script)]
    } else {
        seq![(amounts.send_value_sat, recipient_script)]
    }
}

/// The value of some outputs, in satoshis.
pub open spec fn outputs_value(outputs: Seq<(u64, Seq<u8>)>) -> int
    decreases outputs.len(),
{
    if outputs.len() == 0 {
        0
    } else {
        outputs_value(outputs.drop_last()) + outputs.last().0
    }
}

/// A laid-out payment creates no value: its outputs are worth its inputs
/// less the fee it pays, which is at least the fee charged for its size and
/// above it only by dust not worth a change output.
pub proof fn lemma_layout_pays_inputs_less_fee(
    total_input: u64,
    requested_send_value: u64,
    required_fee: u64,
    change_script: Seq<u8>,
    recipient_script: Seq<u8>,
)
    requires
        resolved_amounts(total_input, requested_send_value, required_fee) is Ok,
    ensures
        ({
            let a = resolved_amounts(total_input, requested_send_value, required_fee)->Ok_0;
            let paid = total_input - outputs_value(payment_outputs(a, change_script, recipient_script));
            &&& charged_fee(required_fee) <= paid < charged_fee(required_fee) + UTXO_DUST_VALUE
        }),
{
    lemma_amounts_balance(total_input, requested_send_value, required_fee);
    let a = resolved_amounts(total_input, requested_send_value, required_fee)->Ok_0;
    let outs = payment_outputs(a, change_script, recipient_script);
    if a.has_change {
        let first = outs.drop_last();
        assert(first =~= seq![(a.change_value_sat, change_script)]);
        assert(first.drop_last() =~= Seq::<(u64, Seq<u8>)>::empty());
        assert(outputs_value(first.drop_last()) == 0);
        assert(outputs_value(first) == a.change_value_sat);
        assert(outputs_value(outs) == a.change_value_sat + a.send_value_sat);
    } else {
        assert(outs.drop_last() =~= Seq::<(u64, Seq<u8>)>::empty());
        assert(outputs_value(outs.drop_last()) == 0);
        assert(outputs_value(outs) == a.send_value_sat);
    }
}

/// Lays out a planned payment: the selected outputs in order as final
/// inputs, then the change output (to the change path's key) where there is
/// change, and the recipient's output last. The change key is derived
/// first; an underivable key fails the layout with its error.
pub fn payment_layout(
    master: &[u8; 78],
    inputs: &PaymentInputs,
    plan: &PaymentPlan,
    recipient_script: &Vec<u8>,
) -> (layout: Result<TxLayout, String>)
    ensures
        layout matches Ok(l) ==> {
            &&& inputs_laid_out(l.inputs@, inputs.utxos@, PAYMENT_SEQUENCE, master@)
            &&& plan.amounts.has_change ==> (taproot_child_of(master@, plan.change_key_path.derive_path) matches Ok(t)
                && l.outputs@.map_values(|o: LayoutOutput| output_view(o)) == payment_outputs(
                plan.amounts,
                t.1,
                recipient_script@,
            ))
            &&& !plan.amounts.has_change ==> l.outputs@.map_values(|o: LayoutOutput| output_view(o))
                == payment_outputs(plan.amounts, Seq::empty(), recipient_script@)
        },
        layout is Ok <==> (plan.amounts.has_change ==> taproot_child_of(
            master@,
            plan.change_key_path.derive_path,
        ) is Ok) && input_keys_derive(inputs.utxos@, master@),
        layout matches Err(e) ==> if plan.amounts.has_change && taproot_child_of(
            master@,
            plan.change_key_path.derive_path,
        ) is Err {
            taproot_child_of(master@, plan.change_key_path.derive_path) matches Err(t) && e@
                == "failed to derive change key: "@ + t
        } else {
            input_key_error(inputs.utxos@, master@, e@)
        },
{
    let mut outputs: Vec<LayoutOutput> = Vec::new();
    if plan.amounts.has_change {
        match derive_taproot(master, &plan.change_key_path.derive_path) {
            Ok(change) => {
                outputs.push(LayoutOutput { value: plan.amounts.change_value_sat, script_pubkey: change.script_pubkey });
            },
            Err(e) => {
                let mut message = "failed to derive change key: ".to_owned();
                message.append(e.as_str());
                return Err(message);
            },
        }
    }
    let recipient = recipient_script.clone();
    proof {
        assert(recipient@ =~= recipient_script@);
    }
    outputs.push(LayoutOutput { value: plan.amounts.send_value_sat, script_pubkey: recipient });
    let laid = match layout_inputs(master, &inputs.utxos, PAYMENT_SEQUENCE) {
        Ok(v) => v,
        Err(e) => {
            proof {
                if input_keys_derive(inputs.utxos@, master@) {
                    let k = choose|k: int|
                        0 <= k < inputs.utxos@.len() && (forall|j: int|
                            0 <= j < k ==> taproot_child_of(master@, #[trigger] inputs.utxos@[j].derivation) is Ok)
                            && (taproot_child_of(master@, #[trigger] inputs.utxos@[k].derivation) matches Err(t)
                            && e@ == "failed to derive child key: "@ + t);
                    assert(taproot_child_of(master@, inputs.utxos@[k].derivation) is Ok);
                }
            }
            return Err(e);
        },
    };
    proof {
        assert(outputs@.map_values(|o: LayoutOutput| output_view(o)) =~= payment_outputs(
            plan.amounts,
            if plan.amounts.has_change { outputs@[0].script_pubkey@ } else { Seq::empty() },
            recipient_script@,
        ));
    }
    Ok(TxLayout { inputs: laid, outputs })
}

} // verus!
