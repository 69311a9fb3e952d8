//! Child-pays-for-parent fee bumping: a self-send that spends every output
//! we own from a stuck parent transaction.
use vstd::prelude::*;

use crate::btc::address::{LabeledDerivationPath, Network};
use crate::chain::btc::account::{value_sum, Account, UtxoSet};
use crate::chain::btc::keys::{derive_taproot, taproot_child_of};
use crate::chain::btc::tx_builder::{
    change_key_path, estimate_taproot_vbytes, input_key_error, input_keys_derive, inputs_laid_out, inputs_total,
    is_next_change_path, layout_inputs, output_view, taproot_weight, LayoutOutput, TxLayout,
};
use crate::chain::btc::utxo::{txid_eq, Utxo};
use crate::text::{decimal, push_decimal};

verus! {

/// The outputs of `entries` that the parent transaction created, in order.
pub open spec fn children_of(entries: Seq<Utxo>, parent: Seq<u8>) -> Seq<Utxo>
    decreases entries.len(),
{
    if entries.len() == 0 {
        Seq::empty()
    } else if entries.last().tx_id@ == parent {
        children_of(entries.drop_last(), parent).push(entries.last())
    } else {
        children_of(entries.drop_last(), parent)
    }
}

/// Every output we own that descends from `parent_tx_id`; an error when
/// there is none, since a child cannot be built without one.
pub fn cpfp_inputs<'a>(utxo_set: &'a UtxoSet, parent_tx_id: &[u8; 32]) -> (inputs: Result<
    Vec<&'a Utxo>,
    String,
>)
    ensures
        inputs matches Ok(v) ==> v@.map_values(|u: &Utxo| *u) == children_of(
            utxo_set.entries@,
            parent_tx_id@,
        ) && v@.len() > 0,
        inputs matches Err(e) ==> children_of(utxo_set.entries@, parent_tx_id@).len() == 0 && e@
            == "no spendable outputs from this transaction — cannot CPFP without owning a child output"@,
{
    let ghost entries = utxo_set.entries@;
    let mut children: Vec<&Utxo> = Vec::new();
    let mut j: usize = 0;
    while j < utxo_set.entries.len()
        invariant
            j <= entries.len(),
            entries == utxo_set.entries@,
            children@.map_values(|u: &Utxo| *u) == children_of(entries.take(j as int), parent_tx_id@),
        decreases entries.len() - j,
    {
        let ghost before = children@;
        proof {
            assert(entries.take(j + 1).drop_last() =~= entries.take(j as int));
        }
        if txid_eq(&utxo_set.entries[j].tx_id, parent_tx_id) {
            children.push(&utxo_set.entries[j]);
            proof {
                assert(children@.map_values(|u: &Utxo| *u) =~= before.map_values(|u: &Utxo| *u).push(
                    entries[j as int],
                ));
            }
        }
        j = j + 1;
    }
    proof {
        assert(entries.take(j as int) =~= entries);
    }
    if children.len() == 0 {
        return Err(
            "no spendable outputs from this transaction — cannot CPFP without owning a child output".to_owned(),
        );
    }
    Ok(children)
}

/// Message of the error for a fee that eats all of the inputs.
pub open spec fn fee_exceeds_error(fee: u64, total_input: u64) -> Seq<char> {
    "fee ("@ + decimal(fee as nat) + " sat) exceeds spendable inputs ("@ + decimal(
        total_input as nat,
    ) + " sat)"@
}

/// The value of the child's single output: the inputs minus the fee, which
/// must leave something.
pub fn cpfp_output_value(total_input: u64, fee: u64) -> (value: Result<u64, String>)
    ensures
        fee < total_input ==> value == Ok::<u64, String>((total_input - fee) as u64),
        fee >= total_input ==> (value matches Err(e) && e@ == fee_exceeds_error(fee, total_input)),
{
    if fee >= total_input {
        let mut msg = "fee (".to_owned();
        push_decimal(&mut msg, fee);
        msg.append(" sat) exceeds spendable inputs (");
        push_decimal(&mut msg, total_input);
        msg.append(" sat)");
        return Err(msg);
    }
    Ok(total_input - fee)
}

/// A parent's outputs are among the entries, so never more of them.
proof fn lemma_children_len(entries: Seq<Utxo>, parent: Seq<u8>)
    ensures
        children_of(entries, parent).len() <= entries.len(),
    decreases entries.len(),
{
    if entries.len() > 0 {
        lemma_children_len(entries.drop_last(), parent);
    }
}

/// The inputs of a child transaction, their value, and the virtual size of
/// the child with its single output.
pub struct CpfpInputs<'a> {
    pub utxos: Vec<&'a Utxo>,
    pub total_input: u64,
    pub estimated_vbytes: u64,
}

/// First half of building a child-pays-for-parent transaction: every output
/// of the account that the parent created, their value, and the child's
/// estimated virtual size. The fee for that size is then worked out from the
/// target fee rate, and `plan_cpfp` does the rest.
pub fn select_cpfp_inputs<'a>(account: &'a Account, parent_tx_id: &[u8; 32]) -> (selected: Result<
    CpfpInputs<'a>,
    String,
>)
    requires
        value_sum(children_of(account.utxo_set.entries@, parent_tx_id@)) <= u64::MAX,
        taproot_weight(account.utxo_set.entries@.len(), 1) <= u64::MAX,
    ensures
        selected matches Ok(p) ==> {
            let children = children_of(account.utxo_set.entries@, parent_tx_id@);
            &&& p.utxos@.map_values(|u: &Utxo| *u) == children
            &&& children.len() > 0
            &&& p.total_input == value_sum(children)
            &&& p.estimated_vbytes == (taproot_weight(children.len(), 1) + 3) / 4
        },
        selected matches Err(e) ==> children_of(account.utxo_set.entries@, parent_tx_id@).len() == 0
            && e@
            == "no spendable outputs from this transaction — cannot CPFP without owning a child output"@,
{
    proof {
        lemma_children_len(account.utxo_set.entries@, parent_tx_id@);
    }
    let utxos = cpfp_inputs(&account.utxo_set, parent_tx_id)?;
    let total_input = inputs_total(&utxos);
    let estimated_vbytes = estimate_taproot_vbytes(utxos.len(), 1);
    Ok(CpfpInputs { utxos, total_input, estimated_vbytes })
}

/// What the child pays: its output value, the fee, and the fresh internal
/// path its single output goes to.
pub struct CpfpPlan {
    pub output_value: u64,
    pub fee: u64,
    pub change_key_path: LabeledDerivationPath,
}

/// Second half of building a child-pays-for-parent transaction: the fee
/// must leave something of the inputs, which goes to the next unused change
/// path.
pub fn plan_cpfp(account: &Account, total_input: u64, fee: u64, network: Network) -> (plan: Result<
    CpfpPlan,
    String,
>)
    ensures
        plan matches Ok(p) ==> fee < total_input && p.output_value == total_input - fee && p.fee
            == fee && is_next_change_path(*account, network, p.change_key_path),
        plan matches Err(e) ==> fee >= total_input && e@ == fee_exceeds_error(fee, total_input),
{
    let output_value = cpfp_output_value(total_input, fee)?;
    let change_key_path = change_key_path(account, network);
    Ok(CpfpPlan { output_value, fee, change_key_path })
}

/// Sequence number of a child's inputs: replaceable, no lock time.
pub const CPFP_SEQUENCE: u32 = 0xFFFF_FFFD;

/// Lays out a planned child: the parent's outputs in order as replaceable
/// inputs, and one output of the child's value to the change path's key.
/// The change key is derived first; an underivable key fails the layout
/// with its error.
pub fn cpfp_layout(master: &[u8; 78], inputs: &CpfpInputs, plan: &CpfpPlan) -> (layout: Result<TxLayout, String>)
    ensures
        layout matches Ok(l) ==> {
            &&& inputs_laid_out(l.inputs@, inputs.utxos@, CPFP_SEQUENCE, master@)
            &&& taproot_child_of(master@, plan.change_key_path.derive_path) matches Ok(t)
                && l.outputs@.map_values(|o: LayoutOutput| output_view(o)) == seq![(plan.output_value, t.1)]
        },
        layout is Ok <==> taproot_child_of(master@, plan.change_key_path.derive_path) is Ok && input_keys_derive(
            inputs.utxos@,
            master@,
        ),
        layout matches Err(e) ==> match taproot_child_of(master@, plan.change_key_path.derive_path) {
            Err(t) => e@ == "failed to derive change key: "@ + t,
            Ok(_) => input_key_error(inputs.utxos@, master@, e@),
        },
{
    let change = match derive_taproot(master, &plan.change_key_path.derive_path) {
        Ok(c) => c,
        Err(e) => {
            let mut message = "failed to derive change key: ".to_owned();
            message.append(e.as_str());
            return Err(message);
        },
    };
    let mut outputs: Vec<LayoutOutput> = Vec::new();
    outputs.push(LayoutOutput { value: plan.output_value, script_pubkey: change.script_pubkey });
    let laid = match layout_inputs(master, &inputs.utxos, CPFP_SEQUENCE) {
        Ok(v) => v,
        Err(e) => {
            proof {
                if input_keys_derive(inputs.utxos@, master@) {
                    let k = choose|k: int|
                        0 <= k < inputs.utxos@.len() && (forall|j: int|
                            0 <= j < k ==> taproot_child_of(master@, #[trigger] inputs.utxos@[j].derivation) is Ok)
                            && (taproot_child_of(master@, #[trigger] inputs.utxos@[k].derivation) matches Err(t)
                            && e@ == "failed to derive child key: "@ + t);
                    assert(taproot_child_of(master@, inputs.utxos@[k].derivation) is Ok);
                }
            }
            return Err(e);
        },
    };
    proof {
        assert(outputs@.map_values(|o: LayoutOutput| output_view(o)) =~= seq![(plan.output_value, outputs@[0].script_pubkey@)]);
    }
    Ok(TxLayout { inputs: laid, outputs })
}

} // verus!
