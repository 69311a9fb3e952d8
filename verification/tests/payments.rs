use satellion::chain::btc::fee_estimator::{estimate_target, STANDARD_FEE_TARGET_BLOCKS};
use satellion::btc::address::{Change, DerivePath, LabeledDerivationPath, Network, Purpose};
use satellion::chain::btc::account::{Account, UtxoSelectionStrategy};
use satellion::chain::btc::dtos::OutPointDto;
use satellion::chain::btc::service::{get_account_info, get_utxos, utxo_views};
use satellion::chain::btc::fee_bump::{cpfp_layout, cpfp_output_value, plan_cpfp, select_cpfp_inputs, CPFP_SEQUENCE};
use satellion::chain::btc::keys::{create_private_key, derive_taproot};
use satellion::chain::btc::tx_builder::{
    change_key_path, estimate_taproot_vbytes, fee_output_count, payment_layout, plan_payment, resolve_amounts,
    select_payment_inputs, MIN_RELAY_FEE, PAYMENT_SEQUENCE, UTXO_DUST_VALUE,
};
use satellion::chain::btc::utxo::{OutPoint, TxOut, Utxo};

fn utxo(txid: u8, vout: u32, value: u64) -> Utxo {
    Utxo {
        tx_id: [txid; 32],
        vout,
        output: TxOut { value, script_pubkey: vec![0x51, 0x20, txid] },
        derivation: DerivePath {
            purpose: Purpose::Bip86,
            network: Network::Regtest,
            account: 0,
            change: Change::External,
            index: vout,
        },
        height: 10,
    }
}

fn account_with(utxos: Vec<Utxo>) -> Account {
    let mut account = Account::new(Network::Regtest, 0, "main".to_string());
    for u in utxos {
        account.utxo_set.insert(u);
    }
    account
}

fn dto(txid: u8, vout: u32) -> OutPointDto {
    OutPointDto::from_outpoint(OutPoint { txid: [txid; 32], vout })
}

#[test]
fn taproot_vbytes_round_up() {
    // 42 + 229 + 2 * 172 = 615 weight units -> 153.75 -> 154 vbytes.
    assert_eq!(estimate_taproot_vbytes(1, 2), 154);
    // 42 + 229 + 172 = 443 -> 111 vbytes.
    assert_eq!(estimate_taproot_vbytes(1, 1), 111);
    // 42 + 4 * 229 + 2 * 172 = 1302 -> 326 (325.5 rounded up).
    assert_eq!(estimate_taproot_vbytes(4, 2), 326);
}

#[test]
fn sweep_is_charged_for_one_output() {
    assert_eq!(fee_output_count(1_000, 1_000), 1);
    assert_eq!(fee_output_count(1_000, 400), 2);
}

#[test]
fn payment_with_change() {
    let a = resolve_amounts(10_000, 4_000, 500).unwrap();
    assert_eq!(a.send_value_sat, 4_000);
    assert!(a.has_change);
    assert_eq!(a.change_value_sat, 5_500);
}

#[test]
fn dust_change_is_left_to_the_miner() {
    let a = resolve_amounts(10_000, 9_300, 500).unwrap();
    assert_eq!(a.send_value_sat, 9_300);
    assert!(!a.has_change);
    assert_eq!(a.change_value_sat, 0);
    // Exactly the dust limit is kept as change.
    let b = resolve_amounts(10_000, 10_000 - 500 - UTXO_DUST_VALUE, 500).unwrap();
    assert!(b.has_change);
    assert_eq!(b.change_value_sat, UTXO_DUST_VALUE);
}

#[test]
fn sweep_pays_the_fee_from_the_amount() {
    let a = resolve_amounts(10_000, 10_000, 700).unwrap();
    assert_eq!(a.send_value_sat, 9_300);
    assert!(!a.has_change);
}

#[test]
fn fee_never_below_relay_minimum() {
    let a = resolve_amounts(10_000, 10_000, 3).unwrap();
    assert_eq!(a.send_value_sat, 10_000 - MIN_RELAY_FEE);
}

#[test]
fn payment_errors() {
    assert_eq!(
        resolve_amounts(10, 10, 100).err().unwrap(),
        "insufficient funds to cover miner fee"
    );
    assert_eq!(
        resolve_amounts(10_000, 9_800, 500).err().unwrap(),
        "insufficient funds to cover send amount and miner fee"
    );
    assert_eq!(
        resolve_amounts(10, u64::MAX - 5, 100).err().unwrap(),
        "overflow calculating required amount"
    );
}

#[test]
fn payment_inputs_follow_the_manual_selection() {
    let account = account_with(vec![utxo(1, 0, 6_000), utxo(2, 1, 4_000), utxo(3, 0, 9_000)]);
    let method = UtxoSelectionStrategy::Manual(vec![dto(3, 0), dto(1, 0), dto(9, 9)]);
    let inputs = select_payment_inputs(&account, method, 10_000).ok().unwrap();
    assert_eq!(inputs.utxos.len(), 2);
    assert_eq!(inputs.utxos[0].tx_id, [3; 32]);
    assert_eq!(inputs.utxos[1].tx_id, [1; 32]);
    assert_eq!(inputs.total_input, 15_000);
    assert_eq!(inputs.estimated_vbytes, estimate_taproot_vbytes(2, 2));
}

#[test]
fn payment_without_inputs_is_refused() {
    let account = account_with(vec![utxo(1, 0, 6_000)]);
    let err = select_payment_inputs(&account, UtxoSelectionStrategy::Auto(7_000), 1).err().unwrap();
    assert_eq!(err, "no utxos selected for transaction");
    let err = select_payment_inputs(&account, UtxoSelectionStrategy::Auto(0), 1).err().unwrap();
    assert_eq!(err, "no utxos selected for transaction");
}

#[test]
fn automatic_selection_matches_the_amount_exactly_when_it_can() {
    let account = account_with(vec![utxo(1, 0, 6_000), utxo(2, 1, 4_000), utxo(3, 0, 9_000)]);
    let inputs = select_payment_inputs(&account, UtxoSelectionStrategy::Auto(10_000), 10_000).ok().unwrap();
    assert_eq!(inputs.total_input, 10_000);
    let mut ids: Vec<u8> = inputs.utxos.iter().map(|u| u.tx_id[0]).collect();
    ids.sort();
    assert_eq!(ids, vec![1, 2]);
    assert_eq!(inputs.estimated_vbytes, estimate_taproot_vbytes(2, 1));
}

#[test]
fn automatic_selection_falls_back_to_the_largest_outputs() {
    let account = account_with(vec![utxo(1, 0, 6_000), utxo(2, 1, 4_000), utxo(3, 0, 9_000)]);
    let inputs = select_payment_inputs(&account, UtxoSelectionStrategy::Auto(14_500), 14_500).ok().unwrap();
    let ids: Vec<u8> = inputs.utxos.iter().map(|u| u.tx_id[0]).collect();
    assert_eq!(ids, vec![3, 1]);
    assert_eq!(inputs.total_input, 15_000);
}

#[test]
fn payment_plan_sends_change_to_the_next_internal_path() {
    let mut account = account_with(vec![utxo(1, 0, 6_000)]);
    account.keychain.push(LabeledDerivationPath {
        label: String::new(),
        derive_path: DerivePath {
            purpose: Purpose::Bip86,
            network: Network::Regtest,
            account: 0,
            change: Change::Internal,
            index: 0,
        },
    });
    let plan = plan_payment(&account, 6_000, 2_000, 200, Network::Regtest).ok().unwrap();
    assert_eq!(plan.output_count, 2);
    assert_eq!(plan.amounts.change_value_sat, 3_800);
    assert_eq!(plan.change_key_path.label, "Change");
    assert_eq!(plan.change_key_path.derive_path.change, Change::Internal);
    assert_eq!(plan.change_key_path.derive_path.index, 1);
}

#[test]
fn cpfp_spends_every_child_of_the_parent() {
    let account = account_with(vec![utxo(7, 0, 1_000), utxo(8, 0, 50_000), utxo(7, 3, 2_000)]);
    let inputs = select_cpfp_inputs(&account, &[7; 32]).ok().unwrap();
    assert_eq!(inputs.utxos.len(), 2);
    assert_eq!(inputs.total_input, 3_000);
    assert_eq!(inputs.estimated_vbytes, estimate_taproot_vbytes(2, 1));

    let plan = plan_cpfp(&account, inputs.total_input, 500, Network::Regtest).ok().unwrap();
    assert_eq!(plan.output_value, 2_500);
    assert_eq!(plan.fee, 500);
    assert_eq!(plan.change_key_path.derive_path.index, 0);
}

#[test]
fn cpfp_without_children_is_refused() {
    let account = account_with(vec![utxo(8, 0, 50_000)]);
    let err = select_cpfp_inputs(&account, &[7; 32]).err().unwrap();
    assert_eq!(
        err,
        "no spendable outputs from this transaction — cannot CPFP without owning a child output"
    );
}

#[test]
fn cpfp_fee_must_leave_something() {
    assert_eq!(
        cpfp_output_value(3_000, 3_000).unwrap_err(),
        "fee (3000 sat) exceeds spendable inputs (3000 sat)"
    );
    assert_eq!(cpfp_output_value(3_000, 100).unwrap(), 2_900);
}

#[test]
fn account_views_list_largest_first() {
    let account = account_with(vec![utxo(1, 0, 300), utxo(2, 0, 900), utxo(3, 0, 300), utxo(4, 0, 50)]);
    let views = utxo_views(&account);
    let values: Vec<&str> = views.iter().map(|v| v.value.as_str()).collect();
    assert_eq!(values, vec!["900", "300", "300", "50"]);
    // Equal values keep the set's order.
    assert_eq!(views[1].utxo_id.tx_id, "01".repeat(32));
    assert_eq!(views[2].utxo_id.tx_id, "03".repeat(32));
    assert_eq!(views[0].address_label, Some("main".to_string()));
    assert_eq!(get_utxos(&account).len(), 4);

    let info = get_account_info(&account, "bcrt1qexample".to_string());
    assert_eq!(info.total_balance, "1550");
    assert_eq!(info.address, "bcrt1qexample");
    assert_eq!(info.utxo.len(), 4);
}

#[test]
fn fee_estimate_target_falls_back_to_the_deepest_below() {
    let table: Vec<u16> = vec![6, 1, 144, 3];
    assert_eq!(estimate_target(&table, 2), Some(1));
    assert_eq!(estimate_target(&table, 3), Some(3));
    assert_eq!(estimate_target(&table, 0), None);
    assert_eq!(estimate_target(&Vec::new(), STANDARD_FEE_TARGET_BLOCKS), None);
    assert_eq!(estimate_target(&vec![0, 2], STANDARD_FEE_TARGET_BLOCKS), Some(2));
}

#[test]
fn recorded_change_paths_are_not_reused() {
    let mut account = Account::new(Network::Regtest, 0, "main".to_string());
    let first = change_key_path(&account, Network::Regtest);
    assert_eq!(first.derive_path.index, 0);
    account.keychain.push(first);
    let second = change_key_path(&account, Network::Regtest);
    assert_eq!(second.derive_path.index, 1);
    assert_eq!(second.derive_path.to_string(), "m/86'/1'/0'/1/1");
}

fn regtest_master() -> [u8; 78] {
    create_private_key(
        Network::Regtest,
        "abandon abandon abandon abandon abandon abandon abandon abandon abandon abandon abandon about",
        "",
    )
    .unwrap()
}

fn internal(index: u32) -> DerivePath {
    DerivePath { purpose: Purpose::Bip86, network: Network::Regtest, account: 0, change: Change::Internal, index }
}

#[test]
fn payment_layout_puts_change_first_and_the_recipient_last() {
    let master = regtest_master();
    let account = account_with(vec![utxo(1, 0, 6_000), utxo(2, 1, 4_000)]);
    let inputs = select_payment_inputs(
        &account,
        UtxoSelectionStrategy::Manual(vec![dto(2, 1), dto(1, 0)]),
        5_000,
    )
    .ok()
    .unwrap();
    let plan = plan_payment(&account, inputs.total_input, 5_000, 300, Network::Regtest).ok().unwrap();
    let recipient = vec![0x00, 0x14, 9, 9, 9];
    let layout = payment_layout(&master, &inputs, &plan, &recipient).ok().unwrap();

    assert_eq!(layout.inputs.len(), 2);
    assert_eq!(layout.inputs[0].tx_id, [2; 32]);
    assert_eq!(layout.inputs[0].vout, 1);
    assert_eq!(layout.inputs[0].value, 4_000);
    assert_eq!(layout.inputs[0].script_pubkey, vec![0x51, 0x20, 2]);
    assert_eq!(layout.inputs[1].tx_id, [1; 32]);
    for input in &layout.inputs {
        assert_eq!(input.sequence, PAYMENT_SEQUENCE);
        assert_eq!(input.internal_key, derive_taproot(&master, &input.derivation).unwrap().xonly);
    }
    assert_eq!(PAYMENT_SEQUENCE, 0xFFFF_FFFF);

    assert_eq!(layout.outputs.len(), 2);
    assert_eq!(layout.outputs[0].value, 4_700);
    assert_eq!(layout.outputs[0].script_pubkey, derive_taproot(&master, &internal(0)).unwrap().script_pubkey);
    assert_eq!(layout.outputs[1].value, 5_000);
    assert_eq!(layout.outputs[1].script_pubkey, recipient);
    let paid_out: u64 = layout.outputs.iter().map(|o| o.value).sum();
    assert_eq!(inputs.total_input - paid_out, 300);
}

#[test]
fn payment_layout_without_change_pays_the_recipient_only() {
    let master = regtest_master();
    let account = account_with(vec![utxo(1, 0, 6_000)]);
    let inputs =
        select_payment_inputs(&account, UtxoSelectionStrategy::Manual(vec![dto(1, 0)]), 6_000).ok().unwrap();
    let plan = plan_payment(&account, inputs.total_input, 6_000, 300, Network::Regtest).ok().unwrap();
    let recipient = vec![0x51, 0x20, 7];
    let layout = payment_layout(&master, &inputs, &plan, &recipient).ok().unwrap();
    assert_eq!(layout.outputs.len(), 1);
    assert_eq!(layout.outputs[0].value, 5_700);
    assert_eq!(layout.outputs[0].script_pubkey, recipient);
}

#[test]
fn payment_layout_fails_on_an_underivable_input_key() {
    let master = regtest_master();
    let mut bad = utxo(1, 0, 6_000);
    bad.derivation.account = 0x8000_0000;
    let account = account_with(vec![bad]);
    let inputs =
        select_payment_inputs(&account, UtxoSelectionStrategy::Manual(vec![dto(1, 0)]), 6_000).ok().unwrap();
    let plan = plan_payment(&account, inputs.total_input, 6_000, 300, Network::Regtest).ok().unwrap();
    let err = payment_layout(&master, &inputs, &plan, &vec![0x51]).err().unwrap();
    assert!(err.starts_with("failed to derive child key: "));
}

#[test]
fn cpfp_layout_sends_everything_to_the_change_key() {
    let master = regtest_master();
    let account = account_with(vec![utxo(7, 0, 1_000), utxo(8, 0, 50_000), utxo(7, 3, 2_000)]);
    let inputs = select_cpfp_inputs(&account, &[7; 32]).ok().unwrap();
    let plan = plan_cpfp(&account, inputs.total_input, 500, Network::Regtest).ok().unwrap();
    let layout = cpfp_layout(&master, &inputs, &plan).ok().unwrap();
    assert_eq!(layout.inputs.len(), 2);
    assert_eq!((layout.inputs[0].vout, layout.inputs[1].vout), (0, 3));
    for input in &layout.inputs {
        assert_eq!(input.tx_id, [7; 32]);
        assert_eq!(input.sequence, CPFP_SEQUENCE);
    }
    assert_eq!(CPFP_SEQUENCE, 0xFFFF_FFFD);
    assert_eq!(layout.outputs.len(), 1);
    assert_eq!(layout.outputs[0].value, 2_500);
    assert_eq!(layout.outputs[0].script_pubkey, derive_taproot(&master, &internal(0)).unwrap().script_pubkey);
}
