use satellion::btc::address::{Change, DerivePath, Network, Purpose};
use satellion::btc::neutrino::{
    after_failed_attempt, chain_update_event, filters_synced_event, should_persist, stores_header, updated_height, BlockTx, CompactFilterScanner,
    HeaderChanges, HeightUpdateStatus, LifecycleState, NodeStart, RetryStep, ScriptOfInterest, MAX_RETRIES,
};
use satellion::chain::btc::utxo::{BlockHeader, TxOut};

fn path(index: u32) -> DerivePath {
    DerivePath { purpose: Purpose::Bip86, account: 0, network: Network::Regtest, change: Change::External, index }
}

#[test]
fn height_follows_connected_and_reorganized_headers() {
    assert_eq!(updated_height(&HeaderChanges::Connected { height: 812 }), Some(812));
    assert_eq!(updated_height(&HeaderChanges::Reorganized { accepted: vec![10, 11, 12] }), Some(12));
    assert_eq!(updated_height(&HeaderChanges::Reorganized { accepted: vec![] }), None);
    assert_eq!(updated_height(&HeaderChanges::ForkAdded), None);
    assert!(stores_header(&HeaderChanges::Connected { height: 1 }));
    assert!(!stores_header(&HeaderChanges::ForkAdded));
}

#[test]
fn blocks_before_the_wallet_birth_are_not_kept() {
    assert!(should_persist(None, 0));
    assert!(should_persist(Some(1_700_000_000), 1_700_000_000));
    assert!(!should_persist(Some(1_700_000_000), 1_699_999_999));
}

#[test]
fn downloads_back_off_then_give_up() {
    assert_eq!(after_failed_attempt(1), RetryStep::Wait(2));
    assert_eq!(after_failed_attempt(2), RetryStep::Wait(4));
    assert_eq!(after_failed_attempt(MAX_RETRIES), RetryStep::GiveUp);
}

#[test]
fn scanner_finds_outputs_to_watched_scripts_in_block_order() {
    let mut scanner = CompactFilterScanner::new();
    scanner.add_script(ScriptOfInterest { script: vec![0x51, 0x20, 1], derive_path: path(1) });
    scanner.add_script(ScriptOfInterest { script: vec![0x51, 0x20, 2], derive_path: path(2) });
    scanner.add_script(ScriptOfInterest { script: vec![0x51, 0x20, 1], derive_path: path(7) });
    let txs = vec![
        BlockTx {
            wtxid: [0xAA; 32],
            outputs: vec![
                TxOut { value: 1_000, script_pubkey: vec![0x00, 0x14] },
                TxOut { value: 2_000, script_pubkey: vec![0x51, 0x20, 2] },
            ],
        },
        BlockTx {
            wtxid: [0xBB; 32],
            outputs: vec![TxOut { value: 3_000, script_pubkey: vec![0x51, 0x20, 1] }],
        },
    ];
    let block = BlockHeader { hash: [0x11; 32], height: 120 };
    let found = scanner.extract_utxos_from_block(&txs, &block);
    assert_eq!(found.len(), 2);
    assert_eq!(found[0].tx_id, [0xAA; 32]);
    assert_eq!(found[0].vout, 1);
    assert_eq!(found[0].output.value, 2_000);
    assert_eq!(found[0].derive_path, path(2));
    assert_eq!(found[1].tx_id, [0xBB; 32]);
    assert_eq!(found[1].vout, 0);
    assert_eq!(found[1].derive_path, path(7));
    assert_eq!(found[1].block.height, 120);
    assert_eq!(found[1].block.hash, [0x11; 32]);
}

#[test]
fn scanner_without_scripts_finds_nothing() {
    let scanner = CompactFilterScanner::new();
    let txs = vec![BlockTx { wtxid: [1; 32], outputs: vec![TxOut { value: 5, script_pubkey: vec![1] }] }];
    assert!(scanner.extract_utxos_from_block(&txs, &BlockHeader { hash: [0; 32], height: 0 }).is_empty());
}

#[test]
fn height_events_of_the_sync() {
    let moved = chain_update_event(&HeaderChanges::Connected { height: 5 }).unwrap();
    assert_eq!(moved.status, HeightUpdateStatus::Progress);
    assert_eq!(moved.height, 5);
    assert!(chain_update_event(&HeaderChanges::ForkAdded).is_none());
    let done = filters_synced_event(900);
    assert_eq!(done.status, HeightUpdateStatus::Completed);
    assert_eq!(done.height, 900);
}

#[test]
fn the_node_restarts_only_for_another_wallet() {
    let mut state = LifecycleState::new();
    assert!(!state.is_running_for("alice"));
    assert_eq!(state.request_node_start("alice".to_string()), NodeStart::Start { stop_previous: false });
    assert!(state.is_running_for("alice"));
    assert_eq!(state.request_node_start("alice".to_string()), NodeStart::AlreadyRunning);
    assert_eq!(state.request_node_start("bob".to_string()), NodeStart::Start { stop_previous: true });
    assert!(state.is_running_for("bob"));
    assert!(!state.is_running_for("alice"));
}
