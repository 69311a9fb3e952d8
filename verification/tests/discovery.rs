use std::time::Duration;

use satellion::btc::address::{Change, DerivePath, Network, Purpose};
use satellion::chain::btc::config::BitcoinConfig;
use satellion::chain::btc::discovery::{DiscoveredAccount, DiscoveryConfig, WalkStep, WalletDiscoverer};
use satellion::chain::btc::utxo::{TxOut, Utxo};
use satellion::chain::btc::wallet::BitcoinWallet;

fn discoverer() -> WalletDiscoverer {
    WalletDiscoverer::new(Network::Regtest).with_config(DiscoveryConfig::default())
}

#[test]
fn adapt_batch_size_grows_on_fast_responses() {
    let cfg = DiscoveryConfig::default();
    let d = discoverer();

    let grown = d.adapt_batch_size(50, Duration::from_millis(50).as_millis());
    assert!(grown > 50);
    assert!(grown <= cfg.max_batch_size);
}

#[test]
fn adapt_batch_size_shrinks_on_slow_responses() {
    let cfg = DiscoveryConfig::default();
    let d = discoverer();

    let shrunk = d.adapt_batch_size(50, Duration::from_millis(2000).as_millis());
    assert!(shrunk < 50);
    assert!(shrunk >= cfg.min_batch_size);
}

#[test]
fn adapt_batch_size_clamps_at_min() {
    let cfg = DiscoveryConfig::default();
    let d = discoverer();

    let v = d.adapt_batch_size(cfg.min_batch_size, Duration::from_millis(5000).as_millis());
    assert_eq!(v, cfg.min_batch_size);
}

#[test]
fn adapt_batch_size_exact_values() {
    let d = discoverer();
    assert_eq!(d.adapt_batch_size(50, 50), 75);
    assert_eq!(d.adapt_batch_size(50, 2000), 33);
    assert_eq!(d.adapt_batch_size(50, 500), 50);
    assert_eq!(d.adapt_batch_size(190, 10), 200);
}

#[test]
fn default_config_values() {
    let cfg = DiscoveryConfig::default();
    assert_eq!(cfg.external_gap_limit, 20);
    assert_eq!(cfg.internal_gap_limit, 20);
    assert_eq!(cfg.account_gap_limit, 3);
    assert_eq!(cfg.max_accounts, 32);
    assert_eq!(cfg.initial_batch_size, 50);
    assert_eq!(cfg.schemes, vec![Purpose::Bip86]);
}

#[test]
fn chain_scan_stops_gap_limit_past_last_activity() {
    let d = discoverer();
    let mut scan = d.start_scan(Purpose::Bip86, 0, Change::External);
    assert_eq!(scan.gap_limit, 20);

    let window = d.next_window(&scan).unwrap();
    assert_eq!(window.len(), 50);
    assert_eq!(window[0].index, 0);
    assert_eq!(window[49].index, 49);
    assert_eq!(window[7].network, Network::Regtest);

    let mut activity = vec![false; 50];
    activity[3] = true;
    activity[30] = true;
    d.record_window(&mut scan, &window, activity, 500).unwrap();
    assert_eq!(scan.next, 50);
    assert_eq!(scan.max_used, Some(30));
    assert_eq!(scan.used.len(), 2);

    // 30 + 20 + 1 = 51 > 50: one more window.
    let window = d.next_window(&scan).unwrap();
    assert_eq!(window[0].index, 50);
    d.record_window(&mut scan, &window, vec![false; window.len()], 500).unwrap();
    assert!(d.next_window(&scan).is_none());

    let result = WalletDiscoverer::finish_scan(scan);
    let indices: Vec<u32> = result.used_paths.iter().map(|p| p.index).collect();
    assert_eq!(indices, vec![3, 30]);
}

#[test]
fn chain_scan_without_activity_covers_the_gap_once() {
    let d = discoverer();
    let mut scan = d.start_scan(Purpose::Bip86, 1, Change::Internal);
    let window = d.next_window(&scan).unwrap();
    d.record_window(&mut scan, &window, vec![false; window.len()], 500).unwrap();
    assert!(d.next_window(&scan).is_none());
    assert!(scan.used.is_empty());
}

#[test]
fn record_window_refuses_wrong_flag_count() {
    let d = discoverer();
    let mut scan = d.start_scan(Purpose::Bip86, 0, Change::External);
    let window = d.next_window(&scan).unwrap();
    let err = d.record_window(&mut scan, &window, vec![true; 3], 500).unwrap_err();
    assert_eq!(err, "provider returned 3 activity flags for 50 addresses");
    assert_eq!(scan.next, 0);
}

#[test]
fn account_walk_stops_after_empty_streak() {
    let d = discoverer();
    let mut walk = d.start_walk();
    let mut scanned = Vec::new();
    loop {
        match d.walk_step(&mut walk) {
            WalkStep::Scan(_, account) => {
                scanned.push(account);
                let used = if account == 0 { 4 } else { 0 };
                d.account_scanned(&mut walk, used);
            }
            WalkStep::Done => break,
        }
    }
    assert_eq!(scanned, vec![0, 1, 2, 3]);
}

fn path(account: u32, change: Change, index: u32) -> DerivePath {
    DerivePath { purpose: Purpose::Bip86, network: Network::Regtest, account, change, index }
}

fn utxo(txid: u8, vout: u32, value: u64, derivation: DerivePath) -> Utxo {
    Utxo {
        tx_id: [txid; 32],
        vout,
        output: TxOut { value, script_pubkey: vec![0x51, 0x20] },
        derivation,
        height: 100,
    }
}

fn discovery() -> Vec<DiscoveredAccount> {
    vec![
        DiscoveredAccount {
            scheme: Purpose::Bip86,
            index: 0,
            external_paths: vec![path(0, Change::External, 3)],
            internal_paths: vec![path(0, Change::Internal, 1)],
            utxos: vec![utxo(1, 0, 5_000, path(0, Change::External, 3))],
        },
        DiscoveredAccount {
            scheme: Purpose::Bip86,
            index: 2,
            external_paths: vec![path(2, Change::External, 0)],
            internal_paths: vec![],
            utxos: vec![
                utxo(2, 1, 7_000, path(2, Change::External, 0)),
                utxo(2, 1, 7_000, path(2, Change::External, 0)),
            ],
        },
    ]
}

#[test]
fn apply_discovery_adds_accounts_paths_and_outputs() {
    let mut config = BitcoinConfig::default();
    config.regtest = true;
    let mut wallet = BitcoinWallet::new(config);
    let report = wallet.apply_discovery(discovery());

    assert_eq!(report.accounts, vec![0, 2]);
    // The new account 2 already holds its first external path.
    assert_eq!(report.paths_added, 2);
    assert_eq!(report.utxos_added, 2);
    assert_eq!(report.total_value_sat, 12_000);

    assert_eq!(wallet.accounts.len(), 2);
    assert_eq!(wallet.accounts[1].index, 2);
    assert_eq!(wallet.accounts[1].name, "Account 2");
    assert_eq!(wallet.accounts[0].keychain.paths.len(), 3);
    assert_eq!(wallet.accounts[0].keychain.paths[1].label, "");
    assert_eq!(wallet.accounts[1].utxo_set.entries.len(), 1);
    assert_eq!(wallet.active_account, 0);
}

#[test]
fn apply_discovery_twice_changes_nothing() {
    let mut config = BitcoinConfig::default();
    config.regtest = true;
    let mut wallet = BitcoinWallet::new(config);
    wallet.apply_discovery(discovery());
    let paths_before: Vec<usize> = wallet.accounts.iter().map(|a| a.keychain.paths.len()).collect();

    let report = wallet.apply_discovery(discovery());
    assert_eq!(report.paths_added, 0);
    assert_eq!(report.utxos_added, 0);
    assert_eq!(report.total_value_sat, 0);
    assert_eq!(report.accounts, vec![0, 2]);
    let paths_after: Vec<usize> = wallet.accounts.iter().map(|a| a.keychain.paths.len()).collect();
    assert_eq!(paths_before, paths_after);
    assert_eq!(wallet.accounts.len(), 2);
}
