use satellion::btc::address::{Change, DerivePath, LabeledDerivationPath, Network, Purpose};
use satellion::chain::btc::account::Account;
use satellion::chain::btc::config::BitcoinConfig;
use satellion::chain::btc::dtos::OutPointDto;
use satellion::chain::btc::persistence::{AccountStored, UtxoStored, WalletStored};
use satellion::chain::btc::utxo::{OutPoint, TxOut, Utxo};
use satellion::chain::btc::wallet::BitcoinWallet;

fn regtest() -> BitcoinConfig {
    let mut config = BitcoinConfig::default();
    config.regtest = true;
    config
}

fn utxo(txid: u8, vout: u32, value: u64) -> Utxo {
    Utxo {
        tx_id: [txid; 32],
        vout,
        output: TxOut { value, script_pubkey: vec![0x51, 0x20, txid] },
        derivation: DerivePath {
            purpose: Purpose::Bip86,
            network: Network::Regtest,
            account: 0,
            change: Change::External,
            index: 0,
        },
        height: 7,
    }
}

#[test]
fn new_wallet_has_a_main_account() {
    let wallet = BitcoinWallet::new(regtest());
    assert_eq!(wallet.active_account, 0);
    let main = wallet.active_account().unwrap();
    assert_eq!(main.name, "main");
    assert_eq!(main.keychain.paths.len(), 1);
    assert_eq!(main.keychain.paths[0].label, "main");
    assert_eq!(main.keychain.paths[0].derive_path.network, Network::Regtest);
}

#[test]
fn config_picks_the_network() {
    assert_eq!(regtest().network(), Network::Regtest);
    assert_eq!(BitcoinConfig::default().network(), Network::Bitcoin);
}

#[test]
fn create_switch_rename_accounts() {
    let mut wallet = BitcoinWallet::new(regtest());
    assert_eq!(wallet.create_account("savings".to_string()), 1);
    assert_eq!(wallet.active_account, 1);
    wallet.rename_account(1, "cold".to_string()).unwrap();
    assert_eq!(wallet.get_account(1).unwrap().name, "cold");
    assert_eq!(wallet.rename_account(9, "x".to_string()).unwrap_err(), "account not found");
    wallet.switch_account(0);
    assert_eq!(wallet.active_account().unwrap().name, "main");
    let listed: Vec<(u32, String)> =
        wallet.list_all_accounts().into_iter().map(|a| (a.index, a.name)).collect();
    assert_eq!(listed, vec![(0, "main".to_string()), (1, "cold".to_string())]);
}

#[test]
fn missing_active_account_is_reported() {
    let mut wallet = BitcoinWallet::new(regtest());
    wallet.switch_account(4);
    assert_eq!(wallet.active_account().err().unwrap(), "account not found");
}

#[test]
fn utxo_set_keeps_one_output_per_outpoint() {
    let mut account = Account::new(Network::Regtest, 0, "main".to_string());
    account.utxo_set.insert(utxo(1, 0, 100));
    account.utxo_set.insert(utxo(1, 0, 300));
    account.utxo_set.insert(utxo(2, 0, 50));
    assert_eq!(account.utxo_set.entries.len(), 2);
    assert_eq!(account.utxo_set.total_value(), 350);
    assert!(account.utxo_set.contains_key(&OutPoint { txid: [2; 32], vout: 0 }));
    assert!(!account.utxo_set.contains_key(&OutPoint { txid: [2; 32], vout: 1 }));
}

#[test]
fn next_unused_index_skips_used_ones() {
    let mut account = Account::new(Network::Regtest, 0, "main".to_string());
    for index in [1, 2, 4] {
        account.keychain.push(LabeledDerivationPath {
            label: String::new(),
            derive_path: DerivePath {
                purpose: Purpose::Bip86,
                network: Network::Regtest,
                account: 0,
                change: Change::External,
                index,
            },
        });
    }
    assert_eq!(account.keychain.next_unused_index(Change::External), 3);
    assert_eq!(account.keychain.next_unused_index(Change::Internal), 0);
    assert_eq!(account.keychain.paths_by_change(&Change::External).len(), 4);
    assert_eq!(account.keychain.paths_by_change(&Change::Internal).len(), 0);
}

#[test]
fn utxo_dto_shows_value_path_and_label() {
    let account = Account::new(Network::Regtest, 0, "main".to_string());
    let map = account.keychain.to_label_map();
    let dto = utxo(0xab, 3, 1_500).to_dto(&map);
    assert_eq!(dto.value, "1500");
    assert_eq!(dto.deriv_path, "m/86'/1'/0'/0/0");
    assert_eq!(dto.address_label, Some("main".to_string()));
    assert_eq!(dto.utxo_id.vout, 3);
    assert_eq!(dto.utxo_id.tx_id, "ab".repeat(32));
}

#[test]
fn outpoint_dto_roundtrip_and_display() {
    let mut txid = [0u8; 32];
    txid[0] = 0x01;
    txid[31] = 0xff;
    let dto = OutPointDto::from_outpoint(OutPoint { txid, vout: 2 });
    // Displayed in reverse byte order.
    assert!(dto.tx_id.starts_with("ff"));
    assert!(dto.tx_id.ends_with("01"));
    assert_eq!(dto.to_string(), format!("{}:2", dto.tx_id));
    let back = dto.to_outpoint().unwrap();
    assert_eq!(back.txid, txid);
    assert_eq!(back.vout, 2);
}

#[test]
fn malformed_txid_is_refused() {
    let dto = OutPointDto { tx_id: "xyz".to_string(), vout: 0 };
    assert!(dto.to_outpoint().is_err());
}

#[test]
fn utxo_record_roundtrip() {
    let u = utxo(5, 1, 42);
    let stored = UtxoStored::from_utxo(&u);
    assert_eq!(stored.value, 42);
    let back = stored.into_utxo();
    assert_eq!(back.tx_id, u.tx_id);
    assert_eq!(back.output.script_pubkey, u.output.script_pubkey);
    assert_eq!(back.derivation, u.derivation);
}

#[test]
fn account_record_keeps_the_later_of_two_outputs_at_one_outpoint() {
    let mut stored = AccountStored::from_account(&Account::new(Network::Regtest, 3, "x".to_string()));
    stored.utxos.push(UtxoStored::from_utxo(&utxo(1, 0, 10)));
    stored.utxos.push(UtxoStored::from_utxo(&utxo(1, 0, 20)));
    let account = stored.into_account();
    assert_eq!(account.index, 3);
    assert_eq!(account.utxo_set.entries.len(), 1);
    assert_eq!(account.utxo_set.entries[0].output.value, 20);
}

#[test]
fn btc_wallet_record_roundtrip() {
    let mut wallet = BitcoinWallet::new(regtest());
    wallet.create_account("second".to_string());
    wallet.accounts[1].utxo_set.insert(utxo(9, 0, 77));
    let stored = WalletStored::from_wallet(&wallet);
    let back = BitcoinWallet::from_dto(stored, regtest());
    assert_eq!(back.active_account, 1);
    assert_eq!(back.accounts.len(), 2);
    assert_eq!(back.accounts[1].name, "second");
    assert_eq!(back.accounts[1].utxo_set.entries.len(), 1);
    assert_eq!(back.accounts[1].utxo_set.entries[0].output.value, 77);
    assert_eq!(back.accounts[0].keychain.paths[0].label, "main");
}

#[test]
fn malformed_txid_error_names_the_cause() {
    let dto = OutPointDto { tx_id: "12".to_string(), vout: 0 };
    assert!(dto.to_outpoint().err().unwrap().starts_with("invalid txid "));
}

#[test]
fn new_derivation_path_refuses_occupied_index() {
    let wallet = BitcoinWallet::new(regtest());
    let path = wallet.new_deriviation_path(Purpose::Bip86, Change::External, 4).unwrap();
    assert_eq!(path.index, 4);
    assert_eq!(path.network, Network::Regtest);
    let err = wallet.new_deriviation_path(Purpose::Bip86, Change::External, 0).unwrap_err();
    assert_eq!(err, "Derivation index 0 already occupied");
}

#[test]
fn address_map_paths_put_the_main_path_last() {
    let mut account = Account::new(Network::Regtest, 2, "spending".to_string());
    let change = DerivePath {
        purpose: Purpose::Bip86,
        account: 2,
        network: Network::Regtest,
        change: Change::Internal,
        index: 1,
    };
    account.keychain.paths.push(LabeledDerivationPath { label: "change".to_string(), derive_path: change });
    let main = account.main_path(Network::Regtest);
    assert_eq!(main.to_string(), "m/86'/1'/2'/0/0");
    assert_eq!(account.address_map_paths(Network::Regtest), vec![change, main]);
}

#[test]
fn a_created_account_is_the_active_one() {
    let mut wallet = BitcoinWallet::new(regtest());
    let index = wallet.create_account("savings".to_string());
    let active = wallet.active_account().unwrap();
    assert_eq!(active.index, index);
    assert_eq!(active.name, "savings");
}

#[test]
fn malformed_txids_report_length_or_digit() {
    let short = OutPointDto { tx_id: "abcd".to_string(), vout: 0 };
    assert_eq!(short.to_outpoint().err().unwrap(), "invalid txid failed to parse hex");
    let bad_digit = OutPointDto { tx_id: format!("{}zz", "0".repeat(62)), vout: 0 };
    assert_eq!(bad_digit.to_outpoint().err().unwrap(), "invalid txid failed to parse hex digit");
    // 63 characters, one of them two bytes long: 64 bytes, so a digit error.
    let wide = OutPointDto { tx_id: format!("{}\u{e9}", "0".repeat(62)), vout: 0 };
    assert_eq!(wide.to_outpoint().err().unwrap(), "invalid txid failed to parse hex digit");
    // 64 characters, one of them two bytes long: 65 bytes, so a length error.
    let long = OutPointDto { tx_id: format!("{}\u{e9}", "0".repeat(63)), vout: 0 };
    assert_eq!(long.to_outpoint().err().unwrap(), "invalid txid failed to parse hex");
}
