use satellion::btc::address::{Change, DerivePath, Network, Purpose};
use satellion::chain::btc::providers::electrum_adapter::{scripthash, wallet_utxos, RawUtxo};

fn path() -> DerivePath {
    DerivePath { purpose: Purpose::Bip86, network: Network::Regtest, account: 0, change: Change::External, index: 2 }
}

#[test]
fn scripthash_is_reversed_sha256_hex() {
    // SHA-256 of the empty string is e3b0c442...7852b855.
    assert_eq!(
        scripthash(&[]),
        "55b852781b9995a44c939b64e441ae2724b96f99c8f4fb9a141cfc9842c4b0e3"
    );
    assert_eq!(scripthash(&[0x51]).len(), 64);
    assert_ne!(scripthash(&[0x51]), scripthash(&[0x52]));
}

#[test]
fn listunspent_entries_become_wallet_outputs() {
    let raw = vec![
        RawUtxo { tx_hash: format!("{}01", "00".repeat(31)), tx_pos: 1, value: 900, height: 12 },
        RawUtxo { tx_hash: "ab".repeat(32), tx_pos: 0, value: 5, height: 0 },
    ];
    let script = vec![0x51, 0x20, 0x07];
    let utxos = wallet_utxos(raw, &script, path()).unwrap();
    assert_eq!(utxos.len(), 2);
    // Displayed ids are in reverse byte order: the last two digits are byte 0.
    assert_eq!(utxos[0].tx_id[0], 0x01);
    assert_eq!(utxos[0].tx_id[31], 0x00);
    assert_eq!(utxos[0].vout, 1);
    assert_eq!(utxos[0].output.value, 900);
    assert_eq!(utxos[0].output.script_pubkey, script);
    assert_eq!(utxos[0].height, 12);
    assert_eq!(utxos[1].tx_id, [0xab; 32]);
    assert_eq!(utxos[1].derivation, path());
}

#[test]
fn malformed_txid_in_answer_is_refused() {
    let raw = vec![
        RawUtxo { tx_hash: "ab".repeat(32), tx_pos: 0, value: 5, height: 0 },
        RawUtxo { tx_hash: "nothex".to_string(), tx_pos: 0, value: 5, height: 0 },
    ];
    let err = wallet_utxos(raw, &vec![], path()).err().unwrap();
    assert!(err.starts_with("txid: "));
}
