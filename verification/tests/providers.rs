use satellion::btc::providers::esplora_client::EsploraProvider as OldEsploraProvider;
use satellion::chain::btc::providers::electrum_client::parse_host_port;
use satellion::chain::btc::providers::esplora_adapter::{self, tor_base_url, EsploraProvider, EsploraUtxo};
use satellion::btc::address::{Change, DerivePath, Network, Purpose};

#[test]
fn host_port_splits_at_the_last_colon() {
    assert_eq!(parse_host_port("electrum.example:50002"), Ok(("electrum.example", 50002)));
    assert_eq!(parse_host_port("[::1]:443"), Ok(("[::1]", 443)));
    assert_eq!(parse_host_port("host:+80"), Ok(("host", 80)));
    assert_eq!(parse_host_port(":0"), Ok(("", 0)));
}

#[test]
fn host_port_refuses_bad_ports() {
    for bad in ["no-port", "host:", "host:65536", "host:-1", "host:8o", "host:+"] {
        assert_eq!(
            parse_host_port(bad),
            Err(format!("invalid address '{bad}': expected host:port"))
        );
    }
    assert_eq!(parse_host_port("host:65535"), Ok(("host", 65535)));
}

#[test]
fn esplora_endpoints() {
    assert_eq!(EsploraProvider::MempoolSpace.main_net(), "https://mempool.space/api");
    assert_eq!(EsploraProvider::BlockstreamInfo.main_net(), "https://blockstream.info/api");
    assert_eq!(EsploraProvider::MempoolEmzy.onion(), "http://mempool.emzy.de/api");
    assert!(tor_base_url().ends_with(".onion/api"));
    assert_eq!(tor_base_url(), EsploraProvider::MempoolSpace.onion());
    assert_eq!(OldEsploraProvider::MempoolEmzy.main_net(), "https://mempool.emzy.de/api");
}

#[test]
fn esplora_listing_becomes_wallet_outputs() {
    let path = DerivePath {
        purpose: Purpose::Bip86,
        account: 0,
        network: Network::Bitcoin,
        change: Change::External,
        index: 3,
    };
    let listed = vec![
        EsploraUtxo { txid: [7; 32], vout: 1, value: 5_000, block_height: Some(840_000) },
        EsploraUtxo { txid: [8; 32], vout: 0, value: 900, block_height: None },
    ];
    let script = vec![0x51, 0x20, 0xAB];
    let utxos = esplora_adapter::wallet_utxos(listed, &script, path);
    assert_eq!(utxos.len(), 2);
    assert_eq!(utxos[0].tx_id, [7; 32]);
    assert_eq!(utxos[0].vout, 1);
    assert_eq!(utxos[0].output.value, 5_000);
    assert_eq!(utxos[0].output.script_pubkey, script);
    assert_eq!(utxos[0].height, 840_000);
    assert_eq!(utxos[1].height, 0);
    assert_eq!(utxos[1].derivation, path);
}

#[test]
fn printed_host_and_port_parse_back() {
    for host in ["", "electrum.example", "a:b:c", "[::1]", "host:"] {
        for port in [0u16, 7, 80, 50002, 65535] {
            let text = format!("{host}:{port}");
            assert_eq!(parse_host_port(&text), Ok((host, port)));
        }
    }
}
