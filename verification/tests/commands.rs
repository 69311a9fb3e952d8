use satellion::chain::btc::commands::{check_recipient, parse_parent_txid, parse_send_value, recipient_script};
use satellion::chain::btc::config::BitcoinConfig;
use satellion::btc::address::Network;
use satellion::commands::validate_address;
use satellion::config::BlockChain;

const MAINNET_P2TR: &str = "bc1p5cyxnuxmeuwuvkwfem96lqzszd02n6xdcjrs20cac6yqjjwudpxqkedrcr";

fn hex(bytes: &[u8]) -> String {
    bytes.iter().map(|b| format!("{b:02x}")).collect()
}

fn config(regtest: bool) -> BitcoinConfig {
    let mut c = BitcoinConfig::default();
    c.regtest = regtest;
    c
}

#[test]
fn bitcoin_addresses_must_be_of_the_configured_network() {
    assert_eq!(validate_address(BlockChain::Bitcoin, MAINNET_P2TR, &config(false)), Ok(()));
    assert_eq!(
        validate_address(BlockChain::Bitcoin, MAINNET_P2TR, &config(true)),
        Err("invalid address network: validation error".to_string())
    );
    assert_eq!(
        validate_address(BlockChain::Bitcoin, "not-an-address", &config(false)),
        Err("invalid address: base58 error".to_string())
    );
}

#[test]
fn ethereum_addresses_are_twenty_hexadecimal_bytes() {
    let good = "0x52908400098527886E0F7030069857D2E4169EE7";
    assert_eq!(validate_address(BlockChain::Ethereum, good, &config(false)), Ok(()));
    assert_eq!(
        validate_address(BlockChain::Ethereum, "0x1234", &config(false)),
        Err("invalid string length".to_string())
    );
    assert!(validate_address(BlockChain::Ethereum, MAINNET_P2TR, &config(false)).is_err());
}

#[test]
fn a_recipient_gives_the_script_it_pays_to() {
    let script = check_recipient(MAINNET_P2TR, Network::Bitcoin).unwrap();
    assert_eq!(hex(&script), "5120a60869f0dbcf1dc659c9cecbaf8050135ea9e8cdc487053f1dc6880949dc684c");
    assert_eq!(recipient_script(MAINNET_P2TR, Network::Bitcoin).unwrap(), script);
    assert_eq!(
        recipient_script(MAINNET_P2TR, Network::Regtest),
        Err("recipient address network mismatch: validation error".to_string())
    );
    assert_eq!(
        recipient_script("bc1", Network::Bitcoin).err().unwrap().split(':').next(),
        Some("invalid recipient address")
    );
}

#[test]
fn amounts_are_read_as_decimal_satoshis() {
    assert_eq!(parse_send_value("1000"), Ok(1000));
    assert_eq!(parse_send_value("+5"), Ok(5));
    assert_eq!(parse_send_value("007"), Ok(7));
    assert_eq!(parse_send_value("18446744073709551615"), Ok(u64::MAX));
}

#[test]
fn malformed_amounts_are_refused_with_the_reason() {
    let empty = "invalid value: cannot parse integer from empty string".to_string();
    let digit = "invalid value: invalid digit found in string".to_string();
    let large = "invalid value: number too large to fit in target type".to_string();
    assert_eq!(parse_send_value(""), Err(empty));
    assert_eq!(parse_send_value("+"), Err(digit.clone()));
    assert_eq!(parse_send_value("-5"), Err(digit.clone()));
    assert_eq!(parse_send_value(" 5"), Err(digit.clone()));
    assert_eq!(parse_send_value("12a"), Err(digit.clone()));
    assert_eq!(parse_send_value("1.5"), Err(digit));
    assert_eq!(parse_send_value("18446744073709551616"), Err(large.clone()));
    assert_eq!(parse_send_value("99999999999999999999x"), Err(large));
}

#[test]
fn amounts_are_read_as_the_standard_parser_reads_them() {
    for text in ["", "+", "-", "0", "+0", "42", "-42", "4 2", "18446744073709551615", "18446744073709551616", "9x", "x9"] {
        let expected = text.parse::<u64>().map_err(|e| format!("invalid value: {e}"));
        assert_eq!(parse_send_value(text), expected, "{text:?}");
    }
}

#[test]
fn parent_txids_are_read_last_byte_first() {
    let text = format!("{}01", "00".repeat(31));
    let mut expected = [0u8; 32];
    expected[0] = 1;
    assert_eq!(parse_parent_txid(&text), Ok(expected));
    assert_eq!(parse_parent_txid("abcd"), Err("invalid parent_tx_id: failed to parse hex".to_string()));
}
