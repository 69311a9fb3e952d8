use satellion::btc::address::{Change, DerivePath, LabeledDerivationPath, Network, Purpose};
use satellion::chain::btc::account::Account;
use satellion::chain::btc::keys::{create_private_key, derive_scripts, derive_taproot};
use satellion::chain::btc::service::get_external_addresess;

const ABANDON: &str =
    "abandon abandon abandon abandon abandon abandon abandon abandon abandon abandon abandon about";

fn hex(bytes: &[u8]) -> String {
    bytes.iter().map(|b| format!("{b:02x}")).collect()
}

fn path(network: Network, account: u32, change: Change, index: u32) -> DerivePath {
    DerivePath { purpose: Purpose::Bip86, account, network, change, index }
}

fn mainnet_master() -> [u8; 78] {
    create_private_key(Network::Bitcoin, ABANDON, "").unwrap()
}

#[test]
fn master_key_of_the_reference_mnemonic() {
    let master = mainnet_master();
    assert_eq!(
        hex(&master),
        "0488ade40000000000000000007923408dadd3c7b56eed15567707ae5e5dca089de972e07f3b860450e2a3b7\
         0e001837c1be8e2995ec11cda2b066151be2cfb48adf9e47b151d46adab3a21cdf67"
    );
}

#[test]
fn test_networks_get_a_test_master_key() {
    let test = create_private_key(Network::Regtest, ABANDON, "").unwrap();
    let main = mainnet_master();
    assert_eq!(hex(&test[..4]), "04358394");
    assert_eq!(test[4..], main[4..]);
}

#[test]
fn a_passphrase_changes_the_master_key() {
    let with = create_private_key(Network::Bitcoin, ABANDON, "TREZOR").unwrap();
    assert_ne!(with, mainnet_master());
}

#[test]
fn a_bad_mnemonic_is_refused_with_the_parse_error() {
    let unknown = create_private_key(Network::Bitcoin, "abandon abandon wallet", "");
    assert_eq!(
        unknown,
        Err("mnemonic has an invalid word count: 3. Word count must be 12, 15, 18, 21, or 24".to_string())
    );
    let word = ABANDON.replace("about", "zzzz");
    assert_eq!(
        create_private_key(Network::Bitcoin, &word, ""),
        Err("mnemonic contains an unknown word (word 11)".to_string())
    );
    let checksum = ABANDON.replace("about", "abandon");
    assert_eq!(
        create_private_key(Network::Bitcoin, &checksum, ""),
        Err("the mnemonic has an invalid checksum".to_string())
    );
}

#[test]
fn first_receiving_key_matches_the_reference_vector() {
    let child = derive_taproot(&mainnet_master(), &path(Network::Bitcoin, 0, Change::External, 0)).unwrap();
    assert_eq!(hex(&child.xonly), "cc8a4bc64d897bddc5fbc2f670f7a8ba0b386779106cf1223c6fc5d7cd6fc115");
    assert_eq!(
        hex(&child.script_pubkey),
        "5120a60869f0dbcf1dc659c9cecbaf8050135ea9e8cdc487053f1dc6880949dc684c"
    );
    assert_eq!(child.address, "bc1p5cyxnuxmeuwuvkwfem96lqzszd02n6xdcjrs20cac6yqjjwudpxqkedrcr");
}

#[test]
fn second_receiving_and_first_change_keys_match_the_reference_vectors() {
    let master = mainnet_master();
    let second = derive_taproot(&master, &path(Network::Bitcoin, 0, Change::External, 1)).unwrap();
    assert_eq!(second.address, "bc1p4qhjn9zdvkux4e44uhx8tc55attvtyu358kutcqkudyccelu0was9fqzwh");
    let change = derive_taproot(&master, &path(Network::Bitcoin, 0, Change::Internal, 0)).unwrap();
    assert_eq!(change.address, "bc1p3qkhfews2uk44qtvauqyr2ttdsw7svhkl9nkm9s9c3x4ax5h60wqwruhk7");
}

#[test]
fn regtest_addresses_use_the_regtest_prefix() {
    let master = create_private_key(Network::Regtest, ABANDON, "").unwrap();
    let child = derive_taproot(&master, &path(Network::Regtest, 0, Change::External, 0)).unwrap();
    assert!(child.address.starts_with("bcrt1p"));
    assert_eq!(child.script_pubkey.len(), 34);
    assert_eq!(&child.script_pubkey[..2], &[0x51, 0x20]);
    let signet = derive_taproot(&master, &path(Network::Signet, 0, Change::External, 0)).unwrap();
    assert!(signet.address.starts_with("tb1p"));
    assert_eq!(signet.xonly, child.xonly);
}

#[test]
fn a_hardened_account_number_cannot_be_derived() {
    let bad = derive_taproot(&mainnet_master(), &path(Network::Bitcoin, 0x8000_0000, Change::External, 0));
    assert!(bad.is_err());
}

#[test]
fn a_key_that_does_not_decode_cannot_be_derived() {
    let mut master = mainnet_master();
    master[0] = 0;
    assert!(derive_taproot(&master, &path(Network::Bitcoin, 0, Change::External, 0)).is_err());
}

#[test]
fn scripts_come_in_the_order_of_their_paths() {
    let master = mainnet_master();
    let paths = vec![
        path(Network::Bitcoin, 0, Change::External, 1),
        path(Network::Bitcoin, 0, Change::External, 0),
    ];
    let scripts = derive_scripts(&master, &paths).unwrap();
    assert_eq!(scripts.len(), 2);
    assert_eq!(scripts[0].1, paths[0]);
    assert_eq!(scripts[1].1, paths[1]);
    assert_eq!(hex(&scripts[1].0), "5120a60869f0dbcf1dc659c9cecbaf8050135ea9e8cdc487053f1dc6880949dc684c");
    assert_eq!(scripts[0].0, derive_taproot(&master, &paths[0]).unwrap().script_pubkey);
    let with_bad = vec![paths[0], path(Network::Bitcoin, 0x8000_0000, Change::External, 0)];
    assert!(derive_scripts(&master, &with_bad).is_err());
}

#[test]
fn main_key_is_the_first_receiving_key() {
    let account = Account::new(Network::Bitcoin, 0, "main".to_string());
    let (main, main_path) = account.main_key(&mainnet_master(), Network::Bitcoin).unwrap();
    assert_eq!(main_path, path(Network::Bitcoin, 0, Change::External, 0));
    assert_eq!(main.address, "bc1p5cyxnuxmeuwuvkwfem96lqzszd02n6xdcjrs20cac6yqjjwudpxqkedrcr");
}

#[test]
fn address_path_map_lists_the_key_chain_with_the_main_address_last() {
    let master = mainnet_master();
    let mut account = Account::new(Network::Bitcoin, 0, "main".to_string());
    account.keychain.push(LabeledDerivationPath {
        label: "change".to_string(),
        derive_path: path(Network::Bitcoin, 0, Change::Internal, 0),
    });
    account.keychain.push(LabeledDerivationPath {
        label: "second".to_string(),
        derive_path: path(Network::Bitcoin, 0, Change::External, 1),
    });
    let map = account.derive_address_path_map(&master, Network::Bitcoin).unwrap();
    let addresses: Vec<&str> = map.iter().map(|(c, _)| c.address.as_str()).collect();
    assert_eq!(
        addresses,
        vec![
            "bc1p3qkhfews2uk44qtvauqyr2ttdsw7svhkl9nkm9s9c3x4ax5h60wqwruhk7",
            "bc1p4qhjn9zdvkux4e44uhx8tc55attvtyu358kutcqkudyccelu0was9fqzwh",
            "bc1p5cyxnuxmeuwuvkwfem96lqzszd02n6xdcjrs20cac6yqjjwudpxqkedrcr",
        ]
    );
    assert_eq!(map[2].1, path(Network::Bitcoin, 0, Change::External, 0));
}

#[test]
fn address_path_map_fails_when_the_main_key_fails() {
    let mut master = mainnet_master();
    master[0] = 0;
    let account = Account::new(Network::Bitcoin, 0, "main".to_string());
    assert!(account.derive_address_path_map(&master, Network::Bitcoin).is_err());
}

#[test]
fn external_addresses_carry_label_path_and_address() {
    let master = mainnet_master();
    let mut account = Account::new(Network::Bitcoin, 0, "main".to_string());
    account.keychain.push(LabeledDerivationPath {
        label: "change".to_string(),
        derive_path: path(Network::Bitcoin, 0, Change::Internal, 0),
    });
    account.keychain.push(LabeledDerivationPath {
        label: "savings".to_string(),
        derive_path: path(Network::Bitcoin, 0, Change::External, 1),
    });
    let listed = get_external_addresess(&account, &master).unwrap();
    assert_eq!(listed.len(), 2);
    assert_eq!(listed[0].label, "main");
    assert_eq!(listed[0].path, "m/86'/0'/0'/0/0");
    assert_eq!(listed[0].address, "bc1p5cyxnuxmeuwuvkwfem96lqzszd02n6xdcjrs20cac6yqjjwudpxqkedrcr");
    assert_eq!(listed[1].label, "savings");
    assert_eq!(listed[1].path, "m/86'/0'/0'/0/1");
    assert_eq!(listed[1].address, "bc1p4qhjn9zdvkux4e44uhx8tc55attvtyu358kutcqkudyccelu0was9fqzwh");
}
