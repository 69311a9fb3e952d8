use satellion::btc::address::{
    create_diriviation_path, make_hardened, AddressType, Change, DerivePath, Network, Purpose, HARDENED,
};

#[test]
fn test_change_conversions() {
    assert_eq!(Change::try_from(0), Ok(Change::External));
    assert_eq!(Change::try_from(1), Ok(Change::Internal));
    assert!(Change::try_from(2).is_err());
}

#[test]
fn test_purpose_conversion() {
    assert_eq!(Purpose::try_from(86), Ok(Purpose::Bip86));
    assert!(Purpose::try_from(44).is_err());
}

#[test]
fn test_to_u32_vec() {
    let path = DerivePath {
        purpose: Purpose::Bip86,
        account: 0,
        network: Network::Bitcoin,
        change: Change::External,
        index: 0,
    };
    assert_eq!(path.to_slice(), make_hardened([86, 0, 0, 0, 0]));
}

#[test]
fn test_from_u32_vec() {
    let vec = make_hardened([86, 0, 0, 0, 0]);
    let result = DerivePath::from_slice(vec);
    assert!(result.is_ok());
    let path = result.unwrap();
    assert_eq!(path.purpose, Purpose::Bip86);
    assert_eq!(path.network, Network::Bitcoin);
    assert_eq!(path.change, Change::External);
    assert_eq!(path.index, 0);
    assert_eq!(path.account, 0);
}

#[test]
fn test_derive_path_roundtrip() {
    let original = DerivePath {
        purpose: Purpose::Bip86,
        account: 0,
        network: Network::Bitcoin,
        change: Change::Internal,
        index: 5,
    };
    let vec = original.to_slice();
    let parsed = DerivePath::from_slice(vec).unwrap();
    assert_eq!(original, parsed);
}

#[test]
fn test_derive_path_display() {
    let path = DerivePath {
        purpose: Purpose::Bip86,
        account: 0,
        network: Network::Bitcoin,
        change: Change::External,
        index: 0,
    };
    assert_eq!(path.to_string(), "m/86'/0'/0'/0/0");

    let path = DerivePath {
        purpose: Purpose::Bip86,
        account: 5,
        network: Network::Regtest,
        change: Change::Internal,
        index: 10,
    };
    assert_eq!(path.to_string(), "m/86'/1'/5'/1/10");
}

#[test]
fn test_from_u32_vec_invalid_purpose() {
    let vec = [44, 0, 0, 0, 0];
    assert!(DerivePath::from_slice(vec).is_err());
}

#[test]
fn test_from_u32_vec_invalid_change() {
    let vec = [86, 0, 0, 2, 0];
    assert!(DerivePath::from_slice(vec).is_err());
}

#[test]
fn test_from_u32_vec_invalid_network() {
    let vec = [86, 99, 0, 0, 0];
    assert!(DerivePath::from_slice(vec).is_err());
}

#[test]
fn test_regtest_network() {
    let path = DerivePath {
        purpose: Purpose::Bip86,
        account: 0,
        network: Network::Regtest,
        change: Change::External,
        index: 10,
    };
    let vec = path.to_slice();
    assert_eq!(vec, vec);

    let parsed = DerivePath::from_slice(vec).unwrap();
    assert_eq!(parsed.network, Network::Regtest);
}

#[test]
fn change_and_purpose_numbers() {
    assert_eq!(Change::External.number(), 0);
    assert_eq!(Change::Internal.number(), 1);
    assert_eq!(Purpose::Bip86.number(), 86);
}

#[test]
fn conversion_errors_name_the_value() {
    assert_eq!(Change::try_from(7).unwrap_err(), "Invalid bitcoin address change: 7");
    assert_eq!(Purpose::try_from(44).unwrap_err(), "invalid purpose 44");
}

#[test]
fn unhardened_components_are_refused() {
    assert_eq!(
        DerivePath::from_slice([86, HARDENED, HARDENED, 0, 0]).unwrap_err(),
        "purpose must be hardened"
    );
    assert_eq!(
        DerivePath::from_slice([HARDENED + 86, HARDENED, 3, 0, 0]).unwrap_err(),
        "account must be hardened"
    );
}

#[test]
fn any_non_zero_coin_type_reads_as_regtest() {
    let parsed = DerivePath::from_slice([HARDENED + 86, HARDENED + 7, HARDENED + 2, 1, 9]).unwrap();
    assert_eq!(parsed.network, Network::Regtest);
    assert_eq!(parsed.account, 2);
    assert_eq!(parsed.change, Change::Internal);
    assert_eq!(parsed.index, 9);
}

#[test]
fn make_hardened_marks_first_three() {
    assert_eq!(
        make_hardened([86, 1, 4, 1, 3]),
        [HARDENED + 86, HARDENED + 1, HARDENED + 4, 1, 3]
    );
}

#[test]
fn testnet_paths_use_coin_type_one() {
    let path = DerivePath {
        purpose: Purpose::Bip86,
        account: 2,
        network: Network::Testnet,
        change: Change::External,
        index: 4,
    };
    assert_eq!(path.to_string(), "m/86'/1'/2'/0/4");
    assert_eq!(path.to_slice(), [HARDENED + 86, HARDENED + 1, HARDENED + 2, 0, 4]);
}

#[test]
fn bip86_paths_of_account_zero() {
    let receive = create_diriviation_path(Network::Bitcoin, AddressType::Receive, 7);
    assert_eq!(receive.to_string(), "m/86'/0'/0'/0/7");
    let change = create_diriviation_path(Network::Regtest, AddressType::Change, 0);
    assert_eq!(change.to_string(), "m/86'/1'/0'/1/0");
    assert_eq!(AddressType::Receive.number(), 0);
    assert_eq!(AddressType::Change.number(), 1);
}
