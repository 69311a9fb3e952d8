use satellion::chain::eth::constants::{default_tokens, eth_token, usdc_token, usdt_token};
use satellion::chain::eth::persistence::{TokenStored, WalletStored};
use satellion::chain::eth::wallet::{parse_addres, EthereumWallet};
use satellion::chain_trait::AssetTracker;

#[test]
fn account_lifecycle_keeps_a_valid_active_account() {
    let mut wallet = EthereumWallet::new();
    let second = wallet.create_account("cold".to_string());

    assert_eq!(wallet.active_account, second);
    wallet.rename_account(second, "savings".to_string()).unwrap();
    wallet.switch_account(0).unwrap();

    assert_eq!(wallet.active_account().unwrap().name, "main");
    assert_eq!(wallet.get_account(second).unwrap().name, "savings");
    assert!(wallet.switch_account(99).is_err());
}

#[test]
fn tracked_tokens_are_isolated_per_account() {
    let mut wallet = EthereumWallet::new();
    let second = wallet.create_account("cold".to_string());

    wallet.track(eth_token()).unwrap();
    wallet.switch_account(0).unwrap();
    assert!(wallet.get_tracked_token(eth_token().address).is_none());

    wallet.switch_account(second).unwrap();
    assert!(wallet.get_tracked_token(eth_token().address).is_some());
}

#[test]
fn new_accounts_watch_the_default_tokens() {
    let wallet = EthereumWallet::new();
    let tokens = wallet.active_tracked_tokens().unwrap();
    assert_eq!(tokens.len(), 2);
    assert_eq!(tokens[0].symbol, "USDC");
    assert_eq!(tokens[1].symbol, "USDT");
    assert_eq!(default_tokens().len(), 2);
}

#[test]
fn tracking_twice_is_refused() {
    let mut wallet = EthereumWallet::new();
    let err = wallet.track(usdc_token()).unwrap_err();
    assert_eq!(err, "Token USDC already tracked");
}

#[test]
fn track_then_untrack_restores_the_list() {
    let mut wallet = EthereumWallet::new();
    wallet.track(eth_token()).unwrap();
    assert_eq!(wallet.active_tracked_tokens().unwrap().len(), 3);
    wallet.untrack(eth_token()).unwrap();
    let symbols: Vec<String> =
        wallet.active_tracked_tokens().unwrap().iter().map(|t| t.symbol.clone()).collect();
    assert_eq!(symbols, vec!["USDC".to_string(), "USDT".to_string()]);
}

#[test]
fn untracking_an_unknown_token_names_its_checksummed_address() {
    let mut wallet = EthereumWallet::new();
    let err = wallet.untrack(eth_token()).unwrap_err();
    assert_eq!(err, "Token address '0xEeeeeEeeeEeEeeEeEeEeeEEEeeeeEeeeeeeeEEeE' not tracked");
}

#[test]
fn rename_of_missing_account_fails() {
    let mut wallet = EthereumWallet::new();
    assert_eq!(wallet.rename_account(5, "x".to_string()).unwrap_err(), "account not found");
}

#[test]
fn account_indices_grow_from_the_largest() {
    let mut wallet = EthereumWallet::new();
    assert_eq!(wallet.create_account("a".to_string()), 1);
    assert_eq!(wallet.create_account("b".to_string()), 2);
    let summaries = wallet.account_summaries();
    let indices: Vec<u32> = summaries.iter().map(|s| s.index).collect();
    assert_eq!(indices, vec![0, 1, 2]);
}

#[test]
fn parse_addres_reads_hex_of_either_case() {
    let parsed = parse_addres("0xdAC17F958D2ee523a2206206994597C13D831ec7").unwrap();
    assert_eq!(parsed, usdt_token().address);
    let lower = parse_addres("dac17f958d2ee523a2206206994597c13d831ec7").unwrap();
    assert_eq!(lower, usdt_token().address);
}

#[test]
fn parse_addres_refuses_bad_text() {
    let err = parse_addres("0x1234").unwrap_err();
    assert!(err.starts_with("Invalid Ethereum address: "));
    assert!(parse_addres("0xZZC17F958D2ee523a2206206994597C13D831ec7").is_err());
}

#[test]
fn stored_tokens_use_checksummed_addresses() {
    let stored = TokenStored::from_token(&usdc_token());
    assert_eq!(stored.address, "0xA0b86991c6218b36c1d19D4a2e9Eb0cE3606eB48");
    assert_eq!(stored.symbol, "USDC");
    assert_eq!(stored.decimals, 6);
    let back = stored.into_token().unwrap();
    assert_eq!(back.address, usdc_token().address);
}

#[test]
fn eth_wallet_record_roundtrip() {
    let mut wallet = EthereumWallet::new();
    let second = wallet.create_account("cold".to_string());
    wallet.track(eth_token()).unwrap();
    let stored = WalletStored::from_wallet(&wallet);
    assert_eq!(stored.active_account, second);

    let back = EthereumWallet::from_dto(stored).unwrap();
    assert_eq!(back.active_account, second);
    assert_eq!(back.accounts.len(), 2);
    assert_eq!(back.accounts[1].name, "cold");
    assert_eq!(back.accounts[1].tracked_tokens.len(), 3);
    assert_eq!(back.accounts[1].tracked_tokens[2].address, eth_token().address);
}

#[test]
fn wallet_record_with_a_bad_address_is_refused() {
    let mut stored = WalletStored::from_wallet(&EthereumWallet::new());
    stored.accounts[0].tracked_tokens[1].address = "not an address".to_string();
    let err = EthereumWallet::from_dto(stored).err().unwrap();
    assert!(err.starts_with("Invalid Ethereum address: "));
}

const MNEMONIC: &str =
    "abandon abandon abandon abandon abandon abandon abandon abandon abandon abandon abandon about";

#[test]
fn accounts_use_separate_bip44_derivation_paths() {
    let mut wallet = EthereumWallet::new();
    let first = wallet.prk_address_for_account(MNEMONIC, "", wallet.active_account).unwrap();

    assert_eq!(wallet.create_account("frequent".to_string()), 1);
    let second = wallet.prk_address_for_account(MNEMONIC, "", wallet.active_account).unwrap();

    assert_ne!(first, second);
}

#[test]
fn the_first_account_key_is_the_standard_bip44_one() {
    let wallet = EthereumWallet::new();
    assert_eq!(wallet.prk_path().unwrap(), "m/44'/60'/0'/0/0");
    let address = wallet.prk_address_for_account(MNEMONIC, "", 0).unwrap();
    assert_eq!(address, parse_addres("0x9858EfFD232B4033E47d90003D41EC34EcaEda94").unwrap());
}

#[test]
fn key_paths_need_an_existing_account() {
    let wallet = EthereumWallet::new();
    assert_eq!(wallet.prk_path_for_account(3).err().unwrap(), "account not found");
    assert_eq!(wallet.prk_address_for_account(MNEMONIC, "", 3).err().unwrap(), "account not found");
    let err = wallet.prk_address_for_account("not a mnemonic", "", 0).err().unwrap();
    assert!(err.starts_with("fail to derive eth signer: "));
}

#[test]
fn unlock_shows_the_accounts_and_the_active_address() {
    let mut wallet = EthereumWallet::new();
    wallet.create_account("cold".to_string());
    let unlocked = wallet.unlock("0xabc".to_string()).unwrap();
    assert_eq!(unlocked.accounts.len(), 2);
    assert_eq!(unlocked.accounts[1].name, "cold");
    assert_eq!(unlocked.active_account.index, 1);
    assert_eq!(unlocked.active_account.address, "0xabc");
    wallet.active_account = 7;
    assert_eq!(wallet.unlock("0xabc".to_string()).err().unwrap(), "account not found");
}
