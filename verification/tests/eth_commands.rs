use satellion::chain::eth::commands::{
    fee_ceiling_gwei, network_status, track_token, transfer_token, untrack_token, wallet_balance,
};
use satellion::chain::eth::constants::{usdc_token, usdt_token};
use satellion::chain::eth::dtos::{LatestBlock, TokenAmount};
use satellion::chain::eth::token::Token;
use satellion::chain::eth::wallet::EthereumWallet;
use satellion::config::BlockChain;

const ETH: &str = "0xEeeeeEeeeEeEeeEeEeEeeEEEeeeeEeeeeeeeEEeE";
const USDC: &str = "0xA0b86991c6218b36c1d19D4a2e9Eb0cE3606eB48";
const DAI: &str = "0x6B175474E89094C44Da98b954EedeAC495271d0F";

#[test]
fn track_token_adds_the_reported_symbol() {
    let mut wallet = EthereumWallet::new();
    let info = track_token(&mut wallet, DAI, "DAI".to_string(), 18).unwrap();
    assert_eq!(info.chain, BlockChain::Ethereum);
    assert_eq!(info.symbol, "DAI");
    assert_eq!(info.decimals, 18);
    let tokens = wallet.active_tracked_tokens().unwrap();
    assert_eq!(tokens.len(), 3);
    assert_eq!(tokens[2].symbol, "DAI");
    assert_eq!(tokens[2].decimals, 18);
}

#[test]
fn track_token_refuses_a_malformed_address() {
    let mut wallet = EthereumWallet::new();
    let err = track_token(&mut wallet, "0x1234", "X".to_string(), 6).err().unwrap();
    assert!(err.starts_with("Invalid Ethereum address: "));
    assert_eq!(wallet.active_tracked_tokens().unwrap().len(), 2);
}

#[test]
fn track_token_refuses_a_duplicate() {
    let mut wallet = EthereumWallet::new();
    let err = track_token(&mut wallet, USDC, "USDC".to_string(), 6).err().unwrap();
    assert_eq!(err, "Token USDC already tracked");
}

#[test]
fn untrack_token_removes_a_watched_token() {
    let mut wallet = EthereumWallet::new();
    untrack_token(&mut wallet, USDC).unwrap();
    let tokens = wallet.active_tracked_tokens().unwrap();
    assert_eq!(tokens.len(), 1);
    assert_eq!(tokens[0].symbol, "USDT");
}

#[test]
fn untrack_token_of_an_unwatched_address_fails() {
    let mut wallet = EthereumWallet::new();
    let err = untrack_token(&mut wallet, DAI).err().unwrap();
    assert_eq!(err, "Token with this address hasn't been tracked");
    assert_eq!(wallet.active_tracked_tokens().unwrap().len(), 2);
}

#[test]
fn transfer_token_of_ether_needs_no_watch() {
    let wallet = EthereumWallet::new();
    let token = transfer_token(&wallet, ETH).unwrap();
    assert_eq!(token.symbol, "ETH");
    assert_eq!(token.decimals, 18);
}

#[test]
fn transfer_token_finds_a_watched_token() {
    let wallet = EthereumWallet::new();
    let token = transfer_token(&wallet, USDC).unwrap();
    assert_eq!(token.symbol, "USDC");
    assert_eq!(token.decimals, 6);
}

#[test]
fn transfer_token_of_an_unwatched_address_names_it_checksummed() {
    let wallet = EthereumWallet::new();
    let lower = DAI.to_lowercase();
    let err = transfer_token(&wallet, &lower).err().unwrap();
    assert_eq!(err, format!("Token with address '{}' not found in tracked tokens.", DAI));
}

fn be_bytes(v: u128) -> [u8; 32] {
    let mut out = [0u8; 32];
    out[16..].copy_from_slice(&v.to_be_bytes());
    out
}

#[test]
fn wallet_balance_formats_each_token_and_ether_last() {
    let amounts = vec![
        TokenAmount { token: usdc_token(), balance: be_bytes(1_500_000) },
        TokenAmount { token: usdt_token(), balance: be_bytes(42) },
    ];
    let balance = wallet_balance(be_bytes(1_395_633_240_123_456_000), &amounts);
    assert_eq!(balance.wei, "1395633240123456000");
    assert_eq!(balance.tokens.len(), 3);
    assert_eq!(balance.tokens[0].symbol, "USDC");
    assert_eq!(balance.tokens[0].balance, "1.500000");
    assert_eq!(balance.tokens[0].decimals, 6);
    assert_eq!(balance.tokens[0].address, USDC);
    assert_eq!(balance.tokens[1].balance, "0.000042");
    assert_eq!(balance.tokens[2].symbol, "ETH");
    assert_eq!(balance.tokens[2].balance, "1.395633240123456000");
    assert_eq!(balance.tokens[2].decimals, 18);
    assert_eq!(balance.tokens[2].address, ETH);
}

#[test]
fn wallet_balance_of_an_empty_address() {
    let balance = wallet_balance([0u8; 32], &Vec::new());
    assert_eq!(balance.wei, "0");
    assert_eq!(balance.tokens.len(), 1);
    assert_eq!(balance.tokens[0].balance, "0.000000000000000000");
}

#[test]
fn wallet_balance_of_a_full_width_amount() {
    let balance = wallet_balance([0xFF; 32], &Vec::new());
    assert_eq!(
        balance.wei,
        "115792089237316195423570985008687907853269984665640564039457584007913129639935"
    );
    assert_eq!(
        balance.tokens[0].balance,
        "115792089237316195423570985008687907853269984665640564039457.584007913129639935"
    );
}

#[test]
fn token_of_zero_decimals_shows_a_zero_fraction() {
    let token = Token::new([1u8; 20], "WHOLE".to_string(), 0);
    let balance = wallet_balance([0u8; 32], &vec![TokenAmount { token, balance: be_bytes(7) }]);
    assert_eq!(balance.tokens[0].balance, "7.0");
}

#[test]
fn fee_ceiling_in_gwei() {
    assert_eq!(fee_ceiling_gwei(be_bytes(630_000_000_000_000)), "630000");
    assert_eq!(fee_ceiling_gwei(be_bytes(999_999_999)), "0");
}

#[test]
fn fee_ceiling_saturates_at_u64_max() {
    assert_eq!(fee_ceiling_gwei(be_bytes(1u128 << 64)), "18446744073");
    assert_eq!(fee_ceiling_gwei([0xFF; 32]), "18446744073");
}

#[test]
fn network_status_of_the_latest_block() {
    let status = network_status(Some(LatestBlock {
        number: 19_000_000,
        hash: [0xAB; 32],
        base_fee_per_gas: Some(12_345),
    }))
    .unwrap();
    assert_eq!(status.block_number, "19000000");
    assert_eq!(status.block_hash, format!("0x{}", "ab".repeat(32)));
    assert_eq!(status.base_fee_per_gas, Some("12345".to_string()));
    let pre_london = network_status(Some(LatestBlock { number: 0, hash: [0; 32], base_fee_per_gas: None })).unwrap();
    assert_eq!(pre_london.block_number, "0");
    assert!(pre_london.base_fee_per_gas.is_none());
    assert_eq!(network_status(None).err().unwrap(), "Block not found");
}
