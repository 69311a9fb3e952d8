//! What the Ethereum side shows: balances per token.
use vstd::prelude::*;

use crate::chain::eth::token::Token;
use crate::config::BlockChain;
use crate::chain::eth::wallet::EthereumAccountSummary;

verus! {

/// A token and how many of its base units an address holds, as the ERC-20
/// `balanceOf` call reports it (a 256-bit number, big-endian).
pub struct TokenAmount {
    pub token: Token,
    pub balance: [u8; 32],
}

/// One line of the balance view.
pub struct TokenBalance {
    pub symbol: String,
    pub balance: String,
    pub decimals: u8,
    pub address: String,
}

/// The balance view of an address: its wei, and one line per token with
/// ether last.
pub struct WalletBalance {
    pub wei: String,
    pub tokens: Vec<TokenBalance>,
}

/// The active account as unlocking shows it: its index and the address of
/// its signing key.
pub struct EthereumActiveAccountView {
    pub index: u32,
    pub address: String,
}

/// What unlocking shows of the Ethereum side: every account, and the active
/// one with its address.
pub struct EthereumUnlock {
    pub accounts: Vec<EthereumAccountSummary>,
    pub active_account: EthereumActiveAccountView,
}

/// A token just watched, as the user is told of it.
pub struct TrackedTokenInfo {
    pub chain: BlockChain,
    pub symbol: String,
    pub decimals: i32,
}

/// The latest block, as the node reports it: number, hash and base fee.
pub struct LatestBlock {
    pub number: u64,
    pub hash: [u8; 32],
    pub base_fee_per_gas: Option<u64>,
}

/// The state of the chain as shown: the latest block's number, hash and
/// base fee, as text.
pub struct NetworkStatus {
    pub block_number: String,
    pub block_hash: String,
    pub base_fee_per_gas: Option<String>,
}

} // verus!
