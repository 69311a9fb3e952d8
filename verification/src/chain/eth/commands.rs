//! What the Ethereum commands decide before and after they talk to the
//! network: which token a request names, changes to the watch list, and
//! how balances and fees are shown.
use vstd::prelude::*;

use crate::chain::eth::address::{address_of_hex, b256_text, checksum_text, hex_error_text, address_checksum_text};
use crate::chain::eth::constants::eth_token;
use crate::chain::eth::dtos::{LatestBlock, NetworkStatus, TokenAmount, TokenBalance, TrackedTokenInfo, WalletBalance};
use crate::config::BlockChain;
use crate::chain::eth::units::{be_value, format_units, saturating_u64, u256_decimal, units_text};
use crate::text::{decimal, hex_lower, u64_to_decimal};
use crate::chain::eth::token::{same_token, Token};
use crate::chain::eth::wallet::{
    eth_account_position, first_with_address, lemma_eth_account_position, lemma_first_with_address,
    parse_addres, token_listed, track_outcome, untrack_outcome, EthereumWallet,
};
use crate::chain_trait::AssetTracker;

verus! {

/// Ether's placeholder address 0xEeee…EEeE.
pub open spec fn eth_address() -> Seq<u8> {
    seq![0xEEu8, 0xee, 0xee, 0xee, 0xee, 0xee, 0xee, 0xee, 0xee, 0xee, 0xee, 0xee, 0xee, 0xee, 0xee, 0xee, 0xee, 0xee, 0xee, 0xee]
}

/// The first watched token of the active account at the address, if any.
pub open spec fn watched_token(w: EthereumWallet, address: Seq<u8>) -> Option<Token> {
    match eth_account_position(w.accounts@, w.active_account) {
        Some(j) => match first_with_address(w.accounts@[j].tracked_tokens@, address) {
            Some(k) => Some(w.accounts@[j].tracked_tokens@[k]),
            None => None,
        },
        None => None,
    }
}

/// Starts watching the token at `address`, with the symbol and decimals its
/// contract reports; tells what was watched.
pub fn track_token(wallet: &mut EthereumWallet, address: &str, symbol: String, decimals: u8) -> (result:
    Result<TrackedTokenInfo, String>)
    ensures
        address_of_hex(address@) is None ==> (result matches Err(e) && e@
            == "Invalid Ethereum address: "@ + hex_error_text(address@) && *final(wallet) == *old(wallet)),
        address_of_hex(address@) matches Some(b) ==> exists|t: Token, outcome: Result<(), String>|
            t.address@ == b && t.symbol@ == symbol@ && t.decimals == decimals && #[trigger] track_outcome(
                *old(wallet),
                *final(wallet),
                t,
                outcome,
            ) && (outcome matches Err(e) ==> result == Err::<TrackedTokenInfo, String>(e)) && (
            outcome is Ok ==> (result matches Ok(info) && info.chain == BlockChain::Ethereum
                && info.symbol@ == symbol@ && info.decimals == decimals as i32)),
{
    let address = match parse_addres(address) {
        Ok(address) => address,
        Err(e) => return Err(e),
    };
    let info = TrackedTokenInfo { chain: BlockChain::Ethereum, symbol: symbol.clone(), decimals: decimals as i32 };
    let token = Token { address, symbol, decimals };
    let ghost asset = token;
    let outcome = wallet.track(token);
    proof {
        assert(track_outcome(*old(wallet), *wallet, asset, outcome));
    }
    match outcome {
        Ok(()) => Ok(info),
        Err(e) => Err(e),
    }
}

/// Stops watching the token at `token_address` on the active account; an
/// error if it is not watched there.
pub fn untrack_token(wallet: &mut EthereumWallet, token_address: &str) -> (result: Result<(), String>)
    ensures
        address_of_hex(token_address@) is None ==> (result matches Err(e) && e@
            == "Invalid Ethereum address: "@ + hex_error_text(token_address@) && *final(wallet) == *old(wallet)),
        address_of_hex(token_address@) matches Some(b) ==> {
            &&& watched_token(*old(wallet), b) is None ==> (result matches Err(e) && e@
                == "Token with this address hasn't been tracked"@ && *final(wallet) == *old(wallet))
            &&& watched_token(*old(wallet), b) matches Some(t) ==> result is Ok && exists|copy: Token|
                same_token(copy, t) && #[trigger] untrack_outcome(*old(wallet), *final(wallet), copy, result)
        },
{
    let address = match parse_addres(token_address) {
        Ok(address) => address,
        Err(e) => return Err(e),
    };
    let token = match wallet.get_tracked_token(address) {
        Some(t) => t.duplicate(),
        None => return Err("Token with this address hasn't been tracked".to_owned()),
    };
    let ghost copy = token;
    proof {
        lemma_eth_account_position(wallet.accounts@, wallet.active_account);
        let j = eth_account_position(wallet.accounts@, wallet.active_account).unwrap();
        lemma_first_with_address(wallet.accounts@[j].tracked_tokens@, address@);
        let k = first_with_address(wallet.accounts@[j].tracked_tokens@, address@).unwrap();
        assert(same_token(wallet.accounts@[j].tracked_tokens@[k], copy));
        assert(token_listed(wallet.accounts@[j].tracked_tokens@, copy));
    }
    let result = wallet.untrack(token);
    proof {
        assert(untrack_outcome(*old(wallet), *wallet, copy, result));
    }
    result
}

/// The token a transfer request names: ether at its placeholder address,
/// otherwise a token the active account watches.
pub fn transfer_token(wallet: &EthereumWallet, token_address: &str) -> (token: Result<Token, String>)
    ensures
        address_of_hex(token_address@) is None ==> (token matches Err(e) && e@
            == "Invalid Ethereum address: "@ + hex_error_text(token_address@)),
        address_of_hex(token_address@) == Some(eth_address()) ==> (token matches Ok(t) && t.address@
            == eth_address() && t.symbol@ == "ETH"@ && t.decimals == 18),
        address_of_hex(token_address@) matches Some(b) ==> (b != eth_address() ==> {
            &&& watched_token(*wallet, b) matches Some(w) ==> (token matches Ok(t) && same_token(t, w))
            &&& watched_token(*wallet, b) is None ==> (token matches Err(e) && e@
                == "Token with address '"@ + checksum_text(b) + "' not found in tracked tokens."@)
        }),
{
    let address = match parse_addres(token_address) {
        Ok(address) => address,
        Err(e) => return Err(e),
    };
    let ether = eth_token();
    if crate::chain::eth::token::address_eq(&address, &ether.address) {
        return Ok(ether);
    }
    match wallet.get_tracked_token(address) {
        Some(t) => Ok(t.duplicate()),
        None => {
            let mut msg = "Token with address '".to_owned();
            msg.append(address_checksum_text(&address).as_str());
            msg.append("' not found in tracked tokens.");
            Err(msg)
        },
    }
}

/// The balance line of `token` holding `amount` base units: its symbol and
/// decimals, the amount in whole tokens, and its EIP-55 address.
pub open spec fn shows_token(line: TokenBalance, token: Token, amount: Seq<u8>) -> bool {
    &&& line.symbol@ == token.symbol@
    &&& line.balance@ == units_text(be_value(amount), token.decimals as nat)
    &&& line.decimals == token.decimals
    &&& line.address@ == checksum_text(token.address@)
}

/// The balance line of a token.
fn token_line(token: &Token, amount: &[u8; 32]) -> (line: TokenBalance)
    requires
        token.decimals <= 77,
    ensures
        shows_token(line, *token, amount@),
{
    TokenBalance {
        symbol: token.symbol.clone(),
        balance: format_units(amount, token.decimals),
        decimals: token.decimals,
        address: address_checksum_text(&token.address),
    }
}

/// The balance view of an address that holds `wei` and the token amounts
/// its watched tokens report: one line per token in the order given, then
/// ether in whole ether.
pub fn wallet_balance(wei: [u8; 32], amounts: &Vec<TokenAmount>) -> (balance: WalletBalance)
    requires
        forall|i: int| 0 <= i < amounts.len() ==> #[trigger] amounts@[i].token.decimals <= 77,
    ensures
        balance.wei@ == decimal(be_value(wei@)),
        balance.tokens.len() == amounts.len() + 1,
        forall|i: int|
            0 <= i < amounts.len() ==> shows_token(
                #[trigger] balance.tokens@[i],
                amounts@[i].token,
                amounts@[i].balance@,
            ),
        balance.tokens@.last().symbol@ == "ETH"@,
        balance.tokens@.last().balance@ == units_text(be_value(wei@), 18),
        balance.tokens@.last().decimals == 18,
        balance.tokens@.last().address@ == checksum_text(eth_address()),
{
    let mut tokens: Vec<TokenBalance> = Vec::new();
    let mut i: usize = 0;
    while i < amounts.len()
        invariant
            i <= amounts.len(),
            tokens.len() == i,
            forall|j: int| 0 <= j < amounts.len() ==> #[trigger] amounts@[j].token.decimals <= 77,
            forall|j: int|
                0 <= j < i ==> shows_token(#[trigger] tokens@[j], amounts@[j].token, amounts@[j].balance@),
        decreases amounts.len() - i,
    {
        let line = token_line(&amounts[i].token, &amounts[i].balance);
        tokens.push(line);
        i = i + 1;
    }
    let ether = eth_token();
    proof {
        assert(ether.address@ =~= eth_address());
    }
    let ether_line = TokenBalance {
        symbol: ether.symbol.clone(),
        balance: format_units(&wei, ether.decimals),
        decimals: ether.decimals,
        address: address_checksum_text(&ether.address),
    };
    tokens.push(ether_line);
    WalletBalance { wei: u256_decimal(&wei), tokens }
}

/// The fee ceiling of a transfer estimate in gwei, as shown: the ceiling in
/// wei, capped at `u64::MAX`, divided by 10^9, in decimal.
pub fn fee_ceiling_gwei(fee_ceiling: [u8; 32]) -> (text: String)
    ensures
        text@ == decimal(
            (if be_value(fee_ceiling@) > u64::MAX { u64::MAX as nat } else { be_value(fee_ceiling@) })
                / 1_000_000_000,
        ),
{
    let wei = saturating_u64(&fee_ceiling);
    u64_to_decimal(wei / 1_000_000_000)
}

/// The network status shown for the latest block the node reports: its
/// number and base fee in decimal and its hash in `0x` hexadecimal; an error
/// when the node has no latest block.
pub fn network_status(latest: Option<LatestBlock>) -> (status: Result<NetworkStatus, String>)
    ensures
        latest is None ==> (status matches Err(e) && e@ == "Block not found"@),
        latest matches Some(b) ==> (status matches Ok(s) && s.block_number@ == decimal(b.number as nat)
            && s.block_hash@ == "0x"@ + hex_lower(b.hash@) && match b.base_fee_per_gas {
            Some(fee) => s.base_fee_per_gas matches Some(t) && t@ == decimal(fee as nat),
            None => s.base_fee_per_gas is None,
        }),
{
    let block = match latest {
        Some(block) => block,
        None => return Err("Block not found".to_owned()),
    };
    let base_fee_per_gas = match block.base_fee_per_gas {
        Some(fee) => Some(u64_to_decimal(fee)),
        None => None,
    };
    Ok(
        NetworkStatus {
            block_number: u64_to_decimal(block.number),
            block_hash: b256_text(&block.hash),
            base_fee_per_gas,
        },
    )
}

} // verus!
