//! Well-known Ethereum tokens.
use vstd::prelude::*;

use crate::chain::eth::token::Token;

verus! {

/// Ether, under the conventional placeholder address 0xEeee…EEeE.
pub fn eth_token() -> (token: Token)
    ensures
        token.address@ == seq![0xEEu8, 0xee, 0xee, 0xee, 0xee, 0xee, 0xee, 0xee, 0xee, 0xee, 0xee, 0xee, 0xee, 0xee, 0xee, 0xee, 0xee, 0xee, 0xee, 0xee],
        token.symbol@ == "ETH"@,
        token.decimals == 18,
{
    let address: [u8; 20] = [0xEE; 20];
    assert(address@ =~= seq![0xEEu8, 0xee, 0xee, 0xee, 0xee, 0xee, 0xee, 0xee, 0xee, 0xee, 0xee, 0xee, 0xee, 0xee, 0xee, 0xee, 0xee, 0xee, 0xee, 0xee]);
    Token::new(address, "ETH".to_owned(), 18)
}

/// Circle USD.
pub fn usdc_token() -> (token: Token)
    ensures
        token.address@ == seq![0xA0u8, 0xb8, 0x69, 0x91, 0xc6, 0x21, 0x8b, 0x36, 0xc1, 0xd1, 0x9D, 0x4a, 0x2e, 0x9E, 0xb0, 0xcE, 0x36, 0x06, 0xeB, 0x48],
        token.symbol@ == "USDC"@,
        token.decimals == 6,
{
    let address: [u8; 20] = [0xA0, 0xb8, 0x69, 0x91, 0xc6, 0x21, 0x8b, 0x36, 0xc1, 0xd1, 0x9D, 0x4a, 0x2e, 0x9E, 0xb0, 0xcE, 0x36, 0x06, 0xeB, 0x48];
    Token::new(address, "USDC".to_owned(), 6)
}

/// Tether USD.
pub fn usdt_token() -> (token: Token)
    ensures
        token.address@ == seq![0xdAu8, 0xC1, 0x7F, 0x95, 0x8D, 0x2e, 0xe5, 0x23, 0xa2, 0x20, 0x62, 0x06, 0x99, 0x45, 0x97, 0xC1, 0x3D, 0x83, 0x1e, 0xc7],
        token.symbol@ == "USDT"@,
        token.decimals == 6,
{
    let address: [u8; 20] = [0xdA, 0xC1, 0x7F, 0x95, 0x8D, 0x2e, 0xe5, 0x23, 0xa2, 0x20, 0x62, 0x06, 0x99, 0x45, 0x97, 0xC1, 0x3D, 0x83, 0x1e, 0xc7];
    Token::new(address, "USDT".to_owned(), 6)
}

/// The tokens every new account watches: USDC (six decimals) at
/// 0xA0b8…eB48 and USDT (six decimals) at 0xdAC1…1ec7, in that order.
pub open spec fn is_default_tokens(tokens: Seq<Token>) -> bool {
    &&& tokens.len() == 2
    &&& tokens[0].address@ == seq![0xA0u8, 0xb8, 0x69, 0x91, 0xc6, 0x21, 0x8b, 0x36, 0xc1, 0xd1, 0x9D, 0x4a, 0x2e, 0x9E, 0xb0, 0xcE, 0x36, 0x06, 0xeB, 0x48]
    &&& tokens[0].symbol@ == "USDC"@
    &&& tokens[0].decimals == 6
    &&& tokens[1].address@ == seq![0xdAu8, 0xC1, 0x7F, 0x95, 0x8D, 0x2e, 0xe5, 0x23, 0xa2, 0x20, 0x62, 0x06, 0x99, 0x45, 0x97, 0xC1, 0x3D, 0x83, 0x1e, 0xc7]
    &&& tokens[1].symbol@ == "USDT"@
    &&& tokens[1].decimals == 6
}

/// The tokens every new account watches: USDC and USDT.
pub fn default_tokens() -> (tokens: Vec<Token>)
    ensures
        is_default_tokens(tokens@),
{
    let mut tokens = Vec::new();
    tokens.push(usdc_token());
    tokens.push(usdt_token());
    tokens
}

} // verus!
