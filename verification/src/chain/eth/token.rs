use vstd::prelude::*;

verus! {

/// An ERC-20 token (or ether itself): its contract address, symbol and decimals.
pub struct Token {
    pub address: [u8; 20],
    pub symbol: String,
    pub decimals: u8,
}

/// Two tokens are the same token: same address, symbol and decimals.
pub open spec fn same_token(a: Token, b: Token) -> bool {
    a.address@ == b.address@ && a.symbol@ == b.symbol@ && a.decimals == b.decimals
}

/// Two token addresses are equal.
pub fn address_eq(a: &[u8; 20], b: &[u8; 20]) -> (eq: bool)
    ensures
        eq == (a@ == b@),
{
    let mut i: usize = 0;
    while i < 20
        invariant
            i <= 20,
            a@.len() == 20,
            b@.len() == 20,
            forall|j: int| 0 <= j < i ==> a@[j] == b@[j],
        decreases 20 - i,
    {
        if a[i] != b[i] {
            return false;
        }
        i = i + 1;
    }
    assert(a@ =~= b@);
    true
}

impl Token {
    pub fn new(address: [u8; 20], symbol: String, decimals: u8) -> (token: Self)
        ensures
            token.address@ == address@,
            token.symbol@ == symbol@,
            token.decimals == decimals,
    {
        Token { address, symbol, decimals }
    }

    /// Whether two tokens are the same token.
    pub fn eq(&self, other: &Token) -> (eq: bool)
        ensures
            eq == same_token(*self, *other),
    {
        address_eq(&self.address, &other.address) && self.decimals == other.decimals
            && self.symbol == other.symbol
    }

    /// A copy of the token.
    pub fn duplicate(&self) -> (copy: Token)
        ensures
            same_token(copy, *self),
    {
        Token { address: self.address, symbol: self.symbol.clone(), decimals: self.decimals }
    }
}

} // verus!
