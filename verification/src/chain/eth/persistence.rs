//! The stored form of the Ethereum side of a wallet: its accounts and the
//! tokens each one watches, with token addresses as EIP-55 text.
use vstd::prelude::*;

use crate::chain::eth::address::{
    address_checksum_text, address_of_hex, checksum_text, hex_error_text, lemma_checksum_text_parses,
};
use crate::chain::eth::token::{same_token, Token};
use crate::chain::eth::wallet::{parse_addres, Account, AccountIndex, EthereumWallet};

verus! {

/// A token as stored.
pub struct TokenStored {
    pub symbol: String,
    pub address: String,
    pub decimals: u8,
}

/// An account as stored.
pub struct AccountStored {
    pub index: u32,
    pub name: String,
    pub tracked_tokens: Vec<TokenStored>,
}

/// A wallet as stored.
pub struct WalletStored {
    pub accounts: Vec<AccountStored>,
    pub active_account: u32,
}

/// The record holds the token's symbol and decimals, and its address as
/// EIP-55 text.
pub open spec fn token_recorded(s: TokenStored, t: Token) -> bool {
    &&& s.symbol@ == t.symbol@
    &&& s.address@ == checksum_text(t.address@)
    &&& address_of_hex(s.address@) == Some(t.address@)
    &&& s.decimals == t.decimals
}

/// What reading a token record gives: the token, where its address text is
/// a valid address, else the parse error.
pub open spec fn token_restored(r: Result<Token, String>, s: TokenStored) -> bool {
    match r {
        Ok(t) => address_of_hex(s.address@) == Some(t.address@) && t.symbol@ == s.symbol@
            && t.decimals == s.decimals,
        Err(e) => address_of_hex(s.address@) is None && e@ == "Invalid Ethereum address: "@
            + hex_error_text(s.address@),
    }
}

impl TokenStored {
    pub fn from_token(t: &Token) -> (stored: TokenStored)
        ensures
            token_recorded(stored, *t),
    {
        let address = address_checksum_text(&t.address);
        proof {
            lemma_checksum_text_parses(t.address@, address@);
        }
        TokenStored { symbol: t.symbol.clone(), address, decimals: t.decimals }
    }

    pub fn into_token(self) -> (token: Result<Token, String>)
        ensures
            token_restored(token, self),
    {
        let address = parse_addres(self.address.as_str())?;
        Ok(Token { address, symbol: self.symbol, decimals: self.decimals })
    }
}

/// A stored token is read back as the same token.
pub proof fn lemma_token_roundtrip(t: Token, s: TokenStored, r: Result<Token, String>)
    requires
        token_recorded(s, t),
        token_restored(r, s),
    ensures
        r matches Ok(back) && same_token(back, t),
{
}

/// The record holds the account's index and name and a record of each
/// watched token, in order.
pub open spec fn account_recorded(s: AccountStored, a: Account) -> bool {
    &&& s.index == a.index
    &&& s.name@ == a.name@
    &&& s.tracked_tokens@.len() == a.tracked_tokens@.len()
    &&& forall|k: int| 0 <= k < s.tracked_tokens@.len() ==> token_recorded(#[trigger] s.tracked_tokens@[k], a.tracked_tokens@[k])
}

/// The record of a wallet: its active account and each account's record.
pub open spec fn wallet_recorded(s: WalletStored, w: EthereumWallet) -> bool {
    &&& s.active_account == w.active_account
    &&& s.accounts@.len() == w.accounts@.len()
    &&& forall|j: int| 0 <= j < s.accounts@.len() ==> account_recorded(#[trigger] s.accounts@[j], w.accounts@[j])
}

/// The account read from a record whose token addresses are all valid.
pub open spec fn account_restored(a: Account, s: AccountStored) -> bool {
    &&& a.index == s.index
    &&& a.name@ == s.name@
    &&& a.tracked_tokens@.len() == s.tracked_tokens@.len()
    &&& forall|k: int| 0 <= k < a.tracked_tokens@.len() ==> token_restored(Ok(#[trigger] a.tracked_tokens@[k]), s.tracked_tokens@[k])
}

/// Every token address of the record is valid text.
pub open spec fn addresses_valid(s: WalletStored) -> bool {
    forall|j: int, k: int| 0 <= j < s.accounts@.len() && 0 <= k < s.accounts@[j].tracked_tokens@.len()
        ==> (#[trigger] address_of_hex(s.accounts@[j].tracked_tokens@[k].address@)) is Some
}

/// Every token address before token `k` of account `j` is valid, in the
/// order the record lists them.
pub open spec fn valid_before(s: WalletStored, j: int, k: int) -> bool {
    &&& forall|a: int, b: int| 0 <= a < j && 0 <= b < s.accounts@[a].tracked_tokens@.len()
        ==> (#[trigger] address_of_hex(s.accounts@[a].tracked_tokens@[b].address@)) is Some
    &&& forall|b: int| 0 <= b < k ==> (#[trigger] address_of_hex(s.accounts@[j].tracked_tokens@[b].address@)) is Some
}

/// What reading a wallet record gives: the wallet, where every token address
/// is valid; otherwise the error of the first invalid one.
pub open spec fn wallet_restored(r: Result<EthereumWallet, String>, s: WalletStored) -> bool {
    match r {
        Ok(w) => {
            &&& addresses_valid(s)
            &&& w.active_account == s.active_account
            &&& w.accounts@.len() == s.accounts@.len()
            &&& forall|j: int| 0 <= j < w.accounts@.len() ==> account_restored(#[trigger] w.accounts@[j], s.accounts@[j])
        },
        Err(e) => !addresses_valid(s) && exists|j: int, k: int|
            0 <= j < s.accounts@.len() && 0 <= k < s.accounts@[j].tracked_tokens@.len()
                && #[trigger] address_of_hex(s.accounts@[j].tracked_tokens@[k].address@) is None
                && valid_before(s, j, k)
                && e@ == "Invalid Ethereum address: "@ + hex_error_text(s.accounts@[j].tracked_tokens@[k].address@),
    }
}

impl WalletStored {
    /// The record of a wallet.
    pub fn from_wallet(w: &EthereumWallet) -> (stored: WalletStored)
        ensures
            wallet_recorded(stored, *w),
    {
        let mut accounts: Vec<AccountStored> = Vec::new();
        let mut j: usize = 0;
        while j < w.accounts.len()
            invariant
                j <= w.accounts@.len(),
                accounts@.len() == j,
                forall|i: int| 0 <= i < j ==> account_recorded(#[trigger] accounts@[i], w.accounts@[i]),
            decreases w.accounts@.len() - j,
        {
            let account = &w.accounts[j];
            let mut tokens: Vec<TokenStored> = Vec::new();
            let mut k: usize = 0;
            while k < account.tracked_tokens.len()
                invariant
                    k <= account.tracked_tokens@.len(),
                    tokens@.len() == k,
                    forall|m: int| 0 <= m < k ==> token_recorded(#[trigger] tokens@[m], account.tracked_tokens@[m]),
                decreases account.tracked_tokens@.len() - k,
            {
                tokens.push(TokenStored::from_token(&account.tracked_tokens[k]));
                k = k + 1;
            }
            accounts.push(AccountStored { index: account.index, name: account.name.clone(), tracked_tokens: tokens });
            j = j + 1;
        }
        WalletStored { accounts, active_account: w.active_account }
    }
}

impl EthereumWallet {
    /// The wallet a record describes; an error if a token address in it is
    /// not valid.
    pub fn from_dto(dto: WalletStored) -> (wallet: Result<EthereumWallet, String>)
        ensures
            wallet_restored(wallet, dto),
    {
        let ghost all = dto.accounts@;
        let ghost given = dto;
        let WalletStored { accounts: stored, active_account } = dto;
        let mut accounts: Vec<Account> = Vec::new();
        let mut rest = stored;
        let ghost mut j: int = 0;
        assert(all.skip(0) =~= all);
        while rest.len() > 0
            invariant
                0 <= j <= all.len(),
                all == given.accounts@,
                given == dto,
                rest@ == all.skip(j),
                accounts@.len() == j,
                forall|i: int| 0 <= i < j ==> account_restored(#[trigger] accounts@[i], all[i]),
                forall|i: int, k: int| 0 <= i < j && 0 <= k < all[i].tracked_tokens@.len()
                    ==> (#[trigger] address_of_hex(all[i].tracked_tokens@[k].address@)) is Some,
            decreases rest@.len(),
        {
            let s = rest.remove(0);
            proof {
                assert(s == all[j]);
                assert(all.skip(j).remove(0) =~= all.skip(j + 1));
            }
            let AccountStored { index, name, tracked_tokens } = s;
            let ghost stored_tokens = tracked_tokens@;
            let mut tokens: Vec<Token> = Vec::new();
            let mut rest_tokens = tracked_tokens;
            let ghost mut k: int = 0;
            assert(stored_tokens.skip(0) =~= stored_tokens);
            while rest_tokens.len() > 0
                invariant
                    0 <= k <= stored_tokens.len(),
                    0 <= j < all.len(),
                    all == given.accounts@,
                    given == dto,
                    forall|i: int, m: int| 0 <= i < j && 0 <= m < all[i].tracked_tokens@.len()
                        ==> (#[trigger] address_of_hex(all[i].tracked_tokens@[m].address@)) is Some,
                    stored_tokens == all[j].tracked_tokens@,
                    rest_tokens@ == stored_tokens.skip(k),
                    tokens@.len() == k,
                    forall|m: int| 0 <= m < k ==> token_restored(Ok(#[trigger] tokens@[m]), stored_tokens[m]),
                decreases rest_tokens@.len(),
            {
                let t = rest_tokens.remove(0);
                proof {
                    assert(t == stored_tokens[k]);
                    assert(stored_tokens.skip(k).remove(0) =~= stored_tokens.skip(k + 1));
                }
                let token = match t.into_token() {
                    Ok(token) => token,
                    Err(e) => {
                        proof {
                            assert(given.accounts@[j].tracked_tokens@[k] == t);
                            assert(address_of_hex(given.accounts@[j].tracked_tokens@[k].address@) is None);
                            assert(!addresses_valid(given));
                            assert forall|b: int| 0 <= b < k implies (#[trigger] address_of_hex(given.accounts@[j].tracked_tokens@[b].address@)) is Some by {
                                assert(token_restored(Ok(tokens@[b]), stored_tokens[b]));
                            }
                            assert(valid_before(given, j, k));
                            assert(e@ == "Invalid Ethereum address: "@ + hex_error_text(given.accounts@[j].tracked_tokens@[k].address@));
                            assert(wallet_restored(Err(e), given));
                        }
                        return Err(e);
                    },
                };
                tokens.push(token);
                proof {
                    k = k + 1;
                }
            }
            accounts.push(Account { index, name, tracked_tokens: tokens });
            proof {
                assert forall|m: int| 0 <= m < all[j].tracked_tokens@.len() implies (#[trigger] address_of_hex(all[j].tracked_tokens@[m].address@)) is Some by {
                    assert(token_restored(Ok(tokens@[m]), stored_tokens[m]));
                }
                j = j + 1;
            }
        }
        Ok(EthereumWallet { active_account, accounts })
    }
}

/// A stored wallet is read back as the same wallet: the same active account,
/// and the same accounts with the same watched tokens.
pub proof fn lemma_wallet_roundtrip(w: EthereumWallet, s: WalletStored, r: Result<EthereumWallet, String>)
    requires
        wallet_recorded(s, w),
        wallet_restored(r, s),
    ensures
        r matches Ok(back) && back.active_account == w.active_account && back.accounts@.len()
            == w.accounts@.len() && forall|j: int| 0 <= j < back.accounts@.len() ==> {
            let b = #[trigger] back.accounts@[j];
            let a = w.accounts@[j];
            &&& b.index == a.index
            &&& b.name@ == a.name@
            &&& b.tracked_tokens@.len() == a.tracked_tokens@.len()
            &&& forall|k: int| 0 <= k < b.tracked_tokens@.len() ==> same_token(#[trigger] b.tracked_tokens@[k], a.tracked_tokens@[k])
        },
{
    assert(addresses_valid(s)) by {
        assert forall|j: int, k: int| 0 <= j < s.accounts@.len() && 0 <= k < s.accounts@[j].tracked_tokens@.len()
            implies (#[trigger] address_of_hex(s.accounts@[j].tracked_tokens@[k].address@)) is Some by {
            assert(account_recorded(s.accounts@[j], w.accounts@[j]));
            assert(token_recorded(s.accounts@[j].tracked_tokens@[k], w.accounts@[j].tracked_tokens@[k]));
        }
    }
    let back = r->Ok_0;
    assert forall|j: int| 0 <= j < back.accounts@.len() implies {
        let b = #[trigger] back.accounts@[j];
        let a = w.accounts@[j];
        &&& b.index == a.index
        &&& b.name@ == a.name@
        &&& b.tracked_tokens@.len() == a.tracked_tokens@.len()
        &&& forall|k: int| 0 <= k < b.tracked_tokens@.len() ==> same_token(#[trigger] b.tracked_tokens@[k], a.tracked_tokens@[k])
    } by {
        assert(account_restored(back.accounts@[j], s.accounts@[j]));
        assert(account_recorded(s.accounts@[j], w.accounts@[j]));
        assert forall|k: int| 0 <= k < back.accounts@[j].tracked_tokens@.len() implies same_token(#[trigger] back.accounts@[j].tracked_tokens@[k], w.accounts@[j].tracked_tokens@[k]) by {
            assert(token_restored(Ok(back.accounts@[j].tracked_tokens@[k]), s.accounts@[j].tracked_tokens@[k]));
            assert(token_recorded(s.accounts@[j].tracked_tokens@[k], w.accounts@[j].tracked_tokens@[k]));
        }
    }
}

} // verus!
