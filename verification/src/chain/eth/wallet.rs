//! The Ethereum side of a wallet: accounts and the tokens each one watches.
use vstd::prelude::*;

use crate::chain_trait::AssetTracker;
use crate::chain::eth::dtos::{EthereumActiveAccountView, EthereumUnlock};
use crate::chain::eth::signer::{mnemonic_signer, signer_address};
use crate::text::{decimal, push_decimal};
use crate::chain::btc::providers::electrum_client::{digits_value, is_ascii_digit, lemma_decimal_digits};
use crate::chain::eth::constants::{default_tokens, is_default_tokens};
use crate::chain::eth::token::{same_token, Token};
use crate::chain::eth::address::{address_checksum_text, address_from_hex, address_of_hex, checksum_text, hex_error_text};

verus! {

pub type AccountIndex = u32;

pub struct EthereumWallet {
    pub active_account: AccountIndex,
    pub accounts: Vec<Account>,
}

pub struct Account {
    pub index: AccountIndex,
    pub name: String,
    pub tracked_tokens: Vec<Token>,
}

pub struct EthereumAccountSummary {
    pub index: AccountIndex,
    pub name: String,
}

/// The BIP-44 path of an account's signing key, `m/44'/60'/<account>'/0/0`.
pub open spec fn eth_key_path(account: u32) -> Seq<char> {
    "m/44'/60'/"@ + decimal(account as nat) + "'/0/0"@
}

/// The components of a derivation path, read between its `/` separators.
pub open spec fn path_segments(s: Seq<char>) -> Seq<Seq<char>>
    decreases s.len(),
{
    if s.len() == 0 {
        seq![Seq::empty()]
    } else {
        let rest = path_segments(s.drop_first());
        if s[0] == '/' {
            seq![Seq::<char>::empty()] + rest
        } else {
            rest.update(0, seq![s[0]] + rest[0])
        }
    }
}

proof fn lemma_segments_nonempty(s: Seq<char>)
    ensures
        path_segments(s).len() >= 1,
    decreases s.len(),
{
    if s.len() > 0 {
        lemma_segments_nonempty(s.drop_first());
    }
}

/// Text without a separator joins the first component of what follows.
proof fn lemma_segments_prefix(t: Seq<char>, u: Seq<char>)
    requires
        forall|i: int| 0 <= i < t.len() ==> t[i] != '/',
    ensures
        path_segments(t + u) == path_segments(u).update(0, t + path_segments(u)[0]),
    decreases t.len(),
{
    lemma_segments_nonempty(u);
    if t.len() == 0 {
        assert(t + u =~= u);
        assert(path_segments(u).update(0, t + path_segments(u)[0]) =~= path_segments(u));
    } else {
        let t2 = t.drop_first();
        lemma_segments_prefix(t2, u);
        assert((t + u).drop_first() =~= t2 + u);
        assert((t + u)[0] == t[0]);
        assert(seq![t[0]] + (t2 + path_segments(u)[0]) =~= t + path_segments(u)[0]);
        assert(path_segments(t + u) =~= path_segments(u).update(0, t + path_segments(u)[0]));
    }
}

/// A component without a separator, then a separator, then the rest.
proof fn lemma_segments_cons(t: Seq<char>, u: Seq<char>)
    requires
        forall|i: int| 0 <= i < t.len() ==> t[i] != '/',
    ensures
        path_segments(t + seq!['/'] + u) == seq![t] + path_segments(u),
{
    lemma_segments_nonempty(u);
    lemma_segments_prefix(t, seq!['/'] + u);
    assert(t + seq!['/'] + u =~= t + (seq!['/'] + u));
    assert((seq!['/'] + u).drop_first() =~= u);
    assert(path_segments(seq!['/'] + u) == seq![Seq::<char>::empty()] + path_segments(u));
    assert(t + Seq::<char>::empty() =~= t);
    assert(path_segments(t + seq!['/'] + u) =~= seq![t] + path_segments(u));
}

/// Reading an account's signing-key path back component by component gives
/// the BIP-44 path of that account: `m`, purpose 44', coin type 60' (ether),
/// the account number itself as the hardened account component, then
/// change 0 and address index 0. So each account has its own key, at its
/// own hardened account level.
pub proof fn lemma_eth_key_path_reads_back(account: u32)
    ensures
        ({
            let segs = path_segments(eth_key_path(account));
            &&& segs.len() == 6
            &&& segs[0] == seq!['m']
            &&& segs[1] == seq!['4', '4', '\'']
            &&& segs[2] == seq!['6', '0', '\'']
            &&& segs[3].len() >= 2 && segs[3].last() == '\''
            &&& forall|i: int| 0 <= i < segs[3].len() - 1 ==> is_ascii_digit(#[trigger] segs[3][i])
            &&& digits_value(segs[3].drop_last()) == account
            &&& segs[4] == seq!['0']
            &&& segs[5] == seq!['0']
        }),
{
    reveal_strlit("m/44'/60'/");
    reveal_strlit("'/0/0");
    lemma_decimal_digits(account as nat);
    let d = decimal(account as nat);
    let acct = d.push('\'');
    let m = seq!['m'];
    let p44 = seq!['4', '4', '\''];
    let p60 = seq!['6', '0', '\''];
    let z = seq!['0'];
    let sl = seq!['/'];
    assert(eth_key_path(account) =~= m + sl + (p44 + sl + (p60 + sl + (acct + sl + (z + sl + z)))));
    assert forall|i: int| 0 <= i < acct.len() implies acct[i] != '/' by {
        if i < d.len() {
            assert(acct[i] == d[i]);
            assert(is_ascii_digit(d[i]));
        }
    }
    lemma_segments_prefix(z, Seq::<char>::empty());
    assert(z + Seq::<char>::empty() =~= z);
    assert(path_segments(Seq::<char>::empty()) == seq![Seq::<char>::empty()]);
    assert(path_segments(z) =~= seq![z]);
    lemma_segments_cons(z, z);
    lemma_segments_cons(acct, z + sl + z);
    lemma_segments_cons(p60, acct + sl + (z + sl + z));
    lemma_segments_cons(p44, p60 + sl + (acct + sl + (z + sl + z)));
    lemma_segments_cons(m, p44 + sl + (p60 + sl + (acct + sl + (z + sl + z))));
    let segs = path_segments(eth_key_path(account));
    assert(segs =~= seq![m, p44, p60, acct, z, z]);
    assert(acct.drop_last() =~= d);
}

/// Position of the first account with the given index.
pub open spec fn eth_account_position(accounts: Seq<Account>, index: u32) -> Option<int> {
    if exists|j: int| 0 <= j < accounts.len() && (#[trigger] accounts[j]).index == index {
        Some(
            choose|j: int|
                0 <= j < accounts.len() && (#[trigger] accounts[j]).index == index && forall|k: int|
                    0 <= k < j ==> (#[trigger] accounts[k]).index != index,
        )
    } else {
        None
    }
}

proof fn lemma_first_account_at_or_before(accounts: Seq<Account>, index: u32, w: int)
    requires
        0 <= w < accounts.len(),
        accounts[w].index == index,
    ensures
        exists|j: int|
            0 <= j < accounts.len() && (#[trigger] accounts[j]).index == index && forall|k: int|
                0 <= k < j ==> (#[trigger] accounts[k]).index != index,
    decreases w,
{
    if exists|k: int| 0 <= k < w && (#[trigger] accounts[k]).index == index {
        let k = choose|k: int| 0 <= k < w && (#[trigger] accounts[k]).index == index;
        lemma_first_account_at_or_before(accounts, index, k);
    }
}

/// A found position is that of the first account with the index.
pub(crate) proof fn lemma_eth_account_position(accounts: Seq<Account>, index: u32)
    ensures
        eth_account_position(accounts, index) matches Some(p) ==> 0 <= p < accounts.len()
            && accounts[p].index == index,
{
    if exists|j: int| 0 <= j < accounts.len() && (#[trigger] accounts[j]).index == index {
        let w = choose|j: int| 0 <= j < accounts.len() && (#[trigger] accounts[j]).index == index;
        lemma_first_account_at_or_before(accounts, index, w);
    }
}

/// Creating an account makes it the one its index finds: when the list
/// grows by an account whose index exceeds every earlier index (as
/// `create_account` gives it), looking that index up, as the active account
/// is looked up, yields the new account, last in the list.
pub proof fn lemma_created_eth_account_is_found(before: Seq<Account>, created: Account)
    requires
        forall|j: int| 0 <= j < before.len() ==> (#[trigger] before[j]).index < created.index,
    ensures
        eth_account_position(before.push(created), created.index) == Some(before.len() as int),
{
    let after = before.push(created);
    assert(after[before.len() as int].index == created.index);
    lemma_first_account_at_or_before(after, created.index, before.len() as int);
    lemma_eth_account_position(after, created.index);
    let p = eth_account_position(after, created.index).unwrap();
    if p < before.len() {
        assert(after[p] == before[p]);
    }
}

proof fn lemma_first_token_at_or_before(tokens: Seq<Token>, address: Seq<u8>, w: int)
    requires
        0 <= w < tokens.len(),
        tokens[w].address@ == address,
    ensures
        exists|k: int|
            0 <= k < tokens.len() && (#[trigger] tokens[k]).address@ == address && forall|m: int|
                0 <= m < k ==> (#[trigger] tokens[m]).address@ != address,
    decreases w,
{
    if exists|m: int| 0 <= m < w && (#[trigger] tokens[m]).address@ == address {
        let m = choose|m: int| 0 <= m < w && (#[trigger] tokens[m]).address@ == address;
        lemma_first_token_at_or_before(tokens, address, m);
    }
}

/// A found token is one with the address.
pub(crate) proof fn lemma_first_with_address(tokens: Seq<Token>, address: Seq<u8>)
    ensures
        first_with_address(tokens, address) matches Some(k) ==> 0 <= k < tokens.len()
            && tokens[k].address@ == address,
{
    if exists|k: int| 0 <= k < tokens.len() && (#[trigger] tokens[k]).address@ == address {
        let w = choose|k: int| 0 <= k < tokens.len() && (#[trigger] tokens[k]).address@ == address;
        lemma_first_token_at_or_before(tokens, address, w);
    }
}

/// The wallet is consistent: account indices are distinct and the active
/// account exists.
pub open spec fn wallet_ok(w: EthereumWallet) -> bool {
    &&& forall|a: int, b: int|
        0 <= a < w.accounts@.len() && 0 <= b < w.accounts@.len() && a != b ==> (
        #[trigger] w.accounts@[a]).index != (#[trigger] w.accounts@[b]).index
    &&& eth_account_position(w.accounts@, w.active_account) is Some
}

/// The token is in the list.
pub open spec fn token_listed(tokens: Seq<Token>, t: Token) -> bool {
    exists|j: int| 0 <= j < tokens.len() && same_token(#[trigger] tokens[j], t)
}

/// The list without every entry that is the given token.
pub open spec fn without_token(tokens: Seq<Token>, t: Token) -> Seq<Token>
    decreases tokens.len(),
{
    if tokens.len() == 0 {
        Seq::empty()
    } else if same_token(tokens.last(), t) {
        without_token(tokens.drop_last(), t)
    } else {
        without_token(tokens.drop_last(), t).push(tokens.last())
    }
}

/// Position of the first token with the given address.
pub open spec fn first_with_address(tokens: Seq<Token>, address: Seq<u8>) -> Option<int> {
    if exists|k: int| 0 <= k < tokens.len() && (#[trigger] tokens[k]).address@ == address {
        Some(
            choose|k: int|
                0 <= k < tokens.len() && (#[trigger] tokens[k]).address@ == address && forall|m: int|
                    0 <= m < k ==> (#[trigger] tokens[m]).address@ != address,
        )
    } else {
        None
    }
}

/// The largest account index, or `None` without accounts.
pub open spec fn eth_max_index(accounts: Seq<Account>) -> Option<u32>
    decreases accounts.len(),
{
    if accounts.len() == 0 {
        None
    } else {
        match eth_max_index(accounts.drop_last()) {
            Some(m) => Some(if m >= accounts.last().index { m } else { accounts.last().index }),
            None => Some(accounts.last().index),
        }
    }
}

/// The largest index bounds every index.
proof fn lemma_eth_max_index(accounts: Seq<Account>)
    ensures
        eth_max_index(accounts) matches Some(m) ==> (forall|j: int|
            0 <= j < accounts.len() ==> (#[trigger] accounts[j]).index <= m) && exists|j: int|
            0 <= j < accounts.len() && (#[trigger] accounts[j]).index == m,
        eth_max_index(accounts) is None <==> accounts.len() == 0,
    decreases accounts.len(),
{
    if accounts.len() > 0 {
        let prev = accounts.drop_last();
        lemma_eth_max_index(prev);
        let n = accounts.len() as int;
        let m = eth_max_index(accounts).unwrap();
        assert forall|j: int| 0 <= j < accounts.len() implies (#[trigger] accounts[j]).index <= m by {
            if j < n - 1 {
                assert(accounts[j] == prev[j]);
            }
        }
        if m == accounts.last().index {
            assert(accounts[n - 1].index == m);
        } else {
            let j = choose|j: int| 0 <= j < prev.len() && (#[trigger] prev[j]).index == eth_max_index(prev).unwrap();
            assert(accounts[j] == prev[j]);
        }
    }
}

/// Watching a token that is not watched and then dropping it leaves the
/// watch list as it was.
pub proof fn lemma_track_untrack(tokens: Seq<Token>, t: Token)
    requires
        !token_listed(tokens, t),
    ensures
        without_token(tokens.push(t), t) == tokens,
    decreases tokens.len(),
{
    assert(tokens.push(t).drop_last() =~= tokens);
    lemma_without_absent(tokens, t);
}

/// Dropping a token that is not in the list changes nothing.
proof fn lemma_without_absent(tokens: Seq<Token>, t: Token)
    requires
        !token_listed(tokens, t),
    ensures
        without_token(tokens, t) == tokens,
    decreases tokens.len(),
{
    if tokens.len() > 0 {
        let prev = tokens.drop_last();
        assert(!token_listed(prev, t)) by {
            if token_listed(prev, t) {
                let j = choose|j: int| 0 <= j < prev.len() && same_token(#[trigger] prev[j], t);
                assert(tokens[j] == prev[j]);
            }
        }
        lemma_without_absent(prev, t);
        assert(!same_token(tokens[tokens.len() - 1], t));
        assert(prev.push(tokens.last()) =~= tokens);
    }
}

impl EthereumWallet {
    /// A wallet with one account, "main", with index 0, watching the default tokens.
    pub fn new() -> (wallet: Self)
        ensures
            wallet.active_account == 0,
            wallet.accounts@.len() == 1,
            wallet.accounts@[0].index == 0,
            wallet.accounts@[0].name@ == "main"@,
            is_default_tokens(wallet.accounts@[0].tracked_tokens@),
            wallet_ok(wallet),
    {
        let mut accounts = Vec::new();
        accounts.push(Account { index: 0, name: "main".to_owned(), tracked_tokens: default_tokens() });
        let wallet = Self { active_account: 0, accounts };
        assert(wallet.accounts@[0].index == 0);
        wallet
    }

    /// Finds the position of the first account with the given index.
    fn find_account(&self, index: u32) -> (pos: Option<usize>)
        ensures
            pos matches Some(j) ==> j < self.accounts@.len() && self.accounts@[j as int].index
                == index && forall|k: int| 0 <= k < j ==> (#[trigger] self.accounts@[k]).index != index,
            pos is None ==> forall|k: int|
                0 <= k < self.accounts@.len() ==> (#[trigger] self.accounts@[k]).index != index,
    {
        let mut j: usize = 0;
        while j < self.accounts.len()
            invariant
                j <= self.accounts@.len(),
                forall|k: int| 0 <= k < j ==> (#[trigger] self.accounts@[k]).index != index,
            decreases self.accounts@.len() - j,
        {
            if self.accounts[j].index == index {
                return Some(j);
            }
            j = j + 1;
        }
        None
    }

    pub fn get_account(&self, index: AccountIndex) -> (found: Result<&Account, String>)
        ensures
            found matches Ok(a) ==> eth_account_position(self.accounts@, index) matches Some(j) && *a
                == self.accounts@[j],
            found matches Err(e) ==> eth_account_position(self.accounts@, index) is None && e@
                == "account not found"@,
    {
        match self.find_account(index) {
            Some(j) => Ok(&self.accounts[j]),
            None => Err("account not found".to_owned()),
        }
    }

    pub fn active_account(&self) -> (found: Result<&Account, String>)
        ensures
            found matches Ok(a) ==> eth_account_position(self.accounts@, self.active_account) matches Some(j)
                && *a == self.accounts@[j],
            found matches Err(e) ==> eth_account_position(self.accounts@, self.active_account) is None
                && e@ == "account not found"@,
    {
        self.get_account(self.active_account)
    }

    /// The BIP-44 path of the signing key of an account:
    /// `m/44'/60'/<account>'/0/0`; an error when the wallet has no such
    /// account.
    pub fn prk_path_for_account(&self, account: AccountIndex) -> (path: Result<String, String>)
        ensures
            eth_account_position(self.accounts@, account) is None ==> (path matches Err(e) && e@
                == "account not found"@),
            eth_account_position(self.accounts@, account) is Some ==> (path matches Ok(p) && p@
                == eth_key_path(account)),
    {
        match self.get_account(account) {
            Ok(_) => {},
            Err(e) => return Err(e),
        }
        let mut path = "m/44'/60'/".to_owned();
        push_decimal(&mut path, account as u64);
        path.append("'/0/0");
        Ok(path)
    }

    /// The address of an account's signing key: derived by alloy from the
    /// mnemonic and passphrase along the account's BIP-44 path; an error
    /// when the wallet has no such account or the derivation fails.
    pub fn prk_address_for_account(&self, mnemonic: &str, passphrase: &str, account: AccountIndex) -> (address:
        Result<[u8; 20], String>)
        ensures
            eth_account_position(self.accounts@, account) is None ==> (address matches Err(e) && e@
                == "account not found"@),
            eth_account_position(self.accounts@, account) is Some ==> match mnemonic_signer(
                mnemonic@,
                passphrase@,
                eth_key_path(account),
            ) {
                Ok(a) => address matches Ok(b) && b@ == a,
                Err(t) => address matches Err(e) && e@ == "fail to derive eth signer: "@ + t,
            },
    {
        let path = match self.prk_path_for_account(account) {
            Ok(path) => path,
            Err(e) => return Err(e),
        };
        match signer_address(mnemonic, passphrase, path.as_str()) {
            Ok(address) => Ok(address),
            Err(reason) => {
                let mut msg = "fail to derive eth signer: ".to_owned();
                msg.append(reason.as_str());
                Err(msg)
            },
        }
    }

    /// The BIP-44 path of the active account's signing key.
    pub fn prk_path(&self) -> (path: Result<String, String>)
        ensures
            eth_account_position(self.accounts@, self.active_account) is None ==> (path matches Err(e)
                && e@ == "account not found"@),
            eth_account_position(self.accounts@, self.active_account) is Some ==> (path matches Ok(p)
                && p@ == eth_key_path(self.active_account)),
    {
        self.prk_path_for_account(self.active_account)
    }

    /// What unlocking shows, given the address of the active account's
    /// signing key: the account summaries and the active account with that
    /// address; an error when the active account does not exist.
    pub fn unlock(&self, address: String) -> (unlocked: Result<EthereumUnlock, String>)
        ensures
            eth_account_position(self.accounts@, self.active_account) is None ==> (unlocked matches Err(
                e,
            ) && e@ == "account not found"@),
            eth_account_position(self.accounts@, self.active_account) matches Some(j) ==> (unlocked matches Ok(u)
                && u.active_account.index == self.accounts@[j].index && u.active_account.address@
                == address@ && u.accounts@.len() == self.accounts@.len() && forall|k: int|
                0 <= k < self.accounts@.len() ==> (#[trigger] u.accounts@[k]).index
                    == self.accounts@[k].index && u.accounts@[k].name@ == self.accounts@[k].name@),
    {
        let index = match self.active_account() {
            Ok(account) => account.index,
            Err(e) => return Err(e),
        };
        Ok(
            EthereumUnlock {
                accounts: self.account_summaries(),
                active_account: EthereumActiveAccountView { index, address },
            },
        )
    }

    /// The token with this address among the active account's watched
    /// tokens: the first one, if any.
    pub fn get_tracked_token(&self, token: [u8; 20]) -> (found: Option<&Token>)
        ensures
            eth_account_position(self.accounts@, self.active_account) is None ==> found is None,
            eth_account_position(self.accounts@, self.active_account) matches Some(j) ==> {
                let tokens = self.accounts@[j].tracked_tokens@;
                &&& found matches Some(t) ==> first_with_address(tokens, token@) matches Some(k) && tokens[k] == *t
                &&& found is None ==> first_with_address(tokens, token@) is None
            },
    {
        let j = match self.find_account(self.active_account) {
            Some(j) => j,
            None => return None,
        };
        proof {
            assert(eth_account_position(self.accounts@, self.active_account) == Some(j as int));
        }
        let mut k: usize = 0;
        while k < self.accounts[j].tracked_tokens.len()
            invariant
                j < self.accounts@.len(),
                eth_account_position(self.accounts@, self.active_account) == Some(j as int),
                k <= self.accounts@[j as int].tracked_tokens@.len(),
                forall|m: int| 0 <= m < k ==> (#[trigger] self.accounts@[j as int].tracked_tokens@[m]).address@ != token@,
            decreases self.accounts@[j as int].tracked_tokens@.len() - k,
        {
            if crate::chain::eth::token::address_eq(&self.accounts[j].tracked_tokens[k].address, &token) {
                let found = &self.accounts[j].tracked_tokens[k];
                proof {
                    let tokens = self.accounts@[j as int].tracked_tokens@;
                    assert(first_with_address(tokens, token@) == Some(k as int));
                }
                return Some(found);
            }
            k = k + 1;
        }
        None
    }

    /// The tokens the active account watches.
    pub fn active_tracked_tokens(&self) -> (tokens: Result<&[Token], String>)
        ensures
            tokens matches Ok(t) ==> eth_account_position(self.accounts@, self.active_account) matches Some(j)
                && t@ == self.accounts@[j].tracked_tokens@,
            tokens matches Err(e) ==> eth_account_position(self.accounts@, self.active_account) is None
                && e@ == "account not found"@,
    {
        match self.active_account() {
            Ok(account) => Ok(account.tracked_tokens.as_slice()),
            Err(e) => Err(e),
        }
    }

    /// Index and name of every account, in order.
    pub fn account_summaries(&self) -> (summaries: Vec<EthereumAccountSummary>)
        ensures
            summaries@.len() == self.accounts@.len(),
            forall|j: int|
                0 <= j < summaries@.len() ==> (#[trigger] summaries@[j]).index == self.accounts@[j].index
                    && summaries@[j].name@ == self.accounts@[j].name@,
    {
        let mut summaries: Vec<EthereumAccountSummary> = Vec::new();
        let mut j: usize = 0;
        while j < self.accounts.len()
            invariant
                j <= self.accounts@.len(),
                summaries@.len() == j,
                forall|k: int|
                    0 <= k < j ==> (#[trigger] summaries@[k]).index == self.accounts@[k].index
                        && summaries@[k].name@ == self.accounts@[k].name@,
            decreases self.accounts@.len() - j,
        {
            summaries.push(
                EthereumAccountSummary {
                    index: self.accounts[j].index,
                    name: self.accounts[j].name.clone(),
                },
            );
            j = j + 1;
        }
        summaries
    }

    /// Adds an account, watching the default tokens, with the next free
    /// index, and makes it active. Returns its index.
    pub fn create_account(&mut self, name: String) -> (index: AccountIndex)
        requires
            forall|j: int| 0 <= j < old(self).accounts@.len() ==> (#[trigger] old(self).accounts@[j]).index < u32::MAX,
        ensures
            index == match eth_max_index(old(self).accounts@) {
                Some(m) => (m + 1) as u32,
                None => 0u32,
            },
            forall|j: int| 0 <= j < old(self).accounts@.len() ==> (#[trigger] old(self).accounts@[j]).index < index,
            final(self).accounts@.len() == old(self).accounts@.len() + 1,
            final(self).accounts@.drop_last() == old(self).accounts@,
            final(self).accounts@.last().index == index,
            final(self).accounts@.last().name@ == name@,
            is_default_tokens(final(self).accounts@.last().tracked_tokens@),
            final(self).active_account == index,
            wallet_ok(*old(self)) ==> wallet_ok(*final(self)),
    {
        proof {
            lemma_eth_max_index(self.accounts@);
        }
        let mut max: Option<u32> = None;
        let mut j: usize = 0;
        while j < self.accounts.len()
            invariant
                j <= self.accounts@.len(),
                max == eth_max_index(self.accounts@.take(j as int)),
            decreases self.accounts@.len() - j,
        {
            proof {
                assert(self.accounts@.take(j + 1).drop_last() =~= self.accounts@.take(j as int));
            }
            let index = self.accounts[j].index;
            max = match max {
                Some(m) => Some(if m >= index { m } else { index }),
                None => Some(index),
            };
            j = j + 1;
        }
        proof {
            assert(self.accounts@.take(j as int) =~= self.accounts@);
        }
        let index = match max {
            Some(m) => m + 1,
            None => 0,
        };
        let ghost before = self.accounts@;
        self.accounts.push(Account { index, name, tracked_tokens: default_tokens() });
        self.active_account = index;
        proof {
            let n = before.len() as int;
            assert(self.accounts@[n].index == index);
            assert forall|k: int| 0 <= k < n implies (#[trigger] self.accounts@[k]).index != index by {
                assert(self.accounts@[k] == before[k]);
            }
            assert(eth_account_position(self.accounts@, index) is Some);
            if wallet_ok(*old(self)) {
                assert forall|a: int, b: int|
                    0 <= a < self.accounts@.len() && 0 <= b < self.accounts@.len() && a != b implies (
                    #[trigger] self.accounts@[a]).index != (#[trigger] self.accounts@[b]).index by {
                    if a < n && b < n {
                        assert(before[a].index != before[b].index);
                    }
                }
            }
        }
        index
    }

    /// Makes the account with this index active; an error if there is none.
    pub fn switch_account(&mut self, index: AccountIndex) -> (result: Result<(), String>)
        ensures
            result is Ok <==> eth_account_position(old(self).accounts@, index) is Some,
            result is Ok ==> final(self).active_account == index,
            result matches Err(e) ==> final(self).active_account == old(self).active_account && e@
                == "account not found"@,
            final(self).accounts == old(self).accounts,
            wallet_ok(*old(self)) ==> wallet_ok(*final(self)),
    {
        match self.get_account(index) {
            Ok(_) => {},
            Err(e) => return Err(e),
        }
        self.active_account = index;
        Ok(())
    }

    pub fn rename_account(&mut self, index: AccountIndex, name: String) -> (result: Result<(), String>)
        ensures
            result is Ok <==> eth_account_position(old(self).accounts@, index) is Some,
            eth_account_position(old(self).accounts@, index) matches Some(j) ==> {
                &&& final(self).accounts@.len() == old(self).accounts@.len()
                &&& final(self).accounts@[j].name@ == name@
                &&& final(self).accounts@[j].index == old(self).accounts@[j].index
                &&& final(self).accounts@[j].tracked_tokens == old(self).accounts@[j].tracked_tokens
                &&& forall|k: int| 0 <= k < old(self).accounts@.len() && k != j ==> final(self).accounts@[k] == old(self).accounts@[k]
            },
            eth_account_position(old(self).accounts@, index) is None ==> *final(self) == *old(self),
            final(self).active_account == old(self).active_account,
            wallet_ok(*old(self)) ==> wallet_ok(*final(self)),
    {
        match self.find_account(index) {
            Some(j) => {
                let ghost before = self.accounts@;
                self.accounts[j].name = name;
                proof {
                    assert forall|k: int| 0 <= k < self.accounts@.len() implies (#[trigger] self.accounts@[k]).index == before[k].index by {
                        if k != j {
                            assert(self.accounts@[k] == before[k]);
                        }
                    }
                    if wallet_ok(*old(self)) {
                        let a = eth_account_position(before, self.active_account).unwrap();
                        assert(self.accounts@[a].index == self.active_account);
                    }
                }
                Ok(())
            },
            None => Err("account not found".to_owned()),
        }
    }
}

/// Message of the error for a token that is already watched.
pub open spec fn already_tracked_error(t: Token) -> Seq<char> {
    "Token "@ + t.symbol@ + " already tracked"@
}

/// What watching a token does: on the active account, the token is added
/// at the end unless it is already watched; nothing else changes.
pub open spec fn track_outcome(w: EthereumWallet, after: EthereumWallet, asset: Token, result: Result<(), String>) -> bool {
    &&& after.active_account == w.active_account
    &&& eth_account_position(w.accounts@, w.active_account) is None ==> (result matches Err(e) && e@
        == "account not found"@ && after == w)
    &&& eth_account_position(w.accounts@, w.active_account) matches Some(j) ==> {
        let tokens = w.accounts@[j].tracked_tokens@;
        &&& token_listed(tokens, asset) ==> (result matches Err(e) && e@ == already_tracked_error(asset)
            && after == w)
        &&& !token_listed(tokens, asset) ==> {
            &&& result is Ok
            &&& after.accounts@.len() == w.accounts@.len()
            &&& after.accounts@[j].tracked_tokens@ == tokens.push(asset)
            &&& after.accounts@[j].index == w.accounts@[j].index
            &&& after.accounts@[j].name == w.accounts@[j].name
            &&& forall|k: int| 0 <= k < w.accounts@.len() && k != j ==> after.accounts@[k] == w.accounts@[k]
        }
    }
}

/// What no longer watching a token does: on the active account, every
/// entry that is the token is removed, and it is an error if there was none;
/// nothing else changes.
pub open spec fn untrack_outcome(w: EthereumWallet, after: EthereumWallet, token: Token, result: Result<(), String>) -> bool {
    &&& after.active_account == w.active_account
    &&& eth_account_position(w.accounts@, w.active_account) is None ==> (result matches Err(e) && e@
        == "account not found"@ && after == w)
    &&& eth_account_position(w.accounts@, w.active_account) matches Some(j) ==> {
        let tokens = w.accounts@[j].tracked_tokens@;
        &&& result is Ok <==> token_listed(tokens, token)
        &&& result matches Err(e) ==> e@ == "Token address '"@ + checksum_text(token.address@) + "' not tracked"@
        &&& after.accounts@.len() == w.accounts@.len()
        &&& after.accounts@[j].tracked_tokens@ == without_token(tokens, token)
        &&& after.accounts@[j].index == w.accounts@[j].index
        &&& after.accounts@[j].name == w.accounts@[j].name
        &&& forall|k: int| 0 <= k < w.accounts@.len() && k != j ==> after.accounts@[k] == w.accounts@[k]
    }
}

impl AssetTracker<Token> for EthereumWallet {
    /// Starts watching a token on the active account; an error if it is
    /// already watched or there is no active account.
    fn track(&mut self, asset: Token) -> (result: Result<(), String>)
        ensures
            track_outcome(*old(self), *final(self), asset, result),
    {
        let j = match self.find_account(self.active_account) {
            Some(j) => j,
            None => return Err("account not found".to_owned()),
        };
        proof {
            assert(eth_account_position(self.accounts@, self.active_account) == Some(j as int));
        }
        let mut k: usize = 0;
        while k < self.accounts[j].tracked_tokens.len()
            invariant
                j < self.accounts@.len(),
                *self == *old(self),
                eth_account_position(self.accounts@, self.active_account) == Some(j as int),
                k <= self.accounts@[j as int].tracked_tokens@.len(),
                forall|m: int| 0 <= m < k ==> !same_token(#[trigger] self.accounts@[j as int].tracked_tokens@[m], asset),
            decreases self.accounts@[j as int].tracked_tokens@.len() - k,
        {
            if self.accounts[j].tracked_tokens[k].eq(&asset) {
                let mut msg = "Token ".to_owned();
                msg.append(asset.symbol.as_str());
                msg.append(" already tracked");
                return Err(msg);
            }
            k = k + 1;
        }
        self.accounts[j].tracked_tokens.push(asset);
        Ok(())
    }

    /// Stops watching a token on the active account; an error if it was not
    /// watched or there is no active account.
    fn untrack(&mut self, token: Token) -> (result: Result<(), String>)
        ensures
            untrack_outcome(*old(self), *final(self), token, result),
    {
        let j = match self.find_account(self.active_account) {
            Some(j) => j,
            None => return Err("account not found".to_owned()),
        };
        proof {
            assert(eth_account_position(self.accounts@, self.active_account) == Some(j as int));
        }
        let ghost tokens = self.accounts@[j as int].tracked_tokens@;
        let mut rest: Vec<Token> = Vec::new();
        std::mem::swap(&mut rest, &mut self.accounts[j].tracked_tokens);
        let mut kept: Vec<Token> = Vec::new();
        let mut removed = false;
        let ghost mut k: int = 0;
        assert(tokens.skip(0) =~= tokens);
        while rest.len() > 0
            invariant
                0 <= k <= tokens.len(),
                rest@ == tokens.skip(k),
                kept@ == without_token(tokens.take(k), token),
                removed <==> token_listed(tokens.take(k), token),
            decreases rest@.len(),
        {
            let t = rest.remove(0);
            proof {
                assert(t == tokens[k]);
                assert(tokens.skip(k).remove(0) =~= tokens.skip(k + 1));
                assert(tokens.take(k + 1).drop_last() =~= tokens.take(k));
                assert(tokens.take(k + 1).last() == tokens[k]);
                if token_listed(tokens.take(k), token) {
                    let m = choose|m: int| 0 <= m < k && same_token(#[trigger] tokens.take(k)[m], token);
                    assert(tokens.take(k + 1)[m] == tokens.take(k)[m]);
                }
                if token_listed(tokens.take(k + 1), token) && !same_token(t, token) {
                    let m = choose|m: int| 0 <= m < k + 1 && same_token(#[trigger] tokens.take(k + 1)[m], token);
                    assert(tokens.take(k)[m] == tokens.take(k + 1)[m]);
                }
                if same_token(t, token) {
                    assert(same_token(tokens.take(k + 1)[k], token));
                }
            }
            if t.eq(&token) {
                removed = true;
            } else {
                kept.push(t);
            }
            proof {
                k = k + 1;
            }
        }
        proof {
            assert(tokens.take(k) =~= tokens);
        }
        self.accounts[j].tracked_tokens = kept;
        if !removed {
            let mut msg = "Token address '".to_owned();
            msg.append(address_checksum_text(&token.address).as_str());
            msg.append("' not tracked");
            return Err(msg);
        }
        Ok(())
    }
}

/// Reads an Ethereum address written in hexadecimal.
pub fn parse_addres(addres: &str) -> (parsed: Result<[u8; 20], String>)
    ensures
        parsed matches Ok(b) ==> address_of_hex(addres@) == Some(b@),
        parsed matches Err(e) ==> address_of_hex(addres@) is None && e@
            == "Invalid Ethereum address: "@ + hex_error_text(addres@),
{
    match address_from_hex(addres) {
        Ok(address) => Ok(address),
        Err(reason) => {
            let mut msg = "Invalid Ethereum address: ".to_owned();
            msg.append(reason.as_str());
            Err(msg)
        },
    }
}

} // verus!
