//! The Bitcoin side of a wallet: its accounts and which one is active.
use vstd::prelude::*;

use crate::btc::address::{Change, DerivePath, Purpose};
use crate::chain::btc::account::{is_fresh_account, Account, AccountIndex};
use crate::chain::btc::dtos::AccountMetaDto;
use crate::chain::btc::config::{network_of, BitcoinConfig};
use crate::text::{decimal, push_decimal};

verus! {

pub struct BitcoinWallet {
    pub active_account: AccountIndex,
    pub accounts: Vec<Account>,
    pub config: BitcoinConfig,
}

/// Position of the first account with the given index.
pub open spec fn account_position(accounts: Seq<Account>, index: u32) -> Option<int> {
    if exists|j: int| 0 <= j < accounts.len() && (#[trigger] accounts[j]).index == index {
        Some(
            choose|j: int|
                0 <= j < accounts.len() && (#[trigger] accounts[j]).index == index && forall|k: int|
                    0 <= k < j ==> (#[trigger] accounts[k]).index != index,
        )
    } else {
        None
    }
}

/// Some account at or before `w` is the first with the index.
proof fn lemma_first_at_or_before(accounts: Seq<Account>, index: u32, w: int)
    requires
        0 <= w < accounts.len(),
        accounts[w].index == index,
    ensures
        exists|j: int|
            0 <= j < accounts.len() && (#[trigger] accounts[j]).index == index && forall|k: int|
                0 <= k < j ==> (#[trigger] accounts[k]).index != index,
    decreases w,
{
    if exists|k: int| 0 <= k < w && (#[trigger] accounts[k]).index == index {
        let k = choose|k: int| 0 <= k < w && (#[trigger] accounts[k]).index == index;
        lemma_first_at_or_before(accounts, index, k);
    } else {
        assert(forall|k: int| 0 <= k < w ==> (#[trigger] accounts[k]).index != index);
    }
}

/// Where an account with the index exists, the position is that of the first.
pub(crate) proof fn lemma_account_position(accounts: Seq<Account>, index: u32)
    ensures
        (exists|j: int| 0 <= j < accounts.len() && (#[trigger] accounts[j]).index == index)
            ==> (account_position(accounts, index) matches Some(p) && 0 <= p < accounts.len()
            && accounts[p].index == index && forall|k: int|
            0 <= k < p ==> (#[trigger] accounts[k]).index != index),
        !(exists|j: int| 0 <= j < accounts.len() && (#[trigger] accounts[j]).index == index)
            ==> account_position(accounts, index) is None,
{
    if exists|j: int| 0 <= j < accounts.len() && (#[trigger] accounts[j]).index == index {
        let w = choose|j: int| 0 <= j < accounts.len() && (#[trigger] accounts[j]).index == index;
        lemma_first_at_or_before(accounts, index, w);
    }
}

/// Creating an account makes it the one its index finds: when the list
/// grows by an account whose index exceeds every earlier index (as
/// `create_account` gives it), looking that index up, as the active account
/// is looked up, yields the new account, last in the list.
pub proof fn lemma_created_account_is_found(before: Seq<Account>, created: Account)
    requires
        forall|j: int| 0 <= j < before.len() ==> (#[trigger] before[j]).index < created.index,
    ensures
        account_position(before.push(created), created.index) == Some(before.len() as int),
{
    let after = before.push(created);
    assert(after[before.len() as int].index == created.index);
    lemma_account_position(after, created.index);
    let p = account_position(after, created.index).unwrap();
    if p < before.len() {
        assert(after[p] == before[p]);
    }
}

impl BitcoinWallet {
    /// Finds the position of the first account with the given index.
    fn find_account(&self, index: u32) -> (pos: Option<usize>)
        ensures
            pos matches Some(j) ==> j < self.accounts@.len() && self.accounts@[j as int].index
                == index && forall|k: int| 0 <= k < j ==> (#[trigger] self.accounts@[k]).index != index,
            pos is None ==> forall|k: int|
                0 <= k < self.accounts@.len() ==> (#[trigger] self.accounts@[k]).index != index,
    {
        let mut j: usize = 0;
        while j < self.accounts.len()
            invariant
                j <= self.accounts@.len(),
                forall|k: int| 0 <= k < j ==> (#[trigger] self.accounts@[k]).index != index,
            decreases self.accounts@.len() - j,
        {
            if self.accounts[j].index == index {
                return Some(j);
            }
            j = j + 1;
        }
        None
    }

    pub fn get_account(&self, index: u32) -> (found: Result<&Account, String>)
        ensures
            found matches Ok(a) ==> account_position(self.accounts@, index) matches Some(j) && *a
                == self.accounts@[j],
            found matches Err(e) ==> account_position(self.accounts@, index) is None && e@
                == "account not found"@,
    {
        match self.find_account(index) {
            Some(j) => Ok(&self.accounts[j]),
            None => Err("account not found".to_owned()),
        }
    }

    pub fn get_account_mut(&mut self, index: u32) -> (found: Result<&mut Account, String>)
        ensures
            found matches Ok(a) ==> account_position(old(self).accounts@, index) matches Some(j)
                && *a == old(self).accounts@[j] && final(self).accounts@ == old(
                self,
            ).accounts@.update(j, *final(a)) && final(self).active_account == old(self).active_account
                && final(self).config == old(self).config,
            found matches Err(e) ==> account_position(old(self).accounts@, index) is None && e@
                == "account not found"@ && *final(self) == *old(self),
    {
        match self.find_account(index) {
            Some(j) => Ok(&mut self.accounts[j]),
            None => Err("account not found".to_owned()),
        }
    }

    pub fn active_account(&self) -> (found: Result<&Account, String>)
        ensures
            found matches Ok(a) ==> account_position(self.accounts@, self.active_account) matches Some(
                j,
            ) && *a == self.accounts@[j],
            found matches Err(e) ==> account_position(self.accounts@, self.active_account) is None
                && e@ == "account not found"@,
    {
        self.get_account(self.active_account)
    }

    pub fn get_active_account_mut(&mut self) -> (found: Result<&mut Account, String>)
        ensures
            found matches Ok(a) ==> account_position(old(self).accounts@, old(self).active_account) matches Some(j)
                && *a == old(self).accounts@[j] && final(self).accounts@ == old(
                self,
            ).accounts@.update(j, *final(a)) && final(self).active_account == old(self).active_account
                && final(self).config == old(self).config,
            found matches Err(e) ==> account_position(old(self).accounts@, old(self).active_account) is None && e@
                == "account not found"@ && *final(self) == *old(self),
    {
        let active_index = self.active_account;
        self.get_account_mut(active_index)
    }
}


/// The largest account index, or `None` without accounts.
pub open spec fn max_index(accounts: Seq<Account>) -> Option<u32>
    decreases accounts.len(),
{
    if accounts.len() == 0 {
        None
    } else {
        match max_index(accounts.drop_last()) {
            Some(m) => Some(if m >= accounts.last().index { m } else { accounts.last().index }),
            None => Some(accounts.last().index),
        }
    }
}

/// The index a new account gets: one past the largest, 0 for the first.
pub open spec fn next_account_index(accounts: Seq<Account>) -> u32 {
    match max_index(accounts) {
        Some(m) => (m + 1) as u32,
        None => 0,
    }
}

/// The largest index bounds every index and is one of them.
proof fn lemma_max_index(accounts: Seq<Account>)
    ensures
        max_index(accounts) matches Some(m) ==> (forall|j: int|
            0 <= j < accounts.len() ==> (#[trigger] accounts[j]).index <= m) && exists|j: int|
            0 <= j < accounts.len() && (#[trigger] accounts[j]).index == m,
        max_index(accounts) is None <==> accounts.len() == 0,
    decreases accounts.len(),
{
    if accounts.len() > 0 {
        let prev = accounts.drop_last();
        lemma_max_index(prev);
        let n = accounts.len() as int;
        let m = max_index(accounts).unwrap();
        assert forall|j: int| 0 <= j < accounts.len() implies (#[trigger] accounts[j]).index <= m by {
            if j < n - 1 {
                assert(accounts[j] == prev[j]);
            }
        }
        if m == accounts.last().index {
            assert(accounts[n - 1].index == m);
        } else {
            let j = choose|j: int| 0 <= j < prev.len() && (#[trigger] prev[j]).index == max_index(prev).unwrap();
            assert(accounts[j] == prev[j]);
        }
    }
}

/// Message of the error for a derivation index that is already in use.
pub open spec fn occupied_error(index: u32) -> Seq<char> {
    "Derivation index "@ + decimal(index as nat) + " already occupied"@
}

impl BitcoinWallet {
    /// A wallet with one account, "main", with index 0, which is active.
    pub fn new(config: BitcoinConfig) -> (wallet: BitcoinWallet)
        ensures
            wallet.active_account == 0,
            wallet.accounts@.len() == 1,
            is_fresh_account(wallet.accounts@[0], network_of(config.regtest), 0, "main"@),
            wallet.config == config,
    {
        let active_account: AccountIndex = 0;
        let account = Account::new(config.network(), active_account, "main".to_owned());
        let mut accounts = Vec::new();
        accounts.push(account);
        BitcoinWallet { active_account, accounts, config }
    }

    /// Adds an account named `label`, with the next free index, and makes it
    /// active. Returns its index.
    pub fn create_account(&mut self, label: String) -> (index: AccountIndex)
        requires
            forall|j: int| 0 <= j < old(self).accounts@.len() ==> (#[trigger] old(self).accounts@[j]).index < u32::MAX,
        ensures
            index == next_account_index(old(self).accounts@),
            forall|j: int| 0 <= j < old(self).accounts@.len() ==> (#[trigger] old(self).accounts@[j]).index < index,
            final(self).accounts@.len() == old(self).accounts@.len() + 1,
            final(self).accounts@.drop_last() == old(self).accounts@,
            is_fresh_account(final(self).accounts@.last(), network_of(old(self).config.regtest), index, label@),
            final(self).active_account == index,
            final(self).config == old(self).config,
    {
        proof {
            lemma_max_index(self.accounts@);
        }
        let mut max: Option<u32> = None;
        let mut j: usize = 0;
        while j < self.accounts.len()
            invariant
                j <= self.accounts@.len(),
                max == max_index(self.accounts@.take(j as int)),
            decreases self.accounts@.len() - j,
        {
            proof {
                assert(self.accounts@.take(j + 1).drop_last() =~= self.accounts@.take(j as int));
            }
            let index = self.accounts[j].index;
            max = match max {
                Some(m) => Some(if m >= index { m } else { index }),
                None => Some(index),
            };
            j = j + 1;
        }
        proof {
            assert(self.accounts@.take(j as int) =~= self.accounts@);
        }
        let next_index = match max {
            Some(m) => m + 1,
            None => 0,
        };
        let account = Account::new(self.config.network(), next_index, label);
        self.accounts.push(account);
        self.switch_account(next_index);
        next_index
    }

    pub fn switch_account(&mut self, account: AccountIndex)
        ensures
            final(self).active_account == account,
            final(self).accounts == old(self).accounts,
            final(self).config == old(self).config,
    {
        self.active_account = account;
    }

    pub fn rename_account(&mut self, account: AccountIndex, name: String) -> (result: Result<(), String>)
        ensures
            result is Ok <==> account_position(old(self).accounts@, account) is Some,
            account_position(old(self).accounts@, account) matches Some(j) ==> {
                &&& final(self).accounts@.len() == old(self).accounts@.len()
                &&& final(self).accounts@[j].name@ == name@
                &&& final(self).accounts@[j].index == old(self).accounts@[j].index
                &&& final(self).accounts@[j].keychain == old(self).accounts@[j].keychain
                &&& final(self).accounts@[j].utxo_set == old(self).accounts@[j].utxo_set
                &&& forall|k: int| 0 <= k < old(self).accounts@.len() && k != j ==> final(self).accounts@[k] == old(self).accounts@[k]
            },
            account_position(old(self).accounts@, account) is None ==> *final(self) == *old(self),
            final(self).active_account == old(self).active_account,
    {
        match self.find_account(account) {
            Some(j) => {
                self.accounts[j].name = name;
                Ok(())
            },
            None => Err("account not found".to_owned()),
        }
    }

    /// A path on the active account that is not in its key chain yet.
    pub fn new_deriviation_path(&self, purpose: Purpose, change: Change, index: u32) -> (result:
        Result<DerivePath, String>)
        ensures
            account_position(self.accounts@, self.active_account) is None ==> (result matches Err(e)
                && e@ == "account not found"@),
            account_position(self.accounts@, self.active_account) matches Some(j) ==> {
                let path = DerivePath {
                    purpose,
                    network: network_of(self.config.regtest),
                    account: self.accounts@[j].index,
                    change,
                    index,
                };
                let taken = exists|k: int|
                    0 <= k < self.accounts@[j].keychain.paths@.len()
                        && (#[trigger] self.accounts@[j].keychain.paths@[k]).derive_path == path;
                &&& taken ==> (result matches Err(e) && e@ == occupied_error(index))
                &&& !taken ==> result == Ok::<DerivePath, String>(path)
            },
    {
        let account = match self.active_account() {
            Ok(account) => account,
            Err(e) => return Err(e),
        };
        let path = DerivePath {
            purpose,
            network: self.config.network(),
            account: account.index,
            change,
            index,
        };
        if account.keychain.contains_path(path) {
            let mut msg = "Derivation index ".to_owned();
            push_decimal(&mut msg, index as u64);
            msg.append(" already occupied");
            return Err(msg);
        }
        Ok(path)
    }

    /// Index and name of every account, in order.
    pub fn list_all_accounts(&self) -> (summaries: Vec<AccountMetaDto>)
        ensures
            summaries@.len() == self.accounts@.len(),
            forall|j: int|
                0 <= j < summaries@.len() ==> (#[trigger] summaries@[j]).index == self.accounts@[j].index
                    && summaries@[j].name@ == self.accounts@[j].name@,
    {
        let mut summaries: Vec<AccountMetaDto> = Vec::new();
        let mut j: usize = 0;
        while j < self.accounts.len()
            invariant
                j <= self.accounts@.len(),
                summaries@.len() == j,
                forall|k: int|
                    0 <= k < j ==> (#[trigger] summaries@[k]).index == self.accounts@[k].index
                        && summaries@[k].name@ == self.accounts@[k].name@,
            decreases self.accounts@.len() - j,
        {
            summaries.push(
                AccountMetaDto { index: self.accounts[j].index, name: self.accounts[j].name.clone() },
            );
            j = j + 1;
        }
        summaries
    }
}

} // verus!
