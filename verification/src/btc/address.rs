//! BIP-32 derivation paths of the form
//! `m / purpose' / coin_type' / account' / change / address_index`.
use vstd::prelude::*;

use crate::text::{decimal, push_decimal};

verus! {

/// The Bitcoin network a key or address belongs to.
#[derive(Debug, Clone, Copy, PartialEq, Eq, Structural, Hash)]
pub enum Network {
    /// Mainnet Bitcoin.
    Bitcoin,
    /// Bitcoin's testnet network.
    Testnet,
    /// Bitcoin's testnet4 network.
    Testnet4,
    /// Bitcoin's signet network.
    Signet,
    /// Bitcoin's regtest network.
    Regtest,
}

/// m / purpose' / coin_type' / account' / change / address_index
pub type DerivePathSlice = [u32; 5];

/// Offset that marks a path component as hardened.
pub const HARDENED: u32 = 0x80000000;

/// Marks the purpose, coin type and account components of a raw path as hardened.
pub fn make_hardened(raw: DerivePathSlice) -> (hardened: DerivePathSlice)
    requires
        raw[0] < HARDENED,
        raw[1] < HARDENED,
        raw[2] < HARDENED,
    ensures
        hardened@ == seq![
            (raw[0] + HARDENED) as u32,
            (raw[1] + HARDENED) as u32,
            (raw[2] + HARDENED) as u32,
            raw[3],
            raw[4],
        ],
{
    let hardened = [raw[0] + HARDENED, raw[1] + HARDENED, raw[2] + HARDENED, raw[3], raw[4]];
    assert(hardened@ =~= seq![
        (raw[0] + HARDENED) as u32,
        (raw[1] + HARDENED) as u32,
        (raw[2] + HARDENED) as u32,
        raw[3],
        raw[4],
    ]);
    hardened
}

#[derive(Debug, Clone, PartialEq)]
pub struct LabeledDerivationPath {
    pub label: String,
    pub derive_path: DerivePath,
}

#[derive(Debug, Clone, Copy, PartialEq, Eq, Structural, Hash)]
pub enum Change {
    /// External chain is used for addresses that are meant to be visible outside of the wallet (e.g. for receiving payments)
    External,
    /// Internal chain is used for addresses which are not meant to be visible outside of the wallet and is used for return transaction change
    Internal,
}

/// The number of a change chain in a derivation path.
pub open spec fn change_number(change: Change) -> u32 {
    match change {
        Change::External => 0,
        Change::Internal => 1,
    }
}

/// Message of the error for an unknown change chain number.
pub open spec fn change_error(value: u32) -> Seq<char> {
    "Invalid bitcoin address change: "@ + decimal(value as nat)
}

impl Change {
    /// The number of this chain in a derivation path (0 external, 1 internal).
    pub fn number(&self) -> (n: u32)
        ensures
            n == change_number(*self),
    {
        match self {
            Change::External => 0,
            Change::Internal => 1,
        }
    }

    pub fn try_from(value: u32) -> (result: Result<Change, String>)
        ensures
            value == 0 ==> result == Ok::<Change, String>(Change::External),
            value == 1 ==> result == Ok::<Change, String>(Change::Internal),
            value > 1 ==> (result matches Err(e) && e@ == change_error(value)),
    {
        match value {
            0 => Ok(Change::External),
            1 => Ok(Change::Internal),
            _ => {
                let mut msg = "Invalid bitcoin address change: ".to_owned();
                push_decimal(&mut msg, value as u64);
                Err(msg)
            },
        }
    }
}

#[derive(Debug, Clone, Copy, PartialEq, Eq, Structural, Hash)]
pub enum Purpose {
    Bip86,
}

/// The number of a purpose in a derivation path (BIP-86: 86).
pub open spec fn purpose_number(purpose: Purpose) -> u32 {
    match purpose {
        Purpose::Bip86 => 86,
    }
}

/// Message of the error for an unknown purpose number.
pub open spec fn purpose_error(value: u32) -> Seq<char> {
    "invalid purpose "@ + decimal(value as nat)
}

impl Purpose {
    /// The number of this purpose in a derivation path.
    pub fn number(&self) -> (n: u32)
        ensures
            n == purpose_number(*self),
    {
        match self {
            Purpose::Bip86 => 86,
        }
    }

    pub fn try_from(value: u32) -> (result: Result<Purpose, String>)
        ensures
            value == 86 ==> result == Ok::<Purpose, String>(Purpose::Bip86),
            value != 86 ==> (result matches Err(e) && e@ == purpose_error(value)),
    {
        match value {
            86 => Ok(Purpose::Bip86),
            v => {
                let mut msg = "invalid purpose ".to_owned();
                push_decimal(&mut msg, v as u64);
                Err(msg)
            },
        }
    }
}

#[derive(Debug, Clone, Copy, PartialEq, Eq, Structural, Hash)]
pub struct DerivePath {
    pub purpose: Purpose,
    pub account: u32,
    pub network: Network,
    pub change: Change,
    pub index: u32,
}

/// Coin type of a network: 0 on mainnet, 1 on every test network.
pub open spec fn coin_type(network: Network) -> u32 {
    match network {
        Network::Bitcoin => 0,
        _ => 1,
    }
}

/// The text of a path, e.g. `m/86'/0'/0'/0/0`.
pub open spec fn path_text(p: DerivePath) -> Seq<char> {
    "m/"@ + decimal(purpose_number(p.purpose) as nat) + "'/"@ + decimal(coin_type(p.network) as nat)
        + "'/"@ + decimal(p.account as nat) + "'/"@ + decimal(change_number(p.change) as nat) + "/"@
        + decimal(p.index as nat)
}

/// The raw components of a path, the first three hardened.
pub open spec fn path_slice(p: DerivePath) -> Seq<u32> {
    seq![
        (HARDENED + purpose_number(p.purpose)) as u32,
        (HARDENED + coin_type(p.network)) as u32,
        (HARDENED + p.account) as u32,
        change_number(p.change),
        p.index,
    ]
}

/// The path that raw components describe, when they describe one: the
/// purpose and account must be hardened, the purpose 86 and the change 0 or 1.
/// A hardened coin type 0 means mainnet, anything else regtest.
pub open spec fn path_of_slice(v: Seq<u32>) -> Option<DerivePath> {
    if v[0] < HARDENED || v[0] - HARDENED != 86 || v[2] < HARDENED || v[3] > 1 {
        None
    } else {
        Some(
            DerivePath {
                purpose: Purpose::Bip86,
                network: if v[1] == HARDENED {
                    Network::Bitcoin
                } else {
                    Network::Regtest
                },
                account: (v[2] - HARDENED) as u32,
                change: if v[3] == 0 {
                    Change::External
                } else {
                    Change::Internal
                },
                index: v[4],
            },
        )
    }
}

/// Message of the error for raw components that describe no path: the first
/// failing check, in the order purpose, account, change.
pub open spec fn slice_error(v: Seq<u32>) -> Seq<char> {
    if v[0] < HARDENED {
        "purpose must be hardened"@
    } else if v[0] - HARDENED != 86 {
        purpose_error((v[0] - HARDENED) as u32)
    } else if v[2] < HARDENED {
        "account must be hardened"@
    } else {
        change_error(v[3])
    }
}

impl DerivePath {
    /// The path as text, e.g. `m/86'/0'/0'/0/0`.
    pub fn to_string(&self) -> (s: String)
        ensures
            s@ == path_text(*self),
    {
        let coin_type: u64 = match self.network {
            Network::Bitcoin => 0,
            _ => 1,
        };
        let mut s = "m/".to_owned();
        push_decimal(&mut s, self.purpose.number() as u64);
        s.append("'/");
        push_decimal(&mut s, coin_type);
        s.append("'/");
        push_decimal(&mut s, self.account as u64);
        s.append("'/");
        push_decimal(&mut s, self.change.number() as u64);
        s.append("/");
        push_decimal(&mut s, self.index as u64);
        s
    }

    pub fn to_slice(&self) -> (slice: DerivePathSlice)
        requires
            self.account < HARDENED,
        ensures
            slice@ == path_slice(*self),
    {
        let network: u32 = match self.network {
            Network::Bitcoin => 0,
            _ => 1,
        };
        let slice = [
            HARDENED + self.purpose.number(),
            HARDENED + network,
            HARDENED + self.account,
            self.change.number(),
            self.index,
        ];
        assert(slice@ =~= path_slice(*self));
        slice
    }

    pub fn from_slice(v: DerivePathSlice) -> (result: Result<Self, String>)
        ensures
            result matches Ok(p) ==> path_of_slice(v@) == Some(p),
            result matches Err(e) ==> path_of_slice(v@) is None && e@ == slice_error(v@),
    {
        let purpose = match v[0].checked_sub(HARDENED) {
            Some(raw) => match Purpose::try_from(raw) {
                Ok(purpose) => purpose,
                Err(e) => return Err(e),
            },
            None => return Err("purpose must be hardened".to_owned()),
        };
        let network = match v[1].checked_sub(HARDENED) {
            Some(0) => Network::Bitcoin,
            _ => Network::Regtest,
        };
        let account = match v[2].checked_sub(HARDENED) {
            Some(account) => account,
            None => return Err("account must be hardened".to_owned()),
        };
        let change = match Change::try_from(v[3]) {
            Ok(change) => change,
            Err(e) => return Err(e),
        };
        let index = v[4];
        Ok(DerivePath { purpose, account, network, change, index })
    }
}

/// Writing a mainnet or regtest path into raw components and reading them
/// back gives the same path.
pub proof fn lemma_slice_roundtrip(p: DerivePath)
    requires
        p.account < HARDENED,
        p.network == Network::Bitcoin || p.network == Network::Regtest,
    ensures
        path_of_slice(path_slice(p)) == Some(p),
{
}

/// Raw components that describe a path, with a hardened coin type of 0 or 1,
/// are written back unchanged.
pub proof fn lemma_path_slice_roundtrip(v: Seq<u32>)
    requires
        v.len() == 5,
        path_of_slice(v) is Some,
        v[1] == HARDENED || v[1] == HARDENED + 1,
    ensures
        path_slice(path_of_slice(v).unwrap()) =~= v,
{
}

/// Which chain of account 0 an address lies on: receiving (number 0) or
/// change (number 1).
#[derive(Debug, Clone, Copy, PartialEq, Eq, Structural)]
pub enum AddressType {
    Receive,
    Change,
}

impl AddressType {
    /// The number of this chain in a derivation path.
    pub fn number(&self) -> (n: u32)
        ensures
            n == (match *self {
                AddressType::Receive => 0u32,
                AddressType::Change => 1u32,
            }),
    {
        match self {
            AddressType::Receive => 0,
            AddressType::Change => 1,
        }
    }
}

/// The BIP-86 path of an address of account 0:
/// `m/86'/<coin type>'/0'/<0 receive, 1 change>/<address_index>`.
pub fn create_diriviation_path(network: Network, purpose: AddressType, address_index: u32) -> (path: DerivePath)
    ensures
        path == (DerivePath {
            purpose: Purpose::Bip86,
            account: 0,
            network,
            change: match purpose {
                AddressType::Receive => Change::External,
                AddressType::Change => Change::Internal,
            },
            index: address_index,
        }),
        path_text(path) == "m/86'/"@ + decimal(coin_type(network) as nat) + "'/0'/"@ + decimal(
            (match purpose {
                AddressType::Receive => 0nat,
                AddressType::Change => 1nat,
            }),
        ) + "/"@ + decimal(address_index as nat),
{
    let change = match purpose {
        AddressType::Receive => Change::External,
        AddressType::Change => Change::Internal,
    };
    let path = DerivePath { purpose: Purpose::Bip86, network, account: 0, change, index: address_index };
    proof {
        reveal_strlit("m/");
        reveal_strlit("'/");
        reveal_strlit("/");
        reveal_strlit("m/86'/");
        reveal_strlit("'/0'/");
        assert(decimal(86) =~= seq!['8', '6']) by {
            reveal_with_fuel(decimal, 3);
        }
        assert(decimal(0) =~= seq!['0']);
        assert("m/"@ + decimal(86) + "'/"@ =~= "m/86'/"@);
        assert("'/"@ + decimal(0) + "'/"@ =~= "'/0'/"@);
    }
    path
}

} // verus!
