//! Keys of the Bitcoin side: the master key of a BIP-39 mnemonic, and the
//! BIP-86 taproot key, output script and address along a derivation path.
//! The cryptography is `bip39`'s and `bitcoin`'s; a master key and a child
//! key travel as their 78-byte BIP-32 encodings.
use vstd::prelude::*;

use crate::btc::address::{path_text, DerivePath, Network};

verus! {

/// What `bip39` gives for an English mnemonic and a passphrase: the 64-byte
/// seed, or the text of its parse error.
pub uninterp spec fn seed_of(phrase: Seq<char>, passphrase: Seq<char>) -> Result<Seq<u8>, Seq<char>>;

/// What `bitcoin`'s `Xpriv::new_master` gives for a seed, on mainnet or a
/// test network: the encoded master key, or the text of its error.
pub uninterp spec fn master_of(mainnet: bool, seed: Seq<u8>) -> Result<Seq<u8>, Seq<char>>;

/// What BIP-32 derivation of an encoded key along a path written as text
/// gives: the encoded child key, or the text of the error.
pub uninterp spec fn child_of(key: Seq<u8>, path: Seq<char>) -> Result<Seq<u8>, Seq<char>>;

/// The x-only public key of an encoded private key, or the text of the
/// error reading it.
pub uninterp spec fn xonly_of(key: Seq<u8>) -> Result<Seq<u8>, Seq<char>>;

/// The BIP-86 (key-path only) P2TR output script of an x-only key, or the
/// text of the error reading the key.
pub uninterp spec fn p2tr_script_of(xonly: Seq<u8>) -> Result<Seq<u8>, Seq<char>>;

/// The bech32m text of the BIP-86 P2TR address of an x-only key under a
/// human-readable part, or the text of the error reading the key.
pub uninterp spec fn p2tr_address_of(xonly: Seq<u8>, hrp: Seq<char>) -> Result<Seq<char>, Seq<char>>;

/// The human-readable part of a network's segwit addresses.
pub open spec fn network_hrp(network: Network) -> Seq<char> {
    match network {
        Network::Bitcoin => seq!['b', 'c'],
        Network::Regtest => seq!['b', 'c', 'r', 't'],
        _ => seq!['t', 'b'],
    }
}

/// The seed of a mnemonic: `bip39::Mnemonic::parse_in_normalized` in
/// English, then `to_seed` with the passphrase; on failure the `Display`
/// text of the parse error. Which seed, or which error, is the name
/// `seed_of` of the two texts.
#[verifier::external_body]
fn mnemonic_seed(phrase: &str, passphrase: &str) -> (seed: Result<[u8; 64], String>)
    ensures
        seed matches Ok(s) ==> (seed_of(phrase@, passphrase@) matches Ok(x) && x == s@),
        seed matches Err(e) ==> (seed_of(phrase@, passphrase@) matches Err(t) && t == e@),
{
    match bip39::Mnemonic::parse_in_normalized(bip39::Language::English, phrase) {
        Ok(mnemonic) => Ok(mnemonic.to_seed(passphrase)),
        Err(e) => Err(e.to_string()),
    }
}

/// `bitcoin::bip32::Xpriv::new_master` for mainnet or the test networks,
/// encoded with `Xpriv::encode`; on failure the `Display` text of the error.
#[verifier::external_body]
fn master_key(mainnet: bool, seed: &[u8; 64]) -> (key: Result<[u8; 78], String>)
    ensures
        key matches Ok(k) ==> (master_of(mainnet, seed@) matches Ok(x) && x == k@),
        key matches Err(e) ==> (master_of(mainnet, seed@) matches Err(t) && t == e@),
{
    let kind = if mainnet { bitcoin::NetworkKind::Main } else { bitcoin::NetworkKind::Test };
    match bitcoin::bip32::Xpriv::new_master(kind, seed) {
        Ok(xpriv) => Ok(xpriv.encode()),
        Err(e) => Err(e.to_string()),
    }
}

/// `Xpriv::derive_priv` of the decoded key along the path read with
/// `DerivationPath::from_str`, encoded again; on failure (a key that does
/// not decode, a path that does not parse, a derivation error) the
/// `Display` text of the error.
#[verifier::external_body]
fn derive_child(key: &[u8; 78], path: &str) -> (child: Result<[u8; 78], String>)
    ensures
        child matches Ok(c) ==> (child_of(key@, path@) matches Ok(x) && x == c@),
        child matches Err(e) ==> (child_of(key@, path@) matches Err(t) && t == e@),
{
    let xpriv = bitcoin::bip32::Xpriv::decode(key).map_err(|e| e.to_string())?;
    let path: bitcoin::bip32::DerivationPath = path.parse().map_err(|e: bitcoin::bip32::Error| e.to_string())?;
    let secp = bitcoin::secp256k1::Secp256k1::new();
    match xpriv.derive_priv(&secp, &path) {
        Ok(child) => Ok(child.encode()),
        Err(e) => Err(e.to_string()),
    }
}

/// The x-only public key of the decoded key: `Xpriv::to_keypair`, then
/// `x_only_public_key`, serialized; on failure to decode the key the
/// `Display` text of the error.
#[verifier::external_body]
fn xonly_key(key: &[u8; 78]) -> (xonly: Result<[u8; 32], String>)
    ensures
        xonly matches Ok(x) ==> (xonly_of(key@) matches Ok(y) && y == x@),
        xonly matches Err(e) ==> (xonly_of(key@) matches Err(t) && t == e@),
{
    let xpriv = bitcoin::bip32::Xpriv::decode(key).map_err(|e| e.to_string())?;
    let secp = bitcoin::secp256k1::Secp256k1::new();
    Ok(xpriv.to_keypair(&secp).x_only_public_key().0.serialize())
}

/// `ScriptBuf::new_p2tr` of the key read with `XOnlyPublicKey::from_slice`,
/// with no script tree, as bytes; on failure to read the key the `Display`
/// text of the error.
#[verifier::external_body]
fn p2tr_script(xonly: &[u8; 32]) -> (script: Result<Vec<u8>, String>)
    ensures
        script matches Ok(s) ==> (p2tr_script_of(xonly@) matches Ok(y) && y == s@),
        script matches Err(e) ==> (p2tr_script_of(xonly@) matches Err(t) && t == e@),
{
    let key = bitcoin::key::XOnlyPublicKey::from_slice(xonly).map_err(|e| e.to_string())?;
    let secp = bitcoin::secp256k1::Secp256k1::verification_only();
    Ok(bitcoin::ScriptBuf::new_p2tr(&secp, key, None).to_bytes())
}

/// `Address::p2tr` of the key read with `XOnlyPublicKey::from_slice`, with
/// no script tree, for the network, in its `Display` text; on failure to
/// read the key the `Display` text of the error. The text depends on the
/// network only through the human-readable part `KnownHrp` gives it.
#[verifier::external_body]
fn p2tr_address(xonly: &[u8; 32], network: Network) -> (address: Result<String, String>)
    ensures
        address matches Ok(a) ==> (p2tr_address_of(xonly@, network_hrp(network)) matches Ok(y) && y == a@),
        address matches Err(e) ==> (p2tr_address_of(xonly@, network_hrp(network)) matches Err(t) && t == e@),
{
    let network = match network {
        Network::Bitcoin => bitcoin::Network::Bitcoin,
        Network::Testnet => bitcoin::Network::Testnet,
        Network::Testnet4 => bitcoin::Network::Testnet4,
        Network::Signet => bitcoin::Network::Signet,
        Network::Regtest => bitcoin::Network::Regtest,
    };
    let key = bitcoin::key::XOnlyPublicKey::from_slice(xonly).map_err(|e| e.to_string())?;
    let secp = bitcoin::secp256k1::Secp256k1::verification_only();
    Ok(bitcoin::Address::p2tr(&secp, key, None, network).to_string())
}

/// The master key of a mnemonic and passphrase on a network, encoded:
/// the BIP-39 seed, then the BIP-32 master key (mainnet or test), or the
/// first error.
pub open spec fn master_key_of(mainnet: bool, phrase: Seq<char>, passphrase: Seq<char>) -> Result<Seq<u8>, Seq<char>> {
    match seed_of(phrase, passphrase) {
        Ok(seed) => master_of(mainnet, seed),
        Err(e) => Err(e),
    }
}

/// The master key of a BIP-39 mnemonic and passphrase, for the network.
pub fn create_private_key(network: Network, mnemonic: &str, passphrase: &str) -> (key: Result<[u8; 78], String>)
    ensures
        key matches Ok(k) ==> (master_key_of(network == Network::Bitcoin, mnemonic@, passphrase@) matches Ok(x)
            && x == k@),
        key matches Err(e) ==> (master_key_of(network == Network::Bitcoin, mnemonic@, passphrase@) matches Err(t)
            && t == e@),
{
    let seed = match mnemonic_seed(mnemonic, passphrase) {
        Ok(seed) => seed,
        Err(e) => return Err(e),
    };
    let mainnet = match network {
        Network::Bitcoin => true,
        _ => false,
    };
    master_key(mainnet, &seed)
}

/// A derived taproot key: its x-only public key, the output script that
/// pays to it, and that output's address.
pub struct TaprootChild {
    pub xonly: [u8; 32],
    pub script_pubkey: Vec<u8>,
    pub address: String,
}

/// The taproot key along a path from a master key: the child key along the
/// path's text, its x-only key, the key-path P2TR script and the address for
/// the path's network, or the first error.
pub open spec fn taproot_child_of(master: Seq<u8>, path: DerivePath) -> Result<
    (Seq<u8>, Seq<u8>, Seq<char>),
    Seq<char>,
> {
    match child_of(master, path_text(path)) {
        Err(e) => Err(e),
        Ok(child) => match xonly_of(child) {
            Err(e) => Err(e),
            Ok(x) => match p2tr_script_of(x) {
                Err(e) => Err(e),
                Ok(script) => match p2tr_address_of(x, network_hrp(path.network)) {
                    Err(e) => Err(e),
                    Ok(address) => Ok((x, script, address)),
                },
            },
        },
    }
}

/// The child is the taproot key of the path.
pub open spec fn is_taproot_child(c: TaprootChild, master: Seq<u8>, path: DerivePath) -> bool {
    taproot_child_of(master, path) == Ok::<(Seq<u8>, Seq<u8>, Seq<char>), Seq<char>>(
        (c.xonly@, c.script_pubkey@, c.address@),
    )
}

/// Derives the taproot key of a path from an encoded master key.
pub fn derive_taproot(master: &[u8; 78], path: &DerivePath) -> (child: Result<TaprootChild, String>)
    ensures
        child matches Ok(c) ==> is_taproot_child(c, master@, *path),
        child matches Err(e) ==> (taproot_child_of(master@, *path) matches Err(t) && t == e@),
{
    let text = path.to_string();
    let key = match derive_child(master, text.as_str()) {
        Ok(key) => key,
        Err(e) => return Err(e),
    };
    let xonly = match xonly_key(&key) {
        Ok(x) => x,
        Err(e) => return Err(e),
    };
    let script_pubkey = match p2tr_script(&xonly) {
        Ok(s) => s,
        Err(e) => return Err(e),
    };
    let address = match p2tr_address(&xonly, path.network) {
        Ok(a) => a,
        Err(e) => return Err(e),
    };
    Ok(TaprootChild { xonly, script_pubkey, address })
}

/// The output scripts of some paths, each with its path, in order; the
/// first error when a key cannot be derived.
pub fn derive_scripts(master: &[u8; 78], paths: &Vec<DerivePath>) -> (scripts: Result<Vec<(Vec<u8>, DerivePath)>, String>)
    ensures
        scripts matches Ok(v) ==> v@.len() == paths@.len() && forall|k: int|
            0 <= k < v@.len() ==> (#[trigger] v@[k]).1 == paths@[k] && (taproot_child_of(master@, paths@[k]) matches Ok(
                t,
            ) && t.1 == v@[k].0@),
        scripts is Ok <==> forall|k: int| 0 <= k < paths@.len() ==> taproot_child_of(master@, #[trigger] paths@[k]) is Ok,
        scripts matches Err(e) ==> exists|k: int|
            0 <= k < paths@.len() && (forall|j: int| 0 <= j < k ==> taproot_child_of(master@, #[trigger] paths@[j]) is Ok)
                && (taproot_child_of(master@, #[trigger] paths@[k]) matches Err(t) && t == e@),
{
    let mut out: Vec<(Vec<u8>, DerivePath)> = Vec::new();
    let mut k: usize = 0;
    while k < paths.len()
        invariant
            k <= paths@.len(),
            out@.len() == k,
            forall|m: int|
                0 <= m < k ==> (#[trigger] out@[m]).1 == paths@[m] && (taproot_child_of(master@, paths@[m]) matches Ok(
                    t,
                ) && t.1 == out@[m].0@),
            forall|j: int| 0 <= j < k ==> taproot_child_of(master@, #[trigger] paths@[j]) is Ok,
        decreases paths@.len() - k,
    {
        let path = paths[k];
        match derive_taproot(master, &path) {
            Ok(child) => {
                out.push((child.script_pubkey, path));
            },
            Err(e) => {
                assert(paths@[k as int] == path);
                return Err(e);
            },
        }
        k = k + 1;
    }
    Ok(out)
}

} // verus!
