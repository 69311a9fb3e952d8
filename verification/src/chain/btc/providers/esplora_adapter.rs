//! Public Esplora endpoints. The Esplora API is a REST interface over the
//! Bitcoin chain, run by Blockstream and mempool.space among others.
use vstd::prelude::*;

use crate::btc::address::DerivePath;
use crate::chain::btc::utxo::{TxOut, Utxo};

verus! {

#[derive(Debug, Clone, Copy, PartialEq, Eq, Structural)]
pub enum EsploraProvider {
    MempoolSpace,
    BlockstreamInfo,
    MempoolEmzy,
}

impl EsploraProvider {
    /// Base URL of the provider's main-net API.
    pub fn main_net(self) -> (url: &'static str)
        ensures
            url@ == match self {
                EsploraProvider::MempoolSpace => "https://mempool.space/api"@,
                EsploraProvider::BlockstreamInfo => "https://blockstream.info/api"@,
                EsploraProvider::MempoolEmzy => "https://mempool.emzy.de/api"@,
            },
    {
        match self {
            EsploraProvider::MempoolSpace => "https://mempool.space/api",
            EsploraProvider::BlockstreamInfo => "https://blockstream.info/api",
            EsploraProvider::MempoolEmzy => "https://mempool.emzy.de/api",
        }
    }

    /// Base URL of the provider's API as a Tor hidden service, where it runs
    /// one.
    pub fn onion(self) -> (url: &'static str)
        ensures
            url@ == match self {
                EsploraProvider::MempoolSpace => "http://mempoolhqx4isw62xs7abwphsq7ldayuidyx2v2oethdhhj6mlo2r6ad.onion/api"@,
                EsploraProvider::BlockstreamInfo => "http://explorerzydxu5ecjrkwceayqybizmpjjznk5izmitf2modhcusuqlid.onion/api"@,
                EsploraProvider::MempoolEmzy => "http://mempool.emzy.de/api"@,
            },
    {
        match self {
            EsploraProvider::MempoolSpace => {
                "http://mempoolhqx4isw62xs7abwphsq7ldayuidyx2v2oethdhhj6mlo2r6ad.onion/api"
            },
            EsploraProvider::BlockstreamInfo => {
                "http://explorerzydxu5ecjrkwceayqybizmpjjznk5izmitf2modhcusuqlid.onion/api"
            },
            EsploraProvider::MempoolEmzy => "http://mempool.emzy.de/api",
        }
    }
}

/// The endpoint an adapter over Tor talks to: mempool.space's hidden service.
pub fn tor_base_url() -> (url: &'static str)
    ensures
        url@ == "http://mempoolhqx4isw62xs7abwphsq7ldayuidyx2v2oethdhhj6mlo2r6ad.onion/api"@,
{
    EsploraProvider::MempoolSpace.onion()
}

/// One unspent output as an Esplora server lists it for an address: the
/// transaction id, output number, value, and the height of the block that
/// confirmed it, if any.
pub struct EsploraUtxo {
    pub txid: [u8; 32],
    pub vout: u32,
    pub value: u64,
    pub block_height: Option<u32>,
}

/// The wallet output a listed output is, at an address with the given
/// script and derivation path; an unconfirmed output is at height 0.
pub open spec fn is_listed_utxo(u: Utxo, e: EsploraUtxo, script: Seq<u8>, derivation: DerivePath) -> bool {
    &&& u.tx_id@ == e.txid@
    &&& u.vout == e.vout
    &&& u.output.value == e.value
    &&& u.output.script_pubkey@ == script
    &&& u.derivation == derivation
    &&& u.height == match e.block_height {
        Some(h) => h,
        None => 0,
    }
}

/// The wallet outputs of one address's listing, in order.
pub fn wallet_utxos(listed: Vec<EsploraUtxo>, script_pubkey: &Vec<u8>, derivation: DerivePath) -> (utxos: Vec<
    Utxo,
>)
    ensures
        utxos@.len() == listed@.len(),
        forall|k: int|
            0 <= k < utxos@.len() ==> is_listed_utxo(#[trigger] utxos@[k], listed@[k], script_pubkey@, derivation),
{
    let mut utxos: Vec<Utxo> = Vec::new();
    let mut k: usize = 0;
    while k < listed.len()
        invariant
            k <= listed@.len(),
            utxos@.len() == k,
            forall|m: int| 0 <= m < k ==> is_listed_utxo(#[trigger] utxos@[m], listed@[m], script_pubkey@, derivation),
        decreases listed@.len() - k,
    {
        let entry = &listed[k];
        let script = script_pubkey.clone();
        proof {
            assert(script@ =~= script_pubkey@);
        }
        let height = match entry.block_height {
            Some(h) => h,
            None => 0,
        };
        utxos.push(
            Utxo {
                tx_id: entry.txid,
                vout: entry.vout,
                output: TxOut { value: entry.value, script_pubkey: script },
                derivation,
                height,
            },
        );
        k = k + 1;
    }
    utxos
}

} // verus!
