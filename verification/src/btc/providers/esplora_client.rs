//! Public Esplora endpoints on main net.
use vstd::prelude::*;

verus! {

#[derive(Debug, Clone, Copy, PartialEq, Eq, Structural)]
pub enum EsploraProvider {
    MempoolSpace,
    BlockstreamInfo,
    MempoolEmzy,
}

impl EsploraProvider {
    /// Base URL of the provider's main-net API.
    pub fn main_net(self) -> (url: &'static str)
        ensures
            url@ == match self {
                EsploraProvider::MempoolSpace => "https://mempool.space/api"@,
                EsploraProvider::BlockstreamInfo => "https://blockstream.info/api"@,
                EsploraProvider::MempoolEmzy => "https://mempool.emzy.de/api"@,
            },
    {
        match self {
            EsploraProvider::MempoolSpace => "https://mempool.space/api",
            EsploraProvider::BlockstreamInfo => "https://blockstream.info/api",
            EsploraProvider::MempoolEmzy => "https://mempool.emzy.de/api",
        }
    }
}

} // verus!
