use vstd::prelude::*;

use crate::btc::address::Network;

verus! {

pub struct BitcoinConfig {
    pub regtest: bool,
    /// Custom Electrum server URL. Leave blank to use the default.
    pub electrum_server: Option<String>,
}

/// Regtest when configured so, mainnet otherwise.
pub open spec fn network_of(regtest: bool) -> Network {
    if regtest {
        Network::Regtest
    } else {
        Network::Bitcoin
    }
}

impl BitcoinConfig {
    pub fn network(&self) -> (network: Network)
        ensures
            network == network_of(self.regtest),
    {
        if self.regtest {
            Network::Regtest
        } else {
            Network::Bitcoin
        }
    }

    /// Mainnet, with the default Electrum servers.
    pub fn default() -> (config: Self)
        ensures
            !config.regtest,
            config.electrum_server is None,
    {
        Self { regtest: false, electrum_server: None }
    }
}

} // verus!
