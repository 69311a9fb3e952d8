//! Checks the wallet makes on the user's input before it acts on it.
use vstd::prelude::*;

use crate::chain::btc::commands::{check_recipient, recipient_result};
use crate::chain::btc::config::{network_of, BitcoinConfig};
use crate::chain::eth::address::{address_from_hex, address_of_hex, hex_error_text};
use crate::config::BlockChain;

verus! {

/// Whether `address` is a recipient the chain accepts: for Bitcoin an
/// address of the configured network, for Ethereum twenty bytes of
/// hexadecimal text.
pub fn validate_address(chain: BlockChain, address: &str, btc: &BitcoinConfig) -> (r: Result<(), String>)
    ensures
        chain == BlockChain::Bitcoin ==> match recipient_result(
            address@,
            network_of(btc.regtest),
            "invalid address: "@,
            "invalid address network: "@,
        ) {
            Ok(_) => r is Ok,
            Err(t) => r matches Err(e) && e@ == t,
        },
        chain == BlockChain::Ethereum ==> match address_of_hex(address@) {
            Some(_) => r is Ok,
            None => r matches Err(e) && e@ == hex_error_text(address@),
        },
{
    match chain {
        BlockChain::Bitcoin => match check_recipient(address, btc.network()) {
            Ok(_) => Ok(()),
            Err(e) => Err(e),
        },
        BlockChain::Ethereum => match address_from_hex(address) {
            Ok(_) => Ok(()),
            Err(e) => Err(e),
        },
    }
}

} // verus!
