//! Wallet-wide settings.
use vstd::prelude::*;

verus! {

/// The chains a wallet holds.
#[derive(Debug, Clone, Copy, PartialEq, Eq, Structural)]
pub enum BlockChain {
    Bitcoin,
    Ethereum,
}

} // verus!
