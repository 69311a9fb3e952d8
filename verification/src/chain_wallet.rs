//! The interface every chain's wallet offers, whatever the chain.
use vstd::prelude::*;

use crate::chain_trait::ZeroizableKey;

verus! {

/// Unified wallet trait for blockchain-agnostic wallet operations: every
/// chain's wallet can be unlocked with its private key material.
pub trait ChainWallet {
    /// The private key type used by this chain for signing operations.
    type Prk;

    type UnlockResult;

    /// Unlocks the wallet using the provided private key material.
    fn unlock(&self, prk: &Self::Prk) -> Result<Self::UnlockResult, String>;
}

/// Accepts only keys that promise to zeroize on drop; a check the compiler
/// makes, with nothing to do at run time.
pub fn ensure_zeroized_drop<K: ZeroizableKey>(_key: &K) {
}

} // verus!
