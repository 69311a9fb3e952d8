//! Traits shared by the chains a wallet holds.
use vstd::prelude::*;

verus! {

/// Trait for secure private key handling across different blockchains.
/// Implementations should:
/// - Keep key material encrypted/protected in memory when possible
/// - Zeroize memory when the key is dropped
/// - Minimize the time key material is exposed
pub trait SecureKey {
    /// The underlying key material type. (e.g., Xpriv for Bitcoin, PrivateKeySigner for Ethereum)
    type Material;

    /// Provides access to the underlying key material.
    fn expose(&self) -> &Self::Material;
}

/// Trait for tracking assets (tokens, addresses, etc.) across different blockchains.
pub trait AssetTracker<Asset> {
    /// Track a new asset in the wallet.
    fn track(&mut self, asset: Asset) -> Result<(), String>;

    /// Stop tracking an asset.
    fn untrack(&mut self, asset: Asset) -> Result<(), String>;
}

/// Marker trait for keys that guarantee zeroization on drop.
pub trait ZeroizableKey {}

} // verus!
