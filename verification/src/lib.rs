//! Wallet logic of a Bitcoin and Ethereum desktop wallet: coin selection,
//! fee and change planning, BIP-32 derivation paths, account keeping,
//! wallet discovery and the Ethereum token watch list.

pub mod biometric;
pub mod btc;
pub mod chain;
pub mod chain_trait;
pub mod chain_wallet;
pub mod commands;
pub mod config;
pub mod text;
