pub mod account;
pub mod coin_selection;
pub mod commands;
pub mod config;
pub mod discovery;
pub mod fee_estimator;
pub mod keys;
pub mod dtos;
pub mod fee_bump;
pub mod persistence;
pub mod providers;
pub mod service;
pub mod tx_builder;
pub mod utxo;
pub mod wallet;
