pub mod address;
pub mod constants;
pub mod dtos;
pub mod token;
pub mod units;
pub mod wallet;
pub mod persistence;
pub mod signer;
pub mod commands;
