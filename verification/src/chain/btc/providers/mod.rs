//! Where the wallet fetches chain data from: Electrum servers and Esplora
//! HTTP endpoints.
pub mod electrum_adapter;
pub mod electrum_client;
pub mod esplora_adapter;
