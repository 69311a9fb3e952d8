//! Chain data providers of the first wallet layout.
pub mod esplora_client;
