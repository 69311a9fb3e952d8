pub mod btc;
pub mod eth;
