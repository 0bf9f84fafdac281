pub mod engine;
pub mod ledger;
pub mod messages;
pub mod orderbook;
pub mod types;
