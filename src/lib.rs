//! Derived state of a concentrated-liquidity exchange, computed from the
//! decoded events of each block: pool registries, tick prices, liquidity,
//! value locked and token prices, kept in ordinal-versioned stores.
pub mod decimal;
pub mod store;
pub mod text;
pub mod keyer;
pub mod tokens;
pub mod pool;
pub mod price;
pub mod events;
pub mod pool_events;
pub mod handlers;
pub mod usd;
pub mod chain;
pub mod position;
pub mod abi;
pub mod decode;
