//! Persistence layer for chat conversations: an order-preserving binary key
//! codec and a partitioned store over an embedded ordered key-value engine.

pub mod environment;
pub mod keys;
pub mod storage;
pub mod store;
