//! The stores and adapters behind the queue: those held in memory, the
//! decisions of the relational ones, and the calls to the destination
//! chain.

pub mod in_memory;
pub mod in_memory_queue;
pub mod postgresql;
pub mod starknet;
