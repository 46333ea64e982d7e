//! Moves ownership of non-fungible tokens from a Cosmos-style chain to
//! Starknet: a queue of per-token jobs, the rules that drive each job to
//! a terminal state, and the stores those rules read and write.

pub mod domain;
pub mod infrastructure;
pub mod text;
pub mod worker;
