//! The vocabulary shared by every store and by the worker.

pub mod bridge;
pub mod queue;
pub mod save_customer_data;
