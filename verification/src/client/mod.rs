//! The client side: commands prepared for an executor, pipelines and
//! transactions.

pub mod client;
pub mod pipeline;
pub mod prepared_command;
pub mod transaction;
