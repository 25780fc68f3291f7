//! Connections: the rules of a standalone connection, of the multiplexer
//! and of the cluster router.

pub mod cluster_connection;
pub mod cluster_router;
pub mod cluster_shards;
pub mod cluster_topology;
pub mod hash_slot;
pub mod key_order_law;
pub mod multi_shard;
pub mod multiplexer;
pub mod read_policy;
pub mod request_policy;
pub mod response_policy;
pub mod retry;
pub mod server_end_point;
pub mod standalone_connection;
pub mod topology;
