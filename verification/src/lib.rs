//! A Kademlia-style DHT node core: XOR-metric identifiers, k-buckets, a
//! routing table with lazy unfolding, the iterative lookup state machine and
//! the framed wire codec. Every function is verified against its contract.

pub mod distance;
pub mod kad_id;
pub mod peer;
pub mod bucket;
pub mod routing_table;
pub mod qpeerset;
pub mod query;
pub mod query_manager;
pub mod codec;
pub mod frame;
pub mod message;
pub mod protocol;
pub mod addrbook;
pub mod props;
pub mod control;
pub mod node;
pub mod connection;
pub mod timer;
pub mod dispatch;
