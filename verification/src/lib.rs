//! Wire formats of the ascending-bootstrap pull messages and of the keepalive
//! message, and the decision logic that drives ledger snapshots
//! (preproposals, proposals and proposal votes).

pub mod codec;
pub mod primitives;
pub mod header;
pub mod asc_pull_req;
pub mod blocks;
pub mod asc_pull_ack;
pub mod keepalive;
pub mod snapshot_messages;
pub mod consensus;
pub mod aggregator;
pub mod snapshot_state;
pub mod ledger_snapshots;
pub mod text;
