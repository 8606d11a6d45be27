//! Leader/follower replication: write authorization, the leader write lock, and the
//! decisions of the Git sync engine.
pub mod engine;
pub mod lock;
pub mod policy;
