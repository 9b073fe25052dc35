pub mod versioning;
pub mod synchrony;
pub mod replication;
