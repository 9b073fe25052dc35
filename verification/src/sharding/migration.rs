//! Moving a shard from one node to another.

use vstd::prelude::*;

verus! {

/// A migration of shard `shard_id` from `source_node` to `target_node`.
/// Progress is a whole percentage; times are wall-clock milliseconds.
#[derive(Debug, Clone)]
pub struct MigrationTask {
    pub id: u128,
    pub shard_id: u128,
    pub source_node: String,
    pub target_node: String,
    pub completed: bool,
    pub progress: u8,
    pub created_at: i64,
    pub updated_at: i64,
}

impl MigrationTask {
    /// A migration that has not started, made at `now`.
    pub fn new(id: u128, shard_id: u128, source_node: String, target_node: String, now: i64) -> (t: Self)
        ensures
            t.id == id,
            t.shard_id == shard_id,
            t.source_node == source_node,
            t.target_node == target_node,
            !t.completed,
            t.progress == 0,
            t.created_at == now,
            t.updated_at == now,
    {
        MigrationTask { id, shard_id, source_node, target_node, completed: false, progress: 0, created_at: now, updated_at: now }
    }
}

} // verus!
