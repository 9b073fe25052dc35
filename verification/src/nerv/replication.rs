//! Replication of shards to peer nodes: the bookkeeping of replication
//! tasks and the rules by which a task moves between its states.  Running a
//! task (waiting between progress steps) is left to the caller, which
//! reports each step through the methods here.  Times are wall-clock
//! milliseconds; progress is a whole percentage.

use vstd::prelude::*;
use crate::clock::now_millis;
use crate::clock::new_uuid;
use crate::core_lib::id_map::IdMap;
use crate::core_lib::str_map::StrMap;

verus! {

/// State of a replication task.
#[derive(Debug, Clone, Copy, PartialEq, Eq, Structural)]
pub enum ReplicationStatus {
    Pending,
    InProgress,
    Completed,
    Failed,
}

/// Why a replication request failed.
#[derive(Debug, Clone, PartialEq, Eq)]
pub enum ReplicationError {
    /// The target node is not a known peer.
    UnknownPeer(String),
    /// No task has this identifier.
    TaskNotFound(u128),
    /// The task has already finished with this status.
    CannotCancel(ReplicationStatus),
}

/// One replication of a shard to a target node.
#[derive(Debug)]
pub struct ReplicationTask {
    pub id: u128,
    pub source_node: String,
    pub target_node: String,
    pub shard_id: u128,
    pub status: ReplicationStatus,
    /// Whole percentage, 0 to 100.
    pub progress: u8,
    pub created_at: i64,
    pub updated_at: i64,
}

/// Progress steps a running task goes through: 0, 10, ..., 100 percent.
pub const PROGRESS_STEP: u8 = 10;

/// A task has finished, successfully or not.
pub open spec fn is_finished(s: ReplicationStatus) -> bool {
    s == ReplicationStatus::Completed || s == ReplicationStatus::Failed
}

/// Tracks the replication tasks started by one node.
#[derive(Debug)]
pub struct ReplicationManager {
    tasks: IdMap<ReplicationTask>,
    node_id: String,
    peers: StrMap<()>,
}

/// What cancelling task `task_id` at `now` does to the manager `o`, giving
/// `f` and answering `r`: an unfinished task alone is marked failed;
/// otherwise it is refused and nothing changes.
pub open spec fn cancel_outcome(o: ReplicationManager, f: ReplicationManager, task_id: u128, now: i64, r: Result<(), ReplicationError>) -> bool {
    &&& f.node() == o.node()
    &&& f.peer_set() == o.peer_set()
    &&& match r {
        Ok(()) => {
            &&& o.task_map().contains_key(task_id)
            &&& !is_finished(o.task_map()[task_id].status)
            &&& f.task_map() == o.task_map().insert(
                task_id,
                ReplicationTask {
                    status: ReplicationStatus::Failed,
                    updated_at: now,
                    ..o.task_map()[task_id]
                },
            )
        },
        Err(e) => {
            &&& f.task_map() == o.task_map()
            &&& if o.task_map().contains_key(task_id) {
                &&& is_finished(o.task_map()[task_id].status)
                &&& e == ReplicationError::CannotCancel(o.task_map()[task_id].status)
            } else {
                e == ReplicationError::TaskNotFound(task_id)
            }
        },
    }
}

impl ReplicationManager {
    pub closed spec fn node(&self) -> Seq<char> {
        self.node_id@
    }

    /// Tasks by identifier.
    pub closed spec fn task_map(&self) -> Map<u128, ReplicationTask> {
        self.tasks@
    }

    /// Known peers.
    pub closed spec fn peer_set(&self) -> Set<Seq<char>> {
        self.peers@.dom()
    }

    pub closed spec fn wf(&self) -> bool {
        &&& self.tasks.wf()
        &&& self.peers.wf()
        &&& forall|k: u128| #[trigger] self.tasks@.contains_key(k) ==> self.tasks@[k].progress <= 100
    }

    /// A manager for `node_id` with no tasks and no peers.
    pub fn new(node_id: &str) -> (m: Self)
        ensures
            m.wf(),
            m.node() == node_id@,
            m.task_map() == Map::<u128, ReplicationTask>::empty(),
            m.peer_set() == Set::<Seq<char>>::empty(),
    {
        let m = ReplicationManager { tasks: IdMap::new(), node_id: node_id.to_owned(), peers: StrMap::new() };
        assert(m.peers@.dom() =~= Set::<Seq<char>>::empty());
        m
    }

    /// A manager for the same node with no tasks and no peers (the task
    /// table is not shared between copies).
    pub fn clone(&self) -> (m: Self)
        ensures
            m.wf(),
            m.node() == self.node(),
            m.task_map() == Map::<u128, ReplicationTask>::empty(),
            m.peer_set() == Set::<Seq<char>>::empty(),
    {
        Self::new(self.node_id.as_str())
    }

    /// Adds `peer_id` to the known peers.
    pub fn add_peer(&mut self, peer_id: &str)
        requires
            old(self).wf(),
        ensures
            final(self).wf(),
            final(self).peer_set() == old(self).peer_set().insert(peer_id@),
            final(self).task_map() == old(self).task_map(),
            final(self).node() == old(self).node(),
    {
        self.peers.insert(peer_id.to_owned(), ());
        assert(self.peers@.dom() =~= old(self).peers@.dom().insert(peer_id@));
    }

    /// Removes `peer_id` from the known peers.
    pub fn remove_peer(&mut self, peer_id: &str)
        requires
            old(self).wf(),
        ensures
            final(self).wf(),
            final(self).peer_set() == old(self).peer_set().remove(peer_id@),
            final(self).task_map() == old(self).task_map(),
            final(self).node() == old(self).node(),
    {
        let key = peer_id.to_owned();
        self.peers.remove(&key);
        assert(self.peers@.dom() =~= old(self).peers@.dom().remove(peer_id@));
    }

    /// Records a pending task `task_id` replicating `shard_id` to
    /// `target_node`, made at `now`; fails when the target is not a known
    /// peer.
    pub fn start_replication_with(&mut self, shard_id: u128, target_node: &str, task_id: u128, now: i64) -> (r: Result<u128, ReplicationError>)
        requires
            old(self).wf(),
        ensures
            final(self).wf(),
            final(self).node() == old(self).node(),
            final(self).peer_set() == old(self).peer_set(),
            match r {
                Ok(id) => {
                    &&& old(self).peer_set().contains(target_node@)
                    &&& id == task_id
                    &&& final(self).task_map().dom() == old(self).task_map().dom().insert(task_id)
                    &&& forall|k: u128| #[trigger] old(self).task_map().contains_key(k) && k != task_id
                        ==> final(self).task_map()[k] == old(self).task_map()[k]
                    &&& final(self).task_map()[task_id].id == task_id
                    &&& final(self).task_map()[task_id].source_node@ == old(self).node()
                    &&& final(self).task_map()[task_id].target_node@ == target_node@
                    &&& final(self).task_map()[task_id].shard_id == shard_id
                    &&& final(self).task_map()[task_id].status == ReplicationStatus::Pending
                    &&& final(self).task_map()[task_id].progress == 0
                    &&& final(self).task_map()[task_id].created_at == now
                    &&& final(self).task_map()[task_id].updated_at == now
                },
                Err(e) => {
                    &&& !old(self).peer_set().contains(target_node@)
                    &&& e matches ReplicationError::UnknownPeer(t) && t@ == target_node@
                    &&& final(self).task_map() == old(self).task_map()
                },
            },
    {
        let target = target_node.to_owned();
        if !self.peers.contains_key(&target) {
            return Err(ReplicationError::UnknownPeer(target));
        }
        let task = ReplicationTask {
            id: task_id,
            source_node: self.node_id.clone(),
            target_node: target,
            shard_id,
            status: ReplicationStatus::Pending,
            progress: 0,
            created_at: now,
            updated_at: now,
        };
        self.tasks.insert(task_id, task);
        assert(self.tasks@.dom() =~= old(self).tasks@.dom().insert(task_id));
        Ok(task_id)
    }

    /// Records a pending replication of `shard_id` to `target_node` under a
    /// fresh identifier at the current time.
    pub fn start_replication(&mut self, shard_id: u128, target_node: &str) -> (r: Result<u128, ReplicationError>)
        requires
            old(self).wf(),
        ensures
            final(self).wf(),
            r is Ok <==> old(self).peer_set().contains(target_node@),
            r is Err ==> final(self).task_map() == old(self).task_map(),
            r matches Ok(id) ==> {
                &&& final(self).task_map().dom() == old(self).task_map().dom().insert(id)
                &&& forall|k: u128| #[trigger] old(self).task_map().contains_key(k) && k != id
                    ==> final(self).task_map()[k] == old(self).task_map()[k]
                &&& final(self).task_map()[id].id == id
                &&& final(self).task_map()[id].source_node@ == old(self).node()
                &&& final(self).task_map()[id].target_node@ == target_node@
                &&& final(self).task_map()[id].shard_id == shard_id
                &&& final(self).task_map()[id].status == ReplicationStatus::Pending
                &&& final(self).task_map()[id].progress == 0
                &&& final(self).task_map()[id].created_at == final(self).task_map()[id].updated_at
            },
    {
        let task_id = new_uuid();
        let now = now_millis();
        self.start_replication_with(shard_id, target_node, task_id, now)
    }

    /// Marks task `task_id` as running at `now`.
    pub fn mark_in_progress(&mut self, task_id: u128, now: i64) -> (r: Result<(), ReplicationError>)
        requires
            old(self).wf(),
        ensures
            final(self).wf(),
            final(self).node() == old(self).node(),
            final(self).peer_set() == old(self).peer_set(),
            match r {
                Ok(()) => old(self).task_map().contains_key(task_id) && final(self).task_map() == old(self).task_map().insert(
                    task_id,
                    ReplicationTask {
                        status: ReplicationStatus::InProgress,
                        updated_at: now,
                        ..old(self).task_map()[task_id]
                    },
                ),
                Err(e) => !old(self).task_map().contains_key(task_id) && e == ReplicationError::TaskNotFound(task_id)
                    && final(self).task_map() == old(self).task_map(),
            },
    {
        match self.tasks.take(task_id) {
            Some(mut task) => {
                task.status = ReplicationStatus::InProgress;
                task.updated_at = now;
                self.tasks.insert(task_id, task);
                Ok(())
            },
            None => Err(ReplicationError::TaskNotFound(task_id)),
        }
    }

    /// Records that task `task_id` has reached `percent` at `now`; an unknown
    /// task is left alone.
    pub fn set_progress(&mut self, task_id: u128, percent: u8, now: i64)
        requires
            old(self).wf(),
            percent <= 100,
        ensures
            final(self).wf(),
            final(self).node() == old(self).node(),
            final(self).peer_set() == old(self).peer_set(),
            old(self).task_map().contains_key(task_id) ==> final(self).task_map() == old(self).task_map().insert(
                task_id,
                ReplicationTask { progress: percent, updated_at: now, ..old(self).task_map()[task_id] },
            ),
            !old(self).task_map().contains_key(task_id) ==> final(self).task_map() == old(self).task_map(),
    {
        match self.tasks.take(task_id) {
            Some(mut task) => {
                task.progress = percent;
                task.updated_at = now;
                self.tasks.insert(task_id, task);
            },
            None => {},
        }
    }

    /// Marks task `task_id` as completed at `now`, with full progress; an
    /// unknown task is left alone.
    pub fn mark_completed(&mut self, task_id: u128, now: i64)
        requires
            old(self).wf(),
        ensures
            final(self).wf(),
            final(self).node() == old(self).node(),
            final(self).peer_set() == old(self).peer_set(),
            old(self).task_map().contains_key(task_id) ==> final(self).task_map() == old(self).task_map().insert(
                task_id,
                ReplicationTask {
                    status: ReplicationStatus::Completed,
                    progress: 100,
                    updated_at: now,
                    ..old(self).task_map()[task_id]
                },
            ),
            !old(self).task_map().contains_key(task_id) ==> final(self).task_map() == old(self).task_map(),
    {
        match self.tasks.take(task_id) {
            Some(mut task) => {
                task.status = ReplicationStatus::Completed;
                task.progress = 100;
                task.updated_at = now;
                self.tasks.insert(task_id, task);
            },
            None => {},
        }
    }

    /// Status and progress of task `task_id`.
    pub fn get_task_status(&self, task_id: u128) -> (r: Result<(ReplicationStatus, u8), ReplicationError>)
        requires
            self.wf(),
        ensures
            match r {
                Ok((s, p)) => self.task_map().contains_key(task_id) && s == self.task_map()[task_id].status
                    && p == self.task_map()[task_id].progress,
                Err(e) => !self.task_map().contains_key(task_id) && e == ReplicationError::TaskNotFound(task_id),
            },
    {
        match self.tasks.get(task_id) {
            Some(task) => Ok((task.status, task.progress)),
            None => Err(ReplicationError::TaskNotFound(task_id)),
        }
    }

    /// Cancels task `task_id` at `now`, marking it failed; a task that has
    /// already finished cannot be cancelled.
    pub fn cancel_replication_at(&mut self, task_id: u128, now: i64) -> (r: Result<(), ReplicationError>)
        requires
            old(self).wf(),
        ensures
            final(self).wf(),
            cancel_outcome(*old(self), *final(self), task_id, now, r),
    {
        match self.tasks.take(task_id) {
            Some(mut task) => {
                if task.status == ReplicationStatus::Completed || task.status == ReplicationStatus::Failed {
                    let status = task.status;
                    self.tasks.insert(task_id, task);
                    proof {
                        assert(self.tasks@ =~= old(self).tasks@);
                    }
                    return Err(ReplicationError::CannotCancel(status));
                }
                task.status = ReplicationStatus::Failed;
                task.updated_at = now;
                self.tasks.insert(task_id, task);
                proof {
                    assert(self.task_map() =~= old(self).task_map().insert(
                        task_id,
                        ReplicationTask { status: ReplicationStatus::Failed, updated_at: now, ..old(self).task_map()[task_id] },
                    ));
                }
                Ok(())
            },
            None => {
                assert(self.task_map() =~= old(self).task_map());
                Err(ReplicationError::TaskNotFound(task_id))
            },
        }
    }

    /// Cancels task `task_id` at the current time.
    pub fn cancel_replication(&mut self, task_id: u128) -> (r: Result<(), ReplicationError>)
        requires
            old(self).wf(),
        ensures
            final(self).wf(),
            exists|now: i64| cancel_outcome(*old(self), *final(self), task_id, now, r),
    {
        let now = now_millis();
        self.cancel_replication_at(task_id, now)
    }
}

/// Cancelling a known task that is pending or in progress succeeds and
/// marks it failed, leaving every other task as it was; a completed or
/// failed task cannot be cancelled, and nothing changes.
pub proof fn lemma_cancel_running_tasks(
    o: ReplicationManager,
    f: ReplicationManager,
    task_id: u128,
    now: i64,
    r: Result<(), ReplicationError>,
)
    requires
        cancel_outcome(o, f, task_id, now, r),
        o.task_map().contains_key(task_id),
    ensures
        (o.task_map()[task_id].status == ReplicationStatus::Pending
            || o.task_map()[task_id].status == ReplicationStatus::InProgress) ==> {
            &&& r is Ok
            &&& f.task_map().contains_key(task_id)
            &&& f.task_map()[task_id].status == ReplicationStatus::Failed
            &&& f.task_map()[task_id].updated_at == now
            &&& forall|k: u128| k != task_id && #[trigger] o.task_map().contains_key(k)
                ==> f.task_map().contains_key(k) && f.task_map()[k] == o.task_map()[k]
        },
        (o.task_map()[task_id].status == ReplicationStatus::Completed
            || o.task_map()[task_id].status == ReplicationStatus::Failed) ==> {
            &&& r == Err::<(), ReplicationError>(ReplicationError::CannotCancel(o.task_map()[task_id].status))
            &&& f.task_map() == o.task_map()
        },
{
}

} // verus!
