//! Bookkeeping of shards: which shards exist, their status and vector
//! counts, which node holds each, and the migrations that move shards
//! between nodes.  Running a migration (waiting between progress steps) is
//! left to the caller, which reports each step through the methods here.
//! Times are wall-clock milliseconds.

use vstd::prelude::*;
use vstd::string::StringExecFns;
use crate::clock::format_uuid;
use crate::clock::new_uuid;
use crate::clock::now_millis;
use crate::clock::uuid_text;
use crate::core_lib::id_map::IdMap;
use crate::sharding::migration::MigrationTask;

verus! {

/// Whether a shard serves reads and writes.
#[derive(Debug, Clone, Copy, PartialEq, Eq, Structural)]
pub enum ShardStatus {
    Active,
    ReadOnly,
    Draining,
    Inactive,
}

/// A shard of the vector space, held by node `node_id`.
#[derive(Debug, Clone)]
pub struct Shard {
    pub id: u128,
    pub name: String,
    pub status: ShardStatus,
    pub node_id: String,
    pub vector_count: usize,
    pub created_at: i64,
    pub updated_at: i64,
}

/// Why a shard request failed.
#[derive(Debug, Clone, Copy, PartialEq, Eq, Structural)]
pub enum ShardError {
    ShardNotFound(u128),
    MigrationNotFound(u128),
}

/// Identifiers of the shards of `shards` held by node `node`.
pub open spec fn held_by(shards: Map<u128, Shard>, node: Seq<char>) -> Set<u128> {
    Set::new(|k: u128| shards.contains_key(k) && shards[k].node_id@ == node)
}

/// Shards of one node and the migrations it started.
#[derive(Debug)]
pub struct ShardManager {
    node_id: String,
    shards: IdMap<Shard>,
    migrations: IdMap<MigrationTask>,
}

impl ShardManager {
    pub closed spec fn node(&self) -> Seq<char> {
        self.node_id@
    }

    /// Shards by identifier.
    pub closed spec fn shard_map(&self) -> Map<u128, Shard> {
        self.shards@
    }

    /// Migrations by identifier.
    pub closed spec fn migration_map(&self) -> Map<u128, MigrationTask> {
        self.migrations@
    }

    pub closed spec fn wf(&self) -> bool {
        &&& self.shards.wf()
        &&& self.migrations.wf()
        &&& forall|k: u128| #[trigger] self.shards@.contains_key(k) ==> self.shards@[k].id == k
        &&& forall|k: u128| #[trigger] self.migrations@.contains_key(k) ==> self.migrations@[k].progress <= 100
    }

    /// A manager for node `node_id` with no shards and no migrations.
    pub fn new_with(node_id: String) -> (m: Self)
        ensures
            m.wf(),
            m.node() == node_id@,
            m.shard_map() == Map::<u128, Shard>::empty(),
            m.migration_map() == Map::<u128, MigrationTask>::empty(),
    {
        ShardManager { node_id, shards: IdMap::new(), migrations: IdMap::new() }
    }

    /// A manager for a node named "node-" followed by a fresh random UUID.
    pub fn new() -> (m: Self)
        ensures
            m.wf(),
            exists|u: u128| m.node() == "node-"@ + uuid_text(u),
            m.shard_map() == Map::<u128, Shard>::empty(),
            m.migration_map() == Map::<u128, MigrationTask>::empty(),
    {
        let u = new_uuid();
        let mut name = "node-".to_owned();
        let text = format_uuid(u);
        name.append(text.as_str());
        Self::new_with(name)
    }

    /// Records an active, empty shard `shard_id` named `name` on this node,
    /// made at `now`, and returns its identifier.
    pub fn create_shard_with(&mut self, shard_id: u128, name: &str, now: i64) -> (id: u128)
        requires
            old(self).wf(),
        ensures
            final(self).wf(),
            id == shard_id,
            shard_created(*old(self), *final(self), shard_id, name@, now),
    {
        let shard = Shard {
            id: shard_id,
            name: name.to_owned(),
            status: ShardStatus::Active,
            node_id: self.node_id.clone(),
            vector_count: 0,
            created_at: now,
            updated_at: now,
        };
        self.shards.insert(shard_id, shard);
        assert(self.shards@.dom() =~= old(self).shards@.dom().insert(shard_id));
        shard_id
    }

    /// Records a new shard named `name` under a fresh identifier now.
    pub fn create_shard(&mut self, name: &str) -> (id: u128)
        requires
            old(self).wf(),
        ensures
            final(self).wf(),
            exists|now: i64| shard_created(*old(self), *final(self), id, name@, now),
    {
        let id = new_uuid();
        let now = now_millis();
        self.create_shard_with(id, name, now)
    }

    /// The shard `shard_id`.
    pub fn get_shard(&self, shard_id: u128) -> (r: Result<&Shard, ShardError>)
        requires
            self.wf(),
        ensures
            match r {
                Ok(s) => self.shard_map().contains_key(shard_id) && *s == self.shard_map()[shard_id],
                Err(e) => !self.shard_map().contains_key(shard_id) && e == ShardError::ShardNotFound(shard_id),
            },
    {
        match self.shards.get(shard_id) {
            Some(s) => Ok(s),
            None => Err(ShardError::ShardNotFound(shard_id)),
        }
    }

    /// Every shard, in storage order, each once.
    pub fn get_shards(&self) -> (v: Vec<&Shard>)
        requires
            self.wf(),
        ensures
            v@.len() == self.shard_map().dom().len(),
            forall|i: int| 0 <= i < v@.len() ==> self.shard_map().contains_key((#[trigger] v@[i]).id)
                && self.shard_map()[v@[i].id] == *v@[i],
            forall|i: int, j: int| 0 <= i < j < v@.len() ==> (#[trigger] v@[i]).id != (#[trigger] v@[j]).id,
    {
        proof {
            self.shards.lemma_keys();
        }
        let mut v: Vec<&Shard> = Vec::new();
        let n = self.shards.len();
        let mut i: usize = 0;
        while i < n
            invariant
                self.wf(),
                n == self.shards.len_spec(),
                self.shards.key_seq().len() == n,
                self.shards.key_seq().no_duplicates(),
                i <= n,
                v@.len() == i,
                forall|j: int| 0 <= j < i ==> (#[trigger] v@[j]).id == self.shards.key_seq()[j],
                forall|j: int| 0 <= j < i ==> self.shard_map().contains_key((#[trigger] v@[j]).id)
                    && self.shard_map()[v@[j].id] == *v@[j],
            decreases n - i,
        {
            let s = self.shards.value_at(i);
            v.push(s);
            i = i + 1;
        }
        v
    }

    /// Sets the status of shard `shard_id` at `now`.
    pub fn update_shard_status_at(&mut self, shard_id: u128, status: ShardStatus, now: i64) -> (r: Result<(), ShardError>)
        requires
            old(self).wf(),
        ensures
            final(self).wf(),
            status_updated(*old(self), *final(self), shard_id, status, now, r),
    {
        match self.shards.take(shard_id) {
            Some(mut s) => {
                s.status = status;
                s.updated_at = now;
                self.shards.insert(shard_id, s);
                assert(self.shard_map() =~= old(self).shard_map().insert(
                    shard_id,
                    Shard { status, updated_at: now, ..old(self).shard_map()[shard_id] },
                ));
                Ok(())
            },
            None => {
                assert(self.shard_map() =~= old(self).shard_map());
                Err(ShardError::ShardNotFound(shard_id))
            },
        }
    }

    /// Sets the status of shard `shard_id` now.
    pub fn update_shard_status(&mut self, shard_id: u128, status: ShardStatus) -> (r: Result<(), ShardError>)
        requires
            old(self).wf(),
        ensures
            final(self).wf(),
            exists|now: i64| status_updated(*old(self), *final(self), shard_id, status, now, r),
    {
        let now = now_millis();
        self.update_shard_status_at(shard_id, status, now)
    }

    /// Records that shard `shard_id` holds `count` vectors at `now`; an
    /// unknown shard is left alone.
    pub fn record_vector_count(&mut self, shard_id: u128, count: usize, now: i64)
        requires
            old(self).wf(),
        ensures
            final(self).wf(),
            final(self).node() == old(self).node(),
            final(self).migration_map() == old(self).migration_map(),
            old(self).shard_map().contains_key(shard_id) ==> final(self).shard_map() == old(self).shard_map().insert(
                shard_id,
                Shard { vector_count: count, updated_at: now, ..old(self).shard_map()[shard_id] },
            ),
            !old(self).shard_map().contains_key(shard_id) ==> final(self).shard_map() == old(self).shard_map(),
    {
        match self.shards.take(shard_id) {
            Some(mut s) => {
                s.vector_count = count;
                s.updated_at = now;
                self.shards.insert(shard_id, s);
            },
            None => {},
        }
    }

    /// Identifiers of the shards held by node `node`, each once.
    pub fn shards_on_node(&self, node: &str) -> (ids: Vec<u128>)
        requires
            self.wf(),
        ensures
            ids@.no_duplicates(),
            ids@.to_set() == held_by(self.shard_map(), node@),
    {
        proof {
            self.shards.lemma_keys();
        }
        let who = node.to_owned();
        let mut ids: Vec<u128> = Vec::new();
        let n = self.shards.len();
        let mut i: usize = 0;
        while i < n
            invariant
                self.wf(),
                who@ == node@,
                n == self.shards.len_spec(),
                self.shards.key_seq().len() == n,
                self.shards.key_seq().no_duplicates(),
                forall|k: u128| self.shards@.contains_key(k) <==> self.shards.key_seq().contains(k),
                i <= n,
                ids@.no_duplicates(),
                forall|k: u128| ids@.contains(k) <==> (exists|j: int| 0 <= j < i && #[trigger] self.shards.key_seq()[j] == k)
                    && self.shards@.contains_key(k) && self.shards@[k].node_id@ == node@,
            decreases n - i,
        {
            let k = self.shards.key_at(i);
            let s = self.shards.value_at(i);
            let ghost before = ids@;
            proof {
                assert(!before.contains(k)) by {
                    if before.contains(k) {
                        let j = choose|j: int| 0 <= j < i && #[trigger] self.shards.key_seq()[j] == k;
                        assert(self.shards.key_seq()[j] == self.shards.key_seq()[i as int]);
                    }
                }
                assert(*s == self.shards@[k]);
            }
            if s.node_id == who {
                ids.push(k);
            }
            proof {
                assert forall|x: u128| ids@.contains(x) <==> (exists|j: int| 0 <= j < i + 1 && #[trigger] self.shards.key_seq()[j] == x)
                    && self.shards@.contains_key(x) && self.shards@[x].node_id@ == node@ by {
                    if x == k {
                        assert(self.shards.key_seq()[i as int] == x);
                        if ids@.contains(x) && !before.contains(x) {
                            assert(ids@.last() == x);
                        }
                        if self.shards@[x].node_id@ == node@ {
                            assert(ids@.last() == x);
                        }
                    } else {
                        if ids@.contains(x) {
                            let q = choose|q: int| 0 <= q < ids@.len() && ids@[q] == x;
                            if q < before.len() {
                                assert(before[q] == x);
                            }
                        }
                        if before.contains(x) {
                            let q = choose|q: int| 0 <= q < before.len() && before[q] == x;
                            assert(ids@[q] == x);
                        }
                        if exists|j: int| 0 <= j < i + 1 && #[trigger] self.shards.key_seq()[j] == x {
                            let j = choose|j: int| 0 <= j < i + 1 && #[trigger] self.shards.key_seq()[j] == x;
                            assert(j != i);
                        }
                    }
                }
            }
            i = i + 1;
        }
        proof {
            assert forall|k: u128| ids@.to_set().contains(k) <==> held_by(self.shard_map(), node@).contains(k) by {
                if held_by(self.shard_map(), node@).contains(k) {
                    assert(self.shards.key_seq().contains(k));
                    let j = choose|j: int| 0 <= j < self.shards.key_seq().len() && self.shards.key_seq()[j] == k;
                    assert(self.shards.key_seq()[j] == k);
                }
            }
            assert(ids@.to_set() =~= held_by(self.shard_map(), node@));
        }
        ids
    }

    /// Starts migration `migration_id` of shard `shard_id` from this node to
    /// `target_node` at `now`: records the task and marks the shard as
    /// draining.  Fails, changing nothing, when the shard does not exist.
    pub fn start_migration_with(&mut self, shard_id: u128, target_node: &str, migration_id: u128, now: i64) -> (r: Result<u128, ShardError>)
        requires
            old(self).wf(),
        ensures
            final(self).wf(),
            r is Ok ==> r->Ok_0 == migration_id,
            r is Err ==> r->Err_0 == ShardError::ShardNotFound(shard_id),
            migration_started(*old(self), *final(self), shard_id, target_node@, migration_id, now, r is Ok),
    {
        if !self.shards.contains_key(shard_id) {
            return Err(ShardError::ShardNotFound(shard_id));
        }
        let task = MigrationTask::new(migration_id, shard_id, self.node_id.clone(), target_node.to_owned(), now);
        self.migrations.insert(migration_id, task);
        assert(self.migrations@.dom() =~= old(self).migrations@.dom().insert(migration_id));
        let _ = self.update_shard_status_at(shard_id, ShardStatus::Draining, now);
        Ok(migration_id)
    }

    /// Starts a migration of shard `shard_id` to `target_node` under a fresh
    /// identifier now.
    pub fn start_migration(&mut self, shard_id: u128, target_node: &str) -> (r: Result<u128, ShardError>)
        requires
            old(self).wf(),
        ensures
            final(self).wf(),
            r is Err ==> r->Err_0 == ShardError::ShardNotFound(shard_id),
            exists|id: u128, now: i64| (r is Ok ==> r->Ok_0 == id)
                && #[trigger] migration_started(*old(self), *final(self), shard_id, target_node@, id, now, r is Ok),
    {
        let id = new_uuid();
        let now = now_millis();
        self.start_migration_with(shard_id, target_node, id, now)
    }

    /// Records that migration `migration_id` has reached `percent` at `now`;
    /// an unknown migration is left alone.
    pub fn set_migration_progress(&mut self, migration_id: u128, percent: u8, now: i64)
        requires
            old(self).wf(),
            percent <= 100,
        ensures
            final(self).wf(),
            final(self).node() == old(self).node(),
            final(self).shard_map() == old(self).shard_map(),
            old(self).migration_map().contains_key(migration_id) ==> final(self).migration_map() == old(self).migration_map().insert(
                migration_id,
                MigrationTask { progress: percent, updated_at: now, ..old(self).migration_map()[migration_id] },
            ),
            !old(self).migration_map().contains_key(migration_id) ==> final(self).migration_map() == old(self).migration_map(),
    {
        match self.migrations.take(migration_id) {
            Some(mut t) => {
                t.progress = percent;
                t.updated_at = now;
                self.migrations.insert(migration_id, t);
            },
            None => {},
        }
    }

    /// Finishes migration `migration_id` at `now`: the shard (when it still
    /// exists) moves to the target node and becomes active again, and the
    /// migration is marked complete with full progress.
    pub fn complete_migration_at(&mut self, migration_id: u128, now: i64) -> (r: Result<(), ShardError>)
        requires
            old(self).wf(),
        ensures
            final(self).wf(),
            final(self).node() == old(self).node(),
            match r {
                Ok(()) => {
                    let t = old(self).migration_map()[migration_id];
                    &&& old(self).migration_map().contains_key(migration_id)
                    &&& final(self).migration_map() == old(self).migration_map().insert(
                        migration_id,
                        MigrationTask { completed: true, progress: 100, updated_at: now, ..t },
                    )
                    &&& final(self).shard_map().dom() == old(self).shard_map().dom()
                    &&& forall|k: u128| #[trigger] old(self).shard_map().contains_key(k) && k != t.shard_id
                        ==> final(self).shard_map()[k] == old(self).shard_map()[k]
                    &&& old(self).shard_map().contains_key(t.shard_id) ==> {
                        &&& final(self).shard_map()[t.shard_id].node_id@ == t.target_node@
                        &&& final(self).shard_map()[t.shard_id].status == ShardStatus::Active
                        &&& final(self).shard_map()[t.shard_id].updated_at == now
                        &&& final(self).shard_map()[t.shard_id].id == old(self).shard_map()[t.shard_id].id
                        &&& final(self).shard_map()[t.shard_id].name == old(self).shard_map()[t.shard_id].name
                        &&& final(self).shard_map()[t.shard_id].vector_count == old(self).shard_map()[t.shard_id].vector_count
                        &&& final(self).shard_map()[t.shard_id].created_at == old(self).shard_map()[t.shard_id].created_at
                    }
                },
                Err(e) => {
                    &&& !old(self).migration_map().contains_key(migration_id)
                    &&& e == ShardError::MigrationNotFound(migration_id)
                    &&& final(self).shard_map() == old(self).shard_map()
                    &&& final(self).migration_map() == old(self).migration_map()
                },
            },
    {
        let mut task = match self.migrations.take(migration_id) {
            Some(t) => t,
            None => {
                return Err(ShardError::MigrationNotFound(migration_id));
            },
        };
        match self.shards.take(task.shard_id) {
            Some(mut s) => {
                s.node_id = task.target_node.clone();
                s.status = ShardStatus::Active;
                s.updated_at = now;
                self.shards.insert(task.shard_id, s);
            },
            None => {},
        }
        proof {
            assert(self.shards@.dom() =~= old(self).shards@.dom());
        }
        task.completed = true;
        task.progress = 100;
        task.updated_at = now;
        self.migrations.insert(migration_id, task);
        Ok(())
    }

    /// Whether migration `migration_id` has completed, and its progress.
    pub fn get_migration_status(&self, migration_id: u128) -> (r: Result<(bool, u8), ShardError>)
        requires
            self.wf(),
        ensures
            match r {
                Ok((done, p)) => self.migration_map().contains_key(migration_id)
                    && done == self.migration_map()[migration_id].completed
                    && p == self.migration_map()[migration_id].progress,
                Err(e) => !self.migration_map().contains_key(migration_id) && e == ShardError::MigrationNotFound(migration_id),
            },
    {
        match self.migrations.get(migration_id) {
            Some(t) => Ok((t.completed, t.progress)),
            None => Err(ShardError::MigrationNotFound(migration_id)),
        }
    }
}

/// What recording the active, empty shard `shard_id` named `name` on the
/// node of `o` at `now` gives: `f`, with every other shard and every
/// migration unchanged.
pub open spec fn shard_created(o: ShardManager, f: ShardManager, shard_id: u128, name: Seq<char>, now: i64) -> bool {
    &&& f.node() == o.node()
    &&& f.migration_map() == o.migration_map()
    &&& f.shard_map().dom() == o.shard_map().dom().insert(shard_id)
    &&& forall|k: u128| #[trigger] o.shard_map().contains_key(k) && k != shard_id
        ==> f.shard_map()[k] == o.shard_map()[k]
    &&& f.shard_map()[shard_id].id == shard_id
    &&& f.shard_map()[shard_id].name@ == name
    &&& f.shard_map()[shard_id].status == ShardStatus::Active
    &&& f.shard_map()[shard_id].node_id@ == o.node()
    &&& f.shard_map()[shard_id].vector_count == 0
    &&& f.shard_map()[shard_id].created_at == now
    &&& f.shard_map()[shard_id].updated_at == now
}

/// What setting the status of shard `shard_id` to `status` at `now` does to
/// `o`, giving `f` and answering `r`: only that shard's status and update
/// time change; an unknown shard is refused and nothing changes.
pub open spec fn status_updated(
    o: ShardManager,
    f: ShardManager,
    shard_id: u128,
    status: ShardStatus,
    now: i64,
    r: Result<(), ShardError>,
) -> bool {
    &&& f.node() == o.node()
    &&& f.migration_map() == o.migration_map()
    &&& match r {
        Ok(()) => o.shard_map().contains_key(shard_id) && f.shard_map() == o.shard_map().insert(
            shard_id,
            Shard { status, updated_at: now, ..o.shard_map()[shard_id] },
        ),
        Err(e) => !o.shard_map().contains_key(shard_id) && e == ShardError::ShardNotFound(shard_id)
            && f.shard_map() == o.shard_map(),
    }
}

/// What starting migration `migration_id` of shard `shard_id` to
/// `target_node` at `now` does to `o`, giving `f`; `ok` tells whether it
/// succeeded.  On success the task is recorded (from this node, no
/// progress, not completed), other migrations are unchanged and the shard
/// alone becomes draining; otherwise the shard is unknown and nothing
/// changes.
pub open spec fn migration_started(
    o: ShardManager,
    f: ShardManager,
    shard_id: u128,
    target_node: Seq<char>,
    migration_id: u128,
    now: i64,
    ok: bool,
) -> bool {
    &&& f.node() == o.node()
    &&& ok <==> o.shard_map().contains_key(shard_id)
    &&& ok ==> {
        &&& f.migration_map().dom() == o.migration_map().dom().insert(migration_id)
        &&& forall|k: u128| #[trigger] o.migration_map().contains_key(k) && k != migration_id
            ==> f.migration_map()[k] == o.migration_map()[k]
        &&& f.migration_map()[migration_id].id == migration_id
        &&& f.migration_map()[migration_id].shard_id == shard_id
        &&& f.migration_map()[migration_id].source_node@ == o.node()
        &&& f.migration_map()[migration_id].target_node@ == target_node
        &&& !f.migration_map()[migration_id].completed
        &&& f.migration_map()[migration_id].progress == 0
        &&& f.shard_map() == o.shard_map().insert(
            shard_id,
            Shard { status: ShardStatus::Draining, updated_at: now, ..o.shard_map()[shard_id] },
        )
    }
    &&& !ok ==> {
        &&& f.shard_map() == o.shard_map()
        &&& f.migration_map() == o.migration_map()
    }
}

} // verus!
