//! Operation-based CRDT of centroids: every replica records the operations
//! it has seen, and a replica absorbs another by applying the operations it
//! has not seen yet.  Creates, updates and deletes take effect only when
//! they are newer than the centroid's last update.

use vstd::prelude::*;
use vstd::wrapping::usize_specs::wrapping_add;
use crate::core_lib::centroid::Centroid;
use crate::core_lib::centroid::CentroidVector;
use crate::core_lib::id_map::IdMap;
use crate::clock::now_nanos;
use crate::clock::new_uuid;

verus! {

/// What an operation does to a centroid.
#[derive(Debug)]
pub enum OperationType<V> {
    Create(V),
    Update(V),
    Delete,
}

/// One operation on one centroid, made at `timestamp` (nanoseconds since the Unix epoch).
#[derive(Debug)]
pub struct CentroidOperation<V> {
    pub id: u128,
    pub centroid_id: u128,
    pub timestamp: i64,
    pub operation_type: OperationType<V>,
}

/// Why a centroid request failed.
#[derive(Debug, Clone, Copy, PartialEq, Eq, Structural)]
pub enum CentroidCRDTError {
    /// No centroid has this identifier.
    NotFound(u128),
    /// A distance could not be compared.
    InvalidDistance,
}

/// `c` is a copy of `op` (its vector duplicated by the vector type).
pub open spec fn op_copy<V: CentroidVector>(c: CentroidOperation<V>, op: CentroidOperation<V>) -> bool {
    &&& c.id == op.id
    &&& c.centroid_id == op.centroid_id
    &&& c.timestamp == op.timestamp
    &&& match (op.operation_type, c.operation_type) {
        (OperationType::Create(v), OperationType::Create(w)) => call_ensures(V::duplicate, (&v,), w),
        (OperationType::Update(v), OperationType::Update(w)) => call_ensures(V::duplicate, (&v,), w),
        (OperationType::Delete, OperationType::Delete) => true,
        _ => false,
    }
}

/// Centroids `cs2` result from applying the unseen operation `op` to `cs`.
pub open spec fn centroids_after<V: CentroidVector>(
    cs: Map<u128, Centroid<V>>,
    op: CentroidOperation<V>,
    cs2: Map<u128, Centroid<V>>,
) -> bool {
    let cid = op.centroid_id;
    let ts = op.timestamp;
    let newer = cs.contains_key(cid) && ts > cs[cid].updated_at;
    match op.operation_type {
        OperationType::Create(v) => if !cs.contains_key(cid) || newer {
            &&& cs2.contains_key(cid)
            &&& cs2 == cs.insert(cid, cs2[cid])
            &&& cs2[cid].id == cid
            &&& cs2[cid].count == 1
            &&& cs2[cid].created_at == ts
            &&& cs2[cid].updated_at == ts
            &&& call_ensures(V::duplicate, (&v,), cs2[cid].vector)
        } else {
            cs2 == cs
        },
        OperationType::Update(v) => if newer {
            &&& cs2.contains_key(cid)
            &&& cs2 == cs.insert(cid, cs2[cid])
            &&& cs2[cid].id == cs[cid].id
            &&& cs2[cid].count == wrapping_add(cs[cid].count, 1)
            &&& cs2[cid].created_at == cs[cid].created_at
            &&& cs2[cid].updated_at == ts
            &&& call_ensures(V::blend, (&cs[cid].vector, cs[cid].count, &v), cs2[cid].vector)
        } else {
            cs2 == cs
        },
        OperationType::Delete => if newer {
            cs2 == cs.remove(cid)
        } else {
            cs2 == cs
        },
    }
}

/// A replica of the centroid set.
#[derive(Debug)]
pub struct CentroidCRDT<V> {
    node_id: u128,
    centroids: IdMap<Centroid<V>>,
    operations: IdMap<CentroidOperation<V>>,
    observed: IdMap<()>,
}

/// Replica `t` results from applying `op` to replica `s`: nothing changes
/// when `op` was already seen; otherwise `op` is recorded and the centroids
/// change as [`centroids_after`] says.
pub open spec fn apply_rel<V: CentroidVector>(
    s: CentroidCRDT<V>,
    op: CentroidOperation<V>,
    t: CentroidCRDT<V>,
) -> bool {
    &&& t.node() == s.node()
    &&& if s.observed_ids().contains(op.id) {
        &&& t.centroids_view() == s.centroids_view()
        &&& t.operations_view() == s.operations_view()
        &&& t.observed_ids() == s.observed_ids()
    } else {
        &&& centroids_after(s.centroids_view(), op, t.centroids_view())
        &&& t.operations_view() == s.operations_view().insert(op.id, op)
        &&& t.observed_ids() == s.observed_ids().insert(op.id)
    }
}

/// Each replica of `states` results from the one before it by applying the
/// operation of `ops` at the same position: `states` runs from the first
/// replica through every operation of `ops`, in order.
pub open spec fn apply_chain<V: CentroidVector>(
    states: Seq<CentroidCRDT<V>>,
    ops: Seq<CentroidOperation<V>>,
) -> bool {
    &&& states.len() == ops.len() + 1
    &&& forall|i: int| #![trigger ops[i]] 0 <= i < ops.len() ==> apply_rel(states[i], ops[i], states[i + 1])
}

impl<V: CentroidVector> CentroidCRDT<V> {
    pub closed spec fn node(&self) -> u128 {
        self.node_id
    }

    /// Centroids by identifier.
    pub closed spec fn centroids_view(&self) -> Map<u128, Centroid<V>> {
        self.centroids@
    }

    /// Recorded operations by identifier.
    pub closed spec fn operations_view(&self) -> Map<u128, CentroidOperation<V>> {
        self.operations@
    }

    /// Identifiers of the operations seen.
    pub closed spec fn observed_ids(&self) -> Set<u128> {
        self.observed@.dom()
    }

    /// Recorded operations in storage order.
    pub closed spec fn operation_seq(&self) -> Seq<CentroidOperation<V>> {
        self.operations.key_seq().map_values(|k: u128| self.operations@[k])
    }

    pub closed spec fn wf(&self) -> bool {
        &&& self.centroids.wf()
        &&& self.operations.wf()
        &&& self.observed.wf()
        &&& self.observed@.dom() == self.operations@.dom()
        &&& forall|k: u128| #[trigger] self.operations@.contains_key(k) ==> self.operations@[k].id == k
    }

    /// An empty replica owned by node `node_id`.
    pub fn new(node_id: u128) -> (c: Self)
        ensures
            c.wf(),
            c.node() == node_id,
            c.centroids_view() == Map::<u128, Centroid<V>>::empty(),
            c.operations_view() == Map::<u128, CentroidOperation<V>>::empty(),
            c.observed_ids() == Set::<u128>::empty(),
    {
        let c = CentroidCRDT {
            node_id,
            centroids: IdMap::new(),
            operations: IdMap::new(),
            observed: IdMap::new(),
        };
        assert(c.observed@.dom() =~= Set::<u128>::empty());
        c
    }

    fn copy_op(op: &CentroidOperation<V>) -> (c: CentroidOperation<V>)
        ensures
            op_copy(c, *op),
    {
        let t = match &op.operation_type {
            OperationType::Create(v) => OperationType::Create(v.duplicate()),
            OperationType::Update(v) => OperationType::Update(v.duplicate()),
            OperationType::Delete => OperationType::Delete,
        };
        CentroidOperation {
            id: op.id,
            centroid_id: op.centroid_id,
            timestamp: op.timestamp,
            operation_type: t,
        }
    }

    /// Applies `op` unless it was seen before, then records it.
    pub fn apply_operation(&mut self, op: CentroidOperation<V>)
        requires
            old(self).wf(),
        ensures
            final(self).wf(),
            apply_rel(*old(self), op, *final(self)),
    {
        if self.observed.contains_key(op.id) {
            return;
        }
        let cid = op.centroid_id;
        let ts = op.timestamp;
        let ghost cs = self.centroids@;
        match &op.operation_type {
            OperationType::Create(v) => {
                let should_create = match self.centroids.get(cid) {
                    Some(existing) => ts > existing.updated_at,
                    None => true,
                };
                if should_create {
                    let w = v.duplicate();
                    let c = Centroid {
                        id: cid,
                        vector: w,
                        count: 1,
                        created_at: ts,
                        updated_at: ts,
                    };
                    self.centroids.insert(cid, c);
                    proof {
                        assert(self.centroids@ =~= cs.insert(cid, self.centroids@[cid]));
                        assert(self.centroids@[cid] == c);
                        assert(call_ensures(V::duplicate, (v,), w));
                    }
                } else {
                    proof {
                        assert(cs.contains_key(cid));
                        assert(!(ts > cs[cid].updated_at));
                        assert(self.centroids@ =~= cs);
                    }
                }
                assert(centroids_after(cs, op, self.centroids@));
            },
            OperationType::Update(v) => {
                match self.centroids.take(cid) {
                    Some(mut c) => {
                        let ghost c0 = c;
                        if ts > c.updated_at {
                            c.update_at(v, ts);
                        }
                        let ghost c1 = c;
                        self.centroids.insert(cid, c);
                        proof {
                            assert(c0 == cs[cid]);
                            assert(self.centroids@ =~= cs.insert(cid, c1));
                            if !(ts > cs[cid].updated_at) {
                                assert(self.centroids@ =~= cs);
                            } else {
                                assert(self.centroids@[cid] == c1);
                                assert(call_ensures(V::blend, (&c0.vector, c0.count, v), c1.vector));
                            }
                        }
                    },
                    None => {
                        assert(self.centroids@ =~= cs);
                    },
                }
                assert(centroids_after(cs, op, self.centroids@));
            },
            OperationType::Delete => {
                let should_delete = match self.centroids.get(cid) {
                    Some(existing) => ts > existing.updated_at,
                    None => false,
                };
                if should_delete {
                    self.centroids.remove(cid);
                }
                assert(centroids_after(cs, op, self.centroids@));
            },
        }
        let op_id = op.id;
        let ghost op_v = op;
        self.operations.insert(op_id, op);
        self.observed.insert(op_id, ());
        proof {
            assert(self.observed@.dom() =~= old(self).observed@.dom().insert(op_id));
            assert(self.operations@.dom() =~= old(self).operations@.dom().insert(op_id));
            assert(self.operations@ == old(self).operations@.insert(op_id, op_v));
        }
    }

    /// Creates centroid `centroid_id` holding `vector` through operation
    /// `op_id` made at `now`, and returns the centroid's identifier.
    pub fn create_centroid_with(&mut self, centroid_id: u128, op_id: u128, now: i64, vector: V) -> (id: u128)
        requires
            old(self).wf(),
        ensures
            final(self).wf(),
            id == centroid_id,
            apply_rel(
                *old(self),
                CentroidOperation { id: op_id, centroid_id, timestamp: now, operation_type: OperationType::Create(vector) },
                *final(self),
            ),
    {
        let op = CentroidOperation {
            id: op_id,
            centroid_id,
            timestamp: now,
            operation_type: OperationType::Create(vector),
        };
        self.apply_operation(op);
        centroid_id
    }

    /// Creates a centroid holding `vector` with fresh random identifiers at
    /// the current time.
    pub fn create_centroid(&mut self, vector: V) -> (id: u128)
        requires
            old(self).wf(),
        ensures
            final(self).wf(),
            exists|op_id: u128, now: i64| apply_rel(
                *old(self),
                CentroidOperation { id: op_id, centroid_id: id, timestamp: now, operation_type: OperationType::Create(vector) },
                *final(self),
            ),
    {
        let centroid_id = new_uuid();
        let op_id = new_uuid();
        let now = now_nanos();
        self.create_centroid_with(centroid_id, op_id, now, vector)
    }

    /// Adds `vector` to centroid `centroid_id` through operation `op_id`
    /// made at `now`; fails when the centroid does not exist.
    pub fn update_centroid_with(&mut self, centroid_id: u128, op_id: u128, now: i64, vector: V) -> (r: Result<(), CentroidCRDTError>)
        requires
            old(self).wf(),
        ensures
            final(self).wf(),
            match r {
                Ok(()) => old(self).centroids_view().contains_key(centroid_id) && apply_rel(
                    *old(self),
                    CentroidOperation { id: op_id, centroid_id, timestamp: now, operation_type: OperationType::Update(vector) },
                    *final(self),
                ),
                Err(e) => !old(self).centroids_view().contains_key(centroid_id)
                    && e == CentroidCRDTError::NotFound(centroid_id)
                    && *final(self) == *old(self),
            },
    {
        if !self.centroids.contains_key(centroid_id) {
            return Err(CentroidCRDTError::NotFound(centroid_id));
        }
        let op = CentroidOperation {
            id: op_id,
            centroid_id,
            timestamp: now,
            operation_type: OperationType::Update(vector),
        };
        self.apply_operation(op);
        Ok(())
    }

    /// Adds `vector` to centroid `centroid_id` at the current time.
    pub fn update_centroid(&mut self, centroid_id: u128, vector: V) -> (r: Result<(), CentroidCRDTError>)
        requires
            old(self).wf(),
        ensures
            final(self).wf(),
            r is Ok <==> old(self).centroids_view().contains_key(centroid_id),
            r is Ok ==> exists|op_id: u128, now: i64| apply_rel(
                *old(self),
                CentroidOperation { id: op_id, centroid_id, timestamp: now, operation_type: OperationType::Update(vector) },
                *final(self),
            ),
            r is Err ==> r == Err::<(), CentroidCRDTError>(CentroidCRDTError::NotFound(centroid_id))
                && *final(self) == *old(self),
    {
        let op_id = new_uuid();
        let now = now_nanos();
        self.update_centroid_with(centroid_id, op_id, now, vector)
    }

    /// Deletes centroid `centroid_id` through operation `op_id` made at
    /// `now`; fails when the centroid does not exist.
    pub fn delete_centroid_with(&mut self, centroid_id: u128, op_id: u128, now: i64) -> (r: Result<(), CentroidCRDTError>)
        requires
            old(self).wf(),
        ensures
            final(self).wf(),
            match r {
                Ok(()) => old(self).centroids_view().contains_key(centroid_id) && apply_rel(
                    *old(self),
                    CentroidOperation { id: op_id, centroid_id, timestamp: now, operation_type: OperationType::Delete },
                    *final(self),
                ),
                Err(e) => !old(self).centroids_view().contains_key(centroid_id)
                    && e == CentroidCRDTError::NotFound(centroid_id)
                    && *final(self) == *old(self),
            },
    {
        if !self.centroids.contains_key(centroid_id) {
            return Err(CentroidCRDTError::NotFound(centroid_id));
        }
        let op = CentroidOperation {
            id: op_id,
            centroid_id,
            timestamp: now,
            operation_type: OperationType::Delete,
        };
        self.apply_operation(op);
        Ok(())
    }

    /// Deletes centroid `centroid_id` at the current time.
    pub fn delete_centroid(&mut self, centroid_id: u128) -> (r: Result<(), CentroidCRDTError>)
        requires
            old(self).wf(),
        ensures
            final(self).wf(),
            r is Ok <==> old(self).centroids_view().contains_key(centroid_id),
            r is Ok ==> exists|op_id: u128, now: i64| apply_rel(
                *old(self),
                CentroidOperation { id: op_id, centroid_id, timestamp: now, operation_type: OperationType::Delete },
                *final(self),
            ),
            r is Err ==> r == Err::<(), CentroidCRDTError>(CentroidCRDTError::NotFound(centroid_id))
                && *final(self) == *old(self),
    {
        let op_id = new_uuid();
        let now = now_nanos();
        self.delete_centroid_with(centroid_id, op_id, now)
    }

    /// Applies, in `other`'s storage order, copies of every operation of
    /// `other` (those already seen change nothing).
    pub fn merge(&mut self, other: &CentroidCRDT<V>)
        requires
            old(self).wf(),
            other.wf(),
        ensures
            final(self).wf(),
            exists|applied: Seq<CentroidOperation<V>>, states: Seq<CentroidCRDT<V>>| {
                &&& applied.len() == other.operation_seq().len()
                &&& forall|i: int| 0 <= i < applied.len() ==> op_copy(#[trigger] applied[i], other.operation_seq()[i])
                &&& apply_chain(states, applied)
                &&& states[0] == *old(self)
                &&& states.last() == *final(self)
            },
            final(self).node() == old(self).node(),
            final(self).observed_ids() == old(self).observed_ids().union(other.observed_ids()),
            other.observed_ids().subset_of(old(self).observed_ids()) ==> {
                &&& final(self).centroids_view() == old(self).centroids_view()
                &&& final(self).operations_view() == old(self).operations_view()
            },
    {
        let n = other.operations.len();
        let ghost mut applied: Seq<CentroidOperation<V>> = Seq::empty();
        let ghost mut states: Seq<CentroidCRDT<V>> = seq![*self];
        proof {
            other.operations.lemma_keys();
        }
        let mut i: usize = 0;
        while i < n
            invariant
                self.wf(),
                other.wf(),
                n == other.operations.len_spec(),
                other.operations.key_seq().len() == n,
                i <= n,
                applied.len() == i,
                forall|j: int| 0 <= j < i ==> op_copy(#[trigger] applied[j], other.operation_seq()[j]),
                apply_chain(states, applied),
                states[0] == *old(self),
                states.last() == *self,
                self.node() == old(self).node(),
                old(self).observed_ids().subset_of(self.observed_ids()),
                forall|j: int| 0 <= j < i ==> self.observed_ids().contains(#[trigger] other.operations.key_seq()[j]),
                forall|k: u128| #[trigger] self.observed_ids().contains(k) ==> old(self).observed_ids().contains(k)
                    || exists|j: int| 0 <= j < i && other.operations.key_seq()[j] == k,
                other.observed_ids().subset_of(old(self).observed_ids()) ==> {
                    &&& self.centroids_view() == old(self).centroids_view()
                    &&& self.operations_view() == old(self).operations_view()
                    &&& self.observed_ids() == old(self).observed_ids()
                },
            decreases n - i,
        {
            let op = other.operations.value_at(i);
            let ghost key = other.operations.key_seq()[i as int];
            proof {
                assert(op.id == key);
                assert(other.operations@.contains_key(key));
            }
            let copy = Self::copy_op(op);
            let ghost cv = copy;
            let ghost before = *self;
            self.apply_operation(copy);
            proof {
                let states2 = states.push(*self);
                let applied2 = applied.push(cv);
                assert forall|j: int| 0 <= j < applied2.len() implies
                    apply_rel(states2[j], #[trigger] applied2[j], states2[j + 1]) by {
                    if j < applied.len() {
                        assert(applied2[j] == applied[j]);
                        assert(states2[j] == states[j]);
                        assert(states2[j + 1] == states[j + 1]);
                    } else {
                        assert(states2[j] == before);
                    }
                }
                assert(other.operation_seq()[i as int] == *op);
                assert forall|j: int| 0 <= j < i + 1 implies op_copy(#[trigger] applied2[j], other.operation_seq()[j]) by {
                    if j < i {
                        assert(applied2[j] == applied[j]);
                    }
                }
                applied = applied2;
                states = states2;
                assert forall|k: u128| #[trigger] self.observed_ids().contains(k) implies old(self).observed_ids().contains(k)
                    || exists|j: int| 0 <= j < i + 1 && other.operations.key_seq()[j] == k by {
                    if k == key {
                        assert(other.operations.key_seq()[i as int] == k);
                    } else {
                        assert(before.observed_ids().contains(k));
                    }
                }
            }
            i = i + 1;
        }
        proof {
            assert(applied.len() == other.operation_seq().len());
            other.operations.lemma_keys();
            assert forall|k: u128| #[trigger] self.observed_ids().contains(k) <==> old(self).observed_ids().union(other.observed_ids()).contains(k) by {
                if other.operations@.contains_key(k) {
                    assert(other.operations.key_seq().contains(k));
                    let j = choose|j: int| 0 <= j < other.operations.key_seq().len() && other.operations.key_seq()[j] == k;
                    assert(self.observed_ids().contains(other.operations.key_seq()[j]));
                }
                if self.observed_ids().contains(k) && !old(self).observed_ids().contains(k) {
                    let j = choose|j: int| 0 <= j < i && other.operations.key_seq()[j] == k;
                    assert(other.operations.key_seq().contains(k));
                }
            }
            assert(self.observed_ids() =~= old(self).observed_ids().union(other.observed_ids()));
        }
    }

    /// The centroid with identifier `id`, if any.
    pub fn get_centroid(&self, id: u128) -> (r: Option<&Centroid<V>>)
        requires
            self.wf(),
        ensures
            r == (if self.centroids_view().contains_key(id) {
                Some(&self.centroids_view()[id])
            } else {
                None
            }),
    {
        self.centroids.get(id)
    }

    /// Identifiers of the centroids in storage order.
    pub closed spec fn centroid_order(&self) -> Seq<u128> {
        self.centroids.key_seq()
    }

    /// All centroids, in storage order: each centroid once.
    pub fn get_centroids(&self) -> (v: Vec<&Centroid<V>>)
        requires
            self.wf(),
        ensures
            v@.len() == self.centroid_order().len(),
            self.centroid_order().no_duplicates(),
            forall|k: u128| self.centroids_view().contains_key(k) <==> #[trigger] self.centroid_order().contains(k),
            forall|i: int| 0 <= i < v@.len() ==> *(#[trigger] v@[i]) == self.centroids_view()[self.centroid_order()[i]],
    {
        proof {
            self.centroids.lemma_keys();
        }
        let mut out: Vec<&Centroid<V>> = Vec::new();
        let mut i: usize = 0;
        while i < self.centroids.len()
            invariant
                self.wf(),
                i <= self.centroids.len_spec(),
                out@.len() == i,
                self.centroids.key_seq().len() == self.centroids.len_spec(),
                forall|j: int| 0 <= j < i ==> *(#[trigger] out@[j]) == self.centroids@[self.centroids.key_seq()[j]],
            decreases self.centroids.len_spec() - i,
        {
            let c = self.centroids.value_at(i);
            out.push(c);
            i = i + 1;
        }
        out
    }

    /// Number of centroids.
    pub fn centroid_count(&self) -> (n: usize)
        requires
            self.wf(),
        ensures
            n == self.centroids_view().dom().len(),
    {
        proof {
            self.centroids.lemma_keys();
        }
        self.centroids.len()
    }

    /// Number of recorded operations.
    pub fn operation_count(&self) -> (n: usize)
        requires
            self.wf(),
        ensures
            n == self.operations_view().dom().len(),
    {
        proof {
            self.operations.lemma_keys();
        }
        self.operations.len()
    }

    /// Number of operations seen.
    pub fn observed_count(&self) -> (n: usize)
        requires
            self.wf(),
        ensures
            n == self.observed_ids().len(),
    {
        proof {
            self.observed.lemma_keys();
        }
        self.observed.len()
    }
}

/// Applying an operation that was already seen changes nothing.
pub proof fn lemma_apply_seen_is_noop<V: CentroidVector>(
    s: CentroidCRDT<V>,
    op: CentroidOperation<V>,
    t: CentroidCRDT<V>,
)
    requires
        s.observed_ids().contains(op.id),
        apply_rel(s, op, t),
    ensures
        t.centroids_view() == s.centroids_view(),
        t.operations_view() == s.operations_view(),
        t.observed_ids() == s.observed_ids(),
{
}

/// After applying an operation it counts as seen, so applying it again
/// changes nothing.
pub proof fn lemma_apply_twice<V: CentroidVector>(
    s: CentroidCRDT<V>,
    op: CentroidOperation<V>,
    t: CentroidCRDT<V>,
    u: CentroidCRDT<V>,
)
    requires
        apply_rel(s, op, t),
        apply_rel(t, op, u),
    ensures
        u.centroids_view() == t.centroids_view(),
        u.operations_view() == t.operations_view(),
        u.observed_ids() == t.observed_ids(),
{
}

/// Every two copies the vector type makes of one vector are equal.
pub open spec fn copies_agree<V: CentroidVector>() -> bool {
    forall|v: V, w1: V, w2: V| call_ensures(V::duplicate, (&v,), w1) && call_ensures(V::duplicate, (&v,), w2) ==> w1 == w2
}

/// Two creates of one centroid, at different times, converge: applied to
/// the same replica in either order they leave the same operations, and
/// the centroids each replica ends with are those of applying the newer
/// create alone (it takes the centroid's place when it is newer than what
/// the replica held, and changes nothing otherwise).  The two replicas
/// then hold the same centroids, save that the vector of the created one
/// is, in each, a copy of the newer create's vector; where the vector type
/// makes equal copies, they hold equal centroids.
pub proof fn lemma_concurrent_creates_converge<V: CentroidVector>(
    s: CentroidCRDT<V>,
    a: CentroidOperation<V>,
    b: CentroidOperation<V>,
    x1: CentroidCRDT<V>,
    x2: CentroidCRDT<V>,
    y1: CentroidCRDT<V>,
    y2: CentroidCRDT<V>,
)
    requires
        a.id != b.id,
        !s.observed_ids().contains(a.id),
        !s.observed_ids().contains(b.id),
        a.centroid_id == b.centroid_id,
        a.operation_type is Create,
        b.operation_type is Create,
        a.timestamp < b.timestamp,
        apply_rel(s, a, x1),
        apply_rel(x1, b, x2),
        apply_rel(s, b, y1),
        apply_rel(y1, a, y2),
    ensures
        x2.operations_view() == y2.operations_view(),
        x2.observed_ids() == y2.observed_ids(),
        centroids_after(s.centroids_view(), b, x2.centroids_view()),
        centroids_after(s.centroids_view(), b, y2.centroids_view()),
        x2.centroids_view().dom() == y2.centroids_view().dom(),
        forall|k: u128| #[trigger] x2.centroids_view().contains_key(k) && k != a.centroid_id
            ==> x2.centroids_view()[k] == y2.centroids_view()[k],
        x2.centroids_view().contains_key(a.centroid_id) ==> {
            let c = x2.centroids_view()[a.centroid_id];
            let d = y2.centroids_view()[a.centroid_id];
            c.id == d.id && c.count == d.count && c.created_at == d.created_at && c.updated_at == d.updated_at
        },
        copies_agree::<V>() ==> x2.centroids_view() == y2.centroids_view(),
{
    let cid = a.centroid_id;
    let cs = s.centroids_view();
    assert(x2.operations_view() =~= y2.operations_view());
    assert(x2.observed_ids() =~= y2.observed_ids());
    let b_wins = !cs.contains_key(cid) || b.timestamp > cs[cid].updated_at;
    let a_wins = !cs.contains_key(cid) || a.timestamp > cs[cid].updated_at;
    let c1 = x1.centroids_view();
    let c2 = x2.centroids_view();
    if a_wins {
        assert(c1.contains_key(cid) && c1[cid].updated_at == a.timestamp);
        assert(c2 =~= c1.insert(cid, c2[cid]));
        assert(c2 =~= cs.insert(cid, c2[cid]));
    } else {
        assert(c1 == cs);
    }
    let d1 = y1.centroids_view();
    let d2 = y2.centroids_view();
    if b_wins {
        assert(d1.contains_key(cid) && d1[cid].updated_at == b.timestamp);
        assert(d2 == d1);
    } else {
        assert(d1 == cs);
        assert(d2 == cs);
    }
}

/// Last writer wins: an unseen operation on a centroid whose last update
/// is at least as recent as the operation changes no centroid, whether it
/// creates, updates or deletes; an unseen delete that is newer removes the
/// centroid and nothing else.
pub proof fn lemma_last_writer_wins<V: CentroidVector>(
    s: CentroidCRDT<V>,
    op: CentroidOperation<V>,
    t: CentroidCRDT<V>,
)
    requires
        apply_rel(s, op, t),
        !s.observed_ids().contains(op.id),
    ensures
        s.centroids_view().contains_key(op.centroid_id)
            && op.timestamp <= s.centroids_view()[op.centroid_id].updated_at
            ==> t.centroids_view() == s.centroids_view(),
        op.operation_type is Delete && s.centroids_view().contains_key(op.centroid_id)
            && op.timestamp > s.centroids_view()[op.centroid_id].updated_at
            ==> t.centroids_view() == s.centroids_view().remove(op.centroid_id),
        op.operation_type is Delete && !s.centroids_view().contains_key(op.centroid_id)
            ==> t.centroids_view() == s.centroids_view(),
        op.operation_type is Update && !s.centroids_view().contains_key(op.centroid_id)
            ==> t.centroids_view() == s.centroids_view(),
{
}

} // verus!
