//! Version history of shared objects: every update appends a new version
//! and older versions stay readable.

use vstd::prelude::*;
use crate::core_lib::id_map::IdMap;
use crate::clock::now_millis;
use crate::clock::new_uuid;

verus! {

/// One version of an object.
#[derive(Debug)]
pub struct VersionedObject<T> {
    pub id: u128,
    pub version: u64,
    pub data: T,
    pub created_at: i64,
    pub updated_at: i64,
}

/// Why a versioning request failed.
#[derive(Debug, Clone, Copy, PartialEq, Eq, Structural)]
pub enum VersionError {
    /// No object has this identifier.
    ObjectNotFound(u128),
    /// The object exists but has no version with this number.
    VersionNotFound { id: u128, version: u64 },
}

/// A well-formed history of object `id`: versions numbered 1, 2, ... in
/// order, all created at the first version's creation time.
pub open spec fn valid_history<T>(id: u128, h: Seq<VersionedObject<T>>) -> bool {
    &&& h.len() > 0
    &&& forall|i: int| 0 <= i < h.len() ==> (#[trigger] h[i]).id == id && h[i].version == i + 1
        && h[i].created_at == h[0].created_at
}

/// Keeps every version of every object.
#[derive(Debug)]
pub struct VersionManager<T> {
    objects: IdMap<Vec<VersionedObject<T>>>,
}

/// Copy of a stored version whose data is a clone of the stored data.
pub open spec fn is_copy_of<T: Clone>(copy: VersionedObject<T>, stored: VersionedObject<T>) -> bool {
    &&& copy.id == stored.id
    &&& copy.version == stored.version
    &&& copy.created_at == stored.created_at
    &&& copy.updated_at == stored.updated_at
    &&& cloned::<T>(stored.data, copy.data)
}

/// What appending `data` to object `id` at `now` does to the manager `o`,
/// giving `f` and answering `r`: the next version, numbered after the last
/// and created when the object was, is appended and a copy returned; an
/// unknown object is refused and nothing changes.
pub open spec fn update_outcome<T: Clone>(
    o: VersionManager<T>,
    f: VersionManager<T>,
    id: u128,
    data: T,
    now: i64,
    r: Result<VersionedObject<T>, VersionError>,
) -> bool {
    match r {
        Ok(obj) => {
            let h = o.history()[id];
            let next = VersionedObject {
                id,
                version: (h.len() + 1) as u64,
                data,
                created_at: h[0].created_at,
                updated_at: now,
            };
            &&& o.history().contains_key(id)
            &&& f.history() == o.history().insert(id, h.push(next))
            &&& is_copy_of(obj, next)
        },
        Err(e) => {
            &&& !o.history().contains_key(id)
            &&& e == VersionError::ObjectNotFound(id)
            &&& f.history() == o.history()
        },
    }
}

impl<T: Clone> VersionManager<T> {
    /// History of every object.
    pub closed spec fn history(&self) -> Map<u128, Seq<VersionedObject<T>>> {
        self.objects@.map_values(|v: Vec<VersionedObject<T>>| v@)
    }

    pub closed spec fn wf(&self) -> bool {
        &&& self.objects.wf()
        &&& forall|id: u128| #[trigger] self.objects@.contains_key(id) ==> valid_history(id, self.objects@[id]@)
    }

    /// A manager with no objects.
    pub fn new() -> (m: Self)
        ensures
            m.wf(),
            m.history() == Map::<u128, Seq<VersionedObject<T>>>::empty(),
    {
        let m = VersionManager { objects: IdMap::new() };
        assert(m.history() =~= Map::<u128, Seq<VersionedObject<T>>>::empty());
        m
    }

    fn copy_of(stored: &VersionedObject<T>) -> (c: VersionedObject<T>)
        ensures
            is_copy_of(c, *stored),
    {
        VersionedObject {
            id: stored.id,
            version: stored.version,
            data: stored.data.clone(),
            created_at: stored.created_at,
            updated_at: stored.updated_at,
        }
    }

    /// Stores `data` as version 1 of a new object `id` created at `now`
    /// (replacing any object with that identifier), and returns a copy.
    pub fn create_object_with(&mut self, id: u128, data: T, now: i64) -> (obj: VersionedObject<T>)
        requires
            old(self).wf(),
        ensures
            final(self).wf(),
            final(self).history() == old(self).history().insert(
                id,
                seq![VersionedObject { id, version: 1, data, created_at: now, updated_at: now }],
            ),
            is_copy_of(obj, final(self).history()[id][0]),
    {
        let object = VersionedObject { id, version: 1, data, created_at: now, updated_at: now };
        let copy = Self::copy_of(&object);
        let mut versions: Vec<VersionedObject<T>> = Vec::new();
        versions.push(object);
        self.objects.insert(id, versions);
        proof {
            assert(self.history() =~= old(self).history().insert(
                id,
                seq![VersionedObject { id, version: 1, data, created_at: now, updated_at: now }],
            ));
            assert forall|k: u128| #[trigger] self.objects@.contains_key(k) implies valid_history(k, self.objects@[k]@) by {
                if k != id {
                    assert(old(self).objects@.contains_key(k));
                }
            }
        }
        copy
    }

    /// Creates a new object with a fresh random identifier at the current
    /// time.
    pub fn create_object(&mut self, data: T) -> (obj: VersionedObject<T>)
        requires
            old(self).wf(),
        ensures
            final(self).wf(),
            final(self).history() == old(self).history().insert(
                obj.id,
                seq![VersionedObject { id: obj.id, version: 1, data, created_at: obj.created_at, updated_at: obj.created_at }],
            ),
            obj.version == 1,
            obj.created_at == obj.updated_at,
            cloned::<T>(data, obj.data),
    {
        let id = new_uuid();
        let now = now_millis();
        self.create_object_with(id, data, now)
    }

    /// Appends `data` as the next version of object `id`, updated at `now`.
    pub fn update_object_at(&mut self, id: u128, data: T, now: i64) -> (r: Result<VersionedObject<T>, VersionError>)
        requires
            old(self).wf(),
            old(self).history().contains_key(id) ==> old(self).history()[id].len() < u64::MAX,
        ensures
            final(self).wf(),
            update_outcome(*old(self), *final(self), id, data, now, r),
    {
        match self.objects.take(id) {
            None => {
                assert(self.history() =~= old(self).history());
                Err(VersionError::ObjectNotFound(id))
            },
            Some(mut versions) => {
                let ghost h = versions@;
                assert(valid_history(id, h));
                let n = versions.len();
                let latest_version = versions[n - 1].version;
                let created_at = versions[n - 1].created_at;
                assert(h[n - 1].version == n);
                let next = VersionedObject {
                    id,
                    version: latest_version + 1,
                    data,
                    created_at,
                    updated_at: now,
                };
                let copy = Self::copy_of(&next);
                versions.push(next);
                self.objects.insert(id, versions);
                proof {
                    assert(self.objects@ == old(self).objects@.insert(id, self.objects@[id]));
                    assert(self.history() =~= old(self).history().insert(id, self.objects@[id]@));
                    assert forall|k: u128| #[trigger] self.objects@.contains_key(k) implies valid_history(k, self.objects@[k]@) by {
                        if k != id {
                            assert(old(self).objects@.contains_key(k));
                        }
                    }
                }
                Ok(copy)
            },
        }
    }

    /// Appends `data` as the next version of object `id` at the current time.
    pub fn update_object(&mut self, id: u128, data: T) -> (r: Result<VersionedObject<T>, VersionError>)
        requires
            old(self).wf(),
            old(self).history().contains_key(id) ==> old(self).history()[id].len() < u64::MAX,
        ensures
            final(self).wf(),
            exists|now: i64| update_outcome(*old(self), *final(self), id, data, now, r),
    {
        let now = now_millis();
        self.update_object_at(id, data, now)
    }

    /// Copy of the latest version of object `id`.
    pub fn get_latest(&self, id: u128) -> (r: Result<VersionedObject<T>, VersionError>)
        requires
            self.wf(),
        ensures
            match r {
                Ok(obj) => self.history().contains_key(id) && is_copy_of(obj, self.history()[id].last()),
                Err(e) => !self.history().contains_key(id) && e == VersionError::ObjectNotFound(id),
            },
    {
        match self.objects.get(id) {
            None => Err(VersionError::ObjectNotFound(id)),
            Some(versions) => {
                assert(valid_history(id, versions@));
                Ok(Self::copy_of(&versions[versions.len() - 1]))
            },
        }
    }

    /// Copy of version `version` of object `id`.
    pub fn get_version(&self, id: u128, version: u64) -> (r: Result<VersionedObject<T>, VersionError>)
        requires
            self.wf(),
        ensures
            match r {
                Ok(obj) => self.history().contains_key(id) && 1 <= version <= self.history()[id].len()
                    && is_copy_of(obj, self.history()[id][version - 1]),
                Err(e) => if self.history().contains_key(id) {
                    (version < 1 || version > self.history()[id].len()) && e == VersionError::VersionNotFound { id, version }
                } else {
                    e == VersionError::ObjectNotFound(id)
                },
            },
    {
        match self.objects.get(id) {
            None => Err(VersionError::ObjectNotFound(id)),
            Some(versions) => {
                let ghost h = versions@;
                assert(valid_history(id, h));
                assert(self.history()[id] == h);
                let mut i: usize = 0;
                while i < versions.len()
                    invariant
                        i <= h.len(),
                        h == versions@,
                        self.history().contains_key(id),
                        self.history()[id] == h,
                        valid_history(id, h),
                        forall|j: int| 0 <= j < i ==> (#[trigger] h[j]).version != version,
                    decreases h.len() - i,
                {
                    if versions[i].version == version {
                        assert(h[i as int].version == i + 1);
                        assert(self.history()[id] == h);
                        return Ok(Self::copy_of(&versions[i]));
                    }
                    i = i + 1;
                }
                proof {
                    if 1 <= version <= h.len() {
                        assert(h[version - 1].version == version);
                    }
                }
                Err(VersionError::VersionNotFound { id, version })
            },
        }
    }

    /// Copies of all versions of object `id`, oldest first.
    pub fn get_history(&self, id: u128) -> (r: Result<Vec<VersionedObject<T>>, VersionError>)
        requires
            self.wf(),
        ensures
            match r {
                Ok(v) => self.history().contains_key(id) && v@.len() == self.history()[id].len()
                    && forall|i: int| 0 <= i < v@.len() ==> is_copy_of(#[trigger] v@[i], self.history()[id][i]),
                Err(e) => !self.history().contains_key(id) && e == VersionError::ObjectNotFound(id),
            },
    {
        match self.objects.get(id) {
            None => Err(VersionError::ObjectNotFound(id)),
            Some(versions) => {
                let mut out: Vec<VersionedObject<T>> = Vec::new();
                let mut i: usize = 0;
                while i < versions.len()
                    invariant
                        i <= versions@.len(),
                        out@.len() == i,
                        forall|j: int| 0 <= j < i ==> is_copy_of(#[trigger] out@[j], versions@[j]),
                    decreases versions@.len() - i,
                {
                    out.push(Self::copy_of(&versions[i]));
                    i = i + 1;
                }
                Ok(out)
            },
        }
    }

    /// Forgets object `id` and all its versions.
    pub fn delete_object(&mut self, id: u128) -> (r: Result<(), VersionError>)
        requires
            old(self).wf(),
        ensures
            final(self).wf(),
            r is Ok <==> old(self).history().contains_key(id),
            r is Err ==> r == Err::<(), VersionError>(VersionError::ObjectNotFound(id)),
            final(self).history() == old(self).history().remove(id),
    {
        if !self.objects.contains_key(id) {
            assert(old(self).history().remove(id) =~= old(self).history());
            return Err(VersionError::ObjectNotFound(id));
        }
        self.objects.remove(id);
        proof {
            assert(self.history() =~= old(self).history().remove(id));
            assert forall|k: u128| #[trigger] self.objects@.contains_key(k) implies valid_history(k, self.objects@[k]@) by {
                assert(old(self).objects@.contains_key(k));
            }
        }
        Ok(())
    }
}

} // verus!
