//! Centroids: a representative vector and the number of vectors it stands
//! for.

use vstd::prelude::*;
use crate::clock::now_nanos;
use crate::clock::new_uuid;
use vstd::wrapping::usize_specs::wrapping_add;

verus! {

/// Arithmetic that centroids need from the vectors they hold.  The vector
/// type carries out the numeric work itself.
pub trait CentroidVector: Sized {
    /// Moves a centroid standing for `count` vectors toward `other`, giving
    /// `other` the weight of one vector.
    fn blend(&self, count: usize, other: &Self) -> Self;

    /// Weighted combination of two centroids standing for `count` and
    /// `other_count` vectors.
    fn combine(&self, count: usize, other: &Self, other_count: usize) -> Self;

    /// A copy of the vector.
    fn duplicate(&self) -> Self;
}

/// A centroid of a cluster of vectors.  Its count wraps around on overflow,
/// as unchecked machine arithmetic does; its times are nanoseconds since
/// the Unix epoch.
#[derive(Debug)]
pub struct Centroid<V> {
    pub id: u128,
    pub vector: V,
    pub count: usize,
    pub created_at: i64,
    pub updated_at: i64,
}

impl<V: CentroidVector> Centroid<V> {
    /// A centroid `id` standing for the single vector `vector`, made at `now`.
    pub fn new_with(id: u128, vector: V, now: i64) -> (c: Self)
        ensures
            c == (Centroid { id, vector, count: 1, created_at: now, updated_at: now }),
    {
        Centroid { id, vector, count: 1, created_at: now, updated_at: now }
    }

    /// A centroid with a fresh random identifier standing for `vector`.
    pub fn new(vector: V) -> (c: Self)
        ensures
            c.vector == vector,
            c.count == 1,
            c.created_at == c.updated_at,
    {
        let id = new_uuid();
        let now = now_nanos();
        Self::new_with(id, vector, now)
    }

    /// Adds `vector` to the cluster at time `now`.
    pub fn update_at(&mut self, vector: &V, now: i64)
        ensures
            final(self).id == old(self).id,
            final(self).count == wrapping_add(old(self).count, 1),
            final(self).created_at == old(self).created_at,
            final(self).updated_at == now,
            call_ensures(V::blend, (&old(self).vector, old(self).count, vector), final(self).vector),
    {
        self.vector = self.vector.blend(self.count, vector);
        self.count = self.count.wrapping_add(1);
        self.updated_at = now;
    }

    /// Adds `vector` to the cluster at the current time.
    pub fn update(&mut self, vector: &V)
        ensures
            final(self).id == old(self).id,
            final(self).count == wrapping_add(old(self).count, 1),
            final(self).created_at == old(self).created_at,
            call_ensures(V::blend, (&old(self).vector, old(self).count, vector), final(self).vector),
    {
        let now = now_nanos();
        self.update_at(vector, now)
    }

    /// Absorbs the cluster of `other` at time `now`.
    pub fn merge_at(&mut self, other: &Centroid<V>, now: i64)
        ensures
            final(self).id == old(self).id,
            final(self).count == wrapping_add(old(self).count, other.count),
            final(self).created_at == old(self).created_at,
            final(self).updated_at == now,
            call_ensures(
                V::combine,
                (&old(self).vector, old(self).count, &other.vector, other.count),
                final(self).vector,
            ),
    {
        self.vector = self.vector.combine(self.count, &other.vector, other.count);
        self.count = self.count.wrapping_add(other.count);
        self.updated_at = now;
    }

    /// Absorbs the cluster of `other` at the current time.
    pub fn merge(&mut self, other: &Centroid<V>)
        ensures
            final(self).id == old(self).id,
            final(self).count == wrapping_add(old(self).count, other.count),
            final(self).created_at == old(self).created_at,
            call_ensures(
                V::combine,
                (&old(self).vector, old(self).count, &other.vector, other.count),
                final(self).vector,
            ),
    {
        let now = now_nanos();
        self.merge_at(other, now)
    }
}

} // verus!
