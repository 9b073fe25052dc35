//! The log of proposed modifications of the system: proposals and groups
//! of candidate solutions join it, validation moves them through their
//! statuses, and only an accepted modification can be deployed.  Beyond
//! [`MAX_MODIFICATIONS`] records, only the newest are kept.

use vstd::prelude::*;
use crate::core_lib::time_order::{by_time, keep_newest};

verus! {

/// Where a modification stands.
#[derive(Debug, Clone, Copy, PartialEq, Eq, Structural)]
pub enum ModificationStatus {
    Proposed,
    Validating,
    Accepted,
    Rejected,
    Deployed,
    Failed,
}

/// A modification `id` with its status and what it changes (`content`).
#[derive(Debug)]
pub struct ModificationRecord<T> {
    pub id: u128,
    pub status: ModificationStatus,
    pub content: T,
}

/// Why a request on the log failed.
#[derive(Debug, Clone, Copy, PartialEq, Eq, Structural)]
pub enum ImprovementError {
    /// No modification has this identifier.
    NotFound(u128),
    /// A group of candidates was empty.
    NoCandidates,
    /// Only an accepted modification can be deployed; this one has the
    /// given status.
    NotAccepted(ModificationStatus),
}

/// Most modifications the log keeps.
pub const MAX_MODIFICATIONS: usize = 1000;

/// Records, each with its creation time, after more were added: beyond
/// [`MAX_MODIFICATIONS`], the newest are kept, newest first.
pub open spec fn kept<T>(s: Seq<(i64, ModificationRecord<T>)>) -> Seq<(i64, ModificationRecord<T>)> {
    if s.len() > MAX_MODIFICATIONS {
        by_time(s, true).take(MAX_MODIFICATIONS as int)
    } else {
        s
    }
}

/// Position of the first record of `s` with identifier `id`, if any.
pub open spec fn first_with<T>(s: Seq<(i64, ModificationRecord<T>)>, id: u128) -> Option<int>
    decreases s.len(),
{
    if s.len() == 0 {
        None
    } else {
        match first_with(s.drop_last(), id) {
            Some(i) => Some(i),
            None => if s.last().1.id == id {
                Some(s.len() - 1)
            } else {
                None
            },
        }
    }
}

/// The first of the first `n` records with identifier `id` is the first
/// with it in all of `s`.
proof fn lemma_first_with_prefix<T>(s: Seq<(i64, ModificationRecord<T>)>, id: u128, n: int)
    requires
        0 < n <= s.len(),
        first_with(s.take(n - 1), id) is None,
        s[n - 1].1.id == id,
    ensures
        first_with(s, id) == Some(n - 1),
    decreases s.len(),
{
    if n == s.len() {
        assert(s.take(n - 1) =~= s.drop_last());
    } else {
        assert(s.drop_last().take(n - 1) =~= s.take(n - 1));
        assert(s.drop_last()[n - 1] == s[n - 1]);
        lemma_first_with_prefix(s.drop_last(), id, n);
    }
}

/// Record `i` of `s` with status `status`, everything else kept.
pub open spec fn with_status<T>(s: Seq<(i64, ModificationRecord<T>)>, i: int, status: ModificationStatus) -> Seq<(i64, ModificationRecord<T>)> {
    s.update(i, (s[i].0, ModificationRecord { status, ..s[i].1 }))
}

/// Record `i` of `s` with content `content`, everything else kept.
pub open spec fn with_content<T>(s: Seq<(i64, ModificationRecord<T>)>, i: int, content: T) -> Seq<(i64, ModificationRecord<T>)> {
    s.update(i, (s[i].0, ModificationRecord { content, ..s[i].1 }))
}

/// The log of modifications, each with its creation time (milliseconds).
#[derive(Debug)]
pub struct ModificationLog<T> {
    records: Vec<(i64, ModificationRecord<T>)>,
}

impl<T> ModificationLog<T> {
    /// The records, in the order the log keeps them.
    pub closed spec fn records(&self) -> Seq<(i64, ModificationRecord<T>)> {
        self.records@
    }

    /// An empty log.
    pub fn new() -> (l: Self)
        ensures
            l.records() == Seq::<(i64, ModificationRecord<T>)>::empty(),
    {
        ModificationLog { records: Vec::new() }
    }

    /// Number of records kept.
    pub fn len(&self) -> (n: usize)
        ensures
            n == self.records().len(),
    {
        self.records.len()
    }

    fn trim(&mut self)
        ensures
            final(self).records() == kept(old(self).records()),
    {
        if self.records.len() > MAX_MODIFICATIONS {
            let mut all: Vec<(i64, ModificationRecord<T>)> = Vec::new();
            std::mem::swap(&mut all, &mut self.records);
            self.records = keep_newest(all, MAX_MODIFICATIONS);
        }
    }

    /// Records the proposal `record`, made at `created_at`, and returns its
    /// identifier.
    pub fn propose(&mut self, created_at: i64, record: ModificationRecord<T>) -> (id: u128)
        ensures
            id == record.id,
            final(self).records() == kept(old(self).records().push((created_at, record))),
    {
        let id = record.id;
        self.records.push((created_at, record));
        self.trim();
        id
    }

    /// Records a group of candidate solutions of one problem, each with its
    /// creation time, and returns their identifiers in order.  An empty
    /// group is refused and the log left as it was.
    pub fn propose_candidates(&mut self, candidates: Vec<(i64, ModificationRecord<T>)>) -> (r: Result<Vec<u128>, ImprovementError>)
        ensures
            match r {
                Ok(ids) => {
                    &&& candidates@.len() > 0
                    &&& ids@ == candidates@.map_values(|c: (i64, ModificationRecord<T>)| c.1.id)
                    &&& final(self).records() == kept(old(self).records() + candidates@)
                },
                Err(e) => {
                    &&& candidates@.len() == 0
                    &&& e == ImprovementError::NoCandidates
                    &&& final(self).records() == old(self).records()
                },
            },
    {
        if candidates.len() == 0 {
            return Err(ImprovementError::NoCandidates);
        }
        let ghost cs = candidates@;
        let ghost start = self.records@;
        let mut rest = candidates;
        let mut ids: Vec<u128> = Vec::new();
        let ghost mut k: int = 0;
        while rest.len() > 0
            invariant
                0 <= k <= cs.len(),
                rest@ == cs.skip(k),
                self.records@ == start + cs.take(k),
                ids@ == cs.take(k).map_values(|c: (i64, ModificationRecord<T>)| c.1.id),
            decreases rest@.len(),
        {
            let c = rest.remove(0);
            proof {
                assert(c == cs[k]);
            }
            ids.push(c.1.id);
            self.records.push(c);
            proof {
                assert(cs.take(k + 1) =~= cs.take(k).push(cs[k]));
                k = k + 1;
                assert(rest@ =~= cs.skip(k));
                assert(ids@ =~= cs.take(k).map_values(|c: (i64, ModificationRecord<T>)| c.1.id));
            }
        }
        proof {
            assert(cs.take(k) =~= cs);
        }
        self.trim();
        Ok(ids)
    }

    /// Position of the first record with identifier `id`.
    fn position(&self, id: u128) -> (r: Option<usize>)
        ensures
            match r {
                Some(j) => first_with(self.records(), id) == Some(j as int) && j < self.records().len()
                    && self.records()[j as int].1.id == id,
                None => first_with(self.records(), id) is None,
            },
    {
        let mut i: usize = 0;
        while i < self.records.len()
            invariant
                i <= self.records@.len(),
                first_with(self.records@.take(i as int), id) is None,
            decreases self.records@.len() - i,
        {
            proof {
                assert(self.records@.take(i + 1).drop_last() =~= self.records@.take(i as int));
            }
            if self.records[i].1.id == id {
                proof {
                    lemma_first_with_prefix(self.records@, id, i + 1);
                }
                return Some(i);
            }
            i = i + 1;
        }
        proof {
            assert(self.records@.take(self.records@.len() as int) =~= self.records@);
        }
        None
    }

    /// The first record with identifier `id`.
    pub fn get(&self, id: u128) -> (r: Result<&ModificationRecord<T>, ImprovementError>)
        ensures
            match first_with(self.records(), id) {
                Some(i) => r == Ok::<&ModificationRecord<T>, ImprovementError>(&self.records()[i].1),
                None => r == Err::<&ModificationRecord<T>, ImprovementError>(ImprovementError::NotFound(id)),
            },
    {
        match self.position(id) {
            Some(i) => Ok(&self.records[i].1),
            None => Err(ImprovementError::NotFound(id)),
        }
    }

    fn set_status_at(&mut self, i: usize, status: ModificationStatus)
        requires
            i < old(self).records().len(),
        ensures
            final(self).records() == with_status(old(self).records(), i as int, status),
    {
        let (time, rec) = self.records.remove(i);
        let ModificationRecord { id, status: _, content } = rec;
        self.records.insert(i, (time, ModificationRecord { id, status, content }));
        assert(self.records@ =~= with_status(old(self).records(), i as int, status));
    }

    /// Sets the status of the first record with identifier `id`; fails if
    /// there is none.
    pub fn update_status(&mut self, id: u128, status: ModificationStatus) -> (r: Result<(), ImprovementError>)
        ensures
            match first_with(old(self).records(), id) {
                Some(i) => r is Ok && final(self).records() == with_status(old(self).records(), i, status),
                None => r == Err::<(), ImprovementError>(ImprovementError::NotFound(id))
                    && final(self).records() == old(self).records(),
            },
    {
        match self.position(id) {
            Some(i) => {
                self.set_status_at(i, status);
                Ok(())
            },
            None => Err(ImprovementError::NotFound(id)),
        }
    }

    /// Replaces what the first record with identifier `id` changes (its
    /// measured metrics among it); fails if there is none.
    pub fn update_content(&mut self, id: u128, content: T) -> (r: Result<(), ImprovementError>)
        ensures
            match first_with(old(self).records(), id) {
                Some(i) => r is Ok && final(self).records() == with_content(old(self).records(), i, content),
                None => r == Err::<(), ImprovementError>(ImprovementError::NotFound(id))
                    && final(self).records() == old(self).records(),
            },
    {
        match self.position(id) {
            Some(i) => {
                let (time, rec) = self.records.remove(i);
                let ModificationRecord { id: rid, status, content: _ } = rec;
                self.records.insert(i, (time, ModificationRecord { id: rid, status, content }));
                assert(self.records@ =~= with_content(old(self).records(), i as int, content));
                Ok(())
            },
            None => Err(ImprovementError::NotFound(id)),
        }
    }

    /// Marks the first record with identifier `id` deployed.  It must be
    /// accepted: otherwise, or when there is no such record, the request is
    /// refused and the log left as it was.
    pub fn deploy(&mut self, id: u128) -> (r: Result<(), ImprovementError>)
        ensures
            match first_with(old(self).records(), id) {
                Some(i) => if old(self).records()[i].1.status == ModificationStatus::Accepted {
                    r is Ok && final(self).records() == with_status(old(self).records(), i, ModificationStatus::Deployed)
                } else {
                    r == Err::<(), ImprovementError>(ImprovementError::NotAccepted(old(self).records()[i].1.status))
                        && final(self).records() == old(self).records()
                },
                None => r == Err::<(), ImprovementError>(ImprovementError::NotFound(id))
                    && final(self).records() == old(self).records(),
            },
    {
        match self.position(id) {
            Some(i) => {
                let status = self.records[i].1.status;
                if status != ModificationStatus::Accepted {
                    return Err(ImprovementError::NotAccepted(status));
                }
                self.set_status_at(i, ModificationStatus::Deployed);
                Ok(())
            },
            None => Err(ImprovementError::NotFound(id)),
        }
    }
}

} // verus!
