//! Vector-clock synchrony between a node and its peers: the node's logical
//! clock, the moment each peer last synchronised, and which events are
//! causally ready.  Times are wall-clock milliseconds.

use vstd::prelude::*;
use crate::clock::now_millis;
use crate::core_lib::str_map::StrMap;
use crate::holochain::semantic_crdt::VersionVector;
use crate::holochain::semantic_crdt::count_of;
use crate::holochain::semantic_crdt::vv_merge;
use crate::holochain::semantic_crdt::vv_covers_except;

verus! {

/// A peer whose last synchronisation is older than this (five minutes) is out
/// of sync.
pub const SYNC_THRESHOLD_MS: i64 = 300_000;

/// Age assumed for a peer that never synchronised (365 days).
pub const NEVER_SYNCED_AGE_MS: i64 = 31_536_000_000;

/// Last synchronisation time used for `peer`: the recorded one, or, for a
/// peer never synchronised, 365 days before `now` (the earliest time when
/// that lies before the representable range).
pub open spec fn assumed_last_sync(last: Map<Seq<char>, i64>, peer: Seq<char>, now: i64) -> i64 {
    if last.contains_key(peer) {
        last[peer]
    } else if now - NEVER_SYNCED_AGE_MS >= i64::MIN {
        (now - NEVER_SYNCED_AGE_MS) as i64
    } else {
        i64::MIN
    }
}

/// Status of `peer` at `now`: its last synchronisation time and whether that
/// lies less than the threshold before `now`.
pub open spec fn sync_entry(last: Map<Seq<char>, i64>, peer: Seq<char>, now: i64) -> (i64, bool) {
    let ls = assumed_last_sync(last, peer, now);
    (ls, now - ls < SYNC_THRESHOLD_MS)
}

/// Every entry of `status` is the status of its peer at `now`.
pub open spec fn statuses_at(status: Map<Seq<char>, (i64, bool)>, last: Map<Seq<char>, i64>, now: i64) -> bool {
    forall|p: Seq<char>| #[trigger] status.contains_key(p) ==> status[p] == sync_entry(last, p, now)
}

/// Logical clock and synchronisation record of one node.
#[derive(Debug)]
pub struct SynchronyManager {
    node_id: String,
    clock: VersionVector,
    last_sync: StrMap<i64>,
    peers: StrMap<()>,
}

impl SynchronyManager {
    pub closed spec fn node(&self) -> Seq<char> {
        self.node_id@
    }

    /// The node's vector clock.
    pub closed spec fn clock_view(&self) -> Map<Seq<char>, u64> {
        self.clock@
    }

    /// Last synchronisation time of each node heard from.
    pub closed spec fn last_sync_view(&self) -> Map<Seq<char>, i64> {
        self.last_sync@
    }

    /// Known peers.
    pub closed spec fn peer_set(&self) -> Set<Seq<char>> {
        self.peers@.dom()
    }

    pub closed spec fn wf(&self) -> bool {
        &&& self.clock.wf()
        &&& self.last_sync.wf()
        &&& self.peers.wf()
    }

    /// A manager for `node_id` whose clock holds only its own counter, at
    /// zero, with no peers.
    pub fn new(node_id: &str) -> (m: Self)
        ensures
            m.wf(),
            m.node() == node_id@,
            m.clock_view() == Map::<Seq<char>, u64>::empty().insert(node_id@, 0u64),
            m.last_sync_view() == Map::<Seq<char>, i64>::empty(),
            m.peer_set() == Set::<Seq<char>>::empty(),
    {
        let m = SynchronyManager {
            node_id: node_id.to_owned(),
            clock: VersionVector::starting_at(node_id),
            last_sync: StrMap::new(),
            peers: StrMap::new(),
        };
        assert(m.peers@.dom() =~= Set::<Seq<char>>::empty());
        m
    }

    /// Adds `peer_id` to the known peers.
    pub fn add_peer(&mut self, peer_id: &str)
        requires
            old(self).wf(),
        ensures
            final(self).wf(),
            final(self).peer_set() == old(self).peer_set().insert(peer_id@),
            final(self).node() == old(self).node(),
            final(self).clock_view() == old(self).clock_view(),
            final(self).last_sync_view() == old(self).last_sync_view(),
    {
        self.peers.insert(peer_id.to_owned(), ());
        assert(self.peers@.dom() =~= old(self).peers@.dom().insert(peer_id@));
    }

    /// Removes `peer_id` from the known peers.
    pub fn remove_peer(&mut self, peer_id: &str)
        requires
            old(self).wf(),
        ensures
            final(self).wf(),
            final(self).peer_set() == old(self).peer_set().remove(peer_id@),
            final(self).node() == old(self).node(),
            final(self).clock_view() == old(self).clock_view(),
            final(self).last_sync_view() == old(self).last_sync_view(),
    {
        let key = peer_id.to_owned();
        self.peers.remove(&key);
        assert(self.peers@.dom() =~= old(self).peers@.dom().remove(peer_id@));
    }

    /// Advances the node's own counter by one and returns it.
    pub fn increment_local_clock(&mut self) -> (c: u64)
        requires
            old(self).wf(),
            count_of(old(self).clock_view(), old(self).node()) < u64::MAX,
        ensures
            final(self).wf(),
            c == count_of(old(self).clock_view(), old(self).node()) + 1,
            final(self).clock_view() == old(self).clock_view().insert(old(self).node(), c),
            final(self).node() == old(self).node(),
            final(self).last_sync_view() == old(self).last_sync_view(),
            final(self).peer_set() == old(self).peer_set(),
    {
        self.clock.increment(self.node_id.as_str());
        self.clock.get(self.node_id.as_str())
    }

    /// Records that `remote_node` synchronised at `now` and raises every
    /// counter to at least the remote clock's.
    pub fn merge_remote_clock_at(&mut self, remote_node: &str, remote_clock: &VersionVector, now: i64)
        requires
            old(self).wf(),
            remote_clock.wf(),
        ensures
            final(self).wf(),
            final(self).last_sync_view() == old(self).last_sync_view().insert(remote_node@, now),
            final(self).clock_view() == vv_merge(old(self).clock_view(), remote_clock@),
            final(self).node() == old(self).node(),
            final(self).peer_set() == old(self).peer_set(),
    {
        self.last_sync.insert(remote_node.to_owned(), now);
        self.clock.merge(remote_clock);
    }

    /// Records that `remote_node` synchronised now and merges its clock.
    pub fn merge_remote_clock(&mut self, remote_node: &str, remote_clock: &VersionVector)
        requires
            old(self).wf(),
            remote_clock.wf(),
        ensures
            final(self).wf(),
            exists|now: i64| final(self).last_sync_view() == old(self).last_sync_view().insert(remote_node@, now),
            final(self).clock_view() == vv_merge(old(self).clock_view(), remote_clock@),
            final(self).node() == old(self).node(),
            final(self).peer_set() == old(self).peer_set(),
    {
        let now = now_millis();
        self.merge_remote_clock_at(remote_node, remote_clock, now);
    }

    /// A copy of the node's vector clock.
    pub fn get_current_clock(&self) -> (c: VersionVector)
        requires
            self.wf(),
        ensures
            c.wf(),
            c@ == self.clock_view(),
    {
        self.clock.duplicate()
    }

    /// Whether this node has seen every event that an event stamped with
    /// `event_clock` depends on: each counter of the event, other than this
    /// node's own, is matched or exceeded by the local clock.
    pub fn is_causally_ready(&self, event_clock: &VersionVector) -> (ready: bool)
        requires
            self.wf(),
            event_clock.wf(),
        ensures
            ready == vv_covers_except(self.clock_view(), event_clock@, self.node()),
    {
        self.clock.covers_except(event_clock, self.node_id.as_str())
    }

    /// For every known peer, its last synchronisation time and whether it is
    /// in sync at `now`.
    pub fn get_sync_status_at(&self, now: i64) -> (status: StrMap<(i64, bool)>)
        requires
            self.wf(),
        ensures
            status.wf(),
            status@.dom() == self.peer_set(),
            forall|p: Seq<char>| #[trigger] status@.contains_key(p) ==> status@[p] == sync_entry(
                self.last_sync_view(),
                p,
                now,
            ),
    {
        proof {
            self.peers.lemma_keys();
        }
        let mut status: StrMap<(i64, bool)> = StrMap::new();
        let n = self.peers.len();
        let mut i: usize = 0;
        while i < n
            invariant
                self.wf(),
                status.wf(),
                n == self.peers.len_spec(),
                self.peers.key_seq().len() == n,
                forall|k: Seq<char>| self.peers@.contains_key(k) <==> self.peers.key_seq().contains(k),
                i <= n,
                forall|k: Seq<char>| #[trigger] status@.contains_key(k) <==> self.peers.key_seq().subrange(0, i as int).contains(k),
                forall|k: Seq<char>| #[trigger] status@.contains_key(k) ==> status@[k] == sync_entry(self.last_sync@, k, now),
            decreases n - i,
        {
            let peer = self.peers.key_at(i);
            let last = match self.last_sync.get(peer) {
                Some(t) => t,
                None => if now >= i64::MIN + NEVER_SYNCED_AGE_MS {
                    now - NEVER_SYNCED_AGE_MS
                } else {
                    i64::MIN
                },
            };
            let gap: i128 = now as i128 - last as i128;
            let in_sync = gap < SYNC_THRESHOLD_MS as i128;
            let ghost before = status@;
            status.insert(peer.clone(), (last, in_sync));
            proof {
                let ks = self.peers.key_seq();
                assert forall|k: Seq<char>| #[trigger] status@.contains_key(k) <==> ks.subrange(0, i + 1).contains(k) by {
                    if ks.subrange(0, i + 1).contains(k) {
                        let j = choose|j: int| 0 <= j < i + 1 && #[trigger] ks.subrange(0, i + 1)[j] == k;
                        if j < i {
                            assert(ks.subrange(0, i as int)[j] == k);
                        }
                    }
                    if before.contains_key(k) {
                        let j = choose|j: int| 0 <= j < i && #[trigger] ks.subrange(0, i as int)[j] == k;
                        assert(ks.subrange(0, i + 1)[j] == k);
                    }
                    if k == ks[i as int] {
                        assert(ks.subrange(0, i + 1)[i as int] == k);
                    }
                }
            }
            i = i + 1;
        }
        proof {
            assert(self.peers.key_seq().subrange(0, n as int) =~= self.peers.key_seq());
            assert(status@.dom() =~= self.peers@.dom());
        }
        status
    }

    /// For every known peer, its last synchronisation time and whether it is
    /// in sync now.
    pub fn get_sync_status(&self) -> (status: StrMap<(i64, bool)>)
        requires
            self.wf(),
        ensures
            status.wf(),
            status@.dom() == self.peer_set(),
            exists|now: i64| #[trigger] statuses_at(status@, self.last_sync_view(), now),
    {
        let now = now_millis();
        let status = self.get_sync_status_at(now);
        assert(statuses_at(status@, self.last_sync_view(), now));
        status
    }
}

} // verus!
