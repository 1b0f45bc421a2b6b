//! The table of known peers.

use std::collections::HashMap;
use vstd::prelude::*;
use vstd::std_specs::iter::IteratorSpec;

use crate::network::error::NetworkError;
use crate::network::types::{elapsed_ms, PeerInfo, SocketAddress};

verus! {

broadcast use vstd::std_specs::hash::group_hash_axioms;

/// Time after which a peer counts as inactive: 60 seconds.
pub const PEER_TIMEOUT_MS: u64 = 60000;

/// Whether a peer counts as active at `now`.
pub open spec fn active_at(p: PeerInfo, now: u64) -> bool {
    elapsed_ms(now, p.last_seen) < PEER_TIMEOUT_MS
}

/// The peers that a clean-up at `now` keeps of the table `m`.
pub open spec fn kept_at(m: Map<u128, PeerInfo>, now: u64) -> Map<u128, PeerInfo> {
    m.restrict(m.dom().filter(|k: u128| active_at(m[k], now)))
}

/// The table of known peers, by id.
#[derive(Debug)]
pub struct PeerManager {
    peers: HashMap<u128, PeerInfo>,
}

impl View for PeerManager {
    type V = Map<u128, PeerInfo>;

    closed spec fn view(&self) -> Map<u128, PeerInfo> {
        self.peers@
    }
}

impl PeerManager {
    /// The table's invariant: each peer is filed under its own id.
    pub closed spec fn well_formed(&self) -> bool {
        forall|k: u128| #[trigger] self.peers@.contains_key(k) ==> self.peers@[k].id == k
    }

    /// The table holds finitely many peers.
    pub proof fn lemma_view_finite(&self)
        ensures
            self@.dom().finite(),
    {
    }

    /// An empty table.
    pub fn new() -> (r: Self)
        ensures
            r.well_formed(),
            r@ == Map::<u128, PeerInfo>::empty(),
    {
        PeerManager { peers: HashMap::new() }
    }

    /// Adds or replaces a peer; returns whether its id was new.
    pub fn add_peer(&mut self, peer_info: PeerInfo) -> (r: bool)
        requires
            old(self).well_formed(),
        ensures
            final(self).well_formed(),
            r == !old(self)@.contains_key(peer_info.id),
            final(self)@ == old(self)@.insert(peer_info.id, peer_info),
    {
        let is_new = !self.peers.contains_key(&peer_info.id);
        let id = peer_info.id;
        self.peers.insert(id, peer_info);
        is_new
    }

    /// The peer with this id.
    pub fn get_peer(&self, peer_id: &u128) -> (r: Option<&PeerInfo>)
        ensures
            match r {
                Some(p) => self@.contains_key(*peer_id) && *p == self@[*peer_id],
                None => !self@.contains_key(*peer_id),
            },
    {
        self.peers.get(peer_id)
    }

    /// Removes the peer with this id, returning it.
    pub fn remove_peer(&mut self, peer_id: &u128) -> (r: Option<PeerInfo>)
        requires
            old(self).well_formed(),
        ensures
            final(self).well_formed(),
            final(self)@ == old(self)@.remove(*peer_id),
            match r {
                Some(p) => old(self)@.contains_key(*peer_id) && p == old(self)@[*peer_id],
                None => !old(self)@.contains_key(*peer_id),
            },
    {
        self.peers.remove(peer_id)
    }

    /// All ids, each once, in no particular order.
    fn ids(&self) -> (r: Vec<u128>)
        ensures
            r@.to_set() == self@.dom(),
            r@.no_duplicates(),
    {
        let mut out: Vec<u128> = Vec::new();
        let ghost ks = vstd::std_specs::hash::spec_keys_iter(&self.peers).remaining();
        for k in it: self.peers.keys()
            invariant
                it.seq() == ks,
                out@ == ks.take(it.index() as int).map_values(|k: &u128| *k),
        {
            out.push(*k);
        }
        proof {
            assert(out@ =~= ks.unref());
        }
        out
    }

    /// The peers for which `keep` holds at `now` (all of them when `all`),
    /// each once, in no particular order.
    fn collect(&self, all: bool, now: u64) -> (r: Vec<PeerInfo>)
        requires
            self.well_formed(),
        ensures
            forall|i: int| 0 <= i < r@.len() ==> self@.contains_key(#[trigger] r@[i].id) && r@[i] == self@[r@[i].id]
                && (all || active_at(r@[i], now)),
            forall|k: u128|
                self@.contains_key(k) && (all || active_at(self@[k], now)) ==> exists|i: int|
                    0 <= i < r@.len() && #[trigger] r@[i].id == k,
            forall|i: int, j: int| 0 <= i < j < r@.len() ==> r@[i].id != r@[j].id,
    {
        let ids = self.ids();
        let mut out: Vec<PeerInfo> = Vec::new();
        let mut n: usize = 0;
        while n < ids.len()
            invariant
                self.well_formed(),
                n <= ids@.len(),
                ids@.to_set() == self@.dom(),
                ids@.no_duplicates(),
                forall|i: int| 0 <= i < out@.len() ==> self@.contains_key(#[trigger] out@[i].id) && out@[i]
                    == self@[out@[i].id] && (all || active_at(out@[i], now)),
                forall|i: int| 0 <= i < out@.len() ==> exists|m: int| 0 <= m < n && ids@[m] == (#[trigger] out@[i]).id,
                forall|m: int|
                    0 <= m < n && self@.contains_key(ids@[m]) && (all || active_at(self@[ids@[m]], now)) ==> exists|i: int|
                        0 <= i < out@.len() && #[trigger] out@[i].id == ids@[m],
                forall|i: int, j: int| 0 <= i < j < out@.len() ==> out@[i].id != out@[j].id,
            decreases ids@.len() - n,
        {
            let k = ids[n];
            assert(ids@.to_set().contains(k));
            let ghost before = out@;
            match self.peers.get(&k) {
                Some(p) => {
                    if all || p.is_active(now, PEER_TIMEOUT_MS) {
                        assert forall|i: int| 0 <= i < before.len() implies before[i].id != k by {
                            let m = choose|m: int| 0 <= m < n && ids@[m] == before[i].id;
                            assert(ids@[m] != ids@[n as int]);
                        }
                        out.push(p.clone());
                        assert(out@[before.len() as int].id == ids@[n as int]);
                    }
                },
                None => {},
            }
            proof {
                assert forall|m: int|
                    0 <= m < n + 1 && self@.contains_key(ids@[m]) && (all || active_at(self@[ids@[m]], now)) implies exists|i: int|
                        0 <= i < out@.len() && #[trigger] out@[i].id == ids@[m] by {
                    if m < n {
                        let i = choose|i: int| 0 <= i < before.len() && #[trigger] before[i].id == ids@[m];
                        assert(out@[i] == before[i]);
                    } else {
                        assert(out@[before.len() as int].id == ids@[n as int]);
                    }
                }
                assert forall|i: int| 0 <= i < out@.len() implies exists|m: int| 0 <= m < n + 1 && ids@[m] == (#[trigger] out@[i]).id by {
                    if i < before.len() {
                        assert(out@[i] == before[i]);
                        let m = choose|m: int| 0 <= m < n && ids@[m] == before[i].id;
                    } else {
                        assert(ids@[n as int] == out@[i].id);
                    }
                }
            }
            n = n + 1;
        }
        assert forall|k: u128| self@.contains_key(k) && (all || active_at(self@[k], now)) implies exists|i: int|
            0 <= i < out@.len() && #[trigger] out@[i].id == k by {
            assert(ids@.to_set().contains(k));
            let m = choose|m: int| 0 <= m < ids@.len() && ids@[m] == k;
        }
        out
    }

    /// All peers, each once, in no particular order.
    pub fn get_all_peers(&self) -> (r: Vec<PeerInfo>)
        requires
            self.well_formed(),
        ensures
            forall|i: int| 0 <= i < r@.len() ==> self@.contains_key(#[trigger] r@[i].id) && r@[i] == self@[r@[i].id],
            forall|k: u128| self@.contains_key(k) ==> exists|i: int| 0 <= i < r@.len() && #[trigger] r@[i].id == k,
            forall|i: int, j: int| 0 <= i < j < r@.len() ==> r@[i].id != r@[j].id,
    {
        self.collect(true, 0)
    }

    /// The peers seen within [`PEER_TIMEOUT_MS`] before `now`, each once, in
    /// no particular order.
    pub fn get_active_peers(&self, now: u64) -> (r: Vec<PeerInfo>)
        requires
            self.well_formed(),
        ensures
            forall|i: int| 0 <= i < r@.len() ==> self@.contains_key(#[trigger] r@[i].id) && r@[i] == self@[r@[i].id]
                && active_at(r@[i], now),
            forall|k: u128|
                self@.contains_key(k) && active_at(self@[k], now) ==> exists|i: int|
                    0 <= i < r@.len() && #[trigger] r@[i].id == k,
            forall|i: int, j: int| 0 <= i < j < r@.len() ==> r@[i].id != r@[j].id,
    {
        self.collect(false, now)
    }

    /// The number of known peers.
    pub fn count(&self) -> (r: usize)
        ensures
            r == self@.len(),
    {
        self.peers.len()
    }

    /// Records an interaction with a peer at `now`; fails for an unknown id.
    pub fn update_last_seen(&mut self, peer_id: &u128, now: u64) -> (r: Result<(), NetworkError>)
        requires
            old(self).well_formed(),
        ensures
            final(self).well_formed(),
            old(self)@.contains_key(*peer_id) ==> r is Ok && final(self)@ == old(self)@.insert(
                *peer_id,
                PeerInfo { last_seen: now, ..old(self)@[*peer_id] },
            ),
            !old(self)@.contains_key(*peer_id) ==> (r matches Err(NetworkError::PeerNotFound(id)) && id == *peer_id)
                && final(self)@ == old(self)@,
    {
        match self.peers.get(peer_id) {
            Some(p) => {
                let mut q = p.clone();
                q.update_last_seen(now);
                self.peers.insert(*peer_id, q);
                Ok(())
            },
            None => Err(NetworkError::PeerNotFound(*peer_id)),
        }
    }

    /// The address of a peer; fails for an unknown id.
    pub fn get_peer_address(&self, peer_id: &u128) -> (r: Result<SocketAddress, NetworkError>)
        ensures
            self@.contains_key(*peer_id) ==> r == Ok::<SocketAddress, NetworkError>(self@[*peer_id].address),
            !self@.contains_key(*peer_id) ==> (r matches Err(NetworkError::PeerNotFound(id)) && id == *peer_id),
    {
        match self.peers.get(peer_id) {
            Some(p) => Ok(p.address),
            None => Err(NetworkError::PeerNotFound(*peer_id)),
        }
    }

    /// Removes the peers not seen within [`PEER_TIMEOUT_MS`] before `now`,
    /// returning their ids (each once, in no particular order).
    pub fn cleanup_inactive_peers(&mut self, now: u64) -> (r: Vec<u128>)
        requires
            old(self).well_formed(),
        ensures
            final(self).well_formed(),
            final(self)@ == kept_at(old(self)@, now),
            r@.to_set() == old(self)@.dom().filter(|k: u128| !active_at(old(self)@[k], now)),
            r@.no_duplicates(),
            r@.len() + final(self)@.len() == old(self)@.len(),
    {
        let ids = self.ids();
        let ghost start = self@;
        let mut removed: Vec<u128> = Vec::new();
        let mut n: usize = 0;
        while n < ids.len()
            invariant
                n <= ids@.len(),
                ids@.to_set() == start.dom(),
                ids@.no_duplicates(),
                forall|k: u128| #[trigger] self.peers@.contains_key(k) ==> self.peers@[k].id == k,
                self@ == start.restrict(
                    start.dom().filter(
                        |k: u128| !(exists|m: int| 0 <= m < n && ids@[m] == k && !active_at(start[k], now)),
                    ),
                ),
                removed@.to_set() == start.dom().filter(
                    |k: u128| exists|m: int| 0 <= m < n && ids@[m] == k && !active_at(start[k], now),
                ),
                removed@.no_duplicates(),
                forall|i: int| 0 <= i < removed@.len() ==> exists|m: int| 0 <= m < n && ids@[m] == #[trigger] removed@[i],
            decreases ids@.len() - n,
        {
            let k = ids[n];
            assert(ids@.to_set().contains(k));
            let ghost before_map = self@;
            let ghost before_removed = removed@;
            let stale = match self.peers.get(&k) {
                Some(p) => !p.is_active(now, PEER_TIMEOUT_MS),
                None => false,
            };
            assert(self@.contains_key(k));
            if stale {
                self.peers.remove(&k);
                assert forall|i: int| 0 <= i < before_removed.len() implies before_removed[i] != k by {
                    let m = choose|m: int| 0 <= m < n && ids@[m] == before_removed[i];
                    assert(ids@[m] != ids@[n as int]);
                }
                removed.push(k);
            }
            n = n + 1;
            proof {
                assert(self@ =~= start.restrict(
                    start.dom().filter(
                        |j: u128| !(exists|m: int| 0 <= m < n && ids@[m] == j && !active_at(start[j], now)),
                    ),
                )) by {
                    assert forall|j: u128| #[trigger] start.contains_key(j) implies (
                        (exists|m: int| 0 <= m < n && ids@[m] == j && !active_at(start[j], now)) <==> ((exists|m: int|
                            0 <= m < n - 1 && ids@[m] == j && !active_at(start[j], now)) || (j == k && stale))) by {
                        if j == k {
                            assert(ids@[n - 1] == k);
                        }
                        if exists|m: int| 0 <= m < n && ids@[m] == j && !active_at(start[j], now) {
                            let m = choose|m: int| 0 <= m < n && ids@[m] == j && !active_at(start[j], now);
                            if m == n - 1 {
                                assert(j == k);
                            }
                        }
                    }
                }
                assert(removed@.to_set() =~= start.dom().filter(
                    |j: u128| exists|m: int| 0 <= m < n && ids@[m] == j && !active_at(start[j], now),
                )) by {
                    assert forall|j: u128| #[trigger] start.contains_key(j) implies (
                        (exists|m: int| 0 <= m < n && ids@[m] == j && !active_at(start[j], now)) <==> ((exists|m: int|
                            0 <= m < n - 1 && ids@[m] == j && !active_at(start[j], now)) || (j == k && stale))) by {
                        if j == k {
                            assert(ids@[n - 1] == k);
                        }
                        if exists|m: int| 0 <= m < n && ids@[m] == j && !active_at(start[j], now) {
                            let m = choose|m: int| 0 <= m < n && ids@[m] == j && !active_at(start[j], now);
                            if m == n - 1 {
                                assert(j == k);
                            }
                        }
                    }
                    if stale {
                        assert(removed@ == before_removed.push(k));
                        before_removed.lemma_push_to_set_commute(k);
                    } else {
                        assert(removed@ == before_removed);
                    }
                }
            }
        }
        proof {
            assert forall|j: u128| #[trigger] start.contains_key(j) implies (exists|m: int|
                0 <= m < n && ids@[m] == j) by {
                assert(ids@.to_set().contains(j));
            }
            assert(self@ =~= start.restrict(start.dom().filter(|k: u128| active_at(start[k], now))));
            assert(removed@.to_set() =~= start.dom().filter(|k: u128| !active_at(start[k], now)));
            let kept = start.dom().filter(|k: u128| active_at(start[k], now));
            let gone = start.dom().filter(|k: u128| !active_at(start[k], now));
            assert(start.dom().finite());
            assert(kept.disjoint(gone));
            assert(kept + gone =~= start.dom());
            vstd::set_lib::lemma_set_disjoint_lens(kept, gone);
            removed@.unique_seq_to_set();
            assert(self@.dom() =~= kept);
        }
        removed
    }

    /// Some peer with this address, if there is one.
    pub fn find_peer_by_address(&self, address: &SocketAddress) -> (r: Option<&PeerInfo>)
        requires
            self.well_formed(),
        ensures
            match r {
                Some(p) => self@.contains_key(p.id) && *p == self@[p.id] && p.address == *address,
                None => forall|k: u128| #[trigger] self@.contains_key(k) ==> self@[k].address != *address,
            },
    {
        let ids = self.ids();
        let mut n: usize = 0;
        while n < ids.len()
            invariant
                self.well_formed(),
                n <= ids@.len(),
                ids@.to_set() == self@.dom(),
                forall|m: int| 0 <= m < n ==> #[trigger] self@[ids@[m]].address != *address,
            decreases ids@.len() - n,
        {
            let k = ids[n];
            assert(ids@.to_set().contains(k));
            match self.peers.get(&k) {
                Some(p) => {
                    if p.address == *address {
                        return Some(p);
                    }
                },
                None => {},
            }
            n = n + 1;
        }
        assert forall|k: u128| #[trigger] self@.contains_key(k) implies self@[k].address != *address by {
            assert(ids@.to_set().contains(k));
            let m = choose|m: int| 0 <= m < ids@.len() && ids@[m] == k;
        }
        None
    }
}

/// After a peer is added, looking up its id gives that peer back.
pub proof fn lemma_added_peer_found(before: Map<u128, PeerInfo>, peer: PeerInfo)
    ensures
        before.insert(peer.id, peer).contains_key(peer.id),
        before.insert(peer.id, peer)[peer.id] == peer,
{
}

/// A peer seen at `now` (just added, or its last interaction recorded) is
/// kept by a clean-up at `now`, unchanged.
pub proof fn lemma_fresh_peer_survives_cleanup(before: Map<u128, PeerInfo>, peer: PeerInfo, now: u64)
    requires
        peer.last_seen == now,
    ensures
        kept_at(before.insert(peer.id, peer), now).contains_key(peer.id),
        kept_at(before.insert(peer.id, peer), now)[peer.id] == peer,
{
    let after = before.insert(peer.id, peer);
    assert(after.dom().filter(|k: u128| active_at(after[k], now)).contains(peer.id));
}

/// After a peer is removed, looking up its id finds nothing, and every other
/// peer is still there.
pub proof fn lemma_removed_peer_gone(before: Map<u128, PeerInfo>, id: u128, other: u128)
    requires
        other != id,
    ensures
        !before.remove(id).contains_key(id),
        before.contains_key(other) ==> before.remove(id).contains_key(other) && before.remove(id)[other]
            == before[other],
{
}

} // verus!
