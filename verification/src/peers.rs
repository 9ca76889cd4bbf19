//! The peer table: last-observed plan state of the mesh, merged by
//! last-writer-wins on a per-plan version counter.

use crate::graph::Status;
use vstd::prelude::*;

verus! {

/// A versioned copy of one plan's per-node statuses, as gossiped.
#[derive(Debug, Clone, PartialEq, Eq)]
pub struct PlanSnapshot {
    pub plan_id: String,
    pub version: u64,
    pub statuses: Vec<(String, Status)>,
}

/// Mathematical form of a snapshot.
pub ghost struct SnapView {
    pub plan_id: Seq<char>,
    pub version: u64,
    pub statuses: Seq<(Seq<char>, Status)>,
}

impl View for PlanSnapshot {
    type V = SnapView;

    open spec fn view(&self) -> SnapView {
        SnapView {
            plan_id: self.plan_id@,
            version: self.version,
            statuses: self.statuses@.map_values(|p: (String, Status)| (p.0@, p.1)),
        }
    }
}

/// A known mesh peer: identity, where it was last reached, and when.
#[derive(Debug, Clone)]
pub struct PeerRecord {
    pub peer_id: String,
    pub last_address: String,
    pub last_seen: u64,
}

/// Local knowledge of the mesh: which plans this node owns, the replicas of
/// foreign plans, and the peers seen so far.
#[derive(Debug)]
pub struct PeerTable {
    pub owned: Vec<String>,
    pub plans: Vec<PlanSnapshot>,
    pub peers: Vec<PeerRecord>,
}

/// The plan id is one this node owns.
pub open spec fn owns(owned: Seq<Seq<char>>, pid: Seq<char>) -> bool {
    exists|i: int| 0 <= i < owned.len() && owned[i] == pid
}

/// First replica carrying the given plan id, from index `from`; -1 if none.
pub open spec fn find_plan_from(plans: Seq<SnapView>, pid: Seq<char>, from: int) -> int
    decreases plans.len() - from,
{
    if from < 0 || from >= plans.len() {
        -1
    } else if plans[from].plan_id == pid {
        from
    } else {
        find_plan_from(plans, pid, from + 1)
    }
}

/// What a gossip merge does to the replica list: owned plans are never
/// touched; an unknown plan is appended; a known one is replaced only when
/// the incoming version is strictly newer.
pub open spec fn merge_spec(
    plans: Seq<SnapView>,
    owned: Seq<Seq<char>>,
    snap: SnapView,
) -> Seq<SnapView> {
    if owns(owned, snap.plan_id) {
        plans
    } else {
        let i = find_plan_from(plans, snap.plan_id, 0);
        if i == -1 {
            plans.push(snap)
        } else if plans[i].version < snap.version {
            plans.update(i, snap)
        } else {
            plans
        }
    }
}

/// What `find_plan_from` returns: -1 with no match at or after `from`, or
/// the first matching index.
pub proof fn lemma_find_props(plans: Seq<SnapView>, pid: Seq<char>, from: int)
    requires
        0 <= from,
    ensures
        find_plan_from(plans, pid, from) == -1 ==> forall|j: int|
            from <= j < plans.len() ==> (#[trigger] plans[j].plan_id) != pid,
        find_plan_from(plans, pid, from) != -1 ==> {
            let i = find_plan_from(plans, pid, from);
            &&& from <= i < plans.len()
            &&& plans[i].plan_id == pid
            &&& forall|j: int| from <= j < i ==> (#[trigger] plans[j].plan_id) != pid
        },
    decreases plans.len() - from,
{
    if 0 <= from < plans.len() && plans[from].plan_id != pid {
        lemma_find_props(plans, pid, from + 1);
    }
}

/// Appending an entry with a new plan id makes it the first match.
proof fn lemma_find_push(plans: Seq<SnapView>, pid: Seq<char>, e: SnapView, from: int)
    requires
        e.plan_id == pid,
        0 <= from <= plans.len(),
        forall|j: int| 0 <= j < plans.len() ==> (#[trigger] plans[j].plan_id) != pid,
    ensures
        find_plan_from(plans.push(e), pid, from) == plans.len(),
    decreases plans.len() - from,
{
    if from < plans.len() {
        lemma_find_push(plans, pid, e, from + 1);
    }
}

/// Replacing the first match with an entry of the same plan id keeps it the
/// first match.
proof fn lemma_find_update(plans: Seq<SnapView>, pid: Seq<char>, e: SnapView, i: int, from: int)
    requires
        e.plan_id == pid,
        0 <= i < plans.len(),
        plans[i].plan_id == pid,
        forall|j: int| 0 <= j < i ==> (#[trigger] plans[j].plan_id) != pid,
        0 <= from <= i,
    ensures
        find_plan_from(plans.update(i, e), pid, from) == i,
    decreases plans.len() - from,
{
    if from < i {
        lemma_find_update(plans, pid, e, i, from + 1);
    }
}

/// Merging the same snapshot twice yields the same replicas as merging it
/// once: gossip duplicates are harmless.
pub proof fn lemma_merge_idempotent(plans: Seq<SnapView>, owned: Seq<Seq<char>>, snap: SnapView)
    ensures
        merge_spec(merge_spec(plans, owned, snap), owned, snap) == merge_spec(plans, owned, snap),
{
    if !owns(owned, snap.plan_id) {
        let i = find_plan_from(plans, snap.plan_id, 0);
        lemma_find_props(plans, snap.plan_id, 0);
        if i == -1 {
            lemma_find_push(plans, snap.plan_id, snap, 0);
            let once = plans.push(snap);
            assert(find_plan_from(once, snap.plan_id, 0) == plans.len());
            assert(once[plans.len() as int].version == snap.version);
        } else if plans[i].version < snap.version {
            let once = plans.update(i, snap);
            lemma_find_update(plans, snap.plan_id, snap, i, 0);
            assert(find_plan_from(once, snap.plan_id, 0) == i);
            assert(once[i].version == snap.version);
        }
    }
}

/// Merging a snapshot whose version does not exceed the replica already held
/// never mutates the table: out-of-order and duplicate gossip is safe.
pub proof fn lemma_merge_monotone(plans: Seq<SnapView>, owned: Seq<Seq<char>>, snap: SnapView)
    requires
        ({
            let i = find_plan_from(plans, snap.plan_id, 0);
            i != -1 && snap.version <= plans[i].version
        }),
    ensures
        merge_spec(plans, owned, snap) == plans,
{
}

impl PeerTable {
    /// The replicas, in mathematical form.
    pub open spec fn plans_view(self) -> Seq<SnapView> {
        self.plans@.map_values(|s: PlanSnapshot| s@)
    }

    /// The owned plan ids, in mathematical form.
    pub open spec fn owned_view(self) -> Seq<Seq<char>> {
        self.owned@.map_values(|s: String| s@)
    }

    /// An empty table that owns the given plans.
    pub fn new(owned: Vec<String>) -> (t: PeerTable)
        ensures
            t.owned == owned,
            t.plans_view() == Seq::<SnapView>::empty(),
            t.peers@.len() == 0,
    {
        let t = PeerTable { owned, plans: Vec::new(), peers: Vec::new() };
        proof {
            assert(t.plans_view() =~= Seq::<SnapView>::empty());
        }
        t
    }

    /// Merge a received `(plan_id, snapshot, version)` gossip frame:
    /// last-writer-wins by version, never touching a locally owned plan.
    pub fn merge(&mut self, remote_plan_id: &String, remote_snapshot: &PlanSnapshot, remote_version: u64)
        ensures
            final(self).owned == old(self).owned,
            final(self).peers == old(self).peers,
            final(self).plans_view() == merge_spec(
                old(self).plans_view(),
                old(self).owned_view(),
                SnapView {
                    plan_id: remote_plan_id@,
                    version: remote_version,
                    statuses: remote_snapshot@.statuses,
                },
            ),
    {
        let ghost snap = SnapView {
            plan_id: remote_plan_id@,
            version: remote_version,
            statuses: remote_snapshot@.statuses,
        };
        let mut oi: usize = 0;
        while oi < self.owned.len()
            invariant
                oi <= self.owned@.len(),
                self.owned_view().len() == self.owned@.len(),
                snap == (SnapView {
                    plan_id: remote_plan_id@,
                    version: remote_version,
                    statuses: remote_snapshot@.statuses,
                }),
                *self == *old(self),
                forall|j: int| 0 <= j < oi ==> (#[trigger] self.owned_view()[j]) != remote_plan_id@,
            decreases self.owned@.len() - oi,
        {
            if self.owned[oi] == *remote_plan_id {
                proof {
                    assert(self.owned_view().len() == self.owned@.len());
                    assert(self.owned_view()[oi as int] == self.owned@[oi as int]@) by {}
                    assert(owns(self.owned_view(), snap.plan_id));
                }
                return ;
            }
            proof {
                assert(self.owned_view().len() == self.owned@.len());
                assert(self.owned_view()[oi as int] == self.owned@[oi as int]@) by {}
            }
            oi += 1;
        }
        assert(!owns(self.owned_view(), snap.plan_id));
        let entry = PlanSnapshot {
            plan_id: remote_plan_id.clone(),
            version: remote_version,
            statuses: copy_statuses(&remote_snapshot.statuses),
        };
        assert(entry@ == snap);
        let ghost pre = self.plans_view();
        let mut i: usize = 0;
        while i < self.plans.len()
            invariant
                i <= self.plans@.len(),
                self.plans_view().len() == self.plans@.len(),
                forall|j: int|
                    0 <= j < i ==> (#[trigger] self.plans_view()[j].plan_id) != remote_plan_id@,
                snap == (SnapView {
                    plan_id: remote_plan_id@,
                    version: remote_version,
                    statuses: remote_snapshot@.statuses,
                }),
                entry@ == snap,
                pre == self.plans_view(),
                *self == *old(self),
                !owns(self.owned_view(), snap.plan_id),
            decreases self.plans@.len() - i,
        {
            if self.plans[i].plan_id == *remote_plan_id {
                proof {
                    assert(pre[i as int] == self.plans@[i as int]@) by {}
                    assert(self.plans@[i as int]@.plan_id == self.plans@[i as int].plan_id@);
                    assert(pre[i as int].plan_id == snap.plan_id);
                    lemma_find_props(pre, snap.plan_id, 0);
                    assert(find_plan_from(pre, snap.plan_id, 0) == i as int);
                }
                if self.plans[i].version < remote_version {
                    self.plans[i] = entry;
                    proof {
                        assert(self.plans_view() =~= pre.update(i as int, snap));
                    }
                } else {
                    proof {
                        assert(merge_spec(pre, old(self).owned_view(), snap) == pre);
                    }
                }
                return ;
            }
            proof {
                assert(self.plans_view()[i as int] == self.plans@[i as int]@) by {}
            }
            i += 1;
        }
        proof {
            lemma_find_props(pre, snap.plan_id, 0);
            let f = find_plan_from(pre, snap.plan_id, 0);
            if f != -1 {
                assert(pre[f].plan_id == snap.plan_id);
                assert(false);
            }
        }
        self.plans.push(entry);
        proof {
            assert(self.plans_view() =~= pre.push(snap));
        }
    }

    /// Record a peer sighting: the record under `peer_id` gets the new
    /// address and liveness time, and is created on first discovery.
    pub fn record_peer(&mut self, peer_id: &String, address: &String, now: u64)
        ensures
            final(self).owned == old(self).owned,
            final(self).plans == old(self).plans,
            ({
                let i = peer_index_from(old(self).peers@, peer_id@, 0);
                if i == -1 {
                    final(self).peers@ == old(self).peers@.push(
                        PeerRecord { peer_id: *peer_id, last_address: *address, last_seen: now },
                    )
                } else {
                    final(self).peers@ == old(self).peers@.update(
                        i,
                        PeerRecord {
                            peer_id: old(self).peers@[i].peer_id,
                            last_address: *address,
                            last_seen: now,
                        },
                    )
                }
            }),
    {
        let ghost orig = self.peers@;
        let mut i: usize = 0;
        while i < self.peers.len()
            invariant
                i <= self.peers@.len(),
                *self == *old(self),
                orig == old(self).peers@,
                forall|j: int| 0 <= j < i ==> (#[trigger] self.peers@[j].peer_id@) != peer_id@,
            decreases self.peers@.len() - i,
        {
            if self.peers[i].peer_id == *peer_id {
                proof {
                    lemma_peer_index_props(orig, peer_id@, 0);
                    assert(peer_index_from(orig, peer_id@, 0) == i as int);
                }
                self.peers[i].last_address = address.clone();
                self.peers[i].last_seen = now;
                proof {
                    assert(self.peers@ =~= orig.update(
                        i as int,
                        PeerRecord {
                            peer_id: orig[i as int].peer_id,
                            last_address: *address,
                            last_seen: now,
                        },
                    ));
                }
                return ;
            }
            i += 1;
        }
        proof {
            lemma_peer_index_props(orig, peer_id@, 0);
            let f = peer_index_from(orig, peer_id@, 0);
            if f != -1 {
                assert(orig[f].peer_id@ == peer_id@);
                assert(false);
            }
        }
        self.peers.push(
            PeerRecord { peer_id: peer_id.clone(), last_address: address.clone(), last_seen: now },
        );
        proof {
            assert(self.peers@ =~= orig.push(
                PeerRecord { peer_id: *peer_id, last_address: *address, last_seen: now },
            ));
        }
    }

    /// Evict peers not seen within the liveness timeout: exactly the records
    /// whose `last_seen` is within `timeout` of `now` are kept, in order.
    pub fn evict_stale(&mut self, now: u64, timeout: u64)
        ensures
            final(self).owned == old(self).owned,
            final(self).plans == old(self).plans,
            final(self).peers@ == old(self).peers@.filter(
                |p: PeerRecord| p.last_seen + timeout >= now,
            ),
    {
        let ghost orig = self.peers@;
        let mut kept: Vec<PeerRecord> = Vec::new();
        proof {
            reveal_with_fuel(Seq::<PeerRecord>::filter, 2);
        }
        let mut i: usize = 0;
        while i < self.peers.len()
            invariant
                i <= self.peers@.len(),
                *self == *old(self),
                orig == old(self).peers@,
                kept@ == orig.subrange(0, i as int).filter(
                    |p: PeerRecord| p.last_seen + timeout >= now,
                ),
            decreases self.peers@.len() - i,
        {
            let ghost prefix = orig.subrange(0, i as int);
            let p = &self.peers[i];
            let fresh = p.last_seen >= now || now - p.last_seen <= timeout;
            if fresh {
                kept.push(self.peers[i].clone_record());
            }
            proof {
                reveal_with_fuel(Seq::<PeerRecord>::filter, 2);
                assert(orig.subrange(0, i as int + 1).drop_last() =~= prefix);
                assert(orig.subrange(0, i as int + 1).last() == orig[i as int]);
                assert(fresh == (|p: PeerRecord| p.last_seen + timeout >= now)(orig[i as int]));
                assert(orig.subrange(0, i as int + 1).filter(
                    |p: PeerRecord| p.last_seen + timeout >= now,
                ) == (if (|p: PeerRecord| p.last_seen + timeout >= now)(orig[i as int]) {
                    prefix.filter(|p: PeerRecord| p.last_seen + timeout >= now).push(
                        orig[i as int],
                    )
                } else {
                    prefix.filter(|p: PeerRecord| p.last_seen + timeout >= now)
                }));
            }
            i += 1;
        }
        proof {
            assert(orig.subrange(0, orig.len() as int) =~= orig);
        }
        self.peers = kept;
    }
}

impl PeerRecord {
    /// Copy a record field for field.
    fn clone_record(&self) -> (r: PeerRecord)
        ensures
            r == *self,
    {
        PeerRecord {
            peer_id: self.peer_id.clone(),
            last_address: self.last_address.clone(),
            last_seen: self.last_seen,
        }
    }
}

/// First peer record carrying the given id, from index `from`; -1 if none.
pub open spec fn peer_index_from(peers: Seq<PeerRecord>, pid: Seq<char>, from: int) -> int
    decreases peers.len() - from,
{
    if from < 0 || from >= peers.len() {
        -1
    } else if peers[from].peer_id@ == pid {
        from
    } else {
        peer_index_from(peers, pid, from + 1)
    }
}

/// What `peer_index_from` returns: -1 with no match at or after `from`, or
/// the first matching index.
pub proof fn lemma_peer_index_props(peers: Seq<PeerRecord>, pid: Seq<char>, from: int)
    requires
        0 <= from,
    ensures
        peer_index_from(peers, pid, from) == -1 ==> forall|j: int|
            from <= j < peers.len() ==> (#[trigger] peers[j].peer_id@) != pid,
        peer_index_from(peers, pid, from) != -1 ==> {
            let i = peer_index_from(peers, pid, from);
            &&& from <= i < peers.len()
            &&& peers[i].peer_id@ == pid
            &&& forall|j: int| from <= j < i ==> (#[trigger] peers[j].peer_id@) != pid
        },
    decreases peers.len() - from,
{
    if 0 <= from < peers.len() && peers[from].peer_id@ != pid {
        lemma_peer_index_props(peers, pid, from + 1);
    }
}

/// Copy a status list value for value.
fn copy_statuses(src: &Vec<(String, Status)>) -> (r: Vec<(String, Status)>)
    ensures
        r@.map_values(|p: (String, Status)| (p.0@, p.1)) == src@.map_values(
            |p: (String, Status)| (p.0@, p.1),
        ),
{
    let mut r: Vec<(String, Status)> = Vec::new();
    let mut i: usize = 0;
    while i < src.len()
        invariant
            i <= src@.len(),
            r@.len() == i,
            forall|j: int|
                0 <= j < i ==> (#[trigger] r@[j]).0@ == src@[j].0@ && r@[j].1 == src@[j].1,
        decreases src@.len() - i,
    {
        let (id, st) = &src[i];
        r.push((id.clone(), *st));
        i += 1;
    }
    proof {
        assert(r@.map_values(|p: (String, Status)| (p.0@, p.1)) =~= src@.map_values(
            |p: (String, Status)| (p.0@, p.1),
        ));
    }
    r
}

} // verus!
