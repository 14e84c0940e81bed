//! Peer history: snapshots the live peers into the store so the node
//! can reconnect after a restart, and evicts stale entries.

use vstd::prelude::*;

use crate::ledger::{lemma_sum_by_indicator_bounds, sum_by};
use crate::stats::{DetailType, Direction, Stats, StatType};
use crate::store::{EndpointKey, LmdbPeerStore, StoreKey};

verus! {

/// Configuration of the periodic peer-history task, in seconds.
#[derive(Clone, Copy, Debug, PartialEq, Eq, Structural)]
pub struct PeerHistoryConfig {
    pub erase_cutoff: u64,
    pub check_interval: u64,
}

impl Default for PeerHistoryConfig {
    /// An hour of history, checked every fifteen seconds.
    fn default() -> (r: PeerHistoryConfig)
        ensures
            r.erase_cutoff == 3600,
            r.check_interval == 15,
    {
        PeerHistoryConfig { erase_cutoff: 3600, check_interval: 15 }
    }
}

/// Whether a stored time is stale at `now` under the cutoff: older
/// than the cutoff, or in the future (clock-skew defense).
pub open spec fn spec_stale(time: u64, now: u64, cutoff: u64) -> bool {
    (now >= cutoff && time < now - cutoff) || time > now
}

/// What one periodic run leaves in the peer table: every live peer is
/// bound to `now`, and every other entry survives exactly when its
/// stored time is not stale.
pub open spec fn peer_history_post(
    pre: &LmdbPeerStore,
    post: &LmdbPeerStore,
    live: Seq<EndpointKey>,
    now: u64,
    cutoff: u64,
) -> bool {
    forall|k: Seq<u8>|
        #[trigger] post.spec_get(k) == (if exists|i: int|
            0 <= i < live.len() && (#[trigger] live[i]).key_view() == k {
            Some(now)
        } else {
            match pre.spec_get(k) {
                Some(t) => if spec_stale(t, now, cutoff) {
                    None
                } else {
                    Some(t)
                },
                None => None,
            }
        })
}

/// One live peer counts as an insert when it was absent before.
pub open spec fn inserted_indicator(pre: &LmdbPeerStore) -> spec_fn(EndpointKey) -> int {
    |e: EndpointKey|
        if pre.spec_get(e.key_view()) is None {
            1int
        } else {
            0int
        }
}

/// Writes the live peers into the store and erases stale entries.
pub struct PeerHistory {
    pub erase_cutoff: u64,
}

impl PeerHistory {
    pub fn new(erase_cutoff: u64) -> (r: PeerHistory)
        ensures
            r.erase_cutoff == erase_cutoff,
    {
        PeerHistory { erase_cutoff }
    }

    /// Upserts one live peer, counting an insert or an update.
    pub fn save_peer(
        &self,
        store: &mut LmdbPeerStore,
        stats: &mut Stats,
        endpoint: &EndpointKey,
        now: u64,
    )
        requires
            old(store).wf(),
            old(stats).wf(),
        ensures
            final(store).wf(),
            final(stats).wf(),
            final(store).spec_get(endpoint.key_view()) == Some(now),
            forall|k: Seq<u8>|
                k != endpoint.key_view() ==> #[trigger] final(store).spec_get(k) == old(
                    store,
                ).spec_get(k),
            old(store).spec_get(endpoint.key_view()) is None ==> final(stats).spec_count(
                StatType::PeerHistory,
                DetailType::Inserted,
                Direction::In,
            ) == (if old(stats).spec_count(StatType::PeerHistory, DetailType::Inserted, Direction::In)
                < u64::MAX {
                old(stats).spec_count(StatType::PeerHistory, DetailType::Inserted, Direction::In)
                    + 1
            } else {
                0
            }) && final(stats).spec_count(
                StatType::PeerHistory,
                DetailType::Updated,
                Direction::In,
            ) == old(stats).spec_count(StatType::PeerHistory, DetailType::Updated, Direction::In),
            old(store).spec_get(endpoint.key_view()) is Some ==> final(stats).spec_count(
                StatType::PeerHistory,
                DetailType::Updated,
                Direction::In,
            ) == (if old(stats).spec_count(StatType::PeerHistory, DetailType::Updated, Direction::In)
                < u64::MAX {
                old(stats).spec_count(StatType::PeerHistory, DetailType::Updated, Direction::In)
                    + 1
            } else {
                0
            }) && final(stats).spec_count(
                StatType::PeerHistory,
                DetailType::Inserted,
                Direction::In,
            ) == old(stats).spec_count(StatType::PeerHistory, DetailType::Inserted, Direction::In),
            final(stats).spec_count(StatType::PeerHistory, DetailType::Loop, Direction::In) == old(
                stats,
            ).spec_count(StatType::PeerHistory, DetailType::Loop, Direction::In),
    {
        let existed = store.contains(endpoint);
        store.put(endpoint, now);
        if !existed {
            stats.inc(StatType::PeerHistory, DetailType::Inserted, Direction::In);
        } else {
            stats.inc(StatType::PeerHistory, DetailType::Updated, Direction::In);
        }
    }

    /// The endpoints whose stored time is stale at `now`.
    pub fn get_old_peers(&self, store: &LmdbPeerStore, now: u64) -> (r: Vec<EndpointKey>)
        requires
            store.wf(),
        ensures
            forall|j: int|
                0 <= j < r@.len() ==> {
                    let got = store.spec_get((#[trigger] r@[j]).key_view());
                    got is Some && spec_stale(got.unwrap(), now, self.erase_cutoff)
                },
            forall|i: int|
                0 <= i < store.table.entries@.len() && spec_stale(
                    (#[trigger] store.table.entries@[i]).1,
                    now,
                    self.erase_cutoff,
                ) ==> exists|j: int|
                    0 <= j < r@.len() && (#[trigger] r@[j]).key_view()
                        == store.table.entries@[i].0.key_view(),
    {
        let cutoff_time: u64 = if now >= self.erase_cutoff {
            now - self.erase_cutoff
        } else {
            0
        };
        let entries = store.begin();
        let mut out: Vec<EndpointKey> = Vec::new();
        let n = entries.len();
        let mut i: usize = 0;
        while i < n
            invariant
                i <= n,
                n == entries@.len(),
                entries@ == store.table.entries@,
                store.wf(),
                cutoff_time == (if now >= self.erase_cutoff {
                    now - self.erase_cutoff
                } else {
                    0
                }),
                forall|j: int|
                    0 <= j < out@.len() ==> {
                        let got = store.spec_get((#[trigger] out@[j]).key_view());
                        got is Some && spec_stale(got.unwrap(), now, self.erase_cutoff)
                    },
                forall|x: int|
                    0 <= x < i && spec_stale(
                        (#[trigger] store.table.entries@[x]).1,
                        now,
                        self.erase_cutoff,
                    ) ==> exists|j: int|
                        0 <= j < out@.len() && (#[trigger] out@[j]).key_view()
                            == store.table.entries@[x].0.key_view(),
            decreases n - i,
        {
            let ghost out0 = out@;
            let (peer, time) = entries[i];
            if time < cutoff_time || time > now {
                proof {
                    assert(peer == store.table.entries@[i as int].0);
                    assert forall|j: int| 0 <= j < i implies store.table.view_entries()[j].0
                        != peer.key_view() by {
                        crate::store::lemma_lex_asym(
                            store.table.entries@[j].0.key_view(),
                            store.table.entries@[i as int].0.key_view(),
                        );
                    }
                    crate::store::lemma_assoc_get_skip(
                        store.table.view_entries(),
                        peer.key_view(),
                        i as int,
                    );
                    assert(store.table.view_entries().skip(i as int)[0]
                        == store.table.view_entries()[i as int]);
                    assert(store.spec_get(peer.key_view()) == Some(time));
                }
                out.push(peer);
                proof {
                    assert(out@ == out0.push(peer));
                    assert forall|x: int|
                        0 <= x < i + 1 && spec_stale(
                            (#[trigger] store.table.entries@[x]).1,
                            now,
                            self.erase_cutoff,
                        ) implies exists|j: int|
                        0 <= j < out@.len() && (#[trigger] out@[j]).key_view()
                            == store.table.entries@[x].0.key_view() by {
                        if x == i {
                            assert(out@[out@.len() - 1].key_view()
                                == store.table.entries@[x].0.key_view());
                        } else {
                            let j = choose|j: int|
                                0 <= j < out0.len() && (#[trigger] out0[j]).key_view()
                                    == store.table.entries@[x].0.key_view();
                            assert(out@[j].key_view() == store.table.entries@[x].0.key_view());
                        }
                    }
                }
            } else {
                proof {
                    assert(!spec_stale(store.table.entries@[i as int].1, now, self.erase_cutoff));
                    assert forall|x: int|
                        0 <= x < i + 1 && spec_stale(
                            (#[trigger] store.table.entries@[x]).1,
                            now,
                            self.erase_cutoff,
                        ) implies exists|j: int|
                        0 <= j < out@.len() && (#[trigger] out@[j]).key_view()
                            == store.table.entries@[x].0.key_view() by {
                        let j = choose|j: int|
                            0 <= j < out0.len() && (#[trigger] out0[j]).key_view()
                                == store.table.entries@[x].0.key_view();
                        assert(out@[j].key_view() == store.table.entries@[x].0.key_view());
                    }
                }
            }
            i += 1;
        }
        out
    }

    /// One periodic run: update every live peer, then delete the stale
    /// entries. Counts the loop, each insert and each update.
    pub fn run_once(
        &self,
        store: &mut LmdbPeerStore,
        stats: &mut Stats,
        live_peers: &Vec<EndpointKey>,
        now: u64,
    )
        requires
            old(store).wf(),
            old(stats).wf(),
        ensures
            final(store).wf(),
            final(stats).wf(),
            peer_history_post(old(store), final(store), live_peers@, now, self.erase_cutoff),
            final(stats).spec_count(StatType::PeerHistory, DetailType::Loop, Direction::In) == (
            if old(stats).spec_count(StatType::PeerHistory, DetailType::Loop, Direction::In)
                < u64::MAX {
                old(stats).spec_count(StatType::PeerHistory, DetailType::Loop, Direction::In) + 1
            } else {
                0
            }),
            (forall|i: int, j: int|
                0 <= i < j < live_peers@.len() ==> (#[trigger] live_peers@[i]).key_view() != (
                #[trigger] live_peers@[j]).key_view()) && old(stats).spec_count(
                StatType::PeerHistory,
                DetailType::Inserted,
                Direction::In,
            ) + sum_by(live_peers@, inserted_indicator(old(store))) <= u64::MAX && old(
                stats,
            ).spec_count(StatType::PeerHistory, DetailType::Updated, Direction::In)
                + live_peers@.len() <= u64::MAX ==> final(stats).spec_count(
                StatType::PeerHistory,
                DetailType::Inserted,
                Direction::In,
            ) == old(stats).spec_count(StatType::PeerHistory, DetailType::Inserted, Direction::In)
                + sum_by(live_peers@, inserted_indicator(old(store))) && final(stats).spec_count(
                StatType::PeerHistory,
                DetailType::Updated,
                Direction::In,
            ) == old(stats).spec_count(StatType::PeerHistory, DetailType::Updated, Direction::In)
                + live_peers@.len() - sum_by(live_peers@, inserted_indicator(old(store))),
    {
        stats.inc(StatType::PeerHistory, DetailType::Loop, Direction::In);
        let ghost distinct = forall|i: int, j: int|
            0 <= i < j < live_peers@.len() ==> (#[trigger] live_peers@[i]).key_view() != (
            #[trigger] live_peers@[j]).key_view();
        let ghost f = inserted_indicator(old(store));
        let n = live_peers.len();
        let mut i: usize = 0;
        while i < n
            invariant
                i <= n,
                n == live_peers@.len(),
                store.wf(),
                stats.wf(),
                f == inserted_indicator(old(store)),
                distinct == (forall|x: int, y: int|
                    0 <= x < y < live_peers@.len() ==> (#[trigger] live_peers@[x]).key_view() != (
                    #[trigger] live_peers@[y]).key_view()),
                forall|j: int|
                    0 <= j < i ==> #[trigger] store.spec_get(live_peers@[j].key_view()) == Some(
                        now,
                    ),
                forall|k: Seq<u8>|
                    (forall|j: int| 0 <= j < i ==> (#[trigger] live_peers@[j]).key_view() != k)
                        ==> #[trigger] store.spec_get(k) == old(store).spec_get(k),
                stats.spec_count(StatType::PeerHistory, DetailType::Loop, Direction::In) == (
                if old(stats).spec_count(StatType::PeerHistory, DetailType::Loop, Direction::In)
                    < u64::MAX {
                    old(stats).spec_count(StatType::PeerHistory, DetailType::Loop, Direction::In)
                        + 1
                } else {
                    0
                }),
                distinct && old(stats).spec_count(
                    StatType::PeerHistory,
                    DetailType::Inserted,
                    Direction::In,
                ) + sum_by(live_peers@.take(i as int), f) <= u64::MAX && old(stats).spec_count(
                    StatType::PeerHistory,
                    DetailType::Updated,
                    Direction::In,
                ) + i <= u64::MAX ==> stats.spec_count(
                    StatType::PeerHistory,
                    DetailType::Inserted,
                    Direction::In,
                ) == old(stats).spec_count(
                    StatType::PeerHistory,
                    DetailType::Inserted,
                    Direction::In,
                ) + sum_by(live_peers@.take(i as int), f) && stats.spec_count(
                    StatType::PeerHistory,
                    DetailType::Updated,
                    Direction::In,
                ) == old(stats).spec_count(
                    StatType::PeerHistory,
                    DetailType::Updated,
                    Direction::In,
                ) + i - sum_by(live_peers@.take(i as int), f),
            decreases n - i,
        {
            let peer = live_peers[i];
            proof {
                assert(live_peers@.take(i + 1).drop_last() =~= live_peers@.take(i as int));
                assert(live_peers@.take(i + 1).last() == live_peers@[i as int]);
                assert forall|e: EndpointKey| 0 <= #[trigger] f(e) <= 1 by {
                    if old(store).spec_get(e.key_view()) is None {
                    }
                }
                lemma_sum_by_indicator_bounds(live_peers@.take(i as int), f);
                lemma_sum_by_indicator_bounds(live_peers@.take(i + 1), f);
                if distinct {
                    assert forall|j: int|
                        0 <= j < i implies (#[trigger] live_peers@[j]).key_view()
                        != live_peers@[i as int].key_view() by {}
                    assert(store.spec_get(live_peers@[i as int].key_view()) == old(
                        store,
                    ).spec_get(live_peers@[i as int].key_view()));
                }
            }
            self.save_peer(store, stats, &peer, now);
            i += 1;
        }
        proof {
            assert(live_peers@.take(n as int) =~= live_peers@);
        }
        let ghost mid = *store;
        let old_peers = self.get_old_peers(store, now);
        let m = old_peers.len();
        let mut j: usize = 0;
        while j < m
            invariant
                j <= m,
                m == old_peers@.len(),
                store.wf(),
                forall|x: int|
                    0 <= x < j ==> #[trigger] store.spec_get(old_peers@[x].key_view())
                        is None,
                forall|k: Seq<u8>|
                    (forall|x: int| 0 <= x < j ==> (#[trigger] old_peers@[x]).key_view() != k)
                        ==> #[trigger] store.spec_get(k) == mid.spec_get(k),
                forall|x: int|
                    0 <= x < m ==> {
                        let got = mid.spec_get((#[trigger] old_peers@[x]).key_view());
                        got is Some && spec_stale(got.unwrap(), now, self.erase_cutoff)
                    },
            decreases m - j,
        {
            let peer = old_peers[j];
            store.del(&peer);
            j += 1;
        }
        proof {
            assert forall|k: Seq<u8>| #[trigger] store.spec_get(k) == (if exists|x: int|
                0 <= x < live_peers@.len() && (#[trigger] live_peers@[x]).key_view() == k {
                Some(now)
            } else {
                match old(store).spec_get(k) {
                    Some(t) => if spec_stale(t, now, self.erase_cutoff) {
                        None
                    } else {
                        Some(t)
                    },
                    None => None,
                }
            }) by {
                let was_deleted = exists|x: int|
                    0 <= x < old_peers@.len() && (#[trigger] old_peers@[x]).key_view() == k;
                if was_deleted {
                    let x = choose|x: int|
                        0 <= x < old_peers@.len() && (#[trigger] old_peers@[x]).key_view() == k;
                    assert(store.spec_get(old_peers@[x].key_view()) is None);
                    assert(mid.spec_get(k) is Some && spec_stale(
                        mid.spec_get(k).unwrap(),
                        now,
                        self.erase_cutoff,
                    ));
                    if exists|y: int|
                        0 <= y < live_peers@.len() && (#[trigger] live_peers@[y]).key_view() == k {
                        let y = choose|y: int|
                            0 <= y < live_peers@.len() && (#[trigger] live_peers@[y]).key_view()
                                == k;
                        assert(mid.spec_get(live_peers@[y].key_view()) == Some(now));
                        assert(!spec_stale(now, now, self.erase_cutoff));
                        assert(false);
                    }
                } else {
                    assert(store.spec_get(k) == mid.spec_get(k));
                    if exists|y: int|
                        0 <= y < live_peers@.len() && (#[trigger] live_peers@[y]).key_view() == k {
                        let y = choose|y: int|
                            0 <= y < live_peers@.len() && (#[trigger] live_peers@[y]).key_view()
                                == k;
                        assert(mid.spec_get(live_peers@[y].key_view()) == Some(now));
                    } else {
                        assert(mid.spec_get(k) == old(store).spec_get(k));
                        if mid.spec_get(k) is Some && spec_stale(
                            mid.spec_get(k).unwrap(),
                            now,
                            self.erase_cutoff,
                        ) {
                            crate::store::lemma_assoc_get_some_index(
                                mid.table.view_entries(),
                                k,
                            );
                            let q = choose|q: int|
                                0 <= q < mid.table.view_entries().len() && (
                                #[trigger] mid.table.view_entries()[q]).0 == k
                                    && crate::store::assoc_get(mid.table.view_entries(), k)
                                    == Some(mid.table.view_entries()[q].1);
                            assert(mid.table.entries@[q].0.key_view() == k);
                            assert(mid.table.entries@[q].1 == mid.spec_get(k).unwrap());
                            assert(spec_stale(mid.table.entries@[q].1, now, self.erase_cutoff));
                            assert(exists|x: int|
                                0 <= x < old_peers@.len() && (#[trigger] old_peers@[x]).key_view()
                                    == mid.table.entries@[q].0.key_view());
                            assert(false);
                        }
                    }
                }
            }
        }
    }
}

/// Running the periodic task twice with the same live peers and clock
/// leaves the store exactly as after the first run.
pub proof fn lemma_peer_history_idempotent(
    s0: &LmdbPeerStore,
    s1: &LmdbPeerStore,
    s2: &LmdbPeerStore,
    live: Seq<EndpointKey>,
    now: u64,
    cutoff: u64,
)
    requires
        peer_history_post(s0, s1, live, now, cutoff),
        peer_history_post(s1, s2, live, now, cutoff),
    ensures
        forall|k: Seq<u8>| #[trigger] s2.spec_get(k) == s1.spec_get(k),
{
    assert forall|k: Seq<u8>| #[trigger] s2.spec_get(k) == s1.spec_get(k) by {
        assert(s1.spec_get(k) == (if exists|i: int|
            0 <= i < live.len() && (#[trigger] live[i]).key_view() == k {
            Some(now)
        } else {
            match s0.spec_get(k) {
                Some(t) => if spec_stale(t, now, cutoff) {
                    None
                } else {
                    Some(t)
                },
                None => None,
            }
        }));
        assert(s2.spec_get(k) == (if exists|i: int|
            0 <= i < live.len() && (#[trigger] live[i]).key_view() == k {
            Some(now)
        } else {
            match s1.spec_get(k) {
                Some(t) => if spec_stale(t, now, cutoff) {
                    None
                } else {
                    Some(t)
                },
                None => None,
            }
        }));
        if !(exists|i: int| 0 <= i < live.len() && (#[trigger] live[i]).key_view() == k) {
            if s1.spec_get(k) is Some {
                assert(!spec_stale(s1.spec_get(k).unwrap(), now, cutoff));
            }
        }
    }
}

} // verus!
