//! Elections and the vote cache: weighted tallies per block, vote
//! replacement by timestamp, quorum confirmation, and a bounded cache
//! of votes that arrive before their election.

use vstd::prelude::*;

use crate::numbers::{Account, Amount, BlockHash};
use crate::store::{StoreKey, Table};

verus! {

/// The timestamp that marks a final vote; it outranks every number.
pub const FINAL_TIMESTAMP: u64 = 0xffff_ffff_ffff_ffff;

/// What pool an election draws its vacancy from.
#[derive(Clone, Copy, Debug, PartialEq, Eq, Structural)]
pub enum ElectionBehavior {
    Normal,
    Hinted,
    Optimistic,
}

/// The lifecycle of one election.
#[derive(Clone, Copy, Debug, PartialEq, Eq, Structural)]
pub enum ElectionState {
    Passive,
    Active,
    Confirmed,
    Cemented,
    Expired,
}

/// What became of one vote.
#[derive(Clone, Copy, Debug, PartialEq, Eq, Structural)]
pub enum VoteResult {
    /// Counted: it was newer than anything from this representative.
    Vote,
    /// Ignored: this representative already voted at least as recently.
    Replay,
}

/// One election: a tally of weighted votes per block hash, and the
/// latest vote seen from each representative.
pub struct Election {
    pub id: u64,
    pub winner: BlockHash,
    pub behavior: ElectionBehavior,
    pub state: ElectionState,
    pub confirmation_request_count: u32,
    pub tally: Table<BlockHash, Amount>,
    pub last_votes: Table<Account, (u64, BlockHash)>,
}

impl Election {
    pub open spec fn wf(&self) -> bool {
        &&& self.tally.wf()
        &&& self.last_votes.wf()
    }

    /// The weight tallied for a block hash.
    pub open spec fn spec_tally(&self, hash: Seq<u8>) -> u128 {
        match self.tally.spec_get(hash) {
            Some(w) => w.raw,
            None => 0,
        }
    }

    pub fn new(id: u64, winner: BlockHash, behavior: ElectionBehavior) -> (r: Election)
        ensures
            r.wf(),
            r.id == id,
            r.winner@ == winner@,
            r.behavior == behavior,
            r.state == ElectionState::Passive,
            r.confirmation_request_count == 0,
            forall|h: Seq<u8>| #[trigger] r.spec_tally(h) == 0,
            forall|a: Seq<u8>| #[trigger] r.last_votes.spec_get(a) is None,
    {
        Election {
            id,
            winner,
            behavior,
            state: ElectionState::Passive,
            confirmation_request_count: 0,
            tally: Table::new(),
            last_votes: Table::new(),
        }
    }

    /// Applies one vote. A newer timestamp supersedes the older vote of
    /// the same representative: its weight leaves the old hash's tally
    /// and joins the new one. An equal or older timestamp is a replay
    /// and changes nothing.
    pub fn vote(&mut self, rep: &Account, timestamp: u64, hash: BlockHash, weight: Amount) -> (r:
        VoteResult)
        requires
            old(self).wf(),
        ensures
            final(self).wf(),
            final(self).winner@ == old(self).winner@,
            final(self).state == old(self).state,
            final(self).id == old(self).id,
            final(self).behavior == old(self).behavior,
            ({
                let previous = old(self).last_votes.spec_get(rep@);
                &&& (previous is Some && previous.unwrap().0 >= timestamp ==> r
                    == VoteResult::Replay && *final(self) == *old(self))
                &&& (previous is None || previous.unwrap().0 < timestamp ==> r == VoteResult::Vote
                    && final(self).last_votes.spec_get(rep@) == Some((timestamp, hash)) && (forall|
                    a: Seq<u8>,
                |
                    a != rep@ ==> #[trigger] final(self).last_votes.spec_get(a) == old(self).last_votes.spec_get(a)) && final(self).spec_tally(hash@) == ((old(self).spec_tally(hash@) + weight.raw)
                    % 0x1_0000_0000_0000_0000_0000_0000_0000_0000int) && (previous is Some
                    && previous.unwrap().1@ != hash@ ==> final(self).spec_tally(
                    previous.unwrap().1@,
                ) == ((old(self).spec_tally(previous.unwrap().1@)
                    + (0x1_0000_0000_0000_0000_0000_0000_0000_0000int - weight.raw) as u128 as int)
                    % 0x1_0000_0000_0000_0000_0000_0000_0000_0000int) || weight.raw == 0))
            }),
    {
        let previous = self.last_votes.get(rep);
        if let Some((prev_ts, prev_hash)) = previous {
            if prev_ts >= timestamp {
                return VoteResult::Replay;
            }
            if !(prev_hash == hash) {
                let old_weight = match self.tally.get(&prev_hash) {
                    Some(w) => w,
                    None => Amount::zero(),
                };
                if weight.number() > 0 {
                    self.tally.put(&prev_hash, old_weight.wrapping_sub(weight));
                }
            }
        }
        self.last_votes.put(rep, (timestamp, hash));
        let current = match self.tally.get(&hash) {
            Some(w) => w,
            None => Amount::zero(),
        };
        self.tally.put(&hash, current.wrapping_add(weight));
        VoteResult::Vote
    }

    /// Passive elections wake up when the scheduler or a live vote
    /// touches them.
    pub fn transition_active(&mut self)
        ensures
            old(self).state == ElectionState::Passive ==> final(self).state
                == ElectionState::Active,
            old(self).state != ElectionState::Passive ==> final(self).state == old(self).state,
            final(self).tally == old(self).tally,
            final(self).last_votes == old(self).last_votes,
            final(self).winner@ == old(self).winner@,
    {
        if let ElectionState::Passive = self.state {
            self.state = ElectionState::Active;
        }
    }

    /// Confirms an active election exactly when its winner's tally
    /// reaches the quorum.
    pub fn try_confirm(&mut self, quorum: Amount) -> (r: bool)
        requires
            old(self).wf(),
        ensures
            final(self).wf(),
            r == (old(self).state == ElectionState::Active && old(self).spec_tally(
                old(self).winner@,
            ) >= quorum.raw),
            r ==> final(self).state == ElectionState::Confirmed,
            !r ==> *final(self) == *old(self),
            final(self).tally == old(self).tally,
            final(self).last_votes == old(self).last_votes,
            final(self).winner@ == old(self).winner@,
    {
        let is_active = match self.state {
            ElectionState::Active => true,
            _ => false,
        };
        if !is_active {
            return false;
        }
        let tallied = match self.tally.get(&self.winner) {
            Some(w) => w,
            None => Amount::zero(),
        };
        if tallied.number() >= quorum.number() {
            self.state = ElectionState::Confirmed;
            return true;
        }
        false
    }

    /// Cementing finishes a confirmed election.
    pub fn transition_cemented(&mut self)
        ensures
            old(self).state == ElectionState::Confirmed ==> final(self).state
                == ElectionState::Cemented,
            old(self).state != ElectionState::Confirmed ==> final(self).state == old(self).state,
            final(self).tally == old(self).tally,
            final(self).last_votes == old(self).last_votes,
    {
        if let ElectionState::Confirmed = self.state {
            self.state = ElectionState::Cemented;
        }
    }
}

/// One cached vote: who voted, when, and with what weight.
#[derive(Clone, Copy, Debug)]
pub struct CachedVote {
    pub representative: Account,
    pub timestamp: u64,
    pub weight: Amount,
}

/// One vote-cache entry: the block hash and the votes seen for it.
pub struct CacheEntry {
    pub hash: BlockHash,
    pub voters: Vec<CachedVote>,
}

/// A bounded cache of votes that arrived before their election, kept
/// in insertion order; a hit moves its entry to the back, and when the
/// cache is full the entry at the front leaves.
pub struct VoteCache {
    pub entries: Vec<CacheEntry>,
    pub max_size: usize,
}

impl VoteCache {
    /// Never more entries than the bound allows.
    pub open spec fn wf(&self) -> bool {
        self.entries@.len() <= self.max_size
    }

    pub fn new(max_size: usize) -> (r: VoteCache)
        ensures
            r.wf(),
            r.entries@.len() == 0,
            r.max_size == max_size,
    {
        VoteCache { entries: Vec::new(), max_size }
    }

    pub fn len(&self) -> (r: usize)
        ensures
            r == self.entries@.len(),
    {
        self.entries.len()
    }

    /// The position of a hash in the cache, front to back.
    fn find(&self, hash: &BlockHash) -> (r: Option<usize>)
        ensures
            r is Some ==> r.unwrap() < self.entries@.len() && self.entries@[r.unwrap() as int].hash@
                == hash@,
            r is None ==> forall|i: int|
                0 <= i < self.entries@.len() ==> (#[trigger] self.entries@[i]).hash@ != hash@,
    {
        let n = self.entries.len();
        let mut i: usize = 0;
        while i < n
            invariant
                i <= n,
                n == self.entries@.len(),
                forall|j: int| 0 <= j < i ==> (#[trigger] self.entries@[j]).hash@ != hash@,
            decreases n - i,
        {
            if self.entries[i].hash == *hash {
                return Some(i);
            }
            i += 1;
        }
        None
    }

    /// Records a vote for a hash. A known hash keeps its entry,
    /// gaining the vote and moving to the back — so the order stays
    /// insertion order modulo hits. A new hash enters at the back; a
    /// full cache first evicts its oldest entry. The size never passes
    /// the bound.
    pub fn observe(&mut self, hash: BlockHash, vote: CachedVote)
        requires
            old(self).wf(),
            old(self).max_size > 0,
        ensures
            final(self).wf(),
            final(self).max_size == old(self).max_size,
            final(self).entries@.len() <= old(self).max_size,
            final(self).entries@.len() > 0,
            final(self).entries@.last().hash@ == hash@,
            (exists|i: int|
                0 <= i < old(self).entries@.len() && (#[trigger] old(self).entries@[i]).hash@
                    == hash@) ==> final(self).entries@.len() == old(self).entries@.len() && exists|
                i: int,
            |
                0 <= i < old(self).entries@.len() && (#[trigger] old(self).entries@[i]).hash@
                    == hash@ && final(self).entries@.drop_last() =~= old(self).entries@.remove(i)
                    && final(self).entries@.last().voters@ == old(self).entries@[i].voters@.push(vote),
            !(exists|i: int|
                0 <= i < old(self).entries@.len() && (#[trigger] old(self).entries@[i]).hash@
                    == hash@) && old(self).entries@.len() < old(self).max_size ==> final(self).entries@.drop_last() =~= old(self).entries@ && final(self).entries@.last().voters@
                =~= seq![vote],
            !(exists|i: int|
                0 <= i < old(self).entries@.len() && (#[trigger] old(self).entries@[i]).hash@
                    == hash@) && old(self).entries@.len() >= old(self).max_size ==> final(self).entries@.drop_last() =~= old(self).entries@.drop_first() && final(self).entries@.last().voters@ =~= seq![vote],
    {
        match self.find(&hash) {
            Some(i) => {
                let mut entry = CacheEntry {
                    hash: self.entries[i].hash,
                    voters: clone_votes(&self.entries[i].voters),
                };
                entry.voters.push(vote);
                self.entries.remove(i);
                self.entries.push(entry);
                proof {
                    assert(self.entries@.drop_last() =~= old(self).entries@.remove(i as int));
                    assert(0 <= i < old(self).entries@.len() && old(self).entries@[i as int].hash@
                        == hash@);
                }
            },
            None => {
                if self.entries.len() >= self.max_size {
                    self.entries.remove(0);
                    proof {
                        assert(self.entries@ =~= old(self).entries@.drop_first());
                    }
                }
                let mut voters: Vec<CachedVote> = Vec::new();
                voters.push(vote);
                self.entries.push(CacheEntry { hash, voters });
                proof {
                    if old(self).entries@.len() < old(self).max_size {
                        assert(self.entries@.drop_last() =~= old(self).entries@);
                    } else {
                        assert(self.entries@.drop_last() =~= old(self).entries@.drop_first());
                    }
                }
            },
        }
    }

    /// The cached votes for a hash: present exactly when the hash is
    /// cached, and equal to that entry's votes.
    pub fn find_votes(&self, hash: &BlockHash) -> (r: Option<Vec<CachedVote>>)
        ensures
            (r is Some) == (exists|i: int|
                0 <= i < self.entries@.len() && (#[trigger] self.entries@[i]).hash@ == hash@),
            r is Some ==> exists|i: int|
                0 <= i < self.entries@.len() && (#[trigger] self.entries@[i]).hash@ == hash@
                    && r.unwrap()@ == self.entries@[i].voters@,
    {
        match self.find(hash) {
            Some(i) => {
                let votes = clone_votes(&self.entries[i].voters);
                proof {
                    assert(0 <= i < self.entries@.len() && self.entries@[i as int].hash@ == hash@
                        && votes@ == self.entries@[i as int].voters@);
                }
                Some(votes)
            },
            None => None,
        }
    }
}

/// Copies a vote list.
fn clone_votes(v: &Vec<CachedVote>) -> (r: Vec<CachedVote>)
    ensures
        r@ == v@,
{
    let mut out: Vec<CachedVote> = Vec::new();
    let n = v.len();
    let mut i: usize = 0;
    while i < n
        invariant
            i <= n,
            n == v@.len(),
            out@ == v@.subrange(0, i as int),
        decreases n - i,
    {
        out.push(v[i]);
        proof {
            assert(out@ =~= v@.subrange(0, i + 1));
        }
        i += 1;
    }
    proof {
        assert(v@.subrange(0, n as int) =~= v@);
    }
    out
}

} // verus!
