//! The confirmation solicitor: batches confirm requests to peered
//! representatives and falls back to broadcasting when a channel's
//! batch is full.

use vstd::prelude::*;

use crate::messages::HASHES_MAX;
use crate::numbers::{Account, BlockHash};
use crate::stats::{DetailType, Direction, Stats, StatType};

verus! {

/// A representative the node holds a channel to.
#[derive(Clone, Copy, Debug)]
pub struct PeeredRep {
    pub account: Account,
    pub channel_id: u64,
}

impl PeeredRep {
    pub fn new(account: Account, channel_id: u64) -> (r: PeeredRep)
        ensures
            r.account@ == account@,
            r.channel_id == channel_id,
    {
        PeeredRep { account, channel_id }
    }
}

/// One channel's pending confirm-request batch.
pub struct ChannelBatch {
    pub channel_id: u64,
    pub hashes: Vec<BlockHash>,
}

/// Prepares one round of confirm requests to the peered
/// representatives; full channels force the election to broadcast.
pub struct ConfirmationSolicitor {
    pub batches: Vec<ChannelBatch>,
    pub prepared: bool,
}

impl ConfirmationSolicitor {
    pub open spec fn wf(&self) -> bool {
        forall|i: int|
            0 <= i < self.batches@.len() ==> (#[trigger] self.batches@[i]).hashes@.len()
                <= HASHES_MAX
    }

    pub fn new() -> (r: ConfirmationSolicitor)
        ensures
            r.wf(),
            r.batches@.len() == 0,
            !r.prepared,
    {
        ConfirmationSolicitor { batches: Vec::new(), prepared: false }
    }

    /// Begins a round: one empty batch per peered representative.
    pub fn prepare(&mut self, representatives: &Vec<PeeredRep>)
        ensures
            final(self).wf(),
            final(self).prepared,
            final(self).batches@.len() == representatives@.len(),
            forall|i: int|
                0 <= i < representatives@.len() ==> (#[trigger] final(self).batches@[i]).channel_id
                    == representatives@[i].channel_id && final(self).batches@[i].hashes@.len()
                    == 0,
    {
        let mut batches: Vec<ChannelBatch> = Vec::new();
        let n = representatives.len();
        let mut i: usize = 0;
        while i < n
            invariant
                i <= n,
                n == representatives@.len(),
                batches@.len() == i,
                forall|j: int|
                    0 <= j < i ==> (#[trigger] batches@[j]).channel_id
                        == representatives@[j].channel_id && batches@[j].hashes@.len() == 0,
            decreases n - i,
        {
            let hashes: Vec<BlockHash> = Vec::new();
            batches.push(ChannelBatch { channel_id: representatives[i].channel_id, hashes });
            i += 1;
        }
        self.batches = batches;
        self.prepared = true;
    }

    /// Offers an election's winner to every channel with room in its
    /// batch. Returns true exactly when no channel could take it — the
    /// round is saturated and the election must broadcast instead.
    pub fn add(&mut self, winner: &BlockHash) -> (r: bool)
        requires
            old(self).wf(),
        ensures
            final(self).wf(),
            final(self).prepared == old(self).prepared,
            final(self).batches@.len() == old(self).batches@.len(),
            r == (forall|i: int|
                0 <= i < old(self).batches@.len() ==> (#[trigger] old(self).batches@[i]).hashes@.len() >= HASHES_MAX),
            forall|i: int|
                0 <= i < old(self).batches@.len() ==> (#[trigger] final(self).batches@[i]).channel_id == old(self).batches@[i].channel_id && (final(self).batches@[i].hashes@ == old(self).batches@[i].hashes@ || final(self).batches@[i].hashes@ == old(self).batches@[i].hashes@.push(*winner)),
    {
        let n = self.batches.len();
        let mut any_added = false;
        let mut i: usize = 0;
        while i < n
            invariant
                i <= n,
                n == self.batches@.len(),
                n == old(self).batches@.len(),
                old(self).wf(),
                self.prepared == old(self).prepared,
                forall|j: int|
                    i <= j < n ==> (#[trigger] self.batches@[j]).channel_id == old(self).batches@[j].channel_id && self.batches@[j].hashes@ == old(self).batches@[j].hashes@,
                forall|j: int|
                    0 <= j < i ==> (#[trigger] self.batches@[j]).channel_id == old(self).batches@[j].channel_id && (self.batches@[j].hashes@ == old(self).batches@[j].hashes@ || self.batches@[j].hashes@ == old(self).batches@[j].hashes@.push(*winner)) && self.batches@[j].hashes@.len()
                        <= HASHES_MAX,
                any_added == exists|j: int|
                    0 <= j < i && (#[trigger] old(self).batches@[j]).hashes@.len() < HASHES_MAX,
            decreases n - i,
        {
            let ghost batches0 = self.batches@;
            let ghost added0 = any_added;
            if self.batches[i].hashes.len() < HASHES_MAX {
                let mut batch = ChannelBatch {
                    channel_id: self.batches[i].channel_id,
                    hashes: clone_hashes(&self.batches[i].hashes),
                };
                batch.hashes.push(*winner);
                self.batches.set(i, batch);
                any_added = true;
                proof {
                    assert(self.batches@ == batches0.update(i as int, batch));
                    assert(old(self).batches@[i as int].hashes@.len() < HASHES_MAX);
                    assert(self.batches@[i as int].hashes@ == old(self).batches@[i as int].hashes@.push(*winner));
                    assert forall|j: int|
                        0 <= j < n && j != i implies self.batches@[j] == batches0[j] by {}
                }
            } else {
                proof {
                    assert(self.batches@[i as int].hashes@ == old(self).batches@[i as int].hashes@);
                    if !added0 {
                        assert forall|j: int|
                            0 <= j < i + 1 implies !((#[trigger] old(self).batches@[j]).hashes@.len() < HASHES_MAX) by {}
                    }
                }
            }
            i += 1;
        }
        proof {
            assert forall|j: int|
                0 <= j < old(self).batches@.len() implies (#[trigger] self.batches@[j]).hashes@.len()
                <= HASHES_MAX by {}
        }
        !any_added
    }

    /// Broadcasts the winner instead: one publish directed at each
    /// representative's channel and one flooded at random, counted as
    /// outbound publishes.
    pub fn broadcast(&mut self, representatives: &Vec<PeeredRep>, stats: &mut Stats)
        requires
            old(stats).wf(),
            old(stats).spec_count(StatType::Message, DetailType::Publish, Direction::Out)
                + representatives@.len() + 1 <= u64::MAX,
        ensures
            final(stats).wf(),
            *final(self) == *old(self),
            final(stats).spec_count(StatType::Message, DetailType::Publish, Direction::Out) == old(stats).spec_count(StatType::Message, DetailType::Publish, Direction::Out)
                + representatives@.len() + 1,
    {
        let n = representatives.len();
        let mut i: usize = 0;
        while i < n
            invariant
                i <= n,
                n == representatives@.len(),
                stats.wf(),
                *self == *old(self),
                old(stats).spec_count(StatType::Message, DetailType::Publish, Direction::Out) + n
                    + 1 <= u64::MAX,
                stats.spec_count(StatType::Message, DetailType::Publish, Direction::Out) == old(stats).spec_count(StatType::Message, DetailType::Publish, Direction::Out) + i,
            decreases n - i,
        {
            stats.inc(StatType::Message, DetailType::Publish, Direction::Out);
            i += 1;
        }
        stats.inc(StatType::Message, DetailType::Publish, Direction::Out);
    }

    /// Sends every non-empty batch as one confirm request and counts
    /// each; the batches empty out.
    pub fn flush(&mut self, stats: &mut Stats) -> (r: u64)
        requires
            old(self).wf(),
            old(stats).wf(),
            old(stats).spec_count(StatType::Message, DetailType::ConfirmReq, Direction::Out) + old(self).batches@.len() <= u64::MAX,
        ensures
            final(self).wf(),
            final(stats).wf(),
            final(self).batches@.len() == 0,
            r <= old(self).batches@.len(),
            final(stats).spec_count(StatType::Message, DetailType::ConfirmReq, Direction::Out)
                == old(stats).spec_count(StatType::Message, DetailType::ConfirmReq, Direction::Out)
                + r,
            (forall|i: int|
                0 <= i < old(self).batches@.len() ==> (#[trigger] old(self).batches@[i]).hashes@.len() > 0) ==> r == old(self).batches@.len(),
    {
        let n = self.batches.len();
        let mut sent: u64 = 0;
        let mut i: usize = 0;
        while i < n
            invariant
                i <= n,
                n == self.batches@.len(),
                stats.wf(),
                self.batches@ == old(self).batches@,
                old(stats).spec_count(StatType::Message, DetailType::ConfirmReq, Direction::Out)
                    + n <= u64::MAX,
                sent <= i,
                stats.spec_count(StatType::Message, DetailType::ConfirmReq, Direction::Out) == old(stats).spec_count(StatType::Message, DetailType::ConfirmReq, Direction::Out) + sent,
                (forall|j: int|
                    0 <= j < i ==> (#[trigger] old(self).batches@[j]).hashes@.len() > 0) ==> sent
                    == i,
            decreases n - i,
        {
            if self.batches[i].hashes.len() > 0 {
                stats.inc(StatType::Message, DetailType::ConfirmReq, Direction::Out);
                sent = sent + 1;
            }
            i += 1;
        }
        self.batches = Vec::new();
        proof {
            assert(self.batches@ =~= Seq::<ChannelBatch>::empty());
        }
        sent
    }
}

/// How one channel's batch may change when a winner is offered: it is
/// untouched, or gained exactly that winner.
pub open spec fn final_batch_rel(
    pre_channel: u64,
    pre_hashes: Seq<BlockHash>,
    post_channel: u64,
    post_hashes: Seq<BlockHash>,
    winner: BlockHash,
) -> bool {
    post_channel == pre_channel && (post_hashes == pre_hashes || post_hashes == pre_hashes.push(
        winner,
    )) && post_hashes.len() <= HASHES_MAX
}

/// Copies a hash list.
fn clone_hashes(v: &Vec<BlockHash>) -> (r: Vec<BlockHash>)
    ensures
        r@ == v@,
{
    let mut out: Vec<BlockHash> = Vec::new();
    let n = v.len();
    let mut i: usize = 0;
    while i < n
        invariant
            i <= n,
            n == v@.len(),
            out@ == v@.subrange(0, i as int),
        decreases n - i,
    {
        out.push(v[i]);
        proof {
            assert(out@ =~= v@.subrange(0, i + 1));
        }
        i += 1;
    }
    proof {
        assert(v@.subrange(0, n as int) =~= v@);
    }
    out
}

} // verus!
