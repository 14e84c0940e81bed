//! The confirming set: confirmed block hashes waiting to be cemented,
//! and cementation itself — the irreversible promotion of a chain
//! prefix into the confirmation-height table.

use vstd::prelude::*;

use crate::ledger::Ledger;
use crate::numbers::BlockHash;
use crate::store::ConfirmationHeightInfo;

verus! {

/// Confirmed hashes waiting for the cementing worker, deduplicated and
/// in arrival order.
pub struct ConfirmingSet {
    pub set: Vec<BlockHash>,
    pub batch_time_ms: u64,
    pub stopped: bool,
}

impl ConfirmingSet {
    pub fn new(batch_time_ms: u64) -> (r: ConfirmingSet)
        ensures
            r.set@.len() == 0,
            r.batch_time_ms == batch_time_ms,
            !r.stopped,
    {
        ConfirmingSet { set: Vec::new(), batch_time_ms, stopped: false }
    }

    /// Whether a hash is waiting.
    pub fn contains(&self, hash: &BlockHash) -> (r: bool)
        ensures
            r == (exists|i: int|
                0 <= i < self.set@.len() && (#[trigger] self.set@[i])@ == hash@),
    {
        let n = self.set.len();
        let mut i: usize = 0;
        while i < n
            invariant
                i <= n,
                n == self.set@.len(),
                forall|j: int| 0 <= j < i ==> (#[trigger] self.set@[j])@ != hash@,
            decreases n - i,
        {
            if self.set[i] == *hash {
                return true;
            }
            i += 1;
        }
        false
    }

    /// Queues a confirmed hash once.
    pub fn add(&mut self, hash: BlockHash)
        ensures
            final(self).batch_time_ms == old(self).batch_time_ms,
            final(self).stopped == old(self).stopped,
            exists|i: int|
                0 <= i < final(self).set@.len() && (#[trigger] final(self).set@[i])@ == hash@,
            (exists|i: int| 0 <= i < old(self).set@.len() && (#[trigger] old(self).set@[i])@
                == hash@) ==> final(self).set@ == old(self).set@,
            !(exists|i: int| 0 <= i < old(self).set@.len() && (#[trigger] old(self).set@[i])@
                == hash@) ==> final(self).set@ == old(self).set@.push(hash),
    {
        if !self.contains(&hash) {
            self.set.push(hash);
            proof {
                assert(self.set@.last()@ == hash@);
            }
        }
    }

    pub fn len(&self) -> (r: usize)
        ensures
            r == self.set@.len(),
    {
        self.set.len()
    }

    pub fn stop(&mut self)
        ensures
            final(self).stopped,
            final(self).set@ == old(self).set@,
    {
        self.stopped = true;
    }

    /// Takes up to `max` hashes for one cementing batch, oldest first;
    /// the batch bound keeps each write transaction short.
    pub fn next_batch(&mut self, max: usize) -> (r: Vec<BlockHash>)
        ensures
            final(self).batch_time_ms == old(self).batch_time_ms,
            final(self).stopped == old(self).stopped,
            r@.len() == (if old(self).set@.len() < max {
                old(self).set@.len() as int
            } else {
                max as int
            }),
            r@ == old(self).set@.take(r@.len() as int),
            final(self).set@ == old(self).set@.skip(r@.len() as int),
    {
        let count = if self.set.len() < max {
            self.set.len()
        } else {
            max
        };
        let mut out: Vec<BlockHash> = Vec::new();
        let mut i: usize = 0;
        while i < count
            invariant
                i <= count,
                count <= self.set@.len(),
                self.set@ == old(self).set@,
                out@ == self.set@.subrange(0, i as int),
            decreases count - i,
        {
            out.push(self.set[i]);
            proof {
                assert(out@ =~= self.set@.subrange(0, i + 1));
            }
            i += 1;
        }
        let mut rest: Vec<BlockHash> = Vec::new();
        let n = self.set.len();
        let mut j: usize = count;
        while j < n
            invariant
                count <= j <= n,
                n == self.set@.len(),
                self.set@ == old(self).set@,
                rest@ == self.set@.subrange(count as int, j as int),
            decreases n - j,
        {
            rest.push(self.set[j]);
            proof {
                assert(rest@ =~= self.set@.subrange(count as int, j + 1));
            }
            j += 1;
        }
        self.set = rest;
        proof {
            assert(self.set@ =~= old(self).set@.skip(count as int));
            assert(out@ =~= old(self).set@.take(count as int));
        }
        out
    }
}

/// Cements one confirmed block: raises its account's confirmation
/// height to the block's height. Cementation is monotonic — the height
/// never goes down — and returns how many blocks were newly cemented.
pub fn cement(ledger: &mut Ledger, hash: &BlockHash) -> (r: u64)
    requires
        old(ledger).inv(),
    ensures
        final(ledger).inv(),
        final(ledger).account_store == old(ledger).account_store,
        final(ledger).blocks == old(ledger).blocks,
        final(ledger).pending == old(ledger).pending,
        final(ledger).frontier == old(ledger).frontier,
        final(ledger).rep_weights == old(ledger).rep_weights,
        final(ledger).pruned == old(ledger).pruned,
        final(ledger).peer_store == old(ledger).peer_store,
        final(ledger).constants == old(ledger).constants,
        !old(ledger).spec_block_exists(hash@) ==> r == 0 && final(ledger).confirmation_height
            == old(ledger).confirmation_height,
        old(ledger).spec_block_exists(hash@) ==> {
            let stored = old(ledger).blocks.spec_get(hash@).unwrap();
            let account = stored.sideband.account;
            let before = (match old(ledger).confirmation_height.spec_get(account@) {
                Some(c) => c.height,
                None => 0,
            });
            &&& (stored.sideband.height <= before ==> r == 0 && final(ledger).confirmation_height == old(ledger).confirmation_height)
            &&& (stored.sideband.height > before ==> r == stored.sideband.height - before && {
                let after = final(ledger).confirmation_height.spec_get(account@);
                &&& after is Some
                &&& after.unwrap().height == stored.sideband.height
                &&& after.unwrap().frontier@ == hash@
                &&& after.unwrap().height >= before
                &&& forall|k: Seq<u8>|
                    k != account@ ==> #[trigger] final(ledger).confirmation_height.spec_get(k)
                        == old(ledger).confirmation_height.spec_get(k)
            })
        },
{
    let stored = match ledger.get_block(hash) {
        Some(s) => s,
        None => {
            return 0;
        },
    };
    let account = stored.sideband.account;
    let before: u64 = match ledger.confirmation_height.get(&account) {
        Some(c) => c.height,
        None => 0,
    };
    if stored.sideband.height <= before {
        return 0;
    }
    let info = ConfirmationHeightInfo { height: stored.sideband.height, frontier: *hash };
    ledger.confirmation_height.put(&account, info);
    stored.sideband.height - before
}

} // verus!
