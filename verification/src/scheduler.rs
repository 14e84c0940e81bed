//! The priority scheduler: balance-weighted buckets of blocks waiting
//! for an election, and the activation rule that feeds them.

use vstd::prelude::*;

use crate::ledger::Ledger;
use crate::numbers::{Account, Amount, BlockHash};
use crate::stats::{DetailType, Direction, Stats, StatType};
use crate::store::StoreKey;

verus! {

/// The most blocks one bucket holds before it evicts.
pub const BUCKET_MAX: usize = 250;

/// The number of entries a bucket contributes to the total.
pub open spec fn bucket_len_of() -> spec_fn(Vec<(u64, BlockHash)>) -> int {
    |b: Vec<(u64, BlockHash)>| b@.len() as int
}

/// How one push relates a bucket's entries before and after: the pair
/// is inserted in time order; if the bucket overflows, the entry with
/// the greatest time leaves and is handed back. Nothing is dropped
/// silently.
pub open spec fn push_rel(
    pre: Seq<(u64, BlockHash)>,
    post: Seq<(u64, BlockHash)>,
    time: u64,
    hash: BlockHash,
    evicted: Option<(u64, BlockHash)>,
) -> bool {
    exists|p: int|
        0 <= p <= pre.len() && (match evicted {
            None => post == pre.insert(p, (time, hash)) && pre.len() < BUCKET_MAX,
            Some(e) => post == pre.insert(p, (time, hash)).drop_last() && e == pre.insert(
                p,
                (time, hash),
            ).last() && pre.len() >= BUCKET_MAX,
        })
}

/// Copies a bucket's entries.
fn clone_bucket(v: &Vec<(u64, BlockHash)>) -> (r: Vec<(u64, BlockHash)>)
    ensures
        r@ == v@,
{
    let mut out: Vec<(u64, BlockHash)> = Vec::new();
    let n = v.len();
    let mut i: usize = 0;
    while i < n
        invariant
            i <= n,
            n == v@.len(),
            out@ == v@.subrange(0, i as int),
        decreases n - i,
    {
        out.push(v[i]);
        proof {
            assert(out@ =~= v@.subrange(0, i + 1));
        }
        i += 1;
    }
    proof {
        assert(v@.subrange(0, n as int) =~= v@);
    }
    out
}

/// Balance-weighted buckets of (activation time, block) pairs, each
/// ascending by time.
pub struct Buckets {
    pub thresholds: Vec<u128>,
    pub buckets: Vec<Vec<(u64, BlockHash)>>,
    pub current: usize,
}

impl Buckets {
    /// Each bucket ascending by time; one bucket per threshold.
    pub open spec fn wf(&self) -> bool {
        &&& self.buckets@.len() == self.thresholds@.len()
        &&& 0 < self.buckets@.len() < 0x1000
        &&& self.current < self.buckets@.len()
        &&& forall|b: int, i: int, j: int|
            0 <= b < self.buckets@.len() && 0 <= i < j < self.buckets@[b]@.len() ==> (
            #[trigger] self.buckets@[b]@[i]).0 <= (#[trigger] self.buckets@[b]@[j]).0
    }

    /// How many blocks all buckets hold together.
    pub open spec fn spec_total_len(&self) -> int {
        crate::ledger::sum_by(self.buckets@, bucket_len_of())
    }

    /// The default bucket layout: a zero bucket, then one per power of
    /// two from 2^88 up.
    pub fn new() -> (r: Buckets)
        ensures
            r.wf(),
            forall|b: int| 0 <= b < r.buckets@.len() ==> (#[trigger] r.buckets@[b])@.len() == 0,
    {
        let mut thresholds: Vec<u128> = Vec::new();
        thresholds.push(0);
        let mut k: u32 = 88;
        while k < 128
            invariant
                88 <= k <= 128,
                thresholds@.len() == k - 87,
            decreases 128 - k,
        {
            thresholds.push(1u128 << k);
            k += 1;
        }
        let mut buckets: Vec<Vec<(u64, BlockHash)>> = Vec::new();
        let n = thresholds.len();
        let mut i: usize = 0;
        while i < n
            invariant
                i <= n,
                buckets@.len() == i,
                forall|b: int| 0 <= b < i ==> (#[trigger] buckets@[b])@.len() == 0,
            decreases n - i,
        {
            let empty: Vec<(u64, BlockHash)> = Vec::new();
            buckets.push(empty);
            i += 1;
        }
        Buckets { thresholds, buckets, current: 0 }
    }

    /// The bucket a priority balance falls into: the last threshold
    /// not above it.
    pub open spec fn spec_bucket_index_from(thresholds: Seq<u128>, priority: u128, i: int) -> int
        decreases thresholds.len() - i,
    {
        if i < 0 || i >= thresholds.len() {
            i - 1
        } else if thresholds[i] <= priority {
            Self::spec_bucket_index_from(thresholds, priority, i + 1)
        } else {
            i - 1
        }
    }

    pub open spec fn spec_bucket_index(&self, priority: u128) -> int {
        Self::spec_bucket_index_from(self.thresholds@, priority, 1)
    }

    /// Picks the bucket for a priority balance.
    pub fn bucket_index(&self, priority: u128) -> (r: usize)
        requires
            self.wf(),
        ensures
            r == self.spec_bucket_index(priority),
            r < self.buckets@.len(),
    {
        let n = self.thresholds.len();
        let mut i: usize = 1;
        while i < n
            invariant
                1 <= i <= n,
                n == self.thresholds@.len(),
                n == self.buckets@.len(),
                n > 0,
                self.spec_bucket_index(priority) == Self::spec_bucket_index_from(
                    self.thresholds@,
                    priority,
                    i as int,
                ),
            decreases n - i,
        {
            if !(self.thresholds[i] <= priority) {
                return i - 1;
            }
            i += 1;
        }
        n - 1
    }

    /// Inserts a block into the bucket its priority selects, keeping
    /// the bucket ascending by time; an overflowing bucket hands back
    /// its latest entry. No block is lost silently.
    pub fn push(&mut self, time: u64, hash: BlockHash, priority: Amount) -> (r: Option<
        (u64, BlockHash)>)
        requires
            old(self).wf(),
        ensures
            final(self).wf(),
            final(self).thresholds@ == old(self).thresholds@,
            final(self).current == old(self).current,
            final(self).buckets@.len() == old(self).buckets@.len(),
            0 <= old(self).spec_bucket_index(priority.raw) < old(self).buckets@.len(),
            push_rel(
                old(self).buckets@[old(self).spec_bucket_index(priority.raw)]@,
                final(self).buckets@[old(self).spec_bucket_index(priority.raw)]@,
                time,
                hash,
                r,
            ),
            forall|b: int|
                0 <= b < old(self).buckets@.len() && b != old(self).spec_bucket_index(priority.raw)
                    ==> (#[trigger] final(self).buckets@[b])@ == old(self).buckets@[b]@,
    {
        let idx = self.bucket_index(priority.number());
        let ghost pre = self.buckets@[idx as int]@;
        let mut bucket = clone_bucket(&self.buckets[idx]);
        let n = bucket.len();
        let mut p: usize = 0;
        while p < n && bucket[p].0 <= time
            invariant
                p <= n,
                n == bucket@.len(),
                bucket@ == pre,
                forall|j: int| 0 <= j < p ==> pre[j].0 <= time,
            decreases n - p,
        {
            p += 1;
        }
        let ghost mid = pre.insert(p as int, (time, hash));
        bucket.insert(p, (time, hash));
        let evicted: Option<(u64, BlockHash)> = if bucket.len() > BUCKET_MAX {
            let last = bucket[bucket.len() - 1];
            bucket.pop();
            Some(last)
        } else {
            None
        };
        self.buckets.set(idx, bucket);
        proof {
            let bi = idx as int;
            assert(self.buckets@[bi]@ == (match evicted {
                None => mid,
                Some(_) => mid.drop_last(),
            }));
            assert forall|b: int, i: int, j: int|
                0 <= b < self.buckets@.len() && 0 <= i < j < self.buckets@[b]@.len() implies (
            #[trigger] self.buckets@[b]@[i]).0 <= (#[trigger] self.buckets@[b]@[j]).0 by {
                if b == bi {
                    let pi = p as int;
                    if i < pi {
                        assert(mid[i] == pre[i]);
                    } else if i == pi {
                        assert(mid[i] == (time, hash));
                    } else {
                        assert(mid[i] == pre[i - 1]);
                    }
                    if j < pi {
                        assert(mid[j] == pre[j]);
                    } else if j == pi {
                        assert(mid[j] == (time, hash));
                    } else {
                        assert(mid[j] == pre[j - 1]);
                    }
                    if i < pi && j == pi {
                        assert(pre[i].0 <= time);
                    } else if i == pi && j > pi {
                        assert(time <= pre[pi].0);
                        assert(pre[pi].0 <= pre[j - 1].0);
                    }
                } else {
                    assert(self.buckets@[b]@ == old(self).buckets@[b]@);
                }
            }
            assert(push_rel(pre, self.buckets@[bi]@, time, hash, evicted));
        }
        evicted
    }

    /// Pops the oldest entry of the first non-empty bucket at or after
    /// the fairness cursor, wrapping around; the cursor advances past
    /// the bucket served.
    pub fn pop(&mut self) -> (r: Option<(u64, BlockHash)>)
        requires
            old(self).wf(),
        ensures
            final(self).wf(),
            final(self).thresholds@ == old(self).thresholds@,
            r is None ==> *final(self) == *old(self) && (forall|b: int|
                0 <= b < old(self).buckets@.len() ==> (#[trigger] old(self).buckets@[b])@.len()
                    == 0),
            r is Some ==> exists|b: int|
                0 <= b < old(self).buckets@.len() && (#[trigger] old(self).buckets@[b])@.len() > 0
                    && r.unwrap() == old(self).buckets@[b]@[0] && final(self).buckets@[b]@ == old(self).buckets@[b]@.drop_first() && (forall|c: int|
                    0 <= c < old(self).buckets@.len() && c != b ==> (#[trigger] final(self).buckets@[c])@ == old(self).buckets@[c]@),
    {
        let n = self.buckets.len();
        let mut step: usize = 0;
        while step < n
            invariant
                step <= n,
                n == self.buckets@.len(),
                *self == *old(self),
                old(self).wf(),
                forall|s: int|
                    0 <= s < step ==> (#[trigger] old(self).buckets@[(
                        (old(self).current + s) % (n as int)
                    )])@.len() == 0,
            decreases n - step,
        {
            let b = (self.current + step) % n;
            if self.buckets[b].len() > 0 {
                let ghost pre = self.buckets@[b as int]@;
                let front = self.buckets[b][0];
                let mut bucket = clone_bucket(&self.buckets[b]);
                bucket.remove(0);
                self.buckets.set(b, bucket);
                self.current = (b + 1) % n;
                proof {
                    assert(self.buckets@[b as int]@ =~= pre.drop_first());
                    assert forall|bb: int, i: int, j: int|
                        0 <= bb < self.buckets@.len() && 0 <= i < j < self.buckets@[bb]@.len()
                        implies (#[trigger] self.buckets@[bb]@[i]).0 <= (
                    #[trigger] self.buckets@[bb]@[j]).0 by {
                        if bb == b as int {
                            assert(self.buckets@[bb]@[i] == pre[i + 1]);
                            assert(self.buckets@[bb]@[j] == pre[j + 1]);
                        } else {
                            assert(self.buckets@[bb]@ == old(self).buckets@[bb]@);
                        }
                    }
                }
                return Some(front);
            }
            step += 1;
        }
        proof {
            assert forall|b: int|
                0 <= b < old(self).buckets@.len() implies (#[trigger] old(self).buckets@[b])@.len() == 0 by {
                let s = (b - old(self).current as int) % (n as int);
                vstd::arithmetic::div_mod::lemma_mod_bound(
                    b - old(self).current as int,
                    n as int,
                );
                vstd::arithmetic::div_mod::lemma_add_mod_noop(
                    old(self).current as int,
                    b - old(self).current as int,
                    n as int,
                );
                vstd::arithmetic::div_mod::lemma_small_mod(b as nat, n as nat);
                vstd::arithmetic::div_mod::lemma_small_mod(
                    old(self).current as nat,
                    n as nat,
                );
                assert((old(self).current + s) % (n as int) == b);
            }
        }
        None
    }

    /// How many blocks are waiting in all buckets.
    pub fn len(&self) -> (r: usize)
        requires
            self.wf(),
            self.spec_total_len() <= usize::MAX,
        ensures
            r == self.spec_total_len(),
    {
        let n = self.buckets.len();
        let mut total: usize = 0;
        let mut i: usize = 0;
        proof {
            assert(self.buckets@.take(0int) =~= Seq::<Vec<(u64, BlockHash)>>::empty());
            assert(self.buckets@.skip(0int) =~= self.buckets@);
        }
        while i < n
            invariant
                i <= n,
                n == self.buckets@.len(),
                self.spec_total_len() <= usize::MAX,
                total == crate::ledger::sum_by(self.buckets@.take(i as int), bucket_len_of()),
                crate::ledger::sum_by(self.buckets@.take(i as int), bucket_len_of())
                    + crate::ledger::sum_by(self.buckets@.skip(i as int), bucket_len_of())
                    == self.spec_total_len(),
            decreases n - i,
        {
            proof {
                let f = bucket_len_of();
                assert(self.buckets@.take(i + 1).drop_last() =~= self.buckets@.take(i as int));
                assert(self.buckets@.take(i + 1).last() == self.buckets@[i as int]);
                lemma_sum_split(self.buckets@, i as int, f);
                lemma_sum_split(self.buckets@, i + 1, f);
                lemma_sum_nonneg(self.buckets@.skip(i + 1), f);
                assert forall|e: Vec<(u64, BlockHash)>| #[trigger] f(e) >= 0 by {}
            }
            total = total + self.buckets[i].len();
            i += 1;
        }
        proof {
            assert(self.buckets@.take(n as int) =~= self.buckets@);
        }
        total
    }

    pub fn is_empty(&self) -> (r: bool)
        requires
            self.wf(),
            self.spec_total_len() <= usize::MAX,
        ensures
            r == (self.spec_total_len() == 0),
    {
        let total = self.len();
        proof {
            if self.spec_total_len() != 0 {
                assert forall|e: Vec<(u64, BlockHash)>| #[trigger] bucket_len_of()(e) >= 0 by {}
                lemma_sum_nonneg(self.buckets@, bucket_len_of());
            }
        }
        total == 0
    }
}

/// A sum of bucket lengths over all-empty buckets is zero.
pub proof fn lemma_sum_zero_of_empty(s: Seq<Vec<(u64, BlockHash)>>)
    requires
        forall|b: int| 0 <= b < s.len() ==> (#[trigger] s[b])@.len() == 0,
    ensures
        crate::ledger::sum_by(s, bucket_len_of()) == 0,
    decreases s.len(),
{
    if s.len() > 0 {
        assert forall|b: int| 0 <= b < s.drop_last().len() implies (
        #[trigger] s.drop_last()[b])@.len() == 0 by {
            assert(s.drop_last()[b] == s[b]);
        }
        lemma_sum_zero_of_empty(s.drop_last());
    }
}

/// A prefix sum and the matching suffix sum make the whole.
pub proof fn lemma_sum_split<T>(s: Seq<T>, i: int, f: spec_fn(T) -> int)
    requires
        0 <= i <= s.len(),
    ensures
        crate::ledger::sum_by(s.take(i), f) + crate::ledger::sum_by(s.skip(i), f)
            == crate::ledger::sum_by(s, f),
    decreases s.len() - i,
{
    if i == s.len() {
        assert(s.take(i) =~= s);
        assert(s.skip(i) =~= Seq::<T>::empty());
    } else {
        lemma_sum_split(s, i + 1, f);
        assert(s.take(i + 1).drop_last() =~= s.take(i));
        assert(s.take(i + 1).last() == s[i]);
        lemma_sum_first(s.skip(i), f);
        assert(s.skip(i).drop_first() =~= s.skip(i + 1));
        assert(s.skip(i)[0] == s[i]);
    }
}

/// A sum splits off its first element.
pub proof fn lemma_sum_first<T>(s: Seq<T>, f: spec_fn(T) -> int)
    requires
        s.len() > 0,
    ensures
        crate::ledger::sum_by(s, f) == f(s[0]) + crate::ledger::sum_by(s.drop_first(), f),
    decreases s.len(),
{
    if s.len() == 1 {
        assert(s.drop_last() =~= Seq::<T>::empty());
        assert(s.drop_first() =~= Seq::<T>::empty());
    } else {
        lemma_sum_first(s.drop_last(), f);
        assert(s.drop_last().drop_first() =~= s.drop_first().drop_last());
        assert(s.drop_last()[0] == s[0]);
        assert(s.drop_first().last() == s.last());
    }
}

/// A sum of lengths is never negative.
pub proof fn lemma_sum_nonneg<T>(s: Seq<T>, f: spec_fn(T) -> int)
    requires
        forall|e: T| #[trigger] f(e) >= 0,
    ensures
        crate::ledger::sum_by(s, f) >= 0,
    decreases s.len(),
{
    if s.len() > 0 {
        lemma_sum_nonneg(s.drop_last(), f);
    }
}


/// The first stored block whose predecessor is `parent` on the given
/// account's chain, scanning the block table in key order.
pub open spec fn spec_find_successor(
    entries: Seq<(BlockHash, crate::ledger::StoredBlock)>,
    parent: Seq<u8>,
    account: Seq<u8>,
) -> Option<BlockHash>
    decreases entries.len(),
{
    if entries.len() == 0 {
        None
    } else if entries[0].1.block.spec_previous() == parent && entries[0].1.sideband.account@
        == account {
        Some(entries[0].0)
    } else {
        spec_find_successor(entries.drop_first(), parent, account)
    }
}

/// Whether the dependencies of a stored block are confirmed, at the
/// spec level: a received source must be cemented on its own account.
pub open spec fn spec_dependents_confirmed(
    ledger: &Ledger,
    stored: &crate::ledger::StoredBlock,
) -> bool {
    if stored.sideband.details.is_receive {
        match spec_source_of(&stored.block) {
            Some(source) => match ledger.blocks.spec_get(source) {
                Some(source_stored) => {
                    let conf = match ledger.confirmation_height.spec_get(
                        source_stored.sideband.account@,
                    ) {
                        Some(c) => c.height,
                        None => 0,
                    };
                    conf >= source_stored.sideband.height
                },
                None => false,
            },
            None => true,
        }
    } else {
        true
    }
}

/// The source hash a block receives from, if its variant has one.
pub open spec fn spec_source_of(block: &crate::blocks::BlockEnum) -> Option<Seq<u8>> {
    match block {
        crate::blocks::BlockEnum::Open(b) => Some(b.hashables.source@),
        crate::blocks::BlockEnum::Receive(b) => Some(b.hashables.source@),
        crate::blocks::BlockEnum::State(b) => Some(b.hashables.link@),
        _ => None,
    }
}

/// The activation rule of the scheduler, exactly: an account activates
/// when it has an unconfirmed block whose dependencies are confirmed;
/// the result names the activation time, the block, and the balance
/// priority.
pub open spec fn spec_activation_target(ledger: &Ledger, account: Seq<u8>) -> Option<
    (u64, Seq<u8>, u128)> {
    match ledger.spec_account_info(account) {
        None => None,
        Some(info) => {
            let conf_height = match ledger.confirmation_height.spec_get(account) {
                Some(c) => c.height,
                None => 0,
            };
            let conf_frontier = match ledger.confirmation_height.spec_get(account) {
                Some(c) => c.frontier@,
                None => crate::ledger::zero32(),
            };
            if conf_height >= info.block_count {
                None
            } else {
                let hash_opt = if conf_height == 0 {
                    Some(info.open_block@)
                } else {
                    match spec_find_successor(ledger.blocks.entries@, conf_frontier, account) {
                        Some(h) => Some(h@),
                        None => None,
                    }
                };
                match hash_opt {
                    None => None,
                    Some(hash) => match ledger.blocks.spec_get(hash) {
                        None => None,
                        Some(stored) => if !spec_dependents_confirmed(ledger, &stored) {
                            None
                        } else {
                            let balance = ledger.spec_balance(hash);
                            let previous_balance = ledger.spec_balance(conf_frontier);
                            let priority = if balance >= previous_balance {
                                balance
                            } else {
                                previous_balance
                            };
                            Some((info.modified, hash, priority))
                        },
                    },
                }
            }
        },
    }
}

/// Feeds accounts with unconfirmed blocks into the buckets.
pub struct PriorityScheduler {
    pub stopped: bool,
    pub buckets: Buckets,
}

impl PriorityScheduler {
    pub open spec fn wf(&self) -> bool {
        self.buckets.wf()
    }

    pub fn new() -> (r: PriorityScheduler)
        ensures
            r.wf(),
            !r.stopped,
            forall|b: int|
                0 <= b < r.buckets.buckets@.len() ==> (#[trigger] r.buckets.buckets@[b])@.len()
                    == 0,
    {
        PriorityScheduler { stopped: false, buckets: Buckets::new() }
    }

    /// Marks the scheduler stopped; the worker loop drains out.
    pub fn stop(&mut self)
        ensures
            final(self).stopped,
            final(self).buckets == old(self).buckets,
    {
        self.stopped = true;
    }

    /// Whether the account has an unconfirmed block whose dependencies
    /// are confirmed; if so, which block to activate and at what
    /// priority.
    fn activation_target(&self, ledger: &Ledger, account: &Account) -> (r: Option<
        (u64, BlockHash, Amount)>)
        requires
            ledger.inv(),
        ensures
            (r is Some) == (spec_activation_target(ledger, account@) is Some),
            r is Some ==> {
                let target = spec_activation_target(ledger, account@).unwrap();
                &&& r.unwrap().0 == target.0
                &&& r.unwrap().1@ == target.1
                &&& r.unwrap().2.raw == target.2
            },
    {
        let info = match ledger.account_info(account) {
            Some(i) => i,
            None => {
                return None;
            },
        };
        let conf_height: u64 = match ledger.confirmation_height.get(account) {
            Some(c) => c.height,
            None => 0,
        };
        let conf_frontier: BlockHash = match ledger.confirmation_height.get(account) {
            Some(c) => c.frontier,
            None => BlockHash::zero(),
        };
        if conf_height >= info.block_count {
            return None;
        }
        let hash = if conf_height == 0 {
            info.open_block
        } else {
            match find_successor(ledger, &conf_frontier, account) {
                Some(h) => h,
                None => {
                    return None;
                },
            }
        };
        let stored = match ledger.get_block(&hash) {
            Some(s) => s,
            None => {
                return None;
            },
        };
        if !dependents_confirmed(ledger, &stored) {
            return None;
        }
        let balance = ledger.balance(&hash);
        let previous_balance = ledger.balance(&conf_frontier);
        let priority = if balance.number() >= previous_balance.number() {
            balance
        } else {
            previous_balance
        };
        Some((info.modified, hash, priority))
    }

    /// Activates an account: if its next unconfirmed block has all its
    /// dependencies confirmed, the block enters the bucket its balance
    /// selects and the activation is counted.
    pub fn activate(&mut self, ledger: &Ledger, stats: &mut Stats, account: &Account) -> (r: bool)
        requires
            old(self).wf(),
            old(stats).wf(),
            ledger.inv(),
        ensures
            final(self).wf(),
            final(stats).wf(),
            !r ==> *final(self) == *old(self) && final(stats).spec_count(
                StatType::ElectionScheduler,
                DetailType::Activated,
                Direction::In,
            ) == old(stats).spec_count(
                StatType::ElectionScheduler,
                DetailType::Activated,
                Direction::In,
            ),
            r ==> final(stats).spec_count(
                StatType::ElectionScheduler,
                DetailType::Activated,
                Direction::In,
            ) == (if old(stats).spec_count(
                StatType::ElectionScheduler,
                DetailType::Activated,
                Direction::In,
            ) < u64::MAX {
                old(stats).spec_count(
                    StatType::ElectionScheduler,
                    DetailType::Activated,
                    Direction::In,
                ) + 1
            } else {
                0
            }),
            r == (spec_activation_target(ledger, account@) is Some),
            r ==> activated_rel(
                old(self),
                final(self),
                spec_activation_target(ledger, account@).unwrap(),
            ),
    {
        let target = match self.activation_target(ledger, account) {
            Some(t) => t,
            None => {
                return false;
            },
        };
        let (modified, hash, priority) = target;
        stats.inc(StatType::ElectionScheduler, DetailType::Activated, Direction::In);
        let evicted = self.buckets.push(modified, hash, priority);
        proof {
            let idx = old(self).buckets.spec_bucket_index(priority.raw);
            assert(0 <= idx < old(self).buckets.buckets@.len());
            assert(push_rel(
                old(self).buckets.buckets@[idx]@,
                self.buckets.buckets@[idx]@,
                modified,
                hash,
                evicted,
            ));
            assert(forall|b: int|
                0 <= b < old(self).buckets.buckets@.len() && b != idx ==> (
                #[trigger] self.buckets.buckets@[b])@ == old(self).buckets.buckets@[b]@);
            let target = spec_activation_target(ledger, account@).unwrap();
            assert(hash@ == target.1 && modified == target.0 && priority.raw == target.2);
            assert(activated_rel(old(self), self, target));
        }
        true
    }

    /// Activates the block's own account and, for a send, the
    /// destination account.
    pub fn activate_successors(&mut self, ledger: &Ledger, stats: &mut Stats, hash: &BlockHash)
        requires
            old(self).wf(),
            old(stats).wf(),
            ledger.inv(),
        ensures
            final(self).wf(),
            final(stats).wf(),
            ledger.blocks.spec_get(hash@) is None ==> *final(self) == *old(self) && *final(stats)
                == *old(stats),
            ledger.blocks.spec_get(hash@) is Some ==> {
                let stored = ledger.blocks.spec_get(hash@).unwrap();
                let account = stored.sideband.account@;
                exists|mid: PriorityScheduler|
                    #[trigger] activation_step(old(self), &mid, ledger, account) && (if
                        spec_destination_considered(&stored, account) {
                        activation_step(
                            &mid,
                            final(self),
                            ledger,
                            spec_send_destination(&stored).unwrap(),
                        )
                    } else {
                        *final(self) == mid
                    })
            },
    {
        let stored = match ledger.get_block(hash) {
            Some(s) => s,
            None => {
                return ;
            },
        };
        let account = stored.sideband.account;
        let _ = self.activate(ledger, stats, &account);
        let ghost mid = *self;
        proof {
            assert(activation_step(old(self), &mid, ledger, account@));
        }
        let destination: Option<Account> = match &stored.block {
            crate::blocks::BlockEnum::Send(b) => Some(b.hashables.destination),
            crate::blocks::BlockEnum::State(b) => {
                if stored.sideband.details.is_send {
                    Some(b.hashables.link.to_account())
                } else {
                    None
                }
            },
            _ => None,
        };
        let mut considered = false;
        if let Some(destination) = destination {
            if !destination.is_zero() && !(destination == account) {
                considered = true;
                let _ = self.activate(ledger, stats, &destination);
                proof {
                    assert(spec_destination_considered(&stored, account@));
                    assert(activation_step(
                        &mid,
                        self,
                        ledger,
                        spec_send_destination(&stored).unwrap(),
                    ));
                }
            }
        }
        proof {
            if !considered {
                assert(!spec_destination_considered(&stored, account@));
                assert(*self == mid);
            }
        }
    }

    /// One worker step: with vacancy in the active set and a waiting
    /// block, pops the next block to elect.
    pub fn next_election(&mut self, vacancy: usize) -> (r: Option<BlockHash>)
        requires
            old(self).wf(),
            old(self).buckets.spec_total_len() <= usize::MAX,
        ensures
            final(self).wf(),
            final(self).stopped == old(self).stopped,
            old(self).stopped || vacancy == 0 ==> r is None && *final(self) == *old(self),
            !old(self).stopped && vacancy > 0 && old(self).buckets.spec_total_len() > 0 ==> r
                is Some,
            r is None ==> *final(self) == *old(self),
            r is Some ==> exists|b: int|
                0 <= b < old(self).buckets.buckets@.len() && (#[trigger] old(self).buckets.buckets@[b])@.len() > 0 && r.unwrap()@ == old(self).buckets.buckets@[b]@[0].1@ && final(self).buckets.buckets@[b]@ == old(self).buckets.buckets@[b]@.drop_first() && (forall|c: int|
                    0 <= c < old(self).buckets.buckets@.len() && c != b ==> (#[trigger] final(self).buckets.buckets@[c])@ == old(self).buckets.buckets@[c]@),
    {
        if self.stopped {
            return None;
        }
        if vacancy == 0 {
            return None;
        }
        match self.buckets.pop() {
            Some((_, hash)) => Some(hash),
            None => {
                proof {
                    lemma_sum_zero_of_empty(self.buckets.buckets@);
                }
                None
            },
        }
    }
}

/// How a successful activation relates the scheduler before and
/// after: the activation target's block entered the bucket its
/// priority selects, keyed by the account's modified time, possibly
/// returning an evicted pair, and every other bucket is untouched.
pub open spec fn activated_rel(
    pre: &PriorityScheduler,
    post: &PriorityScheduler,
    target: (u64, Seq<u8>, u128),
) -> bool {
    let idx = pre.buckets.spec_bucket_index(target.2);
    &&& 0 <= idx < pre.buckets.buckets@.len()
    &&& exists|h: BlockHash, evicted: Option<(u64, BlockHash)>|
        h@ == target.1 && #[trigger] push_rel(
            pre.buckets.buckets@[idx]@,
            post.buckets.buckets@[idx]@,
            target.0,
            h,
            evicted,
        )
    &&& forall|b: int|
        0 <= b < pre.buckets.buckets@.len() && b != idx ==> (
        #[trigger] post.buckets.buckets@[b])@ == pre.buckets.buckets@[b]@
}

/// The account a send-style block pays, if it is one: a legacy send's
/// destination, or a state send's link.
pub open spec fn spec_send_destination(stored: &crate::ledger::StoredBlock) -> Option<Seq<u8>> {
    match &stored.block {
        crate::blocks::BlockEnum::Send(b) => Some(b.hashables.destination@),
        crate::blocks::BlockEnum::State(b) => if stored.sideband.details.is_send {
            Some(b.hashables.link@)
        } else {
            None
        },
        _ => None,
    }
}

/// Whether a send's destination is itself activated: it must be a real
/// account other than the sender.
pub open spec fn spec_destination_considered(
    stored: &crate::ledger::StoredBlock,
    account: Seq<u8>,
) -> bool {
    match spec_send_destination(stored) {
        Some(d) => d != crate::ledger::zero32() && d != account,
        None => false,
    }
}

/// One attempted activation of one account: either the activation rule
/// fires and the target's block enters its bucket, or nothing changes.
pub open spec fn activation_step(
    pre: &PriorityScheduler,
    post: &PriorityScheduler,
    ledger: &Ledger,
    account: Seq<u8>,
) -> bool {
    match spec_activation_target(ledger, account) {
        Some(target) => activated_rel(pre, post, target),
        None => post == pre,
    }
}

/// The first stored block whose predecessor is `parent` on the given
/// account's chain.
pub fn find_successor(ledger: &Ledger, parent: &BlockHash, account: &Account) -> (r: Option<
    BlockHash>)
    requires
        ledger.inv(),
    ensures
        r == spec_find_successor(ledger.blocks.entries@, parent@, account@),
        r is Some ==> ledger.spec_block_exists(r.unwrap()@),
{
    let n = ledger.blocks.entries.len();
    let ghost full = ledger.blocks.entries@;
    let mut i: usize = 0;
    proof {
        assert(full.skip(0int) =~= full);
    }
    while i < n
        invariant
            i <= n,
            n == ledger.blocks.entries@.len(),
            full == ledger.blocks.entries@,
            ledger.inv(),
            spec_find_successor(full, parent@, account@) == spec_find_successor(
                full.skip(i as int),
                parent@,
                account@,
            ),
        decreases n - i,
    {
        let (hash, stored) = ledger.blocks.entries[i];
        proof {
            assert(full.skip(i as int)[0] == full[i as int]);
        }
        if stored.block.previous() == *parent && stored.sideband.account == *account {
            proof {
                crate::store::lemma_assoc_get_present(
                    ledger.blocks.view_entries(),
                    hash.key_view(),
                    i as int,
                );
            }
            return Some(hash);
        }
        proof {
            assert(full.skip(i as int).drop_first() =~= full.skip(i + 1));
        }
        i += 1;
    }
    proof {
        assert(full.skip(n as int) =~= Seq::<(BlockHash, crate::ledger::StoredBlock)>::empty());
    }
    None
}

/// Whether the dependencies of a stored block are all confirmed: a
/// received source must be cemented on its own account.
pub fn dependents_confirmed(ledger: &Ledger, stored: &crate::ledger::StoredBlock) -> (r: bool)
    requires
        ledger.inv(),
    ensures
        r == spec_dependents_confirmed(ledger, stored),
{
    if stored.sideband.details.is_receive {
        let source: Option<BlockHash> = match &stored.block {
            crate::blocks::BlockEnum::Open(b) => Some(b.hashables.source),
            crate::blocks::BlockEnum::Receive(b) => Some(b.hashables.source),
            crate::blocks::BlockEnum::State(b) => Some(b.hashables.link.to_block_hash()),
            _ => None,
        };
        if let Some(source) = source {
            let source_stored = match ledger.get_block(&source) {
                Some(s) => s,
                None => {
                    return false;
                },
            };
            let conf: u64 = match ledger.confirmation_height.get(&source_stored.sideband.account) {
                Some(c) => c.height,
                None => 0,
            };
            if conf < source_stored.sideband.height {
                return false;
            }
        }
    }
    true
}


/// The runtime face of the scheduler: starting its worker. The loop
/// itself waits on a condition variable and spawns a thread, so the
/// runtime around the library implements this for its own handle.
pub trait PrioritySchedulerExt {
    fn start(&self);
}

} // verus!
