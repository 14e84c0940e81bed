//! Legacy bootstrap bookkeeping: the attempt counters, the frontier
//! pull list with its shuffle, and the bulk-push targets.

use vstd::prelude::*;
use vstd::multiset::Multiset;

use crate::crypto::random_index_up_to;
use crate::numbers::{Account, BlockHash};
use crate::store::EndpointKey;

verus! {

/// Configuration of a legacy bootstrap session.
#[derive(Clone, Copy, Debug, PartialEq, Eq, Structural)]
pub struct LegacyBootstrapConfig {
    pub frontier_request_count: u32,
    pub frontier_retry_limit: u32,
    pub disable_bulk_push_client: bool,
}

/// One pull of a remote chain segment: from the remote head back to
/// the local head.
#[derive(Clone, Copy, Debug)]
pub struct PullInfo {
    pub account: Account,
    pub head: BlockHash,
    pub end: BlockHash,
    pub retry_limit: u32,
}

/// How the bootstrap strategy drives its session.
#[derive(Clone, Copy, Debug, PartialEq, Eq, Structural)]
pub enum BootstrapMode {
    Legacy,
    Lazy,
    WalletLazy,
    Ascending,
}

impl BootstrapMode {
    /// The lower-case name of the mode.
    pub fn mode_text(&self) -> (r: &'static str)
        ensures
            true,
    {
        match self {
            BootstrapMode::Legacy => "legacy",
            BootstrapMode::Lazy => "lazy",
            BootstrapMode::WalletLazy => "wallet_lazy",
            BootstrapMode::Ascending => "ascending",
        }
    }
}

/// The shared state of one bootstrap attempt: its counters and flags.
pub struct BootstrapAttempt {
    pub incremental_id: u64,
    pub mode: BootstrapMode,
    pub pulling: u64,
    pub total_blocks: u64,
    pub requeued_pulls: u64,
    pub started: bool,
    pub stopped: bool,
    pub frontiers_received: bool,
}

impl BootstrapAttempt {
    pub fn new(incremental_id: u64, mode: BootstrapMode) -> (r: BootstrapAttempt)
        ensures
            r.incremental_id == incremental_id,
            r.mode == mode,
            r.pulling == 0,
            r.total_blocks == 0,
            r.requeued_pulls == 0,
            !r.started,
            !r.stopped,
            !r.frontiers_received,
    {
        BootstrapAttempt {
            incremental_id,
            mode,
            pulling: 0,
            total_blocks: 0,
            requeued_pulls: 0,
            started: false,
            stopped: false,
            frontiers_received: false,
        }
    }

    pub fn set_stopped(&mut self)
        ensures
            *final(self) == (BootstrapAttempt { stopped: true, ..*old(self) }),
    {
        self.stopped = true;
    }

    pub fn set_started(&mut self) -> (r: bool)
        ensures
            *final(self) == (BootstrapAttempt { started: true, ..*old(self) }),
            r == old(self).started,
    {
        let before = self.started;
        self.started = true;
        before
    }

    /// Whether the session must keep waiting: pulls are outstanding or
    /// the frontier exchange has not finished, and nobody stopped it.
    pub fn still_pulling(&self) -> (r: bool)
        ensures
            r == (!self.stopped && (self.pulling > 0 || !self.frontiers_received)),
    {
        !self.stopped && (self.pulling > 0 || !self.frontiers_received)
    }

    pub fn pull_started(&mut self)
        ensures
            old(self).pulling < u64::MAX ==> final(self).pulling == old(self).pulling + 1,
            old(self).pulling == u64::MAX ==> final(self).pulling == 0,
            *final(self) == (BootstrapAttempt { pulling: final(self).pulling, ..*old(self) }),
    {
        self.pulling = crate::ledger::u64_wrapping_inc(self.pulling);
    }

    pub fn pull_finished(&mut self)
        ensures
            old(self).pulling > 0 ==> final(self).pulling == old(self).pulling - 1,
            old(self).pulling == 0 ==> final(self).pulling == 0,
            *final(self) == (BootstrapAttempt { pulling: final(self).pulling, ..*old(self) }),
    {
        if self.pulling > 0 {
            self.pulling = self.pulling - 1;
        }
    }

    pub fn total_blocks_inc(&mut self)
        ensures
            old(self).total_blocks < u64::MAX ==> final(self).total_blocks == old(self).total_blocks + 1,
            *final(self) == (BootstrapAttempt {
                total_blocks: final(self).total_blocks,
                ..*old(self)
            }),
    {
        self.total_blocks = crate::ledger::u64_wrapping_inc(self.total_blocks);
    }

    pub fn requeued_pulls_inc(&mut self)
        ensures
            old(self).requeued_pulls < u64::MAX ==> final(self).requeued_pulls == old(self).requeued_pulls + 1,
            *final(self) == (BootstrapAttempt {
                requeued_pulls: final(self).requeued_pulls,
                ..*old(self)
            }),
    {
        self.requeued_pulls = crate::ledger::u64_wrapping_inc(self.requeued_pulls);
    }
}

/// The snapshot a legacy session reports about itself.
#[derive(Clone, Copy, Debug)]
pub struct LegacyInformation {
    pub frontier_pulls: u64,
    pub frontiers_received: bool,
    pub frontiers_age: u32,
    pub last_account: Account,
}

/// A legacy bootstrap session: frontier exchange, shuffled pulls, and
/// bulk-push targets.
pub struct BootstrapAttemptLegacy {
    pub attempt: BootstrapAttempt,
    pub config: LegacyBootstrapConfig,
    pub endpoint_frontier_request: EndpointKey,
    pub start_account: Account,
    pub frontiers_age: u32,
    pub frontier_pulls: Vec<PullInfo>,
    pub bulk_push_targets: Vec<(BlockHash, BlockHash)>,
}

impl BootstrapAttemptLegacy {
    pub fn new(
        incremental_id: u64,
        config: LegacyBootstrapConfig,
        frontiers_age: u32,
        start_account: Account,
    ) -> (r: BootstrapAttemptLegacy)
        ensures
            r.attempt.incremental_id == incremental_id,
            r.attempt.mode == BootstrapMode::Legacy,
            r.config == config,
            r.frontiers_age == frontiers_age,
            r.start_account@ == start_account@,
            r.frontier_pulls@.len() == 0,
            r.bulk_push_targets@.len() == 0,
            !r.attempt.stopped,
    {
        BootstrapAttemptLegacy {
            attempt: BootstrapAttempt::new(incremental_id, BootstrapMode::Legacy),
            config,
            endpoint_frontier_request: EndpointKey::new([0u8; 16], 0),
            start_account,
            frontiers_age,
            frontier_pulls: Vec::new(),
            bulk_push_targets: Vec::new(),
        }
    }

    /// Queues a pull for a frontier that differs from the local head;
    /// a zero head is a malformed or malicious frontier and is
    /// ignored.
    pub fn add_frontier(&mut self, pull_info: PullInfo)
        ensures
            !pull_info.head.spec_is_zero() ==> final(self).frontier_pulls@ == old(self).frontier_pulls@.push(pull_info),
            pull_info.head.spec_is_zero() ==> *final(self) == *old(self),
            final(self).attempt == old(self).attempt,
            final(self).bulk_push_targets@ == old(self).bulk_push_targets@,
    {
        if !pull_info.head.is_zero() {
            self.frontier_pulls.push(pull_info);
        }
    }

    /// Remembers the last account of a frontier round as the start of
    /// the next one.
    pub fn set_start_account(&mut self, account: Account)
        ensures
            final(self).start_account@ == account@,
            final(self).frontier_pulls@ == old(self).frontier_pulls@,
            final(self).attempt == old(self).attempt,
            final(self).bulk_push_targets@ == old(self).bulk_push_targets@,
    {
        self.start_account = account;
    }

    /// Queues a chain segment the remote side did not know.
    pub fn add_bulk_push_target(&mut self, head: BlockHash, end: BlockHash)
        ensures
            final(self).bulk_push_targets@.len() == old(self).bulk_push_targets@.len() + 1,
            final(self).bulk_push_targets@.last().0@ == head@,
            final(self).bulk_push_targets@.last().1@ == end@,
            final(self).frontier_pulls@ == old(self).frontier_pulls@,
            final(self).attempt == old(self).attempt,
    {
        self.bulk_push_targets.push((head, end));
    }

    /// Hands out the most recent bulk-push target, if any is left.
    pub fn request_bulk_push_target(&mut self) -> (r: Option<(BlockHash, BlockHash)>)
        ensures
            old(self).bulk_push_targets@.len() == 0 ==> r is None && final(self).bulk_push_targets@ == old(self).bulk_push_targets@,
            old(self).bulk_push_targets@.len() > 0 ==> r == Some(
                old(self).bulk_push_targets@.last(),
            ) && final(self).bulk_push_targets@ == old(self).bulk_push_targets@.drop_last(),
            final(self).frontier_pulls@ == old(self).frontier_pulls@,
            final(self).attempt == old(self).attempt,
    {
        self.bulk_push_targets.pop()
    }

    /// Stops the session: the flag every waiter re-checks.
    pub fn stop(&mut self)
        ensures
            final(self).attempt.stopped,
            final(self).frontier_pulls@ == old(self).frontier_pulls@,
            final(self).bulk_push_targets@ == old(self).bulk_push_targets@,
    {
        self.attempt.set_stopped();
    }

    /// Finishes one frontier round. A failed round clears the gathered
    /// pulls. A successful round shuffles them — every pull survives
    /// exactly once — hands them over for the connections, and counts
    /// them as outstanding.
    pub fn on_frontier_result(&mut self, failed: bool) -> (r: Vec<PullInfo>)
        ensures
            final(self).frontier_pulls@.len() == 0,
            failed ==> r@.len() == 0 && final(self).attempt == old(self).attempt,
            !failed ==> r@.to_multiset() == old(self).frontier_pulls@.to_multiset() && final(self).attempt.frontiers_received,
            final(self).bulk_push_targets@ == old(self).bulk_push_targets@,
    {
        if failed {
            self.frontier_pulls = Vec::new();
            proof {
                assert(self.frontier_pulls@ =~= Seq::<PullInfo>::empty());
            }
            return Vec::new();
        }
        let rest = clone_pulls(&self.frontier_pulls);
        self.frontier_pulls = Vec::new();
        proof {
            assert(self.frontier_pulls@ =~= Seq::<PullInfo>::empty());
        }
        let shuffled = shuffle_pulls(rest);
        let mut i: usize = 0;
        let n = shuffled.len();
        while i < n
            invariant
                i <= n,
                self.frontier_pulls@.len() == 0,
                self.bulk_push_targets@ == old(self).bulk_push_targets@,
            decreases n - i,
        {
            self.attempt.pull_started();
            i += 1;
        }
        self.attempt.frontiers_received = true;
        shuffled
    }

    /// The session's self-description.
    pub fn get_information(&self) -> (r: LegacyInformation)
        requires
            self.frontier_pulls@.len() <= u64::MAX,
        ensures
            r.frontier_pulls == self.frontier_pulls@.len(),
            r.frontiers_received == self.attempt.frontiers_received,
            r.frontiers_age == self.frontiers_age,
            r.last_account@ == self.start_account@,
    {
        LegacyInformation {
            frontier_pulls: self.frontier_pulls.len() as u64,
            frontiers_received: self.attempt.frontiers_received,
            frontiers_age: self.frontiers_age,
            last_account: self.start_account,
        }
    }
}

/// Copies the pull list.
fn clone_pulls(v: &Vec<PullInfo>) -> (r: Vec<PullInfo>)
    ensures
        r@ == v@,
{
    let mut out: Vec<PullInfo> = Vec::new();
    let n = v.len();
    let mut i: usize = 0;
    while i < n
        invariant
            i <= n,
            n == v@.len(),
            out@ == v@.subrange(0, i as int),
        decreases n - i,
    {
        out.push(v[i]);
        proof {
            assert(out@ =~= v@.subrange(0, i + 1));
        }
        i += 1;
    }
    proof {
        assert(v@.subrange(0, n as int) =~= v@);
    }
    out
}

/// Shuffles the pulls: repeatedly draws a random one of the remaining
/// pulls. Every pull of the input appears in the output exactly once.
pub fn shuffle_pulls(pulls: Vec<PullInfo>) -> (r: Vec<PullInfo>)
    ensures
        r@.to_multiset() == pulls@.to_multiset(),
        r@.len() == pulls@.len(),
{
    broadcast use vstd::seq_lib::group_to_multiset_ensures;

    let mut rest = pulls;
    let mut out: Vec<PullInfo> = Vec::new();
    let ghost all = rest@;
    proof {
        assert(out@.to_multiset().add(rest@.to_multiset()) =~= all.to_multiset());
    }
    while rest.len() > 0
        invariant
            out@.to_multiset().add(rest@.to_multiset()) == all.to_multiset(),
            out@.len() + rest@.len() == all.len(),
        decreases rest@.len(),
    {
        broadcast use vstd::seq_lib::group_to_multiset_ensures;

        let k = random_index_up_to(rest.len() - 1);
        let item = rest[k];
        let ghost rest0 = rest@;
        rest.remove(k);
        out.push(item);
        proof {
            assert(rest@.to_multiset() =~= rest0.to_multiset().remove(item));
            assert(out@.to_multiset().add(rest@.to_multiset()) =~= all.to_multiset());
        }
    }
    proof {
        assert(rest@.to_multiset() =~= Multiset::<PullInfo>::empty());
        assert(out@.to_multiset() =~= all.to_multiset());
    }
    out
}

} // verus!
