//! The ledger: per-account block chains under validation, with the
//! account, block, pending, frontier, confirmation-height and
//! representative-weight tables.

use vstd::prelude::*;

use crate::blocks::{BlockDetails, BlockEnum, BlockSideband, Epoch};
use crate::crypto::{blake2b_digest, blake2b_of, sig_check};
use crate::numbers::{Account, Amount, BlockHash, Signature};
use crate::store::{
    AccountInfo, ConfirmationHeightInfo, LmdbAccountStore, LmdbEnv, LmdbPeerStore, PendingInfo,
    PendingKey, StoreKey, Table,
};
use crate::wire::{
    le_bytes_of_u64, lemma_le_bytes_of_u64_injective, push_bytes, push_u64_le, slice_range,
    u64_from_le_bytes,
};

verus! {

/// The outcome of validating one block.
#[derive(Clone, Copy, Debug, PartialEq, Eq, Structural)]
pub enum ProcessResult {
    Progress,
    Old,
    GapPrevious,
    GapSource,
    Fork,
    BadSignature,
    InsufficientWork,
    NegativeSpend,
    Unreceivable,
    BlockPosition,
    OpenedBurnAccount,
    BalanceMismatch,
    RepresentativeMismatch,
}

/// Network constants the validator needs: the proof-of-work threshold
/// and the link value that marks an epoch-upgrade state block.
#[derive(Clone, Copy, Debug)]
pub struct LedgerConstants {
    pub work_threshold: u64,
    pub epoch_link: [u8; 32],
}

impl LedgerConstants {
    /// Constants of the development network: a cheap work threshold
    /// and a fixed development epoch marker.
    pub fn dev() -> (r: LedgerConstants)
        ensures
            r.work_threshold == 0xfe00_0000_0000_0000,
            r.epoch_link@ == Seq::new(32, |i: int| 0x65u8),
    {
        let c = LedgerConstants {
            work_threshold: 0xfe00_0000_0000_0000,
            epoch_link: [0x65u8; 32],
        };
        proof {
            assert(c.epoch_link@ =~= Seq::new(32, |i: int| 0x65u8));
        }
        c
    }
}

/// A block as stored: the block and its authoritative sideband.
#[derive(Clone, Copy, Debug)]
pub struct StoredBlock {
    pub block: BlockEnum,
    pub sideband: BlockSideband,
}

/// The proof-of-work value of a nonce for a root: a 64-bit reading of
/// the Blake2b digest of nonce-little-endian then root.
pub open spec fn spec_work_input(root: Seq<u8>, work: u64) -> Seq<u8> {
    le_bytes_of_u64(work) + root
}

/// Whether the nonce meets the threshold for the root.
pub open spec fn spec_valid_work(root: Seq<u8>, work: u64, threshold: u64) -> bool {
    exists|v: u64|
        le_bytes_of_u64(v) == blake2b_of(spec_work_input(root, work)).take(8) && v >= threshold
}

/// Computes the proof-of-work value of a nonce for a root.
pub fn work_value(root: &[u8; 32], work: u64) -> (r: u64)
    ensures
        le_bytes_of_u64(r) == blake2b_of(spec_work_input(root@, work)).take(8),
{
    let mut input: Vec<u8> = Vec::new();
    push_u64_le(&mut input, work);
    push_bytes(&mut input, root.as_slice());
    let digest = blake2b_digest(input.as_slice());
    let value = u64_from_le_bytes(slice_range(digest.as_slice(), 0, 8).as_slice());
    proof {
        assert(digest@.subrange(0, 8) =~= blake2b_of(spec_work_input(root@, work)).take(8));
    }
    value
}

/// Decides whether a nonce meets the threshold for a root.
pub fn check_work(root: &[u8; 32], work: u64, threshold: u64) -> (r: bool)
    ensures
        r == spec_valid_work(root@, work, threshold),
{
    let value = work_value(root, work);
    proof {
        if value < threshold {
            assert forall|v: u64|
                le_bytes_of_u64(v) == blake2b_of(spec_work_input(root@, work)).take(8)
                    implies v < threshold by {
                lemma_le_bytes_of_u64_injective(v, value);
            }
        }
    }
    value >= threshold
}

/// The i-th nonce of a search that starts at `start` and wraps.
pub open spec fn spec_nonce_at(start: u64, i: u64) -> u64 {
    (((start + i) % 0x1_0000_0000_0000_0000int) as u64)
}

/// Computes the i-th nonce of a wrapping search.
fn nonce_at(start: u64, i: u64) -> (r: u64)
    ensures
        r == spec_nonce_at(start, i),
{
    if i <= u64::MAX - start {
        proof {
            vstd::arithmetic::div_mod::lemma_small_mod(
                (start + i) as nat,
                0x1_0000_0000_0000_0000nat,
            );
        }
        start + i
    } else {
        let r = i - (u64::MAX - start) - 1;
        proof {
            vstd::arithmetic::div_mod::lemma_mod_add_multiples_vanish(
                r as int,
                0x1_0000_0000_0000_0000int,
            );
            vstd::arithmetic::div_mod::lemma_small_mod(r as nat, 0x1_0000_0000_0000_0000nat);
            assert(start + i == 0x1_0000_0000_0000_0000 + r);
        }
        r
    }
}

/// Whether the bounded search over nonces can succeed for this root.
pub open spec fn spec_work_available(root: Seq<u8>, threshold: u64, start: u64, tries: u64) -> bool {
    exists|i: u64|
        i < tries && spec_valid_work(root, #[trigger] spec_nonce_at(start, i), threshold)
}

/// Searches nonces from `start` up for one that meets the threshold:
/// it succeeds exactly when one of the tried nonces does.
pub fn generate_work(root: &[u8; 32], threshold: u64, start: u64, tries: u64) -> (r: Option<u64>)
    ensures
        (r is Some) == spec_work_available(root@, threshold, start, tries),
        r is Some ==> spec_valid_work(root@, r.unwrap(), threshold),
{
    let mut i: u64 = 0;
    while i < tries
        invariant
            i <= tries,
            forall|j: u64|
                j < i ==> !spec_valid_work(root@, #[trigger] spec_nonce_at(start, j), threshold),
        decreases tries - i,
    {
        let nonce = nonce_at(start, i);
        if check_work(root, nonce, threshold) {
            proof {
                assert(spec_valid_work(root@, spec_nonce_at(start, i), threshold));
            }
            return Some(nonce);
        }
        i += 1;
    }
    None
}

/// Sum of a projection over a sequence.
pub open spec fn sum_by<T>(s: Seq<T>, f: spec_fn(T) -> int) -> int
    decreases s.len(),
{
    if s.len() == 0 {
        0
    } else {
        sum_by(s.drop_last(), f) + f(s.last())
    }
}

/// Replacing one element changes the sum by the difference.
pub proof fn lemma_sum_by_update<T>(s: Seq<T>, p: int, x: T, f: spec_fn(T) -> int)
    requires
        0 <= p < s.len(),
    ensures
        sum_by(s.update(p, x), f) == sum_by(s, f) - f(s[p]) + f(x),
    decreases s.len(),
{
    if p == s.len() - 1 {
        assert(s.update(p, x).drop_last() =~= s.drop_last());
        assert(s.update(p, x).last() == x);
    } else {
        lemma_sum_by_update(s.drop_last(), p, x, f);
        assert(s.update(p, x).drop_last() =~= s.drop_last().update(p, x));
        assert(s.update(p, x).last() == s.last());
    }
}

/// Inserting one element adds its value to the sum.
pub proof fn lemma_sum_by_insert<T>(s: Seq<T>, p: int, x: T, f: spec_fn(T) -> int)
    requires
        0 <= p <= s.len(),
    ensures
        sum_by(s.insert(p, x), f) == sum_by(s, f) + f(x),
    decreases s.len(),
{
    if p == s.len() {
        assert(s.insert(p, x).drop_last() =~= s);
        assert(s.insert(p, x).last() == x);
    } else {
        lemma_sum_by_insert(s.drop_last(), p, x, f);
        assert(s.insert(p, x).drop_last() =~= s.drop_last().insert(p, x));
        assert(s.insert(p, x).last() == s.last());
    }
}

/// A sum of zero-or-one indicators lies between zero and the length.
pub proof fn lemma_sum_by_indicator_bounds<T>(s: Seq<T>, f: spec_fn(T) -> int)
    requires
        forall|e: T| 0 <= #[trigger] f(e) <= 1,
    ensures
        0 <= sum_by(s, f) <= s.len(),
    decreases s.len(),
{
    if s.len() > 0 {
        lemma_sum_by_indicator_bounds(s.drop_last(), f);
    }
}

/// The balance a stored account entry contributes.
pub open spec fn balance_of_entry() -> spec_fn((Account, AccountInfo)) -> int {
    |e: (Account, AccountInfo)| e.1.balance.raw as int
}

/// The weight a stored representative entry contributes.
pub open spec fn weight_of_entry() -> spec_fn((Account, Amount)) -> int {
    |e: (Account, Amount)| e.1.raw as int
}

/// The ledger state: the single source of truth for accounts, blocks,
/// pending amounts, frontiers, cementation and voting weight.
pub struct Ledger {
    pub constants: LedgerConstants,
    pub account_store: LmdbAccountStore,
    pub peer_store: LmdbPeerStore,
    pub blocks: Table<BlockHash, StoredBlock>,
    pub pending: Table<PendingKey, PendingInfo>,
    pub frontier: Table<BlockHash, Account>,
    pub confirmation_height: Table<Account, ConfirmationHeightInfo>,
    pub pruned: Table<BlockHash, bool>,
    pub rep_weights: Table<Account, Amount>,
}

impl Ledger {
    /// All tables are well-formed ordered tables.
    pub open spec fn inv(&self) -> bool {
        &&& self.account_store.wf()
        &&& self.peer_store.wf()
        &&& self.blocks.wf()
        &&& self.pending.wf()
        &&& self.frontier.wf()
        &&& self.confirmation_height.wf()
        &&& self.pruned.wf()
        &&& self.rep_weights.wf()
    }

    /// Every table equal, entry for entry.
    pub open spec fn same_state(&self, other: &Ledger) -> bool {
        &&& self.constants == other.constants
        &&& self.account_store.table.entries@ == other.account_store.table.entries@
        &&& self.peer_store.table.entries@ == other.peer_store.table.entries@
        &&& self.blocks.entries@ == other.blocks.entries@
        &&& self.pending.entries@ == other.pending.entries@
        &&& self.frontier.entries@ == other.frontier.entries@
        &&& self.confirmation_height.entries@ == other.confirmation_height.entries@
        &&& self.pruned.entries@ == other.pruned.entries@
        &&& self.rep_weights.entries@ == other.rep_weights.entries@
    }

    pub open spec fn spec_block_exists(&self, hash: Seq<u8>) -> bool {
        self.blocks.spec_get(hash) is Some
    }

    pub open spec fn spec_pruned_exists(&self, hash: Seq<u8>) -> bool {
        self.pruned.spec_get(hash) is Some
    }

    pub open spec fn spec_block_or_pruned_exists(&self, hash: Seq<u8>) -> bool {
        self.spec_block_exists(hash) || self.spec_pruned_exists(hash)
    }

    pub open spec fn spec_account_info(&self, account: Seq<u8>) -> Option<AccountInfo> {
        self.account_store.spec_get(account)
    }

    pub open spec fn spec_frontier_account(&self, hash: Seq<u8>) -> Option<Account> {
        self.frontier.spec_get(hash)
    }

    pub open spec fn spec_pending(&self, key: Seq<u8>) -> Option<PendingInfo> {
        self.pending.spec_get(key)
    }

    /// The voting weight of a representative; absent means zero.
    pub open spec fn spec_weight(&self, rep: Seq<u8>) -> u128 {
        match self.rep_weights.spec_get(rep) {
            Some(w) => w.raw,
            None => 0,
        }
    }

    /// The balance recorded for a stored block; absent means zero.
    pub open spec fn spec_balance(&self, hash: Seq<u8>) -> u128 {
        match self.blocks.spec_get(hash) {
            Some(stored) => stored.sideband.balance.raw,
            None => 0,
        }
    }

    /// Representative weights account for exactly the stored balances,
    /// modulo the wrapping width of an amount.
    pub open spec fn rep_weights_consistent(&self) -> bool {
        sum_by(self.account_store.table.entries@, balance_of_entry()) % 0x1_0000_0000_0000_0000_0000_0000_0000_0000int
            == sum_by(self.rep_weights.entries@, weight_of_entry()) % 0x1_0000_0000_0000_0000_0000_0000_0000_0000int
    }

    /// Every pending entry names a send block that is stored.
    pub open spec fn pending_refs_exist(&self) -> bool {
        forall|i: int|
            0 <= i < self.pending.entries@.len() ==> self.spec_block_exists(
                (#[trigger] self.pending.entries@[i]).0.hash@,
            )
    }

    /// An empty ledger under the given constants.
    pub fn new(constants: LedgerConstants, env: &mut LmdbEnv) -> (r: Ledger)
        requires
            old(env).next_database < 0xffff_fff0 - 2,
        ensures
            r.inv(),
            r.constants == constants,
            r.account_store.table.spec_len() == 0,
            r.blocks.spec_len() == 0,
            r.pending.spec_len() == 0,
            r.frontier.spec_len() == 0,
            r.confirmation_height.spec_len() == 0,
            r.pruned.spec_len() == 0,
            r.rep_weights.spec_len() == 0,
            r.peer_store.table.spec_len() == 0,
            r.rep_weights_consistent(),
            r.pending_refs_exist(),
    {
        let account_store = LmdbAccountStore::new(env);
        let peer_store = LmdbPeerStore::new(env);
        let r = Ledger {
            constants,
            account_store,
            peer_store,
            blocks: Table::new(),
            pending: Table::new(),
            frontier: Table::new(),
            confirmation_height: Table::new(),
            pruned: Table::new(),
            rep_weights: Table::new(),
        };
        r
    }

    pub fn block_exists(&self, hash: &BlockHash) -> (r: bool)
        requires
            self.inv(),
        ensures
            r == self.spec_block_exists(hash@),
    {
        self.blocks.contains_key(hash)
    }

    pub fn block_or_pruned_exists(&self, hash: &BlockHash) -> (r: bool)
        requires
            self.inv(),
        ensures
            r == self.spec_block_or_pruned_exists(hash@),
    {
        self.blocks.contains_key(hash) || self.pruned.contains_key(hash)
    }

    pub fn get_block(&self, hash: &BlockHash) -> (r: Option<StoredBlock>)
        requires
            self.inv(),
        ensures
            r == self.blocks.spec_get(hash@),
    {
        self.blocks.get(hash)
    }

    pub fn account_info(&self, account: &Account) -> (r: Option<AccountInfo>)
        requires
            self.inv(),
        ensures
            r == self.spec_account_info(account@),
    {
        self.account_store.get(account)
    }

    /// The voting weight of a representative.
    pub fn weight(&self, rep: &Account) -> (r: Amount)
        requires
            self.inv(),
        ensures
            r.raw == self.spec_weight(rep@),
    {
        match self.rep_weights.get(rep) {
            Some(w) => w,
            None => Amount::zero(),
        }
    }

    /// The balance at a stored block.
    pub fn balance(&self, hash: &BlockHash) -> (r: Amount)
        requires
            self.inv(),
        ensures
            r.raw == self.spec_balance(hash@),
    {
        match self.blocks.get(hash) {
            Some(stored) => stored.sideband.balance,
            None => Amount::zero(),
        }
    }

    /// Adds a wrapping delta to one representative's weight.
    pub fn representation_add(&mut self, rep: &Account, delta: Amount)
        requires
            old(self).inv(),
        ensures
            final(self).inv(),
            final(self).spec_weight(rep@) == ((old(self).spec_weight(rep@) + delta.raw)
                % 0x1_0000_0000_0000_0000_0000_0000_0000_0000int),
            forall|k: Seq<u8>|
                k != rep@ ==> #[trigger] final(self).rep_weights.spec_get(k) == old(self).rep_weights.spec_get(k),
            final(self).account_store == old(self).account_store,
            final(self).peer_store == old(self).peer_store,
            final(self).blocks == old(self).blocks,
            final(self).pending == old(self).pending,
            final(self).frontier == old(self).frontier,
            final(self).confirmation_height == old(self).confirmation_height,
            final(self).pruned == old(self).pruned,
            final(self).constants == old(self).constants,
            sum_by(final(self).rep_weights.entries@, weight_of_entry())
                % 0x1_0000_0000_0000_0000_0000_0000_0000_0000int == (sum_by(
                old(self).rep_weights.entries@,
                weight_of_entry(),
            ) + delta.raw) % 0x1_0000_0000_0000_0000_0000_0000_0000_0000int,
    {
        let ghost m = 0x1_0000_0000_0000_0000_0000_0000_0000_0000int;
        let current = match self.rep_weights.get(rep) {
            Some(w) => w,
            None => Amount::zero(),
        };
        let updated = current.wrapping_add(delta);
        let ghost weights0 = self.rep_weights.entries@;
        self.rep_weights.put(rep, updated);
        proof {
            let f = weight_of_entry();
            if old(self).rep_weights.spec_get(rep@) is Some {
                let q = choose|q: int|
                    0 <= q < weights0.len() && (#[trigger] weights0[q]).0.key_view() == rep@
                        && old(self).rep_weights.spec_get(rep@) == Some(weights0[q].1)
                        && self.rep_weights.entries@ == weights0.update(q, (*rep, updated));
                lemma_sum_by_update(weights0, q, (*rep, updated), f);
                vstd::arithmetic::div_mod::lemma_add_mod_noop(
                    sum_by(weights0, f) - f(weights0[q]) + f((*rep, updated)),
                    0,
                    m,
                );
                assert((sum_by(weights0, f) - current.raw + updated.raw) % m == (sum_by(
                    weights0,
                    f,
                ) + delta.raw) % m) by {
                    vstd::arithmetic::div_mod::lemma_mod_adds(
                        sum_by(weights0, f) - current.raw,
                        updated.raw as int,
                        m,
                    );
                    vstd::arithmetic::div_mod::lemma_mod_adds(
                        sum_by(weights0, f) - current.raw,
                        (current.raw + delta.raw) % m,
                        m,
                    );
                    vstd::arithmetic::div_mod::lemma_mod_twice(current.raw + delta.raw, m);
                    vstd::arithmetic::div_mod::lemma_mod_adds(
                        sum_by(weights0, f) - current.raw,
                        current.raw + delta.raw,
                        m,
                    );
                }
            } else {
                let q = choose|q: int|
                    0 <= q <= weights0.len() && self.rep_weights.entries@ == weights0.insert(
                        q,
                        (*rep, updated),
                    );
                lemma_sum_by_insert(weights0, q, (*rep, updated), f);
                assert(current.raw == 0);
                assert((sum_by(weights0, f) + updated.raw) % m == (sum_by(weights0, f) + delta.raw)
                    % m) by {
                    vstd::arithmetic::div_mod::lemma_mod_adds(sum_by(weights0, f), updated.raw as int, m);
                    vstd::arithmetic::div_mod::lemma_mod_twice(delta.raw as int, m);
                    vstd::arithmetic::div_mod::lemma_mod_adds(
                        sum_by(weights0, f),
                        delta.raw as int,
                        m,
                    );
                    assert(updated.raw == (0 + delta.raw) % m);
                    assert((delta.raw as int) % m == delta.raw as int);
                }
            }
        }
    }
}


/// The all-zero 32-byte value.
pub open spec fn zero32() -> Seq<u8> {
    Seq::new(32, |i: int| 0u8)
}

/// Wrapping increment.
pub fn u64_wrapping_inc(v: u64) -> (r: u64)
    ensures
        v < u64::MAX ==> r == v + 1,
        v == u64::MAX ==> r == 0,
{
    if v == u64::MAX {
        0
    } else {
        v + 1
    }
}

/// Whether a legacy change block may follow a block of this type.
pub open spec fn spec_valid_change_block_predecessor(t: crate::blocks::BlockType) -> bool {
    match t {
        crate::blocks::BlockType::LegacySend => true,
        crate::blocks::BlockType::LegacyReceive => true,
        crate::blocks::BlockType::LegacyOpen => true,
        crate::blocks::BlockType::LegacyChange => true,
        _ => false,
    }
}

/// Whether a legacy change block may follow a block of this type.
pub fn valid_change_block_predecessor(t: crate::blocks::BlockType) -> (r: bool)
    ensures
        r == spec_valid_change_block_predecessor(t),
{
    match t {
        crate::blocks::BlockType::LegacySend => true,
        crate::blocks::BlockType::LegacyReceive => true,
        crate::blocks::BlockType::LegacyOpen => true,
        crate::blocks::BlockType::LegacyChange => true,
        _ => false,
    }
}

/// The account metadata of a chain that has none yet.
pub fn default_account_info() -> (r: AccountInfo)
    ensures
        r.head@ == zero32(),
        r.representative@ == zero32(),
        r.open_block@ == zero32(),
        r.balance.raw == 0,
        r.modified == 0,
        r.block_count == 0,
        r.epoch == Epoch::Epoch0,
{
    AccountInfo {
        head: BlockHash::zero(),
        representative: Account::zero(),
        open_block: BlockHash::zero(),
        balance: Amount::zero(),
        modified: 0,
        block_count: 0,
        epoch: Epoch::Epoch0,
    }
}

impl Ledger {
    /// The balance of an account; no account means zero.
    pub open spec fn spec_info_balance(&self, account: Seq<u8>) -> u128 {
        match self.spec_account_info(account) {
            Some(i) => i.balance.raw,
            None => 0,
        }
    }

    /// The chain height of an account; no account means zero.
    pub open spec fn spec_info_block_count(&self, account: Seq<u8>) -> u64 {
        match self.spec_account_info(account) {
            Some(i) => i.block_count,
            None => 0,
        }
    }

    /// The first block of an account's chain; no account means zero.
    pub open spec fn spec_info_open_block(&self, account: Seq<u8>) -> Seq<u8> {
        match self.spec_account_info(account) {
            Some(i) => i.open_block@,
            None => zero32(),
        }
    }

    /// The representative of an account; no account means zero.
    pub open spec fn spec_info_representative(&self, account: Seq<u8>) -> Seq<u8> {
        match self.spec_account_info(account) {
            Some(i) => i.representative@,
            None => zero32(),
        }
    }

    /// The outcome the validator owes a legacy change block: the shared
    /// checks in their order, ending in the representative change.
    pub open spec fn spec_change_result(&self, b: &crate::blocks::ChangeBlock) -> ProcessResult {
        let hash = blake2b_of(b.spec_hash_input());
        let prev = b.hashables.previous@;
        if self.spec_block_or_pruned_exists(hash) {
            ProcessResult::Old
        } else if !self.spec_block_exists(prev) {
            ProcessResult::GapPrevious
        } else if !spec_valid_change_block_predecessor(
            self.blocks.spec_get(prev).unwrap().block.spec_block_type(),
        ) {
            ProcessResult::BlockPosition
        } else if self.spec_frontier_account(prev) is None {
            ProcessResult::Fork
        } else if !sig_check(
            self.spec_frontier_account(prev).unwrap()@,
            hash,
            b.signature@,
        ) {
            ProcessResult::BadSignature
        } else if !spec_valid_work(prev, b.work, self.constants.work_threshold) {
            ProcessResult::InsufficientWork
        } else {
            ProcessResult::Progress
        }
    }

    /// Adds one wrapping delta to each of two representatives.
    #[verifier::rlimit(60)]
    pub fn representation_add_dual(&mut self, rep1: &Account, d1: Amount, rep2: &Account, d2: Amount)
        requires
            old(self).inv(),
        ensures
            final(self).inv(),
            rep1@ != rep2@ ==> final(self).spec_weight(rep1@) == ((old(self).spec_weight(rep1@)
                + d1.raw) % 0x1_0000_0000_0000_0000_0000_0000_0000_0000int),
            rep1@ != rep2@ ==> final(self).spec_weight(rep2@) == ((old(self).spec_weight(rep2@)
                + d2.raw) % 0x1_0000_0000_0000_0000_0000_0000_0000_0000int),
            rep1@ == rep2@ ==> final(self).spec_weight(rep1@) == ((old(self).spec_weight(rep1@)
                + d1.raw + d2.raw) % 0x1_0000_0000_0000_0000_0000_0000_0000_0000int),
            forall|k: Seq<u8>|
                k != rep1@ && k != rep2@ ==> #[trigger] final(self).rep_weights.spec_get(k) == old(self).rep_weights.spec_get(k),
            final(self).account_store == old(self).account_store,
            final(self).peer_store == old(self).peer_store,
            final(self).blocks == old(self).blocks,
            final(self).pending == old(self).pending,
            final(self).frontier == old(self).frontier,
            final(self).confirmation_height == old(self).confirmation_height,
            final(self).pruned == old(self).pruned,
            final(self).constants == old(self).constants,
            sum_by(final(self).rep_weights.entries@, weight_of_entry())
                % 0x1_0000_0000_0000_0000_0000_0000_0000_0000int == (sum_by(
                old(self).rep_weights.entries@,
                weight_of_entry(),
            ) + d1.raw + d2.raw) % 0x1_0000_0000_0000_0000_0000_0000_0000_0000int,
    {
        let ghost m = 0x1_0000_0000_0000_0000_0000_0000_0000_0000int;
        let ghost s0 = sum_by(self.rep_weights.entries@, weight_of_entry());
        self.representation_add(rep1, d1);
        let ghost s1 = sum_by(self.rep_weights.entries@, weight_of_entry());
        self.representation_add(rep2, d2);
        proof {
            let s2 = sum_by(self.rep_weights.entries@, weight_of_entry());
            assert(s1 % m == (s0 + d1.raw) % m);
            assert(s2 % m == (s1 + d2.raw) % m);
            assert(s2 % m == (s0 + d1.raw + d2.raw) % m) by {
                vstd::arithmetic::div_mod::lemma_mod_adds(s1, d2.raw as int, m);
                vstd::arithmetic::div_mod::lemma_mod_adds(s0 + d1.raw, d2.raw as int, m);
            }
            if rep1@ == rep2@ {
                vstd::arithmetic::div_mod::lemma_mod_adds(
                    old(self).spec_weight(rep1@) + d1.raw,
                    d2.raw as int,
                    m,
                );
                vstd::arithmetic::div_mod::lemma_mod_twice(
                    old(self).spec_weight(rep1@) + d1.raw,
                    m,
                );
                vstd::arithmetic::div_mod::lemma_mod_adds(
                    old(self).spec_weight(rep1@) as int,
                    d1.raw as int,
                    m,
                );
            }
        }
    }

    /// Validates and applies a legacy change block. On success the
    /// account's head, frontier and voting weight move; every failure
    /// leaves the ledger untouched.
    pub fn process_change(&mut self, block: &crate::blocks::ChangeBlock, now: u64) -> (r:
        ProcessResult)
        requires
            old(self).inv(),
        ensures
            final(self).inv(),
            r == old(self).spec_change_result(block),
            r != ProcessResult::Progress ==> final(self).same_state(old(self)),
            r == ProcessResult::Progress ==> {
                let hash = blake2b_of(block.spec_hash_input());
                let prev = block.hashables.previous@;
                let account = old(self).spec_frontier_account(prev).unwrap();
                let count0 = old(self).spec_info_block_count(account@);
                let balance = old(self).spec_balance(prev);
                &&& final(self).blocks.spec_get(hash) is Some
                &&& {
                    let stored = final(self).blocks.spec_get(hash).unwrap();
                    &&& stored.block == BlockEnum::Change(*block)
                    &&& stored.sideband.account@ == account@
                    &&& stored.sideband.balance.raw == balance
                    &&& stored.sideband.height == (if count0 < u64::MAX {
                        count0 + 1
                    } else {
                        0
                    })
                    &&& stored.sideband.timestamp == now
                    &&& stored.sideband.details == (BlockDetails {
                        epoch: Epoch::Epoch0,
                        is_send: false,
                        is_receive: false,
                        is_epoch: false,
                    })
                }
                &&& forall|k: Seq<u8>|
                    k != hash ==> #[trigger] final(self).blocks.spec_get(k) == old(self).blocks.spec_get(k)
                &&& final(self).spec_account_info(account@) is Some
                &&& {
                    let ni = final(self).spec_account_info(account@).unwrap();
                    &&& ni.head@ == hash
                    &&& ni.representative@ == block.hashables.representative@
                    &&& ni.open_block@ == old(self).spec_info_open_block(account@)
                    &&& ni.balance.raw == old(self).spec_info_balance(account@)
                    &&& ni.modified == now
                    &&& ni.block_count == (if count0 < u64::MAX {
                        count0 + 1
                    } else {
                        0
                    })
                }
                &&& forall|k: Seq<u8>|
                    k != account@ ==> #[trigger] final(self).spec_account_info(k) == old(self).spec_account_info(k)
                &&& (block.hashables.representative@ != old(self).spec_info_representative(
                    account@,
                ) ==> final(self).spec_weight(block.hashables.representative@) == ((old(self).spec_weight(block.hashables.representative@) + balance)
                    % 0x1_0000_0000_0000_0000_0000_0000_0000_0000int) && final(self).spec_weight(
                    old(self).spec_info_representative(account@),
                ) == ((old(self).spec_weight(old(self).spec_info_representative(account@)) + (
                if balance == 0 {
                    0int
                } else {
                    0x1_0000_0000_0000_0000_0000_0000_0000_0000int - balance
                })) % 0x1_0000_0000_0000_0000_0000_0000_0000_0000int))
                &&& (block.hashables.representative@ == old(self).spec_info_representative(
                    account@,
                ) ==> final(self).spec_weight(block.hashables.representative@) == old(self).spec_weight(block.hashables.representative@))
                &&& forall|k: Seq<u8>|
                    k != block.hashables.representative@ && k != old(self).spec_info_representative(account@) ==> #[trigger] final(self).rep_weights.spec_get(k) == old(self).rep_weights.spec_get(k)
                &&& final(self).spec_frontier_account(hash) == Some(account)
                &&& final(self).spec_frontier_account(prev) is None
                &&& forall|k: Seq<u8>|
                    k != hash && k != prev ==> #[trigger] final(self).spec_frontier_account(k)
                        == old(self).spec_frontier_account(k)
                &&& final(self).pending.entries@ == old(self).pending.entries@
                &&& final(self).confirmation_height.entries@ == old(self).confirmation_height.entries@
                &&& final(self).pruned.entries@ == old(self).pruned.entries@
                &&& final(self).peer_store.table.entries@ == old(self).peer_store.table.entries@
                &&& final(self).constants == old(self).constants
            },
            old(self).rep_weights_consistent() ==> final(self).rep_weights_consistent(),
            old(self).pending_refs_exist() ==> final(self).pending_refs_exist(),
    {
        let ghost m = 0x1_0000_0000_0000_0000_0000_0000_0000_0000int;
        let hash = block.hash();
        if self.block_or_pruned_exists(&hash) {
            return ProcessResult::Old;
        }
        let previous = match self.get_block(&block.hashables.previous) {
            Some(p) => p,
            None => {
                return ProcessResult::GapPrevious;
            },
        };
        if !valid_change_block_predecessor(previous.block.block_type()) {
            return ProcessResult::BlockPosition;
        }
        let account = match self.frontier.get(&block.hashables.previous) {
            Some(a) => a,
            None => {
                return ProcessResult::Fork;
            },
        };
        if !crate::crypto::validate_message(
            &account.to_public_key(),
            hash.as_bytes().as_slice(),
            &block.signature,
        ) {
            return ProcessResult::BadSignature;
        }
        if !check_work(
            block.hashables.previous.as_bytes(),
            block.work,
            self.constants.work_threshold,
        ) {
            return ProcessResult::InsufficientWork;
        }
        let info = match self.account_store.get(&account) {
            Some(i) => i,
            None => default_account_info(),
        };
        let balance = self.balance(&block.hashables.previous);
        let height = u64_wrapping_inc(info.block_count);
        let sideband = BlockSideband::new(
            account,
            BlockHash::zero(),
            balance,
            height,
            now,
            BlockDetails::new(Epoch::Epoch0, false, false, false),
            Epoch::Epoch0,
        );
        let ghost accounts0 = self.account_store.table.entries@;
        let ghost pre = *self;
        self.blocks.put(&hash, StoredBlock { block: BlockEnum::Change(*block), sideband });
        let neg_balance = Amount::zero().wrapping_sub(balance);
        self.representation_add_dual(
            &block.hashables.representative,
            balance,
            &info.representative,
            neg_balance,
        );
        let new_info = AccountInfo {
            head: hash,
            representative: block.hashables.representative,
            open_block: info.open_block,
            balance: info.balance,
            modified: now,
            block_count: height,
            epoch: Epoch::Epoch0,
        };
        self.account_store.table.put(&account, new_info);
        self.frontier.del(&block.hashables.previous);
        self.frontier.put(&hash, account);
        proof {
            let f = balance_of_entry();
            let d2 = neg_balance.raw as int;
            let rep0 = old(self).spec_info_representative(account@);
            if block.hashables.representative@ == rep0 {
                let w = old(self).spec_weight(rep0);
                assert(((w + balance.raw + d2) % m) == w as int) by {
                    if balance.raw == 0 {
                        vstd::arithmetic::div_mod::lemma_small_mod(w as nat, m as nat);
                    } else {
                        vstd::arithmetic::div_mod::lemma_mod_add_multiples_vanish(w as int, m);
                        vstd::arithmetic::div_mod::lemma_small_mod(w as nat, m as nat);
                    }
                }
            }
            if old(self).rep_weights_consistent() {
                assert((sum_by(self.rep_weights.entries@, weight_of_entry()) % m) == (sum_by(
                    old(self).rep_weights.entries@,
                    weight_of_entry(),
                ) + balance.raw + d2) % m);
                assert((balance.raw + d2) % m == 0int % m) by {
                    if balance.raw == 0 {
                    } else {
                        vstd::arithmetic::div_mod::lemma_mod_self_0(m);
                        vstd::arithmetic::div_mod::lemma_mod_twice(0int, m);
                    }
                }
                assert((sum_by(old(self).rep_weights.entries@, weight_of_entry()) + balance.raw
                    + d2) % m == sum_by(old(self).rep_weights.entries@, weight_of_entry()) % m)
                    by {
                    vstd::arithmetic::div_mod::lemma_mod_adds(
                        sum_by(old(self).rep_weights.entries@, weight_of_entry()),
                        balance.raw + d2,
                        m,
                    );
                    vstd::arithmetic::div_mod::lemma_mod_adds(
                        sum_by(old(self).rep_weights.entries@, weight_of_entry()),
                        0int,
                        m,
                    );
                    assert((balance.raw + d2) % m == 0int % m);
                }
                if old(self).spec_account_info(account@) is Some {
                    let q = choose|q: int|
                        0 <= q < accounts0.len() && (#[trigger] accounts0[q]).0.key_view()
                            == account@ && old(self).account_store.table.spec_get(account@)
                            == Some(accounts0[q].1) && self.account_store.table.entries@
                            == accounts0.update(q, (account, new_info));
                    lemma_sum_by_update(accounts0, q, (account, new_info), f);
                } else {
                    let q = choose|q: int|
                        0 <= q <= accounts0.len() && self.account_store.table.entries@
                            == accounts0.insert(q, (account, new_info));
                    lemma_sum_by_insert(accounts0, q, (account, new_info), f);
                }
            }
            if old(self).pending_refs_exist() {
                assert forall|i: int|
                    0 <= i < self.pending.entries@.len() implies self.spec_block_exists(
                    (#[trigger] self.pending.entries@[i]).0.hash@,
                ) by {
                    assert(old(self).spec_block_exists(old(self).pending.entries@[i].0.hash@));
                    if old(self).pending.entries@[i].0.hash@ != hash@ {
                        assert(self.blocks.spec_get(old(self).pending.entries@[i].0.hash@) == old(self).blocks.spec_get(old(self).pending.entries@[i].0.hash@));
                    }
                }
            }
        }
        ProcessResult::Progress
    }
}


impl Ledger {
    /// The outcome the validator owes a legacy send block.
    pub open spec fn spec_send_result(&self, b: &crate::blocks::SendBlock) -> ProcessResult {
        let hash = blake2b_of(b.spec_hash_input());
        let prev = b.hashables.previous@;
        if self.spec_block_or_pruned_exists(hash) {
            ProcessResult::Old
        } else if !self.spec_block_exists(prev) {
            ProcessResult::GapPrevious
        } else if !spec_valid_change_block_predecessor(
            self.blocks.spec_get(prev).unwrap().block.spec_block_type(),
        ) {
            ProcessResult::BlockPosition
        } else if self.spec_frontier_account(prev) is None {
            ProcessResult::Fork
        } else if !sig_check(self.spec_frontier_account(prev).unwrap()@, hash, b.signature@) {
            ProcessResult::BadSignature
        } else if !spec_valid_work(prev, b.work, self.constants.work_threshold) {
            ProcessResult::InsufficientWork
        } else if b.hashables.balance.raw > self.spec_info_balance(
            self.spec_frontier_account(prev).unwrap()@,
        ) {
            ProcessResult::NegativeSpend
        } else {
            ProcessResult::Progress
        }
    }

    /// Validates and applies a legacy send block. On success the sent
    /// amount leaves the account's balance and representative weight
    /// and becomes a pending entry for the destination; every failure
    /// leaves the ledger untouched.
    #[verifier::rlimit(60)]
    pub fn process_send(&mut self, block: &crate::blocks::SendBlock, now: u64) -> (r:
        ProcessResult)
        requires
            old(self).inv(),
        ensures
            final(self).inv(),
            r == old(self).spec_send_result(block),
            r != ProcessResult::Progress ==> final(self).same_state(old(self)),
            r == ProcessResult::Progress ==> {
                let hash = blake2b_of(block.spec_hash_input());
                let prev = block.hashables.previous@;
                let account = old(self).spec_frontier_account(prev).unwrap();
                let count0 = old(self).spec_info_block_count(account@);
                let balance0 = old(self).spec_info_balance(account@);
                let amount = balance0 - block.hashables.balance.raw;
                &&& final(self).blocks.spec_get(hash) is Some
                &&& {
                    let stored = final(self).blocks.spec_get(hash).unwrap();
                    &&& stored.block == BlockEnum::Send(*block)
                    &&& stored.sideband.account@ == account@
                    &&& stored.sideband.balance == block.hashables.balance
                    &&& stored.sideband.height == (if count0 < u64::MAX {
                        count0 + 1
                    } else {
                        0
                    })
                    &&& stored.sideband.timestamp == now
                    &&& stored.sideband.details == (BlockDetails {
                        epoch: Epoch::Epoch0,
                        is_send: true,
                        is_receive: false,
                        is_epoch: false,
                    })
                }
                &&& forall|k: Seq<u8>|
                    k != hash ==> #[trigger] final(self).blocks.spec_get(k) == old(self).blocks.spec_get(k)
                &&& final(self).spec_pending(block.hashables.destination@ + hash) is Some
                &&& {
                    let pi = final(self).spec_pending(block.hashables.destination@ + hash).unwrap();
                    &&& pi.source@ == account@
                    &&& pi.amount.raw == amount
                    &&& pi.epoch == Epoch::Epoch0
                }
                &&& forall|k: Seq<u8>|
                    k != block.hashables.destination@ + hash ==> #[trigger] final(self).spec_pending(k) == old(self).spec_pending(k)
                &&& final(self).spec_account_info(account@) is Some
                &&& {
                    let ni = final(self).spec_account_info(account@).unwrap();
                    &&& ni.head@ == hash
                    &&& ni.representative@ == old(self).spec_info_representative(account@)
                    &&& ni.open_block@ == old(self).spec_info_open_block(account@)
                    &&& ni.balance == block.hashables.balance
                    &&& ni.modified == now
                    &&& ni.block_count == (if count0 < u64::MAX {
                        count0 + 1
                    } else {
                        0
                    })
                }
                &&& forall|k: Seq<u8>|
                    k != account@ ==> #[trigger] final(self).spec_account_info(k) == old(self).spec_account_info(k)
                &&& final(self).spec_weight(old(self).spec_info_representative(account@)) == ((
                old(self).spec_weight(old(self).spec_info_representative(account@)) + (if amount
                    == 0 {
                    0int
                } else {
                    0x1_0000_0000_0000_0000_0000_0000_0000_0000int - amount
                })) % 0x1_0000_0000_0000_0000_0000_0000_0000_0000int)
                &&& final(self).spec_frontier_account(hash) == Some(account)
                &&& final(self).spec_frontier_account(prev) is None
                &&& forall|k: Seq<u8>|
                    k != hash && k != prev ==> #[trigger] final(self).spec_frontier_account(k)
                        == old(self).spec_frontier_account(k)
                &&& final(self).confirmation_height == old(self).confirmation_height
                &&& final(self).pruned == old(self).pruned
                &&& final(self).peer_store == old(self).peer_store
                &&& final(self).constants == old(self).constants
            },
            old(self).rep_weights_consistent() ==> final(self).rep_weights_consistent(),
            old(self).pending_refs_exist() ==> final(self).pending_refs_exist(),
    {
        let ghost m = 0x1_0000_0000_0000_0000_0000_0000_0000_0000int;
        let hash = block.hash();
        if self.block_or_pruned_exists(&hash) {
            return ProcessResult::Old;
        }
        let previous = match self.get_block(&block.hashables.previous) {
            Some(p) => p,
            None => {
                return ProcessResult::GapPrevious;
            },
        };
        if !valid_change_block_predecessor(previous.block.block_type()) {
            return ProcessResult::BlockPosition;
        }
        let account = match self.frontier.get(&block.hashables.previous) {
            Some(a) => a,
            None => {
                return ProcessResult::Fork;
            },
        };
        if !crate::crypto::validate_message(
            &account.to_public_key(),
            hash.as_bytes().as_slice(),
            &block.signature,
        ) {
            return ProcessResult::BadSignature;
        }
        if !check_work(
            block.hashables.previous.as_bytes(),
            block.work,
            self.constants.work_threshold,
        ) {
            return ProcessResult::InsufficientWork;
        }
        let info = match self.account_store.get(&account) {
            Some(i) => i,
            None => default_account_info(),
        };
        if block.hashables.balance.number() > info.balance.number() {
            return ProcessResult::NegativeSpend;
        }
        let amount = info.balance.checked_sub_exact(block.hashables.balance);
        let height = u64_wrapping_inc(info.block_count);
        let sideband = BlockSideband::new(
            account,
            BlockHash::zero(),
            block.hashables.balance,
            height,
            now,
            BlockDetails::new(Epoch::Epoch0, true, false, false),
            Epoch::Epoch0,
        );
        let ghost accounts0 = self.account_store.table.entries@;
        let ghost pending0 = self.pending.entries@;
        self.blocks.put(&hash, StoredBlock { block: BlockEnum::Send(*block), sideband });
        let neg_amount = Amount::zero().wrapping_sub(amount);
        self.representation_add(&info.representative, neg_amount);
        let pending_key = PendingKey::new(block.hashables.destination, hash);
        let pending_info = PendingInfo {
            source: account,
            amount,
            epoch: Epoch::Epoch0,
        };
        self.pending.put(&pending_key, pending_info);
        let new_info = AccountInfo {
            head: hash,
            representative: info.representative,
            open_block: info.open_block,
            balance: block.hashables.balance,
            modified: now,
            block_count: height,
            epoch: Epoch::Epoch0,
        };
        self.account_store.table.put(&account, new_info);
        self.frontier.del(&block.hashables.previous);
        self.frontier.put(&hash, account);
        proof {
            let f = balance_of_entry();
            if old(self).rep_weights_consistent() {
                assert((neg_amount.raw + amount.raw) % m == 0int % m) by {
                    if amount.raw == 0 {
                    } else {
                        vstd::arithmetic::div_mod::lemma_mod_self_0(m);
                        vstd::arithmetic::div_mod::lemma_mod_twice(0int, m);
                    }
                }
                let sw0 = sum_by(old(self).rep_weights.entries@, weight_of_entry());
                let sw1 = sum_by(self.rep_weights.entries@, weight_of_entry());
                assert(sw1 % m == (sw0 - amount.raw) % m) by {
                    vstd::arithmetic::div_mod::lemma_mod_adds(sw0, neg_amount.raw as int, m);
                    vstd::arithmetic::div_mod::lemma_mod_adds(sw0 - amount.raw, amount.raw + neg_amount.raw, m);
                    vstd::arithmetic::div_mod::lemma_mod_adds(sw0 - amount.raw, 0int, m);
                    assert((amount.raw + neg_amount.raw) % m == 0int % m);
                }
                if old(self).spec_account_info(account@) is Some {
                    let q = choose|q: int|
                        0 <= q < accounts0.len() && (#[trigger] accounts0[q]).0.key_view()
                            == account@ && old(self).account_store.table.spec_get(account@)
                            == Some(accounts0[q].1) && self.account_store.table.entries@
                            == accounts0.update(q, (account, new_info));
                    lemma_sum_by_update(accounts0, q, (account, new_info), f);
                } else {
                    let q = choose|q: int|
                        0 <= q <= accounts0.len() && self.account_store.table.entries@
                            == accounts0.insert(q, (account, new_info));
                    lemma_sum_by_insert(accounts0, q, (account, new_info), f);
                }
                let sb0 = sum_by(accounts0, f);
                let sb1 = sum_by(self.account_store.table.entries@, f);
                assert(sb1 == sb0 - info.balance.raw + block.hashables.balance.raw || sb1 == sb0
                    + block.hashables.balance.raw);
                assert(sb1 == sb0 - amount.raw);
            }
            if old(self).pending_refs_exist() {
                assert forall|i: int|
                    0 <= i < self.pending.entries@.len() implies self.spec_block_exists(
                    (#[trigger] self.pending.entries@[i]).0.hash@,
                ) by {
                    if old(self).spec_pending(pending_key.key_view()) is Some {
                        let q = choose|q: int|
                            0 <= q < pending0.len() && (#[trigger] pending0[q]).0.key_view()
                                == pending_key.key_view() && self.pending.entries@
                                == pending0.update(q, (pending_key, pending_info));
                        if i == q {
                            assert(self.pending.entries@[i].0.hash@ == hash@);
                        } else {
                            assert(self.pending.entries@[i] == pending0[i]);
                            assert(old(self).spec_block_exists(pending0[i].0.hash@));
                            if pending0[i].0.hash@ != hash@ {
                                assert(self.blocks.spec_get(pending0[i].0.hash@) == old(self).blocks.spec_get(pending0[i].0.hash@));
                            }
                        }
                    } else {
                        let q = choose|q: int|
                            0 <= q <= pending0.len() && self.pending.entries@ == pending0.insert(
                                q,
                                (pending_key, pending_info),
                            );
                        if i == q {
                            assert(self.pending.entries@[i].0.hash@ == hash@);
                        } else if i < q {
                            assert(self.pending.entries@[i] == pending0[i]);
                            assert(old(self).spec_block_exists(pending0[i].0.hash@));
                            if pending0[i].0.hash@ != hash@ {
                                assert(self.blocks.spec_get(pending0[i].0.hash@) == old(self).blocks.spec_get(pending0[i].0.hash@));
                            }
                        } else {
                            assert(self.pending.entries@[i] == pending0[i - 1]);
                            assert(old(self).spec_block_exists(pending0[i - 1].0.hash@));
                            if pending0[i - 1].0.hash@ != hash@ {
                                assert(self.blocks.spec_get(pending0[i - 1].0.hash@) == old(self).blocks.spec_get(pending0[i - 1].0.hash@));
                            }
                        }
                    }
                }
            }
        }
        ProcessResult::Progress
    }
}


impl Ledger {
    /// The outcome the validator owes a legacy receive block.
    pub open spec fn spec_receive_result(&self, b: &crate::blocks::ReceiveBlock) -> ProcessResult {
        let hash = blake2b_of(b.spec_hash_input());
        let prev = b.hashables.previous@;
        let source = b.hashables.source@;
        if self.spec_block_or_pruned_exists(hash) {
            ProcessResult::Old
        } else if !self.spec_block_exists(prev) {
            ProcessResult::GapPrevious
        } else if !spec_valid_change_block_predecessor(
            self.blocks.spec_get(prev).unwrap().block.spec_block_type(),
        ) {
            ProcessResult::BlockPosition
        } else if self.spec_frontier_account(prev) is None {
            ProcessResult::Fork
        } else if !sig_check(self.spec_frontier_account(prev).unwrap()@, hash, b.signature@) {
            ProcessResult::BadSignature
        } else if !spec_valid_work(prev, b.work, self.constants.work_threshold) {
            ProcessResult::InsufficientWork
        } else if !self.spec_block_exists(source) {
            ProcessResult::GapSource
        } else if self.spec_pending(
            self.spec_frontier_account(prev).unwrap()@ + source,
        ) is None {
            ProcessResult::Unreceivable
        } else if self.spec_info_balance(self.spec_frontier_account(prev).unwrap()@)
            + self.spec_pending(self.spec_frontier_account(prev).unwrap()@ + source).unwrap().amount.raw
            > u128::MAX {
            ProcessResult::BalanceMismatch
        } else {
            ProcessResult::Progress
        }
    }

    /// Validates and applies a legacy receive block. On success the
    /// pending entry is consumed and its amount joins the account's
    /// balance and representative weight; every failure leaves the
    /// ledger untouched.
    pub fn process_receive(&mut self, block: &crate::blocks::ReceiveBlock, now: u64) -> (r:
        ProcessResult)
        requires
            old(self).inv(),
        ensures
            final(self).inv(),
            r == old(self).spec_receive_result(block),
            r != ProcessResult::Progress ==> final(self).same_state(old(self)),
            r == ProcessResult::Progress ==> {
                let hash = blake2b_of(block.spec_hash_input());
                let prev = block.hashables.previous@;
                let source = block.hashables.source@;
                let account = old(self).spec_frontier_account(prev).unwrap();
                let count0 = old(self).spec_info_block_count(account@);
                let balance0 = old(self).spec_info_balance(account@);
                let amount = old(self).spec_pending(account@ + source).unwrap().amount.raw;
                &&& final(self).blocks.spec_get(hash) is Some
                &&& {
                    let stored = final(self).blocks.spec_get(hash).unwrap();
                    &&& stored.block == BlockEnum::Receive(*block)
                    &&& stored.sideband.account@ == account@
                    &&& stored.sideband.balance.raw == balance0 + amount
                    &&& stored.sideband.height == (if count0 < u64::MAX {
                        count0 + 1
                    } else {
                        0
                    })
                    &&& stored.sideband.timestamp == now
                    &&& stored.sideband.details == (BlockDetails {
                        epoch: Epoch::Epoch0,
                        is_send: false,
                        is_receive: true,
                        is_epoch: false,
                    })
                }
                &&& forall|k: Seq<u8>|
                    k != hash ==> #[trigger] final(self).blocks.spec_get(k) == old(self).blocks.spec_get(k)
                &&& final(self).spec_pending(account@ + source) is None
                &&& forall|k: Seq<u8>|
                    k != account@ + source ==> #[trigger] final(self).spec_pending(k) == old(self).spec_pending(k)
                &&& final(self).spec_account_info(account@) is Some
                &&& {
                    let ni = final(self).spec_account_info(account@).unwrap();
                    &&& ni.head@ == hash
                    &&& ni.representative@ == old(self).spec_info_representative(account@)
                    &&& ni.open_block@ == old(self).spec_info_open_block(account@)
                    &&& ni.balance.raw == balance0 + amount
                    &&& ni.modified == now
                    &&& ni.block_count == (if count0 < u64::MAX {
                        count0 + 1
                    } else {
                        0
                    })
                }
                &&& forall|k: Seq<u8>|
                    k != account@ ==> #[trigger] final(self).spec_account_info(k) == old(self).spec_account_info(k)
                &&& final(self).spec_weight(old(self).spec_info_representative(account@)) == ((old(self).spec_weight(old(self).spec_info_representative(account@)) + amount)
                    % 0x1_0000_0000_0000_0000_0000_0000_0000_0000int)
                &&& final(self).spec_frontier_account(hash) == Some(account)
                &&& final(self).spec_frontier_account(prev) is None
                &&& forall|k: Seq<u8>|
                    k != hash && k != prev ==> #[trigger] final(self).spec_frontier_account(k)
                        == old(self).spec_frontier_account(k)
                &&& final(self).confirmation_height == old(self).confirmation_height
                &&& final(self).pruned == old(self).pruned
                &&& final(self).peer_store == old(self).peer_store
                &&& final(self).constants == old(self).constants
            },
            old(self).rep_weights_consistent() ==> final(self).rep_weights_consistent(),
            old(self).pending_refs_exist() ==> final(self).pending_refs_exist(),
    {
        let ghost m = 0x1_0000_0000_0000_0000_0000_0000_0000_0000int;
        let hash = block.hash();
        if self.block_or_pruned_exists(&hash) {
            return ProcessResult::Old;
        }
        let previous = match self.get_block(&block.hashables.previous) {
            Some(p) => p,
            None => {
                return ProcessResult::GapPrevious;
            },
        };
        if !valid_change_block_predecessor(previous.block.block_type()) {
            return ProcessResult::BlockPosition;
        }
        let account = match self.frontier.get(&block.hashables.previous) {
            Some(a) => a,
            None => {
                return ProcessResult::Fork;
            },
        };
        if !crate::crypto::validate_message(
            &account.to_public_key(),
            hash.as_bytes().as_slice(),
            &block.signature,
        ) {
            return ProcessResult::BadSignature;
        }
        if !check_work(
            block.hashables.previous.as_bytes(),
            block.work,
            self.constants.work_threshold,
        ) {
            return ProcessResult::InsufficientWork;
        }
        if !self.block_exists(&block.hashables.source) {
            return ProcessResult::GapSource;
        }
        let pending_key = PendingKey::new(account, block.hashables.source);
        let pending_info = match self.pending.get(&pending_key) {
            Some(p) => p,
            None => {
                return ProcessResult::Unreceivable;
            },
        };
        let info = match self.account_store.get(&account) {
            Some(i) => i,
            None => default_account_info(),
        };
        if pending_info.amount.number() > u128::MAX - info.balance.number() {
            return ProcessResult::BalanceMismatch;
        }
        let amount = pending_info.amount;
        let new_balance = info.balance.checked_add_exact(amount);
        let height = u64_wrapping_inc(info.block_count);
        let sideband = BlockSideband::new(
            account,
            BlockHash::zero(),
            new_balance,
            height,
            now,
            BlockDetails::new(Epoch::Epoch0, false, true, false),
            Epoch::Epoch0,
        );
        let ghost accounts0 = self.account_store.table.entries@;
        let ghost pending0 = self.pending.entries@;
        self.blocks.put(&hash, StoredBlock { block: BlockEnum::Receive(*block), sideband });
        self.pending.del(&pending_key);
        self.representation_add(&info.representative, amount);
        let new_info = AccountInfo {
            head: hash,
            representative: info.representative,
            open_block: info.open_block,
            balance: new_balance,
            modified: now,
            block_count: height,
            epoch: Epoch::Epoch0,
        };
        self.account_store.table.put(&account, new_info);
        self.frontier.del(&block.hashables.previous);
        self.frontier.put(&hash, account);
        proof {
            let f = balance_of_entry();
            if old(self).rep_weights_consistent() {
                let sw0 = sum_by(old(self).rep_weights.entries@, weight_of_entry());
                let sw1 = sum_by(self.rep_weights.entries@, weight_of_entry());
                assert(sw1 % m == (sw0 + amount.raw) % m);
                if old(self).spec_account_info(account@) is Some {
                    let q = choose|q: int|
                        0 <= q < accounts0.len() && (#[trigger] accounts0[q]).0.key_view()
                            == account@ && old(self).account_store.table.spec_get(account@)
                            == Some(accounts0[q].1) && self.account_store.table.entries@
                            == accounts0.update(q, (account, new_info));
                    lemma_sum_by_update(accounts0, q, (account, new_info), f);
                } else {
                    let q = choose|q: int|
                        0 <= q <= accounts0.len() && self.account_store.table.entries@
                            == accounts0.insert(q, (account, new_info));
                    lemma_sum_by_insert(accounts0, q, (account, new_info), f);
                }
                let sb0 = sum_by(accounts0, f);
                let sb1 = sum_by(self.account_store.table.entries@, f);
                assert(sb1 == sb0 + amount.raw);
                assert(sb1 % m == (sb0 + amount.raw) % m);
            }
            if old(self).pending_refs_exist() {
                let q = choose|q: int|
                    0 <= q < pending0.len() && (#[trigger] pending0[q]).0.key_view()
                        == pending_key.key_view() && self.pending.entries@ == pending0.remove(q);
                assert forall|i: int|
                    0 <= i < self.pending.entries@.len() implies self.spec_block_exists(
                    (#[trigger] self.pending.entries@[i]).0.hash@,
                ) by {
                    if i < q {
                        assert(self.pending.entries@[i] == pending0[i]);
                        assert(old(self).spec_block_exists(pending0[i].0.hash@));
                        if pending0[i].0.hash@ != hash@ {
                            assert(self.blocks.spec_get(pending0[i].0.hash@) == old(self).blocks.spec_get(pending0[i].0.hash@));
                        }
                    } else {
                        assert(self.pending.entries@[i] == pending0[i + 1]);
                        assert(old(self).spec_block_exists(pending0[i + 1].0.hash@));
                        if pending0[i + 1].0.hash@ != hash@ {
                            assert(self.blocks.spec_get(pending0[i + 1].0.hash@) == old(self).blocks.spec_get(pending0[i + 1].0.hash@));
                        }
                    }
                }
            }
        }
        ProcessResult::Progress
    }

    /// The outcome the validator owes a legacy open block.
    pub open spec fn spec_open_result(&self, b: &crate::blocks::OpenBlock) -> ProcessResult {
        let hash = blake2b_of(b.spec_hash_input());
        let account = b.hashables.account@;
        let source = b.hashables.source@;
        if self.spec_block_or_pruned_exists(hash) {
            ProcessResult::Old
        } else if account == zero32() {
            ProcessResult::OpenedBurnAccount
        } else if self.spec_account_info(account) is Some {
            ProcessResult::Fork
        } else if !sig_check(account, hash, b.signature@) {
            ProcessResult::BadSignature
        } else if !spec_valid_work(account, b.work, self.constants.work_threshold) {
            ProcessResult::InsufficientWork
        } else if !self.spec_block_exists(source) {
            ProcessResult::GapSource
        } else if self.spec_pending(account + source) is None {
            ProcessResult::Unreceivable
        } else {
            ProcessResult::Progress
        }
    }

    /// Validates and applies a legacy open block: the first block of a
    /// new account, consuming a pending send directed to it. Every
    /// failure leaves the ledger untouched.
    pub fn process_open(&mut self, block: &crate::blocks::OpenBlock, now: u64) -> (r:
        ProcessResult)
        requires
            old(self).inv(),
        ensures
            final(self).inv(),
            r == old(self).spec_open_result(block),
            r != ProcessResult::Progress ==> final(self).same_state(old(self)),
            r == ProcessResult::Progress ==> {
                let hash = blake2b_of(block.spec_hash_input());
                let account = block.hashables.account@;
                let source = block.hashables.source@;
                let amount = old(self).spec_pending(account + source).unwrap().amount.raw;
                &&& final(self).blocks.spec_get(hash) is Some
                &&& {
                    let stored = final(self).blocks.spec_get(hash).unwrap();
                    &&& stored.block == BlockEnum::Open(*block)
                    &&& stored.sideband.account@ == account
                    &&& stored.sideband.balance.raw == amount
                    &&& stored.sideband.height == 1
                    &&& stored.sideband.timestamp == now
                    &&& stored.sideband.details == (BlockDetails {
                        epoch: Epoch::Epoch0,
                        is_send: false,
                        is_receive: true,
                        is_epoch: false,
                    })
                }
                &&& forall|k: Seq<u8>|
                    k != hash ==> #[trigger] final(self).blocks.spec_get(k) == old(self).blocks.spec_get(k)
                &&& final(self).spec_pending(account + source) is None
                &&& forall|k: Seq<u8>|
                    k != account + source ==> #[trigger] final(self).spec_pending(k) == old(self).spec_pending(k)
                &&& final(self).spec_account_info(account) is Some
                &&& {
                    let ni = final(self).spec_account_info(account).unwrap();
                    &&& ni.head@ == hash
                    &&& ni.representative@ == block.hashables.representative@
                    &&& ni.open_block@ == hash
                    &&& ni.balance.raw == amount
                    &&& ni.modified == now
                    &&& ni.block_count == 1
                }
                &&& forall|k: Seq<u8>|
                    k != account ==> #[trigger] final(self).spec_account_info(k) == old(self).spec_account_info(k)
                &&& final(self).spec_weight(block.hashables.representative@) == ((old(self).spec_weight(block.hashables.representative@) + amount)
                    % 0x1_0000_0000_0000_0000_0000_0000_0000_0000int)
                &&& final(self).spec_frontier_account(hash) == Some(block.hashables.account)
                &&& forall|k: Seq<u8>|
                    k != hash ==> #[trigger] final(self).spec_frontier_account(k) == old(self).spec_frontier_account(k)
                &&& final(self).confirmation_height == old(self).confirmation_height
                &&& final(self).pruned == old(self).pruned
                &&& final(self).peer_store == old(self).peer_store
                &&& final(self).constants == old(self).constants
            },
            old(self).rep_weights_consistent() ==> final(self).rep_weights_consistent(),
            old(self).pending_refs_exist() ==> final(self).pending_refs_exist(),
    {
        let ghost m = 0x1_0000_0000_0000_0000_0000_0000_0000_0000int;
        let hash = block.hash();
        if self.block_or_pruned_exists(&hash) {
            return ProcessResult::Old;
        }
        if block.hashables.account.is_zero() {
            return ProcessResult::OpenedBurnAccount;
        }
        if self.account_store.contains(&block.hashables.account) {
            return ProcessResult::Fork;
        }
        if !crate::crypto::validate_message(
            &block.hashables.account.to_public_key(),
            hash.as_bytes().as_slice(),
            &block.signature,
        ) {
            return ProcessResult::BadSignature;
        }
        if !check_work(
            block.hashables.account.as_bytes(),
            block.work,
            self.constants.work_threshold,
        ) {
            return ProcessResult::InsufficientWork;
        }
        if !self.block_exists(&block.hashables.source) {
            return ProcessResult::GapSource;
        }
        let pending_key = PendingKey::new(block.hashables.account, block.hashables.source);
        let pending_info = match self.pending.get(&pending_key) {
            Some(p) => p,
            None => {
                return ProcessResult::Unreceivable;
            },
        };
        let amount = pending_info.amount;
        let sideband = BlockSideband::new(
            block.hashables.account,
            BlockHash::zero(),
            amount,
            1,
            now,
            BlockDetails::new(Epoch::Epoch0, false, true, false),
            Epoch::Epoch0,
        );
        let ghost accounts0 = self.account_store.table.entries@;
        let ghost pending0 = self.pending.entries@;
        self.blocks.put(&hash, StoredBlock { block: BlockEnum::Open(*block), sideband });
        self.pending.del(&pending_key);
        self.representation_add(&block.hashables.representative, amount);
        let new_info = AccountInfo {
            head: hash,
            representative: block.hashables.representative,
            open_block: hash,
            balance: amount,
            modified: now,
            block_count: 1,
            epoch: Epoch::Epoch0,
        };
        self.account_store.table.put(&block.hashables.account, new_info);
        self.frontier.put(&hash, block.hashables.account);
        proof {
            let f = balance_of_entry();
            let account = block.hashables.account;
            if old(self).rep_weights_consistent() {
                let sw0 = sum_by(old(self).rep_weights.entries@, weight_of_entry());
                let sw1 = sum_by(self.rep_weights.entries@, weight_of_entry());
                assert(sw1 % m == (sw0 + amount.raw) % m);
                let q = choose|q: int|
                    0 <= q <= accounts0.len() && self.account_store.table.entries@
                        == accounts0.insert(q, (account, new_info));
                lemma_sum_by_insert(accounts0, q, (account, new_info), f);
                let sb0 = sum_by(accounts0, f);
                let sb1 = sum_by(self.account_store.table.entries@, f);
                assert(sb1 == sb0 + amount.raw);
                assert(sb1 % m == (sb0 + amount.raw) % m);
            }
            if old(self).pending_refs_exist() {
                let q = choose|q: int|
                    0 <= q < pending0.len() && (#[trigger] pending0[q]).0.key_view()
                        == pending_key.key_view() && self.pending.entries@ == pending0.remove(q);
                assert forall|i: int|
                    0 <= i < self.pending.entries@.len() implies self.spec_block_exists(
                    (#[trigger] self.pending.entries@[i]).0.hash@,
                ) by {
                    if i < q {
                        assert(self.pending.entries@[i] == pending0[i]);
                        assert(old(self).spec_block_exists(pending0[i].0.hash@));
                        if pending0[i].0.hash@ != hash@ {
                            assert(self.blocks.spec_get(pending0[i].0.hash@) == old(self).blocks.spec_get(pending0[i].0.hash@));
                        }
                    } else {
                        assert(self.pending.entries@[i] == pending0[i + 1]);
                        assert(old(self).spec_block_exists(pending0[i + 1].0.hash@));
                        if pending0[i + 1].0.hash@ != hash@ {
                            assert(self.blocks.spec_get(pending0[i + 1].0.hash@) == old(self).blocks.spec_get(pending0[i + 1].0.hash@));
                        }
                    }
                }
            }
        }
        ProcessResult::Progress
    }
}


impl Ledger {
    /// The outcome the validator owes a state block: the shared checks,
    /// then classification by balance delta and link into send,
    /// receive or representative change.
    pub open spec fn spec_state_result(&self, b: &crate::blocks::StateBlock) -> ProcessResult {
        let hash = blake2b_of(b.spec_hash_input());
        let prev = b.hashables.previous@;
        let account = b.hashables.account@;
        let link = b.hashables.link@;
        let has_prev = prev != zero32();
        if self.spec_block_or_pruned_exists(hash) {
            ProcessResult::Old
        } else if has_prev && !self.spec_block_exists(prev) {
            ProcessResult::GapPrevious
        } else if self.spec_account_info(account) is Some && !has_prev {
            ProcessResult::Fork
        } else if self.spec_account_info(account) is Some && prev != self.spec_account_info(
            account,
        ).unwrap().head@ {
            ProcessResult::Fork
        } else if self.spec_account_info(account) is None && has_prev {
            ProcessResult::GapPrevious
        } else if !sig_check(account, hash, b.signature@) {
            ProcessResult::BadSignature
        } else if !spec_valid_work(
            if has_prev {
                prev
            } else {
                account
            },
            b.work,
            self.constants.work_threshold,
        ) {
            ProcessResult::InsufficientWork
        } else if b.hashables.balance.raw < self.spec_info_balance(account) {
            ProcessResult::Progress
        } else if link == self.constants.epoch_link@ {
            if b.hashables.balance.raw > self.spec_info_balance(account) {
                ProcessResult::BalanceMismatch
            } else {
                ProcessResult::Progress
            }
        } else if link != zero32() {
            if !self.spec_block_exists(link) {
                ProcessResult::GapSource
            } else if self.spec_pending(account + link) is None {
                ProcessResult::Unreceivable
            } else if self.spec_pending(account + link).unwrap().amount.raw
                != b.hashables.balance.raw - self.spec_info_balance(account) {
                ProcessResult::BalanceMismatch
            } else {
                ProcessResult::Progress
            }
        } else if b.hashables.balance.raw > self.spec_info_balance(account) {
            ProcessResult::BalanceMismatch
        } else {
            ProcessResult::Progress
        }
    }

    /// Whether a state block acts as a send.
    pub open spec fn spec_state_is_send(&self, b: &crate::blocks::StateBlock) -> bool {
        b.hashables.balance.raw < self.spec_info_balance(b.hashables.account@)
    }

    /// Whether a state block is an epoch upgrade: its link carries the
    /// epoch marker and the balance stands still.
    pub open spec fn spec_state_is_epoch(&self, b: &crate::blocks::StateBlock) -> bool {
        !self.spec_state_is_send(b) && b.hashables.link@ == self.constants.epoch_link@
    }

    /// Whether a state block acts as a receive.
    pub open spec fn spec_state_is_receive(&self, b: &crate::blocks::StateBlock) -> bool {
        !self.spec_state_is_send(b) && !self.spec_state_is_epoch(b) && b.hashables.link@
            != zero32()
    }

    /// The epoch of an account; no account means the first epoch.
    pub open spec fn spec_info_epoch(&self, account: Seq<u8>) -> Epoch {
        match self.spec_account_info(account) {
            Some(i) => i.epoch,
            None => Epoch::Epoch0,
        }
    }

    /// Validates and applies a state block. On success the account's
    /// full state is replaced: a send emits a pending entry for the
    /// link account, a receive consumes the linked pending entry, and
    /// voting weight follows the balance to the named representative.
    /// Every failure leaves the ledger untouched.
    #[verifier::rlimit(100)]
    pub fn process_state(&mut self, block: &crate::blocks::StateBlock, now: u64) -> (r:
        ProcessResult)
        requires
            old(self).inv(),
        ensures
            final(self).inv(),
            r == old(self).spec_state_result(block),
            r != ProcessResult::Progress ==> final(self).same_state(old(self)),
            r == ProcessResult::Progress ==> {
                let hash = blake2b_of(block.spec_hash_input());
                let prev = block.hashables.previous@;
                let account = block.hashables.account@;
                let link = block.hashables.link@;
                let count0 = old(self).spec_info_block_count(account);
                let balance0 = old(self).spec_info_balance(account);
                let is_send = old(self).spec_state_is_send(block);
                let is_receive = old(self).spec_state_is_receive(block);
                let is_epoch = old(self).spec_state_is_epoch(block);
                &&& final(self).blocks.spec_get(hash) is Some
                &&& {
                    let stored = final(self).blocks.spec_get(hash).unwrap();
                    &&& stored.block == BlockEnum::State(*block)
                    &&& stored.sideband.account@ == account
                    &&& stored.sideband.balance == block.hashables.balance
                    &&& stored.sideband.height == (if count0 < u64::MAX {
                        count0 + 1
                    } else {
                        0
                    })
                    &&& stored.sideband.timestamp == now
                    &&& stored.sideband.details == (BlockDetails {
                        epoch: if old(self).spec_state_is_epoch(block) {
                            Epoch::Epoch1
                        } else {
                            Epoch::Epoch0
                        },
                        is_send: is_send,
                        is_receive: is_receive,
                        is_epoch: old(self).spec_state_is_epoch(block),
                    })
                }
                &&& forall|k: Seq<u8>|
                    k != hash ==> #[trigger] final(self).blocks.spec_get(k) == old(self).blocks.spec_get(k)
                &&& (is_send ==> final(self).spec_pending(link + hash) is Some
                    && final(self).spec_pending(link + hash).unwrap().source@ == account
                    && final(self).spec_pending(link + hash).unwrap().amount.raw == balance0
                    - block.hashables.balance.raw && (forall|k: Seq<u8>|
                    k != link + hash ==> #[trigger] final(self).spec_pending(k) == old(self).spec_pending(k)))
                &&& (is_receive ==> final(self).spec_pending(account + link) is None && (forall|
                    k: Seq<u8>,
                |
                    k != account + link ==> #[trigger] final(self).spec_pending(k) == old(self).spec_pending(k)))
                &&& (!is_send && !is_receive ==> final(self).pending == old(self).pending)
                &&& final(self).spec_info_epoch(account) == (if is_epoch {
                    Epoch::Epoch1
                } else {
                    Epoch::Epoch0
                })
                &&& final(self).spec_account_info(account) is Some
                &&& {
                    let ni = final(self).spec_account_info(account).unwrap();
                    &&& ni.head@ == hash
                    &&& ni.representative@ == block.hashables.representative@
                    &&& ni.open_block@ == (if old(self).spec_account_info(account) is Some {
                        old(self).spec_info_open_block(account)
                    } else {
                        hash
                    })
                    &&& ni.balance == block.hashables.balance
                    &&& ni.modified == now
                    &&& ni.block_count == (if count0 < u64::MAX {
                        count0 + 1
                    } else {
                        0
                    })
                }
                &&& forall|k: Seq<u8>|
                    k != account ==> #[trigger] final(self).spec_account_info(k) == old(self).spec_account_info(k)
                &&& (block.hashables.representative@ != old(self).spec_info_representative(
                    account,
                ) ==> final(self).spec_weight(block.hashables.representative@) == ((old(self).spec_weight(block.hashables.representative@) + block.hashables.balance.raw)
                    % 0x1_0000_0000_0000_0000_0000_0000_0000_0000int) && final(self).spec_weight(
                    old(self).spec_info_representative(account),
                ) == ((old(self).spec_weight(old(self).spec_info_representative(account)) + (
                if balance0 == 0 {
                    0int
                } else {
                    0x1_0000_0000_0000_0000_0000_0000_0000_0000int - balance0
                })) % 0x1_0000_0000_0000_0000_0000_0000_0000_0000int))
                &&& (block.hashables.representative@ == old(self).spec_info_representative(
                    account,
                ) ==> final(self).spec_weight(block.hashables.representative@) == ((old(self).spec_weight(block.hashables.representative@) + block.hashables.balance.raw + (
                if balance0 == 0 {
                    0int
                } else {
                    0x1_0000_0000_0000_0000_0000_0000_0000_0000int - balance0
                })) % 0x1_0000_0000_0000_0000_0000_0000_0000_0000int))
                &&& forall|k: Seq<u8>|
                    k != block.hashables.representative@ && k != old(self).spec_info_representative(account) ==> #[trigger] final(self).rep_weights.spec_get(k) == old(self).rep_weights.spec_get(k)
                &&& (prev != zero32() ==> final(self).spec_frontier_account(prev) is None)
                &&& (prev == zero32() ==> final(self).frontier == old(self).frontier)
                &&& forall|k: Seq<u8>|
                    k != prev ==> #[trigger] final(self).spec_frontier_account(k) == old(self).spec_frontier_account(k)
                &&& final(self).confirmation_height == old(self).confirmation_height
                &&& final(self).pruned == old(self).pruned
                &&& final(self).peer_store == old(self).peer_store
                &&& final(self).constants == old(self).constants
            },
            old(self).rep_weights_consistent() ==> final(self).rep_weights_consistent(),
            old(self).pending_refs_exist() ==> final(self).pending_refs_exist(),
    {
        let ghost m = 0x1_0000_0000_0000_0000_0000_0000_0000_0000int;
        let hash = block.hash();
        if self.block_or_pruned_exists(&hash) {
            return ProcessResult::Old;
        }
        let has_prev = !block.hashables.previous.is_zero();
        if has_prev && !self.block_exists(&block.hashables.previous) {
            return ProcessResult::GapPrevious;
        }
        let info_opt = self.account_store.get(&block.hashables.account);
        match &info_opt {
            Some(i) => {
                if !has_prev {
                    return ProcessResult::Fork;
                }
                if !(block.hashables.previous == i.head) {
                    return ProcessResult::Fork;
                }
            },
            None => {
                if has_prev {
                    return ProcessResult::GapPrevious;
                }
            },
        }
        if !crate::crypto::validate_message(
            &block.hashables.account.to_public_key(),
            hash.as_bytes().as_slice(),
            &block.signature,
        ) {
            return ProcessResult::BadSignature;
        }
        let work_ok = if has_prev {
            check_work(
                block.hashables.previous.as_bytes(),
                block.work,
                self.constants.work_threshold,
            )
        } else {
            check_work(
                block.hashables.account.as_bytes(),
                block.work,
                self.constants.work_threshold,
            )
        };
        if !work_ok {
            return ProcessResult::InsufficientWork;
        }
        let info = match &info_opt {
            Some(i) => *i,
            None => default_account_info(),
        };
        let is_send = block.hashables.balance.number() < info.balance.number();
        let link_is_zero = block.hashables.link.is_zero();
        let is_epoch = !is_send && crate::numbers::bytes32_eq(
            &block.hashables.link.bytes,
            &self.constants.epoch_link,
        );
        let mut receive_amount = Amount::zero();
        if !is_send {
            if is_epoch {
                if block.hashables.balance.number() > info.balance.number() {
                    return ProcessResult::BalanceMismatch;
                }
            } else if !link_is_zero {
                if !self.block_exists(&block.hashables.link.to_block_hash()) {
                    return ProcessResult::GapSource;
                }
                let pending_key = PendingKey::new(
                    block.hashables.account,
                    block.hashables.link.to_block_hash(),
                );
                let pending_info = match self.pending.get(&pending_key) {
                    Some(p) => p,
                    None => {
                        return ProcessResult::Unreceivable;
                    },
                };
                let expected = block.hashables.balance.checked_sub_exact(info.balance);
                if !(pending_info.amount.number() == expected.number()) {
                    return ProcessResult::BalanceMismatch;
                }
                receive_amount = pending_info.amount;
            } else {
                if block.hashables.balance.number() > info.balance.number() {
                    return ProcessResult::BalanceMismatch;
                }
            }
        }
        let is_receive = !is_send && !is_epoch && !link_is_zero;
        let height = u64_wrapping_inc(info.block_count);
        let block_epoch = if is_epoch {
            Epoch::Epoch1
        } else {
            Epoch::Epoch0
        };
        let sideband = BlockSideband::new(
            block.hashables.account,
            BlockHash::zero(),
            block.hashables.balance,
            height,
            now,
            BlockDetails::new(block_epoch, is_send, is_receive, is_epoch),
            Epoch::Epoch0,
        );
        let ghost accounts0 = self.account_store.table.entries@;
        let ghost pending0 = self.pending.entries@;
        self.blocks.put(&hash, StoredBlock { block: BlockEnum::State(*block), sideband });
        let send_key = PendingKey::new(block.hashables.link.to_account(), hash);
        let recv_key = PendingKey::new(
            block.hashables.account,
            block.hashables.link.to_block_hash(),
        );
        let mut sent_value = PendingInfo {
            source: block.hashables.account,
            amount: Amount::zero(),
            epoch: Epoch::Epoch0,
        };
        if is_send {
            let amount = info.balance.checked_sub_exact(block.hashables.balance);
            sent_value = PendingInfo {
                source: block.hashables.account,
                amount,
                epoch: Epoch::Epoch0,
            };
            self.pending.put(&send_key, sent_value);
        } else if is_receive {
            self.pending.del(&recv_key);
        }
        let neg_balance0 = Amount::zero().wrapping_sub(info.balance);
        self.representation_add_dual(
            &block.hashables.representative,
            block.hashables.balance,
            &info.representative,
            neg_balance0,
        );
        let new_info = AccountInfo {
            head: hash,
            representative: block.hashables.representative,
            open_block: match &info_opt {
                Some(_) => info.open_block,
                None => hash,
            },
            balance: block.hashables.balance,
            modified: now,
            block_count: height,
            epoch: block_epoch,
        };
        self.account_store.table.put(&block.hashables.account, new_info);
        if has_prev {
            self.frontier.del(&block.hashables.previous);
        }
        proof {
            let f = balance_of_entry();
            let account = block.hashables.account;
            if old(self).rep_weights_consistent() {
                let sw0 = sum_by(old(self).rep_weights.entries@, weight_of_entry());
                let sw1 = sum_by(self.rep_weights.entries@, weight_of_entry());
                assert(sw1 % m == (sw0 + block.hashables.balance.raw + neg_balance0.raw) % m);
                assert(sw1 % m == (sw0 + block.hashables.balance.raw - info.balance.raw) % m) by {
                    vstd::arithmetic::div_mod::lemma_mod_adds(
                        sw0 + block.hashables.balance.raw - info.balance.raw,
                        info.balance.raw + neg_balance0.raw,
                        m,
                    );
                    vstd::arithmetic::div_mod::lemma_mod_adds(
                        sw0 + block.hashables.balance.raw - info.balance.raw,
                        0int,
                        m,
                    );
                    assert((info.balance.raw + neg_balance0.raw) % m == 0int % m) by {
                        if info.balance.raw == 0 {
                        } else {
                            vstd::arithmetic::div_mod::lemma_mod_self_0(m);
                            vstd::arithmetic::div_mod::lemma_mod_twice(0int, m);
                        }
                    }
                }
                if old(self).spec_account_info(account@) is Some {
                    let q = choose|q: int|
                        0 <= q < accounts0.len() && (#[trigger] accounts0[q]).0.key_view()
                            == account@ && old(self).account_store.table.spec_get(account@)
                            == Some(accounts0[q].1) && self.account_store.table.entries@
                            == accounts0.update(q, (account, new_info));
                    lemma_sum_by_update(accounts0, q, (account, new_info), f);
                } else {
                    let q = choose|q: int|
                        0 <= q <= accounts0.len() && self.account_store.table.entries@
                            == accounts0.insert(q, (account, new_info));
                    lemma_sum_by_insert(accounts0, q, (account, new_info), f);
                }
                let sb0 = sum_by(accounts0, f);
                let sb1 = sum_by(self.account_store.table.entries@, f);
                assert(sb1 == sb0 - info.balance.raw + block.hashables.balance.raw || sb1 == sb0
                    + block.hashables.balance.raw);
                assert(sb1 % m == (sb0 + block.hashables.balance.raw - info.balance.raw) % m);
            }
            if old(self).pending_refs_exist() {
                if is_send {
                    assert forall|i: int|
                        0 <= i < self.pending.entries@.len() implies self.spec_block_exists(
                        (#[trigger] self.pending.entries@[i]).0.hash@,
                    ) by {
                        if old(self).spec_pending(send_key.key_view()) is Some {
                            let q = choose|q: int|
                                0 <= q < pending0.len() && (#[trigger] pending0[q]).0.key_view()
                                    == send_key.key_view() && self.pending.entries@
                                    == pending0.update(q, (send_key, sent_value));
                            if i == q {
                                assert(self.pending.entries@[i].0.hash@ == hash@);
                            } else {
                                assert(self.pending.entries@[i] == pending0[i]);
                                assert(old(self).spec_block_exists(pending0[i].0.hash@));
                                if pending0[i].0.hash@ != hash@ {
                                    assert(self.blocks.spec_get(pending0[i].0.hash@) == old(self).blocks.spec_get(pending0[i].0.hash@));
                                }
                            }
                        } else {
                            let q = choose|q: int|
                                0 <= q <= pending0.len() && self.pending.entries@
                                    == pending0.insert(q, (send_key, sent_value));
                            if i == q {
                                assert(self.pending.entries@[i].0.hash@ == hash@);
                            } else if i < q {
                                assert(self.pending.entries@[i] == pending0[i]);
                                assert(old(self).spec_block_exists(pending0[i].0.hash@));
                                if pending0[i].0.hash@ != hash@ {
                                    assert(self.blocks.spec_get(pending0[i].0.hash@) == old(self).blocks.spec_get(pending0[i].0.hash@));
                                }
                            } else {
                                assert(self.pending.entries@[i] == pending0[i - 1]);
                                assert(old(self).spec_block_exists(pending0[i - 1].0.hash@));
                                if pending0[i - 1].0.hash@ != hash@ {
                                    assert(self.blocks.spec_get(pending0[i - 1].0.hash@) == old(self).blocks.spec_get(pending0[i - 1].0.hash@));
                                }
                            }
                        }
                    }
                } else if is_receive {
                    let q = choose|q: int|
                        0 <= q < pending0.len() && (#[trigger] pending0[q]).0.key_view()
                            == recv_key.key_view() && self.pending.entries@ == pending0.remove(q);
                    assert forall|i: int|
                        0 <= i < self.pending.entries@.len() implies self.spec_block_exists(
                        (#[trigger] self.pending.entries@[i]).0.hash@,
                    ) by {
                        if i < q {
                            assert(self.pending.entries@[i] == pending0[i]);
                            assert(old(self).spec_block_exists(pending0[i].0.hash@));
                            if pending0[i].0.hash@ != hash@ {
                                assert(self.blocks.spec_get(pending0[i].0.hash@) == old(self).blocks.spec_get(pending0[i].0.hash@));
                            }
                        } else {
                            assert(self.pending.entries@[i] == pending0[i + 1]);
                            assert(old(self).spec_block_exists(pending0[i + 1].0.hash@));
                            if pending0[i + 1].0.hash@ != hash@ {
                                assert(self.blocks.spec_get(pending0[i + 1].0.hash@) == old(self).blocks.spec_get(pending0[i + 1].0.hash@));
                            }
                        }
                    }
                } else {
                    assert forall|i: int|
                        0 <= i < self.pending.entries@.len() implies self.spec_block_exists(
                        (#[trigger] self.pending.entries@[i]).0.hash@,
                    ) by {
                        assert(self.pending.entries@[i] == pending0[i]);
                        assert(old(self).spec_block_exists(pending0[i].0.hash@));
                        if pending0[i].0.hash@ != hash@ {
                            assert(self.blocks.spec_get(pending0[i].0.hash@) == old(self).blocks.spec_get(pending0[i].0.hash@));
                        }
                    }
                }
            }
        }
        ProcessResult::Progress
    }
}


impl Ledger {
    /// The account a block belongs to, as the validator determines it:
    /// the frontier owner of the predecessor for legacy chained blocks,
    /// the named account for open and state blocks.
    pub open spec fn spec_account_of(&self, b: &BlockEnum) -> Seq<u8> {
        match b {
            BlockEnum::Open(x) => x.hashables.account@,
            BlockEnum::State(x) => x.hashables.account@,
            BlockEnum::Send(x) => match self.spec_frontier_account(x.hashables.previous@) {
                Some(a) => a@,
                None => zero32(),
            },
            BlockEnum::Receive(x) => match self.spec_frontier_account(x.hashables.previous@) {
                Some(a) => a@,
                None => zero32(),
            },
            BlockEnum::Change(x) => match self.spec_frontier_account(x.hashables.previous@) {
                Some(a) => a@,
                None => zero32(),
            },
        }
    }

    /// The outcome the validator owes a block of any variant.
    pub open spec fn spec_process_result(&self, b: &BlockEnum) -> ProcessResult {
        match b {
            BlockEnum::Open(x) => self.spec_open_result(x),
            BlockEnum::Send(x) => self.spec_send_result(x),
            BlockEnum::Receive(x) => self.spec_receive_result(x),
            BlockEnum::Change(x) => self.spec_change_result(x),
            BlockEnum::State(x) => self.spec_state_result(x),
        }
    }

    /// Validates and applies one block, dispatching on its variant.
    ///
    /// On `Progress` the block is stored and the account's head moves
    /// to it with the chain height one greater; on any other outcome
    /// the ledger is left exactly as it was.
    pub fn process(&mut self, block: &BlockEnum, now: u64) -> (r: ProcessResult)
        requires
            old(self).inv(),
        ensures
            final(self).inv(),
            r == old(self).spec_process_result(block),
            r != ProcessResult::Progress ==> final(self).same_state(old(self)),
            r == ProcessResult::Progress ==> {
                let hash = block.spec_hash();
                let account = old(self).spec_account_of(block);
                &&& final(self).spec_block_exists(hash)
                &&& final(self).spec_account_info(account) is Some
                &&& final(self).spec_account_info(account).unwrap().head@ == hash
                &&& final(self).spec_account_info(account).unwrap().block_count == (if old(self).spec_info_block_count(account) < u64::MAX {
                    old(self).spec_info_block_count(account) + 1
                } else {
                    0
                })
                &&& forall|k: Seq<u8>|
                    k != hash ==> #[trigger] final(self).blocks.spec_get(k) == old(self).blocks.spec_get(k)
            },
            old(self).rep_weights_consistent() ==> final(self).rep_weights_consistent(),
            old(self).pending_refs_exist() ==> final(self).pending_refs_exist(),
    {
        match block {
            BlockEnum::Open(x) => self.process_open(x, now),
            BlockEnum::Send(x) => self.process_send(x, now),
            BlockEnum::Receive(x) => self.process_receive(x, now),
            BlockEnum::Change(x) => self.process_change(x, now),
            BlockEnum::State(x) => self.process_state(x, now),
        }
    }

    /// Installs the genesis open block without validation, as the store
    /// is bootstrapped: the genesis account holds the whole supply and
    /// all of it weighs on the genesis representative.
    pub fn insert_genesis(&mut self, genesis: &crate::blocks::OpenBlock, now: u64)
        requires
            old(self).inv(),
            old(self).account_store.table.spec_len() == 0,
            old(self).rep_weights.spec_len() == 0,
            old(self).blocks.spec_len() == 0,
            old(self).pending.spec_len() == 0,
        ensures
            final(self).inv(),
            final(self).spec_block_exists(genesis.spec_hash()),
            final(self).spec_account_info(genesis.hashables.account@) is Some,
            final(self).spec_account_info(genesis.hashables.account@).unwrap().head@
                == genesis.spec_hash(),
            final(self).spec_account_info(genesis.hashables.account@).unwrap().balance.raw
                == u128::MAX,
            final(self).spec_account_info(genesis.hashables.account@).unwrap().block_count == 1,
            final(self).spec_weight(genesis.hashables.representative@) == u128::MAX,
            final(self).spec_frontier_account(genesis.spec_hash()) == Some(
                genesis.hashables.account,
            ),
            old(self).rep_weights_consistent() ==> final(self).rep_weights_consistent(),
            old(self).pending_refs_exist() ==> final(self).pending_refs_exist(),
            final(self).constants == old(self).constants,
    {
        let hash = genesis.hash();
        let supply = Amount::max_value();
        let sideband = BlockSideband::new(
            genesis.hashables.account,
            BlockHash::zero(),
            supply,
            1,
            now,
            BlockDetails::new(Epoch::Epoch0, false, true, false),
            Epoch::Epoch0,
        );
        let ghost accounts0 = self.account_store.table.entries@;
        let ghost pending0 = self.pending.entries@;
        self.blocks.put(&hash, StoredBlock { block: BlockEnum::Open(*genesis), sideband });
        self.representation_add(&genesis.hashables.representative, supply);
        let info = AccountInfo {
            head: hash,
            representative: genesis.hashables.representative,
            open_block: hash,
            balance: supply,
            modified: now,
            block_count: 1,
            epoch: Epoch::Epoch0,
        };
        self.account_store.table.put(&genesis.hashables.account, info);
        self.frontier.put(&hash, genesis.hashables.account);
        proof {
            let m = 0x1_0000_0000_0000_0000_0000_0000_0000_0000int;
            let f = balance_of_entry();
            if old(self).rep_weights_consistent() {
                let q = choose|q: int|
                    0 <= q <= accounts0.len() && self.account_store.table.entries@
                        == accounts0.insert(q, (genesis.hashables.account, info));
                lemma_sum_by_insert(accounts0, q, (genesis.hashables.account, info), f);
            }
            if old(self).pending_refs_exist() {
                assert forall|i: int|
                    0 <= i < self.pending.entries@.len() implies self.spec_block_exists(
                    (#[trigger] self.pending.entries@[i]).0.hash@,
                ) by {
                    assert(0 <= i < pending0.len());
                }
            }
        }
    }
}

/// Processing the same block twice: once a block is stored, the
/// validator's answer for it is `Old`, whatever its variant.
pub proof fn lemma_reprocess_is_old(l: &Ledger, b: &BlockEnum)
    requires
        l.spec_block_exists(b.spec_hash()),
    ensures
        l.spec_process_result(b) == ProcessResult::Old,
{
}


/// Builds a development ledger whose genesis account holds the whole
/// supply, from the given private key.
pub fn dev_ledger_with_genesis(prv: &crate::numbers::RawKey, env: &mut LmdbEnv, now: u64) -> (r:
    (Ledger, crate::blocks::OpenBlock))
    requires
        old(env).next_database < 0xffff_fff0 - 2,
    ensures
        r.0.inv(),
        r.0.rep_weights_consistent(),
        r.0.pending_refs_exist(),
        r.0.constants.work_threshold == 0xfe00_0000_0000_0000,
        r.0.spec_block_exists(r.1.spec_hash()),
        r.0.spec_account_info(r.1.hashables.account@) is Some,
        r.1.hashables.account@ == crate::crypto::public_of(prv@),
{
    let public = crate::crypto::public_key(prv);
    let account = public.to_account();
    let genesis = crate::blocks::OpenBlock::new(
        BlockHash::zero(),
        account,
        account,
        prv,
        &public,
        0,
    );
    let mut ledger = Ledger::new(LedgerConstants::dev(), env);
    ledger.insert_genesis(&genesis, now);
    (ledger, genesis)
}

/// The hash of the send block the round-trip helper builds: a state
/// send of fifty raw from the account to itself, on its current head.
pub open spec fn spec_round_trip_send_hash(info: AccountInfo, account: Seq<u8>) -> Seq<u8> {
    blake2b_of(
        crate::blocks::spec_state_preamble() + account + info.head@ + info.representative@
            + crate::wire::be_bytes_of_u128((info.balance.raw - 50) as u128) + account,
    )
}

/// The hash of the matching receive block: the balance restored, the
/// send named as previous and as link.
pub open spec fn spec_round_trip_receive_hash(info: AccountInfo, account: Seq<u8>) -> Seq<u8> {
    let send_hash = spec_round_trip_send_hash(info, account);
    blake2b_of(
        crate::blocks::spec_state_preamble() + account + send_hash + info.representative@
            + crate::wire::be_bytes_of_u128(info.balance.raw) + send_hash,
    )
}

/// When the send/receive round trip is owed to succeed: the key's
/// account exists with a stored, non-zero head and at least fifty raw;
/// the two block hashes are fresh, distinct and non-zero; and the
/// bounded work search can succeed for both roots.
pub open spec fn spec_round_trip_ready(ledger: &Ledger, prv: Seq<u8>) -> bool {
    let account = crate::crypto::public_of(prv);
    match ledger.spec_account_info(account) {
        None => false,
        Some(info) => {
            let send_hash = spec_round_trip_send_hash(info, account);
            let receive_hash = spec_round_trip_receive_hash(info, account);
            &&& account != zero32()
            &&& info.head@ != zero32()
            &&& ledger.spec_block_exists(info.head@)
            &&& 50 <= info.balance.raw
            &&& info.block_count < u64::MAX - 1
            &&& !ledger.spec_block_or_pruned_exists(send_hash)
            &&& !ledger.spec_block_or_pruned_exists(receive_hash)
            &&& send_hash != zero32()
            &&& send_hash != ledger.constants.epoch_link@
            &&& receive_hash != send_hash
            &&& spec_work_available(info.head@, ledger.constants.work_threshold, 0, 0xffff_ffff)
            &&& spec_work_available(send_hash, ledger.constants.work_threshold, 0, 0xffff_ffff)
        },
    }
}

/// Two wrapping weight deltas that move fifty raw away and back leave
/// the weight where it was.
proof fn lemma_weight_round_trip(w: u128, bal0: u128)
    requires
        50 <= bal0,
    ensures
        ({
            let m = 0x1_0000_0000_0000_0000_0000_0000_0000_0000int;
            let w1 = (w + (bal0 - 50) + (m - bal0)) % m;
            let w2 = (w1 + bal0 + (if bal0 - 50 == 0 {
                0int
            } else {
                m - (bal0 - 50)
            })) % m;
            w2 == w
        }),
{
    let m = 0x1_0000_0000_0000_0000_0000_0000_0000_0000int;
    let w1 = (w + (bal0 - 50) + (m - bal0)) % m;
    vstd::arithmetic::div_mod::lemma_mod_bound(w + (bal0 - 50) + (m - bal0), m);
    if bal0 == 50 {
        vstd::arithmetic::div_mod::lemma_mod_adds(w1, bal0 as int, m);
        vstd::arithmetic::div_mod::lemma_mod_twice(w + (bal0 - 50) + (m - bal0), m);
        vstd::arithmetic::div_mod::lemma_mod_adds(w + (bal0 - 50) + (m - bal0), bal0 as int, m);
        vstd::arithmetic::div_mod::lemma_mod_add_multiples_vanish(w as int, m);
        vstd::arithmetic::div_mod::lemma_small_mod(w as nat, m as nat);
    } else {
        vstd::arithmetic::div_mod::lemma_mod_adds(w1, bal0 + (m - (bal0 - 50)), m);
        vstd::arithmetic::div_mod::lemma_mod_twice(w + (bal0 - 50) + (m - bal0), m);
        vstd::arithmetic::div_mod::lemma_mod_adds(
            w + (bal0 - 50) + (m - bal0),
            bal0 + (m - (bal0 - 50)),
            m,
        );
        assert(w + (bal0 - 50) + (m - bal0) + bal0 + (m - (bal0 - 50)) == w + m + m);
        vstd::arithmetic::div_mod::lemma_mod_add_multiples_vanish(w + m, m);
        vstd::arithmetic::div_mod::lemma_mod_add_multiples_vanish(w as int, m);
        vstd::arithmetic::div_mod::lemma_small_mod(w as nat, m as nat);
        vstd::arithmetic::div_mod::lemma_mod_twice(w1 + (bal0 + (m - (bal0 - 50))), m);
    }
}

/// Sends fifty raw from the key's account to itself with a state block
/// and receives it back with a second one: the smallest full
/// send/receive round trip. When the ledger is ready for it, it is
/// owed to succeed; on success the receive's sideband names the
/// account with receive details, the chain grows by two, and balance
/// and representative weight end where they began.
pub fn receive_50_raw_into_genesis(ledger: &mut Ledger, prv: &crate::numbers::RawKey, now: u64)
    -> (r: Option<(crate::blocks::StateBlock, crate::blocks::StateBlock)>)
    requires
        old(ledger).inv(),
    ensures
        final(ledger).inv(),
        spec_round_trip_ready(old(ledger), prv@) ==> r is Some,
        r is Some ==> final(ledger).spec_block_exists(r.unwrap().0.spec_hash()) && final(ledger).spec_block_exists(r.unwrap().1.spec_hash()),
        r is Some ==> {
            let account = crate::crypto::public_of(prv@);
            let info0 = old(ledger).spec_account_info(account).unwrap();
            let stored = final(ledger).blocks.spec_get(r.unwrap().1.spec_hash()).unwrap();
            &&& old(ledger).spec_account_info(account) is Some
            &&& stored.sideband.account@ == account
            &&& stored.sideband.details == (BlockDetails {
                epoch: Epoch::Epoch0,
                is_send: false,
                is_receive: true,
                is_epoch: false,
            })
            &&& (info0.block_count < u64::MAX - 1 ==> stored.sideband.height == info0.block_count
                + 2)
            &&& final(ledger).spec_account_info(account) is Some
            &&& final(ledger).spec_account_info(account).unwrap().balance == info0.balance
            &&& final(ledger).spec_weight(info0.representative@) == old(ledger).spec_weight(
                info0.representative@,
            )
        },
{
    let ghost ready = spec_round_trip_ready(old(ledger), prv@);
    let public = crate::crypto::public_key(prv);
    let account = public.to_account();
    let info = match ledger.account_info(&account) {
        Some(i) => i,
        None => {
            return None;
        },
    };
    if info.balance.number() < 50 {
        return None;
    }
    let ghost bal0 = info.balance.raw;
    let ghost rep0 = info.representative@;
    let ghost w0 = old(ledger).spec_weight(rep0);
    let send_balance = info.balance.checked_sub_exact(Amount::raw(50));
    let send_work = match generate_work(
        info.head.as_bytes(),
        ledger.constants.work_threshold,
        0,
        0xffff_ffff,
    ) {
        Some(w) => w,
        None => {
            proof {
                assert(!ready);
            }
            return None;
        },
    };
    let send = crate::blocks::StateBlock::new(
        account,
        info.head,
        info.representative,
        send_balance,
        crate::numbers::Link::from_bytes(*account.as_bytes()),
        prv,
        &public,
        send_work,
    );
    proof {
        assert(send.spec_hash_input() =~= crate::blocks::spec_state_preamble() + account@
            + info.head@ + info.representative@ + crate::wire::be_bytes_of_u128(
            (bal0 - 50) as u128,
        ) + account@);
    }
    let send_result = ledger.process_state(&send, now);
    if !(send_result == ProcessResult::Progress) {
        proof {
            if ready {
                assert(old(ledger).spec_state_result(&send) == ProcessResult::Progress);
            }
        }
        return None;
    }
    let send_hash = send.hash();
    let ghost mid = *ledger;
    let receive_work = match generate_work(
        send_hash.as_bytes(),
        ledger.constants.work_threshold,
        0,
        0xffff_ffff,
    ) {
        Some(w) => w,
        None => {
            proof {
                if ready {
                    assert(send_hash@ == spec_round_trip_send_hash(
                        old(ledger).spec_account_info(account@).unwrap(),
                        account@,
                    ));
                }
            }
            return None;
        },
    };
    let receive = crate::blocks::StateBlock::new(
        account,
        send_hash,
        info.representative,
        info.balance,
        crate::numbers::Link::from_bytes(*send_hash.as_bytes()),
        prv,
        &public,
        receive_work,
    );
    proof {
        assert(receive.spec_hash_input() =~= crate::blocks::spec_state_preamble() + account@
            + send_hash@ + info.representative@ + crate::wire::be_bytes_of_u128(bal0) + send_hash@);
    }
    let receive_result = ledger.process_state(&receive, now);
    if !(receive_result == ProcessResult::Progress) {
        proof {
            if ready {
                assert(mid.spec_state_result(&receive) == ProcessResult::Progress);
            }
        }
        return None;
    }
    proof {
        lemma_weight_round_trip(w0, bal0);
        assert(ledger.spec_weight(rep0) == old(ledger).spec_weight(rep0));
    }
    Some((send, receive))
}

} // verus!
