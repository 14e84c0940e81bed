//! Counters kept per statistic: type, detail and direction.

use vstd::prelude::*;

use crate::store::{bytes_eq, bytes_lt, StoreKey, Table};

verus! {

/// The subsystem a counter belongs to.
#[derive(Clone, Copy, Debug, PartialEq, Eq, Structural)]
pub enum StatType {
    PeerHistory,
    ElectionScheduler,
    Bootstrap,
    Message,
    Error,
}

/// What exactly is counted.
#[derive(Clone, Copy, Debug, PartialEq, Eq, Structural)]
pub enum DetailType {
    Loop,
    Inserted,
    Updated,
    Activated,
    InsertPriority,
    InsertPrioritySuccess,
    Send,
    Receive,
    Open,
    Change,
    StateBlock,
    InsufficientWork,
    Publish,
    ConfirmReq,
    FrontierReq,
    Keepalive,
}

/// Whether the counted event was inbound or outbound.
#[derive(Clone, Copy, Debug, PartialEq, Eq, Structural)]
pub enum Direction {
    In,
    Out,
}

impl StatType {
    pub open spec fn spec_as_u8(self) -> u8 {
        match self {
            StatType::PeerHistory => 0,
            StatType::ElectionScheduler => 1,
            StatType::Bootstrap => 2,
            StatType::Message => 3,
            StatType::Error => 4,
        }
    }

    pub fn as_u8(self) -> (r: u8)
        ensures
            r == self.spec_as_u8(),
    {
        match self {
            StatType::PeerHistory => 0,
            StatType::ElectionScheduler => 1,
            StatType::Bootstrap => 2,
            StatType::Message => 3,
            StatType::Error => 4,
        }
    }
}

impl DetailType {
    pub open spec fn spec_as_u8(self) -> u8 {
        match self {
            DetailType::Loop => 0,
            DetailType::Inserted => 1,
            DetailType::Updated => 2,
            DetailType::Activated => 3,
            DetailType::InsertPriority => 4,
            DetailType::InsertPrioritySuccess => 5,
            DetailType::Send => 6,
            DetailType::Receive => 7,
            DetailType::Open => 8,
            DetailType::Change => 9,
            DetailType::StateBlock => 10,
            DetailType::InsufficientWork => 11,
            DetailType::Publish => 12,
            DetailType::ConfirmReq => 13,
            DetailType::FrontierReq => 14,
            DetailType::Keepalive => 15,
        }
    }

    pub fn as_u8(self) -> (r: u8)
        ensures
            r == self.spec_as_u8(),
    {
        match self {
            DetailType::Loop => 0,
            DetailType::Inserted => 1,
            DetailType::Updated => 2,
            DetailType::Activated => 3,
            DetailType::InsertPriority => 4,
            DetailType::InsertPrioritySuccess => 5,
            DetailType::Send => 6,
            DetailType::Receive => 7,
            DetailType::Open => 8,
            DetailType::Change => 9,
            DetailType::StateBlock => 10,
            DetailType::InsufficientWork => 11,
            DetailType::Publish => 12,
            DetailType::ConfirmReq => 13,
            DetailType::FrontierReq => 14,
            DetailType::Keepalive => 15,
        }
    }
}

impl Direction {
    pub open spec fn spec_as_u8(self) -> u8 {
        match self {
            Direction::In => 0,
            Direction::Out => 1,
        }
    }

    pub fn as_u8(self) -> (r: u8)
        ensures
            r == self.spec_as_u8(),
    {
        match self {
            Direction::In => 0,
            Direction::Out => 1,
        }
    }
}

/// The key of one counter.
#[derive(Clone, Copy, Debug)]
pub struct StatKey {
    pub stat_type: StatType,
    pub detail: DetailType,
    pub dir: Direction,
}

impl StatKey {
    pub fn key_bytes(&self) -> (r: Vec<u8>)
        ensures
            r@ == self.key_view(),
    {
        let mut out: Vec<u8> = Vec::new();
        out.push(self.stat_type.as_u8());
        out.push(self.detail.as_u8());
        out.push(self.dir.as_u8());
        proof {
            assert(out@ =~= self.key_view());
        }
        out
    }
}

impl StoreKey for StatKey {
    open spec fn key_view(&self) -> Seq<u8> {
        seq![self.stat_type.spec_as_u8(), self.detail.spec_as_u8(), self.dir.spec_as_u8()]
    }

    open spec fn key_len() -> nat {
        3
    }

    proof fn lemma_key_len(&self) {
    }

    fn key_eq(&self, other: &Self) -> (r: bool) {
        let a = self.key_bytes();
        let b = other.key_bytes();
        let r = bytes_eq(a.as_slice(), b.as_slice());
        proof {
            if self.key_view() == other.key_view() {
                assert(self.key_view()[0] == other.key_view()[0]);
                assert(self.key_view()[1] == other.key_view()[1]);
                assert(self.key_view()[2] == other.key_view()[2]);
            }
        }
        r
    }

    fn key_lt(&self, other: &Self) -> (r: bool) {
        let a = self.key_bytes();
        let b = other.key_bytes();
        bytes_lt(a.as_slice(), b.as_slice())
    }
}

/// Event counters, one per (type, detail, direction).
pub struct Stats {
    pub table: Table<StatKey, u64>,
}

impl Stats {
    pub open spec fn wf(&self) -> bool {
        self.table.wf()
    }

    /// The count under one key; never counted means zero.
    pub open spec fn spec_count(
        &self,
        stat_type: StatType,
        detail: DetailType,
        dir: Direction,
    ) -> u64 {
        match self.table.spec_get(
            seq![stat_type.spec_as_u8(), detail.spec_as_u8(), dir.spec_as_u8()],
        ) {
            Some(v) => v,
            None => 0,
        }
    }

    pub fn new() -> (r: Stats)
        ensures
            r.wf(),
            forall|t: StatType, d: DetailType, x: Direction| #[trigger] r.spec_count(t, d, x) == 0,
    {
        Stats { table: Table::new() }
    }

    /// Adds one to a counter, wrapping at the width of the counter.
    pub fn inc(&mut self, stat_type: StatType, detail: DetailType, dir: Direction)
        requires
            old(self).wf(),
        ensures
            final(self).wf(),
            final(self).spec_count(stat_type, detail, dir) == (if old(self).spec_count(
                stat_type,
                detail,
                dir,
            ) < u64::MAX {
                old(self).spec_count(stat_type, detail, dir) + 1
            } else {
                0
            }),
            forall|t: StatType, d: DetailType, x: Direction|
                seq![t.spec_as_u8(), d.spec_as_u8(), x.spec_as_u8()] != seq![
                    stat_type.spec_as_u8(),
                    detail.spec_as_u8(),
                    dir.spec_as_u8(),
                ] ==> #[trigger] final(self).spec_count(t, d, x) == old(self).spec_count(t, d, x),
    {
        let key = StatKey { stat_type, detail, dir };
        let current = match self.table.get(&key) {
            Some(v) => v,
            None => 0,
        };
        let updated = crate::ledger::u64_wrapping_inc(current);
        self.table.put(&key, updated);
    }

    /// Reads a counter.
    pub fn count(&self, stat_type: StatType, detail: DetailType, dir: Direction) -> (r: u64)
        requires
            self.wf(),
        ensures
            r == self.spec_count(stat_type, detail, dir),
    {
        let key = StatKey { stat_type, detail, dir };
        match self.table.get(&key) {
            Some(v) => v,
            None => 0,
        }
    }
}

} // verus!
