//! The block-processor ingress queue: one bounded FIFO per source,
//! drained with priority for forced and local blocks, with
//! backpressure when any queue runs half full. Also the decisions of
//! the bulk-push receiver that feeds it.

use vstd::prelude::*;

use crate::blocks::{
    deserialize_block_enum_with_type, lemma_block_wire_injective_same_type,
    lemma_same_as_same_root_work, spec_block_size, spec_is_block_type, BlockEnum, BlockType,
};
use crate::ledger::{check_work, spec_valid_work};
use crate::wire::MemoryStream;

verus! {

/// Where a block came from.
#[derive(Clone, Copy, Debug, PartialEq, Eq, Structural)]
pub enum BlockSource {
    Live,
    Bootstrap,
    BootstrapLegacy,
    Unchecked,
    Local,
    Forced,
}

impl BlockSource {
    /// The queue this source feeds.
    pub open spec fn spec_index(self) -> int {
        match self {
            BlockSource::Live => 0,
            BlockSource::Bootstrap => 1,
            BlockSource::BootstrapLegacy => 2,
            BlockSource::Unchecked => 3,
            BlockSource::Local => 4,
            BlockSource::Forced => 5,
        }
    }

    pub fn index(self) -> (r: usize)
        ensures
            r == self.spec_index(),
            r < 6,
    {
        match self {
            BlockSource::Live => 0,
            BlockSource::Bootstrap => 1,
            BlockSource::BootstrapLegacy => 2,
            BlockSource::Unchecked => 3,
            BlockSource::Local => 4,
            BlockSource::Forced => 5,
        }
    }
}

/// The multi-source FIFO in front of the ledger.
pub struct BlockProcessor {
    pub queues: Vec<Vec<BlockEnum>>,
    pub max_queue: usize,
    pub stopped: bool,
}

impl BlockProcessor {
    pub open spec fn wf(&self) -> bool {
        self.queues@.len() == 6
    }

    pub open spec fn spec_queue(&self, source: BlockSource) -> Seq<BlockEnum> {
        self.queues@[source.spec_index()]@
    }

    /// Whether any queue has grown past half its bound; upstream
    /// network readers must then throttle.
    pub open spec fn spec_half_full(&self) -> bool {
        exists|s: int| 0 <= s < 6 && (#[trigger] self.queues@[s])@.len() > self.max_queue / 2
    }

    pub fn new(max_queue: usize) -> (r: BlockProcessor)
        ensures
            r.wf(),
            r.max_queue == max_queue,
            !r.stopped,
            forall|s: int| 0 <= s < 6 ==> (#[trigger] r.queues@[s])@.len() == 0,
    {
        let mut queues: Vec<Vec<BlockEnum>> = Vec::new();
        let mut i: usize = 0;
        while i < 6
            invariant
                i <= 6,
                queues@.len() == i,
                forall|s: int| 0 <= s < i ==> (#[trigger] queues@[s])@.len() == 0,
            decreases 6 - i,
        {
            let empty: Vec<BlockEnum> = Vec::new();
            queues.push(empty);
            i += 1;
        }
        BlockProcessor { queues, max_queue, stopped: false }
    }

    /// Enqueues a block under its source; a full queue drops it and
    /// reports so.
    pub fn add(&mut self, block: BlockEnum, source: BlockSource) -> (r: bool)
        requires
            old(self).wf(),
        ensures
            final(self).wf(),
            final(self).max_queue == old(self).max_queue,
            final(self).stopped == old(self).stopped,
            r == (old(self).spec_queue(source).len() < old(self).max_queue),
            r ==> final(self).spec_queue(source) == old(self).spec_queue(source).push(block),
            !r ==> *final(self) == *old(self),
            forall|s: int|
                0 <= s < 6 && s != source.spec_index() ==> (#[trigger] final(self).queues@[s])@
                    == old(self).queues@[s]@,
    {
        let idx = source.index();
        if self.queues[idx].len() >= self.max_queue {
            return false;
        }
        let mut queue = clone_queue(&self.queues[idx]);
        queue.push(block);
        self.queues.set(idx, queue);
        true
    }

    /// Blocks currently waiting under a source.
    pub fn queue_len(&self, source: BlockSource) -> (r: usize)
        requires
            self.wf(),
        ensures
            r == self.spec_queue(source).len(),
    {
        self.queues[source.index()].len()
    }

    /// Whether any queue has grown past half its bound.
    pub fn half_full(&self) -> (r: bool)
        requires
            self.wf(),
        ensures
            r == self.spec_half_full(),
    {
        let half = self.max_queue / 2;
        let mut s: usize = 0;
        while s < 6
            invariant
                s <= 6,
                self.wf(),
                half == self.max_queue / 2,
                forall|t: int| 0 <= t < s ==> (#[trigger] self.queues@[t])@.len() <= half,
            decreases 6 - s,
        {
            if self.queues[s].len() > half {
                return true;
            }
            s += 1;
        }
        false
    }

    /// Pops the next block to validate: forced blocks first, then
    /// local ones, then the network sources in their queue order.
    pub fn next(&mut self) -> (r: Option<(BlockEnum, BlockSource)>)
        requires
            old(self).wf(),
        ensures
            final(self).wf(),
            final(self).max_queue == old(self).max_queue,
            final(self).stopped == old(self).stopped,
            r is None ==> *final(self) == *old(self) && (forall|s: int|
                0 <= s < 6 ==> (#[trigger] old(self).queues@[s])@.len() == 0),
            r is Some ==> {
                let idx = r.unwrap().1.spec_index();
                &&& old(self).queues@[idx]@.len() > 0
                &&& r.unwrap().0 == old(self).queues@[idx]@[0]
                &&& final(self).queues@[idx]@ == old(self).queues@[idx]@.drop_first()
                &&& (forall|s: int|
                    0 <= s < 6 && s != idx ==> (#[trigger] final(self).queues@[s])@ == old(self).queues@[s]@)
            },
            r is Some && old(self).spec_queue(BlockSource::Forced).len() > 0 ==> r.unwrap().1
                == BlockSource::Forced,
            r is Some && old(self).spec_queue(BlockSource::Forced).len() == 0 && old(self).spec_queue(BlockSource::Local).len() > 0 ==> r.unwrap().1 == BlockSource::Local,
    {
        if self.queues[5].len() > 0 {
            return Some((self.pop_front(5), BlockSource::Forced));
        }
        if self.queues[4].len() > 0 {
            return Some((self.pop_front(4), BlockSource::Local));
        }
        if self.queues[0].len() > 0 {
            return Some((self.pop_front(0), BlockSource::Live));
        }
        if self.queues[1].len() > 0 {
            return Some((self.pop_front(1), BlockSource::Bootstrap));
        }
        if self.queues[2].len() > 0 {
            return Some((self.pop_front(2), BlockSource::BootstrapLegacy));
        }
        if self.queues[3].len() > 0 {
            return Some((self.pop_front(3), BlockSource::Unchecked));
        }
        None
    }

    /// Removes and returns the head of one queue.
    fn pop_front(&mut self, idx: usize) -> (r: BlockEnum)
        requires
            old(self).wf(),
            idx < 6,
            old(self).queues@[idx as int]@.len() > 0,
        ensures
            final(self).wf(),
            final(self).max_queue == old(self).max_queue,
            final(self).stopped == old(self).stopped,
            r == old(self).queues@[idx as int]@[0],
            final(self).queues@[idx as int]@ == old(self).queues@[idx as int]@.drop_first(),
            forall|s: int|
                0 <= s < 6 && s != idx ==> (#[trigger] final(self).queues@[s])@ == old(self).queues@[s]@,
    {
        let front = self.queues[idx][0];
        let mut queue = clone_queue(&self.queues[idx]);
        queue.remove(0);
        self.queues.set(idx, queue);
        proof {
            assert(self.queues@[idx as int]@ =~= old(self).queues@[idx as int]@.drop_first());
        }
        front
    }
}

/// Copies one queue.
fn clone_queue(v: &Vec<BlockEnum>) -> (r: Vec<BlockEnum>)
    ensures
        r@ == v@,
{
    let mut out: Vec<BlockEnum> = Vec::new();
    let n = v.len();
    let mut i: usize = 0;
    while i < n
        invariant
            i <= n,
            n == v@.len(),
            out@ == v@.subrange(0, i as int),
        decreases n - i,
    {
        out.push(v[i]);
        proof {
            assert(out@ =~= v@.subrange(0, i + 1));
        }
        i += 1;
    }
    proof {
        assert(v@.subrange(0, n as int) =~= v@);
    }
    out
}

/// What the bulk-push receiver does after reading a type byte.
#[derive(Clone, Copy, Debug, PartialEq, Eq, Structural)]
pub enum ReceivedTypeAction {
    /// The terminator arrived: hand the connection back.
    Terminate,
    /// An unknown or invalid type: stop reading.
    Unknown,
    /// A block of this type follows; read this many bytes.
    ReadBlock(BlockType, usize),
}

/// Decides what follows a bulk-push type byte: the terminator, an
/// unknown value, or a block whose own serialized size is to be read.
pub fn received_type_action(value: u8) -> (r: ReceivedTypeAction)
    ensures
        value == 1 ==> r == ReceivedTypeAction::Terminate,
        value == 0 || value > 6 ==> r == ReceivedTypeAction::Unknown,
        value == 2 ==> r == ReceivedTypeAction::ReadBlock(BlockType::LegacySend, 152),
        value == 3 ==> r == ReceivedTypeAction::ReadBlock(BlockType::LegacyReceive, 136),
        value == 4 ==> r == ReceivedTypeAction::ReadBlock(BlockType::LegacyOpen, 168),
        value == 5 ==> r == ReceivedTypeAction::ReadBlock(BlockType::LegacyChange, 136),
        value == 6 ==> r == ReceivedTypeAction::ReadBlock(BlockType::State, 216),
{
    match BlockType::from_u8(value) {
        Some(BlockType::NotABlock) => ReceivedTypeAction::Terminate,
        Some(BlockType::Invalid) => ReceivedTypeAction::Unknown,
        Some(BlockType::LegacySend) => ReceivedTypeAction::ReadBlock(
            BlockType::LegacySend,
            crate::blocks::SendBlock::serialized_size(),
        ),
        Some(BlockType::LegacyReceive) => ReceivedTypeAction::ReadBlock(
            BlockType::LegacyReceive,
            crate::blocks::ReceiveBlock::serialized_size(),
        ),
        Some(BlockType::LegacyOpen) => ReceivedTypeAction::ReadBlock(
            BlockType::LegacyOpen,
            crate::blocks::OpenBlock::serialized_size(),
        ),
        Some(BlockType::LegacyChange) => ReceivedTypeAction::ReadBlock(
            BlockType::LegacyChange,
            crate::blocks::ChangeBlock::serialized_size(),
        ),
        Some(BlockType::State) => ReceivedTypeAction::ReadBlock(
            BlockType::State,
            crate::blocks::StateBlock::serialized_size(),
        ),
        None => ReceivedTypeAction::Unknown,
    }
}

/// What became of one received bulk-push block.
#[derive(Clone, Copy, Debug, PartialEq, Eq, Structural)]
pub enum ReceivedBlockOutcome {
    /// Parsed, work checked, and queued for the validator.
    Enqueued,
    /// Parsed but its nonce misses the threshold: dropped.
    InsufficientWork,
    /// The buffer held no block of the announced type.
    ParseError,
    /// The live queue is full: dropped under backpressure.
    QueueFull,
}

/// Consumes one received bulk-push block: parses the announced type
/// from the buffer, checks its proof of work, and queues it for the
/// validator. A buffer long enough for a real block type always
/// parses; the block is then enqueued exactly when its work meets the
/// threshold and the live queue has room.
pub fn received_block(
    processor: &mut BlockProcessor,
    work_threshold: u64,
    block_type: BlockType,
    buffer: &[u8],
) -> (r: ReceivedBlockOutcome)
    requires
        old(processor).wf(),
    ensures
        final(processor).wf(),
        r != ReceivedBlockOutcome::Enqueued ==> *final(processor) == *old(processor),
        spec_is_block_type(block_type) && buffer@.len() >= spec_block_size(block_type) ==> r
            != ReceivedBlockOutcome::ParseError,
        !spec_is_block_type(block_type) || buffer@.len() < spec_block_size(block_type) ==> r
            == ReceivedBlockOutcome::ParseError,
        spec_is_block_type(block_type) && buffer@.len() >= spec_block_size(block_type)
            ==> (forall|b: BlockEnum|
            b.spec_block_type() == block_type && (#[trigger] b.spec_wire_bytes())
                == buffer@.subrange(0, spec_block_size(block_type)) ==> {
                let valid = crate::ledger::spec_valid_work(
                    b.spec_root(),
                    b.spec_work(),
                    work_threshold,
                );
                let full = old(processor).spec_queue(BlockSource::Live).len() >= old(
                    processor,
                ).max_queue;
                &&& (r == ReceivedBlockOutcome::Enqueued <==> valid && !full)
                &&& (r == ReceivedBlockOutcome::InsufficientWork <==> !valid)
                &&& (r == ReceivedBlockOutcome::QueueFull <==> valid && full)
            }),
        r == ReceivedBlockOutcome::Enqueued ==> exists|b: BlockEnum|
            (#[trigger] b.spec_wire_bytes()) == buffer@.subrange(
                0,
                b.spec_wire_bytes().len() as int,
            ) && b.spec_block_type() == block_type && crate::ledger::spec_valid_work(
                b.spec_root(),
                b.spec_work(),
                work_threshold,
            ) && final(processor).spec_queue(BlockSource::Live) == old(processor).spec_queue(
                BlockSource::Live,
            ).push(b),
{
    let mut stream = MemoryStream::from_vec(crate::wire::slice_range(buffer, 0, buffer.len()));
    proof {
        assert(buffer@.subrange(0, buffer@.len() as int) =~= buffer@);
    }
    let block = match deserialize_block_enum_with_type(block_type, &mut stream) {
        Ok(b) => b,
        Err(_) => {
            return ReceivedBlockOutcome::ParseError;
        },
    };
    proof {
        assert(block.spec_wire_bytes() == buffer@.subrange(0, spec_block_size(block_type)));
        assert forall|b: BlockEnum|
            b.spec_block_type() == block_type && (#[trigger] b.spec_wire_bytes())
                == buffer@.subrange(0, spec_block_size(block_type)) implies b.same_as(&block)
            && b.spec_root() == block.spec_root() && b.spec_work() == block.spec_work() by {
            lemma_block_wire_injective_same_type(&b, &block);
            lemma_same_as_same_root_work(&b, &block);
        }
    }
    let root = block.root();
    if !check_work(&root, block.work(), work_threshold) {
        return ReceivedBlockOutcome::InsufficientWork;
    }
    if processor.add(block, BlockSource::Live) {
        ReceivedBlockOutcome::Enqueued
    } else {
        ReceivedBlockOutcome::QueueFull
    }
}

/// What the throttled receive loop does next: read now, or wait and
/// check again while the processor is half full.
#[derive(Clone, Copy, Debug, PartialEq, Eq, Structural)]
pub enum ThrottleAction {
    Receive,
    Delay,
}

/// The backpressure rule of the bulk-push receiver: it reads only
/// while the processor is below half full, else it re-schedules.
pub fn throttle_action(processor: &BlockProcessor) -> (r: ThrottleAction)
    requires
        processor.wf(),
    ensures
        r == ThrottleAction::Receive <==> !processor.spec_half_full(),
        r == ThrottleAction::Delay <==> processor.spec_half_full(),
{
    if processor.half_full() {
        ThrottleAction::Delay
    } else {
        ThrottleAction::Receive
    }
}

} // verus!
