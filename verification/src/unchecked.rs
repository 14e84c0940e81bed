//! Blocks received before their predecessor: the unchecked side cache's
//! key and value types with their byte encodings.

use vstd::prelude::*;

use crate::blocks::{deserialize_block_enum, serialize_block_enum, BlockEnum};
use crate::numbers::BlockHash;
use crate::wire::{le_bytes_of_u64, u64_from_le_bytes, vec_to_bytes64, MemoryStream, WireError};

verus! {

/// Information on an unchecked block: the block and when it arrived.
#[derive(Clone, Copy)]
pub struct UncheckedInfo {
    pub block: Option<BlockEnum>,
    /// Seconds since the Unix epoch.
    pub modified: u64,
}

impl UncheckedInfo {
    /// Wraps a block, stamping it with the clock.
    pub fn new(block: BlockEnum) -> (r: UncheckedInfo)
        ensures
            r.block == Some(block),
    {
        UncheckedInfo { block: Some(block), modified: crate::crypto::seconds_since_epoch() }
    }

    /// The empty value: no block, epoch time zero.
    pub fn null() -> (r: UncheckedInfo)
        ensures
            r.block is None,
            r.modified == 0,
    {
        UncheckedInfo { block: None, modified: 0 }
    }

    /// The canonical byte form: the type-tagged block, then the
    /// modification time in little-endian.
    pub open spec fn spec_bytes(&self) -> Seq<u8> {
        self.block.unwrap().spec_enum_bytes() + le_bytes_of_u64(self.modified)
    }

    /// Writes the canonical byte form.
    pub fn serialize(&self, stream: &mut MemoryStream)
        requires
            self.block is Some,
            old(stream).wf(),
        ensures
            final(stream).wf(),
            final(stream).data_seq() == old(stream).data_seq() + self.spec_bytes(),
            final(stream).pos() == old(stream).pos(),
    {
        let block = match &self.block {
            Some(b) => b,
            None => {
                return vstd::pervasive::unreached();
            },
        };
        serialize_block_enum(stream, block);
        stream.write_u64_le(self.modified);
        proof {
            assert(stream.data_seq() =~= old(stream).data_seq() + self.spec_bytes());
        }
    }

    /// The canonical byte form as a fresh vector.
    pub fn to_bytes(&self) -> (r: Vec<u8>)
        requires
            self.block is Some,
        ensures
            r@ == self.spec_bytes(),
    {
        let mut stream = MemoryStream::new();
        self.serialize(&mut stream);
        stream.to_vec()
    }

    /// Reads the canonical byte form.
    pub fn deserialize(stream: &mut MemoryStream) -> (r: Result<UncheckedInfo, WireError>)
        requires
            old(stream).wf(),
        ensures
            final(stream).wf(),
            final(stream).data_seq() == old(stream).data_seq(),
            r is Ok ==> r.unwrap().block is Some && final(stream).pos() == old(stream).pos()
                + r.unwrap().spec_bytes().len() && r.unwrap().spec_bytes() == old(
                stream,
            ).data_seq().subrange(
                old(stream).pos(),
                old(stream).pos() + r.unwrap().spec_bytes().len(),
            ),
    {
        let block = match deserialize_block_enum(stream) {
            Ok(b) => b,
            Err(e) => {
                return Err(e);
            },
        };
        let time_bytes = match stream.read_exact(8) {
            Ok(v) => v,
            Err(e) => {
                return Err(e);
            },
        };
        let modified = u64_from_le_bytes(time_bytes.as_slice());
        let info = UncheckedInfo { block: Some(block), modified };
        proof {
            assert(info.spec_bytes() =~= old(stream).data_seq().subrange(
                old(stream).pos(),
                old(stream).pos() + info.spec_bytes().len(),
            ));
        }
        Ok(info)
    }
}

/// The key of an unchecked block: the awaited predecessor and the
/// block's own hash.
#[derive(Clone, Copy, Debug)]
pub struct UncheckedKey {
    pub previous: BlockHash,
    pub hash: BlockHash,
}

impl PartialEq for UncheckedKey {
    fn eq(&self, other: &UncheckedKey) -> (r: bool) {
        self.previous == other.previous && self.hash == other.hash
    }
}

impl Eq for UncheckedKey {}

impl vstd::std_specs::cmp::PartialEqSpecImpl for UncheckedKey {
    open spec fn obeys_eq_spec() -> bool {
        true
    }

    open spec fn eq_spec(&self, other: &UncheckedKey) -> bool {
        self.previous@ == other.previous@ && self.hash@ == other.hash@
    }
}

impl UncheckedKey {
    pub fn new(previous: BlockHash, hash: BlockHash) -> (r: UncheckedKey)
        ensures
            r.previous@ == previous@,
            r.hash@ == hash@,
    {
        UncheckedKey { previous, hash }
    }

    /// The canonical 64-byte key: predecessor, then own hash.
    pub fn to_bytes(&self) -> (r: [u8; 64])
        ensures
            r@ == self.previous@ + self.hash@,
    {
        let mut out: Vec<u8> = Vec::new();
        crate::wire::push_bytes(&mut out, self.previous.as_bytes().as_slice());
        crate::wire::push_bytes(&mut out, self.hash.as_bytes().as_slice());
        vec_to_bytes64(&out)
    }
}

} // verus!
