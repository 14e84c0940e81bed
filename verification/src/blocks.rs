//! The block variants: open, send, receive, change and state blocks,
//! with bit-exact serialization, Blake2b hashing and ed25519 signatures.

use vstd::prelude::*;

use crate::crypto::{blake2b_digest, blake2b_of, public_of, sign_message, sign_of, sig_check};
use crate::numbers::{Account, Amount, BlockHash, Link, PublicKey, RawKey, Signature};
use crate::wire::{
    be_bytes_of_u128, be_bytes_of_u64, lemma_be_bytes_of_u128_injective,
    lemma_be_bytes_of_u64_injective, slice_range, u64_from_be_bytes, vec_to_bytes32,
    vec_to_bytes64, MemoryStream, WireError,
};

verus! {

/// The serialized block-type discriminant. The values ride the wire and
/// must never be renumbered.
#[derive(Clone, Copy, Debug, PartialEq, Eq, Structural)]
pub enum BlockType {
    Invalid,
    NotABlock,
    LegacySend,
    LegacyReceive,
    LegacyOpen,
    LegacyChange,
    State,
}

impl BlockType {
    /// The wire value of this block type.
    pub open spec fn spec_as_u8(self) -> u8 {
        match self {
            BlockType::Invalid => 0,
            BlockType::NotABlock => 1,
            BlockType::LegacySend => 2,
            BlockType::LegacyReceive => 3,
            BlockType::LegacyOpen => 4,
            BlockType::LegacyChange => 5,
            BlockType::State => 6,
        }
    }

    pub fn as_u8(self) -> (r: u8)
        ensures
            r == self.spec_as_u8(),
    {
        match self {
            BlockType::Invalid => 0,
            BlockType::NotABlock => 1,
            BlockType::LegacySend => 2,
            BlockType::LegacyReceive => 3,
            BlockType::LegacyOpen => 4,
            BlockType::LegacyChange => 5,
            BlockType::State => 6,
        }
    }

    /// Decodes a wire value; values past the defined range are unknown.
    pub fn from_u8(value: u8) -> (r: Option<BlockType>)
        ensures
            r is Some <==> value <= 6,
            r is Some ==> r.unwrap().spec_as_u8() == value,
    {
        match value {
            0 => Some(BlockType::Invalid),
            1 => Some(BlockType::NotABlock),
            2 => Some(BlockType::LegacySend),
            3 => Some(BlockType::LegacyReceive),
            4 => Some(BlockType::LegacyOpen),
            5 => Some(BlockType::LegacyChange),
            6 => Some(BlockType::State),
            _ => None,
        }
    }
}

/// An accumulating Blake2b hasher: bytes are collected and digested at
/// the end through the trusted digest call.
pub struct RustBlake2b {
    pub buf: Vec<u8>,
}

impl RustBlake2b {
    pub fn new() -> (r: RustBlake2b)
        ensures
            r.buf@ == Seq::<u8>::empty(),
    {
        let h = RustBlake2b { buf: Vec::new() };
        proof {
            assert(h.buf@ =~= Seq::<u8>::empty());
        }
        h
    }

    /// Resets the accumulator; the digest length is fixed at 32 bytes.
    pub fn init(&mut self) -> (r: Result<(), WireError>)
        ensures
            final(self).buf@ == Seq::<u8>::empty(),
            r is Ok,
    {
        self.buf = Vec::new();
        proof {
            assert(self.buf@ =~= Seq::<u8>::empty());
        }
        Ok(())
    }

    pub fn update(&mut self, bytes: &[u8]) -> (r: Result<(), WireError>)
        ensures
            final(self).buf@ == old(self).buf@ + bytes@,
            r is Ok,
    {
        crate::wire::push_bytes(&mut self.buf, bytes);
        Ok(())
    }

    /// The 32-byte Blake2b digest of everything accumulated so far.
    pub fn finalize_digest(&self) -> (r: [u8; 32])
        ensures
            r@ == blake2b_of(self.buf@),
    {
        blake2b_digest(self.buf.as_slice())
    }
}

/// A Blake2b hasher as the block hashing code sees it.
pub trait Blake2b {
    fn hash_init(&mut self) -> Result<(), WireError>;

    fn hash_update(&mut self, bytes: &[u8]) -> Result<(), WireError>;
}

impl Blake2b for RustBlake2b {
    fn hash_init(&mut self) -> Result<(), WireError> {
        self.init()
    }

    fn hash_update(&mut self, bytes: &[u8]) -> Result<(), WireError> {
        self.update(bytes)
    }
}

/// The hashable fields of an open block.
#[derive(Clone, Copy, Debug)]
pub struct OpenHashables {
    pub source: BlockHash,
    pub representative: Account,
    pub account: Account,
}

impl PartialEq for OpenHashables {
    fn eq(&self, other: &OpenHashables) -> (r: bool) {
        self.source == other.source && self.representative == other.representative
            && self.account == other.account
    }
}

impl Eq for OpenHashables {}

impl vstd::std_specs::cmp::PartialEqSpecImpl for OpenHashables {
    open spec fn obeys_eq_spec() -> bool {
        true
    }

    open spec fn eq_spec(&self, other: &OpenHashables) -> bool {
        self.source@ == other.source@ && self.representative@ == other.representative@
            && self.account@ == other.account@
    }
}

impl OpenHashables {
    /// The canonical byte string of the hashable fields.
    pub open spec fn spec_bytes(&self) -> Seq<u8> {
        self.source@ + self.representative@ + self.account@
    }

    pub fn serialized_size() -> (r: usize)
        ensures
            r == 96,
    {
        96
    }
}

/// An open block: the first block of an account's chain, receiving from
/// a source send.
#[derive(Clone, Copy, Debug)]
pub struct OpenBlock {
    pub work: u64,
    pub signature: Signature,
    pub hashables: OpenHashables,
}

impl PartialEq for OpenBlock {
    fn eq(&self, other: &OpenBlock) -> (r: bool) {
        self.work == other.work && self.signature == other.signature && self.hashables
            == other.hashables
    }
}

impl Eq for OpenBlock {}

impl vstd::std_specs::cmp::PartialEqSpecImpl for OpenBlock {
    open spec fn obeys_eq_spec() -> bool {
        true
    }

    open spec fn eq_spec(&self, other: &OpenBlock) -> bool {
        self.same_as(other)
    }
}

impl OpenBlock {
    /// Field-for-field equality over the views.
    pub open spec fn same_as(&self, other: &OpenBlock) -> bool {
        self.work == other.work && self.signature@ == other.signature@ && self.hashables.source@
            == other.hashables.source@ && self.hashables.representative@
            == other.hashables.representative@ && self.hashables.account@
            == other.hashables.account@
    }

    /// The bytes fed to the block hash.
    pub open spec fn spec_hash_input(&self) -> Seq<u8> {
        self.hashables.spec_bytes()
    }

    /// The hash of this block.
    pub open spec fn spec_hash(&self) -> Seq<u8> {
        blake2b_of(self.spec_hash_input())
    }

    /// The bit-exact wire form: hashables, signature, work big-endian.
    pub open spec fn spec_wire_bytes(&self) -> Seq<u8> {
        self.hashables.spec_bytes() + self.signature@ + be_bytes_of_u64(self.work)
    }

    /// Creates and signs an open block.
    pub fn new(
        source: BlockHash,
        representative: Account,
        account: Account,
        prv_key: &RawKey,
        pub_key: &PublicKey,
        work: u64,
    ) -> (r: OpenBlock)
        ensures
            r.hashables.source@ == source@,
            r.hashables.representative@ == representative@,
            r.hashables.account@ == account@,
            r.work == work,
            r.signature@ == sign_of(prv_key@, r.spec_hash()),
            sig_check(public_of(prv_key@), r.spec_hash(), r.signature@),
    {
        let mut result = OpenBlock {
            work,
            signature: Signature::new(),
            hashables: OpenHashables { source, representative, account },
        };
        let hash = result.hash();
        result.signature = sign_message(prv_key, hash.as_bytes().as_slice());
        result
    }

    pub fn serialized_size() -> (r: usize)
        ensures
            r == 168,
    {
        168
    }

    /// Appends the hashable fields to a hasher.
    pub fn hash_hashables(&self, blake2b: &mut RustBlake2b)
        ensures
            final(blake2b).buf@ == old(blake2b).buf@ + self.spec_hash_input(),
    {
        let _ = blake2b.update(self.hashables.source.as_bytes().as_slice());
        let _ = blake2b.update(self.hashables.representative.as_bytes().as_slice());
        let _ = blake2b.update(self.hashables.account.as_bytes().as_slice());
        proof {
            assert(blake2b.buf@ =~= old(blake2b).buf@ + self.spec_hash_input());
        }
    }

    /// The Blake2b hash of the hashable fields.
    pub fn hash(&self) -> (r: BlockHash)
        ensures
            r@ == self.spec_hash(),
    {
        let mut blake = RustBlake2b::new();
        self.hash_hashables(&mut blake);
        BlockHash::from_bytes(blake.finalize_digest())
    }

    /// Writes the bit-exact wire form.
    pub fn serialize(&self, stream: &mut MemoryStream)
        requires
            old(stream).wf(),
        ensures
            final(stream).wf(),
            final(stream).data_seq() == old(stream).data_seq() + self.spec_wire_bytes(),
            final(stream).pos() == old(stream).pos(),
    {
        stream.write_bytes(self.hashables.source.as_bytes().as_slice());
        stream.write_bytes(self.hashables.representative.as_bytes().as_slice());
        stream.write_bytes(self.hashables.account.as_bytes().as_slice());
        stream.write_bytes(self.signature.as_bytes().as_slice());
        stream.write_u64_be(self.work);
        proof {
            assert(stream.data_seq() =~= old(stream).data_seq() + self.spec_wire_bytes());
        }
    }

    /// Reads the bit-exact wire form, replacing every field of `self`.
    pub fn deserialize(&mut self, stream: &mut MemoryStream) -> (r: Result<(), WireError>)
        requires
            old(stream).wf(),
        ensures
            final(stream).wf(),
            final(stream).data_seq() == old(stream).data_seq(),
            old(stream).remaining() < 168 ==> r is Err && final(stream).pos() == old(stream).pos()
                && *final(self) == *old(self),
            old(stream).remaining() >= 168 ==> r is Ok && final(stream).pos() == old(stream).pos()
                + 168 && final(self).spec_wire_bytes() == old(stream).data_seq().subrange(
                old(stream).pos(),
                old(stream).pos() + 168,
            ),
    {
        let buf = match stream.read_exact(168) {
            Ok(v) => v,
            Err(e) => {
                return Err(e);
            },
        };
        self.hashables.source = BlockHash::from_bytes(
            vec_to_bytes32(&slice_range(buf.as_slice(), 0, 32)),
        );
        self.hashables.representative = Account::from_bytes(
            vec_to_bytes32(&slice_range(buf.as_slice(), 32, 64)),
        );
        self.hashables.account = Account::from_bytes(
            vec_to_bytes32(&slice_range(buf.as_slice(), 64, 96)),
        );
        self.signature = Signature::from_bytes(vec_to_bytes64(&slice_range(buf.as_slice(), 96, 160)));
        self.work = u64_from_be_bytes(slice_range(buf.as_slice(), 160, 168).as_slice());
        proof {
            assert(self.spec_wire_bytes() =~= buf@);
        }
        Ok(())
    }
}

/// Equal wire bytes mean equal open blocks.
pub proof fn lemma_open_wire_injective(a: OpenBlock, b: OpenBlock)
    requires
        a.spec_wire_bytes() == b.spec_wire_bytes(),
    ensures
        a.same_as(&b),
{
    assert(a.hashables.source@ =~= a.spec_wire_bytes().subrange(0, 32));
    assert(b.hashables.source@ =~= b.spec_wire_bytes().subrange(0, 32));
    assert(a.hashables.representative@ =~= a.spec_wire_bytes().subrange(32, 64));
    assert(b.hashables.representative@ =~= b.spec_wire_bytes().subrange(32, 64));
    assert(a.hashables.account@ =~= a.spec_wire_bytes().subrange(64, 96));
    assert(b.hashables.account@ =~= b.spec_wire_bytes().subrange(64, 96));
    assert(a.signature@ =~= a.spec_wire_bytes().subrange(96, 160));
    assert(b.signature@ =~= b.spec_wire_bytes().subrange(96, 160));
    assert(be_bytes_of_u64(a.work) =~= a.spec_wire_bytes().subrange(160, 168));
    assert(be_bytes_of_u64(b.work) =~= b.spec_wire_bytes().subrange(160, 168));
    lemma_be_bytes_of_u64_injective(a.work, b.work);
}

/// An open block deserialized from another's wire form equals it.
pub proof fn lemma_open_wire_round_trip(a: OpenBlock, b: OpenBlock)
    requires
        b.spec_wire_bytes() == a.spec_wire_bytes(),
    ensures
        b.same_as(&a),
{
    lemma_open_wire_injective(b, a);
}

/// The hashable fields of a state block.
#[derive(Clone, Copy, Debug)]
pub struct StateHashables {
    pub account: Account,
    pub previous: BlockHash,
    pub representative: Account,
    pub balance: Amount,
    pub link: Link,
}

impl PartialEq for StateHashables {
    fn eq(&self, other: &StateHashables) -> (r: bool) {
        self.account == other.account && self.previous == other.previous && self.representative
            == other.representative && self.balance == other.balance && self.link == other.link
    }
}

impl Eq for StateHashables {}

impl vstd::std_specs::cmp::PartialEqSpecImpl for StateHashables {
    open spec fn obeys_eq_spec() -> bool {
        true
    }

    open spec fn eq_spec(&self, other: &StateHashables) -> bool {
        self.account@ == other.account@ && self.previous@ == other.previous@
            && self.representative@ == other.representative@ && self.balance == other.balance
            && self.link@ == other.link@
    }
}

impl StateHashables {
    /// The canonical byte string of the hashable fields.
    pub open spec fn spec_bytes(&self) -> Seq<u8> {
        self.account@ + self.previous@ + self.representative@ + be_bytes_of_u128(self.balance.raw)
            + self.link@
    }

    pub fn serialized_size() -> (r: usize)
        ensures
            r == 144,
    {
        144
    }
}

/// The 32-byte preamble that distinguishes state-block hashes: its last
/// byte is the state block-type discriminant.
pub open spec fn spec_state_preamble() -> Seq<u8> {
    Seq::new(32, |i: int| if i == 31 { 6u8 } else { 0u8 })
}

/// A state block: a unified variant carrying the full account state.
#[derive(Clone, Copy, Debug)]
pub struct StateBlock {
    pub work: u64,
    pub signature: Signature,
    pub hashables: StateHashables,
}

impl PartialEq for StateBlock {
    fn eq(&self, other: &StateBlock) -> (r: bool) {
        self.work == other.work && self.signature == other.signature && self.hashables
            == other.hashables
    }
}

impl Eq for StateBlock {}

impl vstd::std_specs::cmp::PartialEqSpecImpl for StateBlock {
    open spec fn obeys_eq_spec() -> bool {
        true
    }

    open spec fn eq_spec(&self, other: &StateBlock) -> bool {
        self.same_as(other)
    }
}

impl StateBlock {
    /// Field-for-field equality over the views.
    pub open spec fn same_as(&self, other: &StateBlock) -> bool {
        self.work == other.work && self.signature@ == other.signature@ && self.hashables.account@
            == other.hashables.account@ && self.hashables.previous@ == other.hashables.previous@
            && self.hashables.representative@ == other.hashables.representative@
            && self.hashables.balance == other.hashables.balance && self.hashables.link@
            == other.hashables.link@
    }

    /// The bytes fed to the block hash: preamble then hashable fields.
    pub open spec fn spec_hash_input(&self) -> Seq<u8> {
        spec_state_preamble() + self.hashables.spec_bytes()
    }

    /// The hash of this block.
    pub open spec fn spec_hash(&self) -> Seq<u8> {
        blake2b_of(self.spec_hash_input())
    }

    /// The bit-exact wire form: hashables, signature, work big-endian.
    pub open spec fn spec_wire_bytes(&self) -> Seq<u8> {
        self.hashables.spec_bytes() + self.signature@ + be_bytes_of_u64(self.work)
    }

    /// Creates and signs a state block.
    pub fn new(
        account: Account,
        previous: BlockHash,
        representative: Account,
        balance: Amount,
        link: Link,
        prv_key: &RawKey,
        pub_key: &PublicKey,
        work: u64,
    ) -> (r: StateBlock)
        ensures
            r.hashables.account@ == account@,
            r.hashables.previous@ == previous@,
            r.hashables.representative@ == representative@,
            r.hashables.balance == balance,
            r.hashables.link@ == link@,
            r.work == work,
            r.signature@ == sign_of(prv_key@, r.spec_hash()),
            sig_check(public_of(prv_key@), r.spec_hash(), r.signature@),
    {
        let mut result = StateBlock {
            work,
            signature: Signature::new(),
            hashables: StateHashables { account, previous, representative, balance, link },
        };
        let hash = result.hash();
        result.signature = sign_message(prv_key, hash.as_bytes().as_slice());
        result
    }

    pub fn serialized_size() -> (r: usize)
        ensures
            r == 216,
    {
        216
    }

    /// Appends the preamble and hashable fields to a hasher.
    pub fn hash_hashables(&self, blake2b: &mut RustBlake2b)
        ensures
            final(blake2b).buf@ == old(blake2b).buf@ + self.spec_hash_input(),
    {
        let mut preamble = [0u8; 32];
        preamble[31] = 6u8;
        proof {
            assert(preamble@ =~= spec_state_preamble());
        }
        let _ = blake2b.update(preamble.as_slice());
        let _ = blake2b.update(self.hashables.account.as_bytes().as_slice());
        let _ = blake2b.update(self.hashables.previous.as_bytes().as_slice());
        let _ = blake2b.update(self.hashables.representative.as_bytes().as_slice());
        let mut balance_bytes: Vec<u8> = Vec::new();
        crate::wire::push_u128_be(&mut balance_bytes, self.hashables.balance.raw);
        let _ = blake2b.update(balance_bytes.as_slice());
        let _ = blake2b.update(self.hashables.link.as_bytes().as_slice());
        proof {
            assert(blake2b.buf@ =~= old(blake2b).buf@ + self.spec_hash_input());
        }
    }

    /// The Blake2b hash of the preamble and hashable fields.
    pub fn hash(&self) -> (r: BlockHash)
        ensures
            r@ == self.spec_hash(),
    {
        let mut blake = RustBlake2b::new();
        self.hash_hashables(&mut blake);
        BlockHash::from_bytes(blake.finalize_digest())
    }

    /// Writes the bit-exact wire form.
    pub fn serialize(&self, stream: &mut MemoryStream)
        requires
            old(stream).wf(),
        ensures
            final(stream).wf(),
            final(stream).data_seq() == old(stream).data_seq() + self.spec_wire_bytes(),
            final(stream).pos() == old(stream).pos(),
    {
        stream.write_bytes(self.hashables.account.as_bytes().as_slice());
        stream.write_bytes(self.hashables.previous.as_bytes().as_slice());
        stream.write_bytes(self.hashables.representative.as_bytes().as_slice());
        stream.write_u128_be(self.hashables.balance.raw);
        stream.write_bytes(self.hashables.link.as_bytes().as_slice());
        stream.write_bytes(self.signature.as_bytes().as_slice());
        stream.write_u64_be(self.work);
        proof {
            assert(stream.data_seq() =~= old(stream).data_seq() + self.spec_wire_bytes());
        }
    }

    /// Reads the bit-exact wire form, replacing every field of `self`.
    pub fn deserialize(&mut self, stream: &mut MemoryStream) -> (r: Result<(), WireError>)
        requires
            old(stream).wf(),
        ensures
            final(stream).wf(),
            final(stream).data_seq() == old(stream).data_seq(),
            old(stream).remaining() < 216 ==> r is Err && final(stream).pos() == old(stream).pos()
                && *final(self) == *old(self),
            old(stream).remaining() >= 216 ==> r is Ok && final(stream).pos() == old(stream).pos()
                + 216 && final(self).spec_wire_bytes() == old(stream).data_seq().subrange(
                old(stream).pos(),
                old(stream).pos() + 216,
            ),
    {
        let buf = match stream.read_exact(216) {
            Ok(v) => v,
            Err(e) => {
                return Err(e);
            },
        };
        self.hashables.account = Account::from_bytes(
            vec_to_bytes32(&slice_range(buf.as_slice(), 0, 32)),
        );
        self.hashables.previous = BlockHash::from_bytes(
            vec_to_bytes32(&slice_range(buf.as_slice(), 32, 64)),
        );
        self.hashables.representative = Account::from_bytes(
            vec_to_bytes32(&slice_range(buf.as_slice(), 64, 96)),
        );
        self.hashables.balance = Amount::raw(
            crate::wire::u128_from_be_bytes(slice_range(buf.as_slice(), 96, 112).as_slice()),
        );
        self.hashables.link = Link::from_bytes(
            vec_to_bytes32(&slice_range(buf.as_slice(), 112, 144)),
        );
        self.signature = Signature::from_bytes(
            vec_to_bytes64(&slice_range(buf.as_slice(), 144, 208)),
        );
        self.work = u64_from_be_bytes(slice_range(buf.as_slice(), 208, 216).as_slice());
        proof {
            assert(self.spec_wire_bytes() =~= buf@);
        }
        Ok(())
    }
}

/// Equal wire bytes mean equal state blocks.
pub proof fn lemma_state_wire_injective(a: StateBlock, b: StateBlock)
    requires
        a.spec_wire_bytes() == b.spec_wire_bytes(),
    ensures
        a.same_as(&b),
{
    assert(a.hashables.account@ =~= a.spec_wire_bytes().subrange(0, 32));
    assert(b.hashables.account@ =~= b.spec_wire_bytes().subrange(0, 32));
    assert(a.hashables.previous@ =~= a.spec_wire_bytes().subrange(32, 64));
    assert(b.hashables.previous@ =~= b.spec_wire_bytes().subrange(32, 64));
    assert(a.hashables.representative@ =~= a.spec_wire_bytes().subrange(64, 96));
    assert(b.hashables.representative@ =~= b.spec_wire_bytes().subrange(64, 96));
    assert(be_bytes_of_u128(a.hashables.balance.raw) =~= a.spec_wire_bytes().subrange(96, 112));
    assert(be_bytes_of_u128(b.hashables.balance.raw) =~= b.spec_wire_bytes().subrange(96, 112));
    assert(a.hashables.link@ =~= a.spec_wire_bytes().subrange(112, 144));
    assert(b.hashables.link@ =~= b.spec_wire_bytes().subrange(112, 144));
    assert(a.signature@ =~= a.spec_wire_bytes().subrange(144, 208));
    assert(b.signature@ =~= b.spec_wire_bytes().subrange(144, 208));
    assert(be_bytes_of_u64(a.work) =~= a.spec_wire_bytes().subrange(208, 216));
    assert(be_bytes_of_u64(b.work) =~= b.spec_wire_bytes().subrange(208, 216));
    lemma_be_bytes_of_u128_injective(a.hashables.balance.raw, b.hashables.balance.raw);
    lemma_be_bytes_of_u64_injective(a.work, b.work);
}

/// A state block deserialized from another's wire form equals it.
pub proof fn lemma_state_wire_round_trip(a: StateBlock, b: StateBlock)
    requires
        b.spec_wire_bytes() == a.spec_wire_bytes(),
    ensures
        b.same_as(&a),
{
    lemma_state_wire_injective(b, a);
}

/// The hashable fields of a send block.
#[derive(Clone, Copy, Debug)]
pub struct SendHashables {
    pub previous: BlockHash,
    pub destination: Account,
    pub balance: Amount,
}

impl PartialEq for SendHashables {
    fn eq(&self, other: &SendHashables) -> (r: bool) {
        self.previous == other.previous && self.destination == other.destination && self.balance == other.balance
    }
}

impl Eq for SendHashables {}

impl vstd::std_specs::cmp::PartialEqSpecImpl for SendHashables {
    open spec fn obeys_eq_spec() -> bool {
        true
    }

    open spec fn eq_spec(&self, other: &SendHashables) -> bool {
        self.previous@ == other.previous@ && self.destination@ == other.destination@ && self.balance == other.balance
    }
}

impl SendHashables {
    /// The canonical byte string of the hashable fields.
    pub open spec fn spec_bytes(&self) -> Seq<u8> {
        self.previous@ + self.destination@ + be_bytes_of_u128(self.balance.raw)
    }

    pub fn serialized_size() -> (r: usize)
        ensures
            r == 80,
    {
        80
    }
}

/// A send block: moves value from the account to a destination.
#[derive(Clone, Copy, Debug)]
pub struct SendBlock {
    pub work: u64,
    pub signature: Signature,
    pub hashables: SendHashables,
}

impl PartialEq for SendBlock {
    fn eq(&self, other: &SendBlock) -> (r: bool) {
        self.work == other.work && self.signature == other.signature && self.hashables
            == other.hashables
    }
}

impl Eq for SendBlock {}

impl vstd::std_specs::cmp::PartialEqSpecImpl for SendBlock {
    open spec fn obeys_eq_spec() -> bool {
        true
    }

    open spec fn eq_spec(&self, other: &SendBlock) -> bool {
        self.same_as(other)
    }
}

impl SendBlock {
    /// Field-for-field equality over the views.
    pub open spec fn same_as(&self, other: &SendBlock) -> bool {
        self.work == other.work && self.signature@ == other.signature@ && self.hashables.previous@ == other.hashables.previous@ && self.hashables.destination@ == other.hashables.destination@ && self.hashables.balance == other.hashables.balance
    }

    /// The bytes fed to the block hash.
    pub open spec fn spec_hash_input(&self) -> Seq<u8> {
        self.hashables.spec_bytes()
    }

    /// The hash of this block.
    pub open spec fn spec_hash(&self) -> Seq<u8> {
        blake2b_of(self.spec_hash_input())
    }

    /// The bit-exact wire form: hashables, signature, work big-endian.
    pub open spec fn spec_wire_bytes(&self) -> Seq<u8> {
        self.hashables.spec_bytes() + self.signature@ + be_bytes_of_u64(self.work)
    }

    /// Creates and signs a send block.
    pub fn new(
        previous: BlockHash,
        destination: Account,
        balance: Amount,
        prv_key: &RawKey,
        pub_key: &PublicKey,
        work: u64,
    ) -> (r: SendBlock)
        ensures
            r.hashables.previous@ == previous@,
            r.hashables.destination@ == destination@,
            r.hashables.balance == balance,
            r.work == work,
            r.signature@ == sign_of(prv_key@, r.spec_hash()),
            sig_check(public_of(prv_key@), r.spec_hash(), r.signature@),
    {
        let mut result = SendBlock {
            work,
            signature: Signature::new(),
            hashables: SendHashables { previous, destination, balance },
        };
        let hash = result.hash();
        result.signature = sign_message(prv_key, hash.as_bytes().as_slice());
        result
    }

    pub fn serialized_size() -> (r: usize)
        ensures
            r == 152,
    {
        152
    }

    /// Appends the hashable fields to a hasher.
    pub fn hash_hashables(&self, blake2b: &mut RustBlake2b)
        ensures
            final(blake2b).buf@ == old(blake2b).buf@ + self.spec_hash_input(),
    {
        let _ = blake2b.update(self.hashables.previous.as_bytes().as_slice());
        let _ = blake2b.update(self.hashables.destination.as_bytes().as_slice());
        let mut balance_bytes: Vec<u8> = Vec::new();
        crate::wire::push_u128_be(&mut balance_bytes, self.hashables.balance.raw);
        let _ = blake2b.update(balance_bytes.as_slice());
        proof {
            assert(blake2b.buf@ =~= old(blake2b).buf@ + self.spec_hash_input());
        }
    }

    /// The Blake2b hash of the hashable fields.
    pub fn hash(&self) -> (r: BlockHash)
        ensures
            r@ == self.spec_hash(),
    {
        let mut blake = RustBlake2b::new();
        self.hash_hashables(&mut blake);
        BlockHash::from_bytes(blake.finalize_digest())
    }

    /// Writes the bit-exact wire form.
    pub fn serialize(&self, stream: &mut MemoryStream)
        requires
            old(stream).wf(),
        ensures
            final(stream).wf(),
            final(stream).data_seq() == old(stream).data_seq() + self.spec_wire_bytes(),
            final(stream).pos() == old(stream).pos(),
    {
        stream.write_bytes(self.hashables.previous.as_bytes().as_slice());
        stream.write_bytes(self.hashables.destination.as_bytes().as_slice());
        stream.write_u128_be(self.hashables.balance.raw);
        stream.write_bytes(self.signature.as_bytes().as_slice());
        stream.write_u64_be(self.work);
        proof {
            assert(stream.data_seq() =~= old(stream).data_seq() + self.spec_wire_bytes());
        }
    }

    /// Reads the bit-exact wire form, replacing every field of `self`.
    pub fn deserialize(&mut self, stream: &mut MemoryStream) -> (r: Result<(), WireError>)
        requires
            old(stream).wf(),
        ensures
            final(stream).wf(),
            final(stream).data_seq() == old(stream).data_seq(),
            old(stream).remaining() < 152 ==> r is Err && final(stream).pos() == old(stream).pos()
                && *final(self) == *old(self),
            old(stream).remaining() >= 152 ==> r is Ok && final(stream).pos() == old(stream).pos()
                + 152 && final(self).spec_wire_bytes() == old(stream).data_seq().subrange(
                old(stream).pos(),
                old(stream).pos() + 152,
            ),
    {
        let buf = match stream.read_exact(152) {
            Ok(v) => v,
            Err(e) => {
                return Err(e);
            },
        };
        self.hashables.previous = BlockHash::from_bytes(
            vec_to_bytes32(&slice_range(buf.as_slice(), 0, 32)),
        );
        self.hashables.destination = Account::from_bytes(
            vec_to_bytes32(&slice_range(buf.as_slice(), 32, 64)),
        );
        self.hashables.balance = Amount::raw(
            crate::wire::u128_from_be_bytes(slice_range(buf.as_slice(), 64, 80).as_slice()),
        );
        self.signature = Signature::from_bytes(
            vec_to_bytes64(&slice_range(buf.as_slice(), 80, 144)),
        );
        self.work = u64_from_be_bytes(slice_range(buf.as_slice(), 144, 152).as_slice());
        proof {
            assert(self.spec_wire_bytes() =~= buf@);
        }
        Ok(())
    }
}

/// Equal wire bytes mean equal send blocks.
pub proof fn lemma_send_wire_injective(a: SendBlock, b: SendBlock)
    requires
        a.spec_wire_bytes() == b.spec_wire_bytes(),
    ensures
        a.same_as(&b),
{
    assert(a.hashables.previous@ =~= a.spec_wire_bytes().subrange(0, 32));
    assert(b.hashables.previous@ =~= b.spec_wire_bytes().subrange(0, 32));
    assert(a.hashables.destination@ =~= a.spec_wire_bytes().subrange(32, 64));
    assert(b.hashables.destination@ =~= b.spec_wire_bytes().subrange(32, 64));
    assert(be_bytes_of_u128(a.hashables.balance.raw) =~= a.spec_wire_bytes().subrange(64, 80));
    assert(be_bytes_of_u128(b.hashables.balance.raw) =~= b.spec_wire_bytes().subrange(64, 80));
    assert(a.signature@ =~= a.spec_wire_bytes().subrange(80, 144));
    assert(b.signature@ =~= b.spec_wire_bytes().subrange(80, 144));
    assert(be_bytes_of_u64(a.work) =~= a.spec_wire_bytes().subrange(144, 152));
    assert(be_bytes_of_u64(b.work) =~= b.spec_wire_bytes().subrange(144, 152));
    lemma_be_bytes_of_u128_injective(a.hashables.balance.raw, b.hashables.balance.raw);
    lemma_be_bytes_of_u64_injective(a.work, b.work);
}

/// A send block deserialized from another's wire form equals it.
pub proof fn lemma_send_wire_round_trip(a: SendBlock, b: SendBlock)
    requires
        b.spec_wire_bytes() == a.spec_wire_bytes(),
    ensures
        b.same_as(&a),
{
    lemma_send_wire_injective(b, a);
}

/// The hashable fields of a receive block.
#[derive(Clone, Copy, Debug)]
pub struct ReceiveHashables {
    pub previous: BlockHash,
    pub source: BlockHash,
}

impl PartialEq for ReceiveHashables {
    fn eq(&self, other: &ReceiveHashables) -> (r: bool) {
        self.previous == other.previous && self.source == other.source
    }
}

impl Eq for ReceiveHashables {}

impl vstd::std_specs::cmp::PartialEqSpecImpl for ReceiveHashables {
    open spec fn obeys_eq_spec() -> bool {
        true
    }

    open spec fn eq_spec(&self, other: &ReceiveHashables) -> bool {
        self.previous@ == other.previous@ && self.source@ == other.source@
    }
}

impl ReceiveHashables {
    /// The canonical byte string of the hashable fields.
    pub open spec fn spec_bytes(&self) -> Seq<u8> {
        self.previous@ + self.source@
    }

    pub fn serialized_size() -> (r: usize)
        ensures
            r == 64,
    {
        64
    }
}

/// A receive block: consumes a pending send directed to the account.
#[derive(Clone, Copy, Debug)]
pub struct ReceiveBlock {
    pub work: u64,
    pub signature: Signature,
    pub hashables: ReceiveHashables,
}

impl PartialEq for ReceiveBlock {
    fn eq(&self, other: &ReceiveBlock) -> (r: bool) {
        self.work == other.work && self.signature == other.signature && self.hashables
            == other.hashables
    }
}

impl Eq for ReceiveBlock {}

impl vstd::std_specs::cmp::PartialEqSpecImpl for ReceiveBlock {
    open spec fn obeys_eq_spec() -> bool {
        true
    }

    open spec fn eq_spec(&self, other: &ReceiveBlock) -> bool {
        self.same_as(other)
    }
}

impl ReceiveBlock {
    /// Field-for-field equality over the views.
    pub open spec fn same_as(&self, other: &ReceiveBlock) -> bool {
        self.work == other.work && self.signature@ == other.signature@ && self.hashables.previous@ == other.hashables.previous@ && self.hashables.source@ == other.hashables.source@
    }

    /// The bytes fed to the block hash.
    pub open spec fn spec_hash_input(&self) -> Seq<u8> {
        self.hashables.spec_bytes()
    }

    /// The hash of this block.
    pub open spec fn spec_hash(&self) -> Seq<u8> {
        blake2b_of(self.spec_hash_input())
    }

    /// The bit-exact wire form: hashables, signature, work big-endian.
    pub open spec fn spec_wire_bytes(&self) -> Seq<u8> {
        self.hashables.spec_bytes() + self.signature@ + be_bytes_of_u64(self.work)
    }

    /// Creates and signs a receive block.
    pub fn new(
        previous: BlockHash,
        source: BlockHash,
        prv_key: &RawKey,
        pub_key: &PublicKey,
        work: u64,
    ) -> (r: ReceiveBlock)
        ensures
            r.hashables.previous@ == previous@,
            r.hashables.source@ == source@,
            r.work == work,
            r.signature@ == sign_of(prv_key@, r.spec_hash()),
            sig_check(public_of(prv_key@), r.spec_hash(), r.signature@),
    {
        let mut result = ReceiveBlock {
            work,
            signature: Signature::new(),
            hashables: ReceiveHashables { previous, source },
        };
        let hash = result.hash();
        result.signature = sign_message(prv_key, hash.as_bytes().as_slice());
        result
    }

    pub fn serialized_size() -> (r: usize)
        ensures
            r == 136,
    {
        136
    }

    /// Appends the hashable fields to a hasher.
    pub fn hash_hashables(&self, blake2b: &mut RustBlake2b)
        ensures
            final(blake2b).buf@ == old(blake2b).buf@ + self.spec_hash_input(),
    {
        let _ = blake2b.update(self.hashables.previous.as_bytes().as_slice());
        let _ = blake2b.update(self.hashables.source.as_bytes().as_slice());
        proof {
            assert(blake2b.buf@ =~= old(blake2b).buf@ + self.spec_hash_input());
        }
    }

    /// The Blake2b hash of the hashable fields.
    pub fn hash(&self) -> (r: BlockHash)
        ensures
            r@ == self.spec_hash(),
    {
        let mut blake = RustBlake2b::new();
        self.hash_hashables(&mut blake);
        BlockHash::from_bytes(blake.finalize_digest())
    }

    /// Writes the bit-exact wire form.
    pub fn serialize(&self, stream: &mut MemoryStream)
        requires
            old(stream).wf(),
        ensures
            final(stream).wf(),
            final(stream).data_seq() == old(stream).data_seq() + self.spec_wire_bytes(),
            final(stream).pos() == old(stream).pos(),
    {
        stream.write_bytes(self.hashables.previous.as_bytes().as_slice());
        stream.write_bytes(self.hashables.source.as_bytes().as_slice());
        stream.write_bytes(self.signature.as_bytes().as_slice());
        stream.write_u64_be(self.work);
        proof {
            assert(stream.data_seq() =~= old(stream).data_seq() + self.spec_wire_bytes());
        }
    }

    /// Reads the bit-exact wire form, replacing every field of `self`.
    pub fn deserialize(&mut self, stream: &mut MemoryStream) -> (r: Result<(), WireError>)
        requires
            old(stream).wf(),
        ensures
            final(stream).wf(),
            final(stream).data_seq() == old(stream).data_seq(),
            old(stream).remaining() < 136 ==> r is Err && final(stream).pos() == old(stream).pos()
                && *final(self) == *old(self),
            old(stream).remaining() >= 136 ==> r is Ok && final(stream).pos() == old(stream).pos()
                + 136 && final(self).spec_wire_bytes() == old(stream).data_seq().subrange(
                old(stream).pos(),
                old(stream).pos() + 136,
            ),
    {
        let buf = match stream.read_exact(136) {
            Ok(v) => v,
            Err(e) => {
                return Err(e);
            },
        };
        self.hashables.previous = BlockHash::from_bytes(
            vec_to_bytes32(&slice_range(buf.as_slice(), 0, 32)),
        );
        self.hashables.source = BlockHash::from_bytes(
            vec_to_bytes32(&slice_range(buf.as_slice(), 32, 64)),
        );
        self.signature = Signature::from_bytes(
            vec_to_bytes64(&slice_range(buf.as_slice(), 64, 128)),
        );
        self.work = u64_from_be_bytes(slice_range(buf.as_slice(), 128, 136).as_slice());
        proof {
            assert(self.spec_wire_bytes() =~= buf@);
        }
        Ok(())
    }
}

/// Equal wire bytes mean equal receive blocks.
pub proof fn lemma_receive_wire_injective(a: ReceiveBlock, b: ReceiveBlock)
    requires
        a.spec_wire_bytes() == b.spec_wire_bytes(),
    ensures
        a.same_as(&b),
{
    assert(a.hashables.previous@ =~= a.spec_wire_bytes().subrange(0, 32));
    assert(b.hashables.previous@ =~= b.spec_wire_bytes().subrange(0, 32));
    assert(a.hashables.source@ =~= a.spec_wire_bytes().subrange(32, 64));
    assert(b.hashables.source@ =~= b.spec_wire_bytes().subrange(32, 64));
    assert(a.signature@ =~= a.spec_wire_bytes().subrange(64, 128));
    assert(b.signature@ =~= b.spec_wire_bytes().subrange(64, 128));
    assert(be_bytes_of_u64(a.work) =~= a.spec_wire_bytes().subrange(128, 136));
    assert(be_bytes_of_u64(b.work) =~= b.spec_wire_bytes().subrange(128, 136));
    lemma_be_bytes_of_u64_injective(a.work, b.work);
}

/// A receive block deserialized from another's wire form equals it.
pub proof fn lemma_receive_wire_round_trip(a: ReceiveBlock, b: ReceiveBlock)
    requires
        b.spec_wire_bytes() == a.spec_wire_bytes(),
    ensures
        b.same_as(&a),
{
    lemma_receive_wire_injective(b, a);
}

/// The hashable fields of a change block.
#[derive(Clone, Copy, Debug)]
pub struct ChangeHashables {
    pub previous: BlockHash,
    pub representative: Account,
}

impl PartialEq for ChangeHashables {
    fn eq(&self, other: &ChangeHashables) -> (r: bool) {
        self.previous == other.previous && self.representative == other.representative
    }
}

impl Eq for ChangeHashables {}

impl vstd::std_specs::cmp::PartialEqSpecImpl for ChangeHashables {
    open spec fn obeys_eq_spec() -> bool {
        true
    }

    open spec fn eq_spec(&self, other: &ChangeHashables) -> bool {
        self.previous@ == other.previous@ && self.representative@ == other.representative@
    }
}

impl ChangeHashables {
    /// The canonical byte string of the hashable fields.
    pub open spec fn spec_bytes(&self) -> Seq<u8> {
        self.previous@ + self.representative@
    }

    pub fn serialized_size() -> (r: usize)
        ensures
            r == 64,
    {
        64
    }
}

/// A change block: changes the account representative, nothing else.
#[derive(Clone, Copy, Debug)]
pub struct ChangeBlock {
    pub work: u64,
    pub signature: Signature,
    pub hashables: ChangeHashables,
}

impl PartialEq for ChangeBlock {
    fn eq(&self, other: &ChangeBlock) -> (r: bool) {
        self.work == other.work && self.signature == other.signature && self.hashables
            == other.hashables
    }
}

impl Eq for ChangeBlock {}

impl vstd::std_specs::cmp::PartialEqSpecImpl for ChangeBlock {
    open spec fn obeys_eq_spec() -> bool {
        true
    }

    open spec fn eq_spec(&self, other: &ChangeBlock) -> bool {
        self.same_as(other)
    }
}

impl ChangeBlock {
    /// Field-for-field equality over the views.
    pub open spec fn same_as(&self, other: &ChangeBlock) -> bool {
        self.work == other.work && self.signature@ == other.signature@ && self.hashables.previous@ == other.hashables.previous@ && self.hashables.representative@ == other.hashables.representative@
    }

    /// The bytes fed to the block hash.
    pub open spec fn spec_hash_input(&self) -> Seq<u8> {
        self.hashables.spec_bytes()
    }

    /// The hash of this block.
    pub open spec fn spec_hash(&self) -> Seq<u8> {
        blake2b_of(self.spec_hash_input())
    }

    /// The bit-exact wire form: hashables, signature, work big-endian.
    pub open spec fn spec_wire_bytes(&self) -> Seq<u8> {
        self.hashables.spec_bytes() + self.signature@ + be_bytes_of_u64(self.work)
    }

    /// Creates and signs a change block.
    pub fn new(
        previous: BlockHash,
        representative: Account,
        prv_key: &RawKey,
        pub_key: &PublicKey,
        work: u64,
    ) -> (r: ChangeBlock)
        ensures
            r.hashables.previous@ == previous@,
            r.hashables.representative@ == representative@,
            r.work == work,
            r.signature@ == sign_of(prv_key@, r.spec_hash()),
            sig_check(public_of(prv_key@), r.spec_hash(), r.signature@),
    {
        let mut result = ChangeBlock {
            work,
            signature: Signature::new(),
            hashables: ChangeHashables { previous, representative },
        };
        let hash = result.hash();
        result.signature = sign_message(prv_key, hash.as_bytes().as_slice());
        result
    }

    pub fn serialized_size() -> (r: usize)
        ensures
            r == 136,
    {
        136
    }

    /// Appends the hashable fields to a hasher.
    pub fn hash_hashables(&self, blake2b: &mut RustBlake2b)
        ensures
            final(blake2b).buf@ == old(blake2b).buf@ + self.spec_hash_input(),
    {
        let _ = blake2b.update(self.hashables.previous.as_bytes().as_slice());
        let _ = blake2b.update(self.hashables.representative.as_bytes().as_slice());
        proof {
            assert(blake2b.buf@ =~= old(blake2b).buf@ + self.spec_hash_input());
        }
    }

    /// The Blake2b hash of the hashable fields.
    pub fn hash(&self) -> (r: BlockHash)
        ensures
            r@ == self.spec_hash(),
    {
        let mut blake = RustBlake2b::new();
        self.hash_hashables(&mut blake);
        BlockHash::from_bytes(blake.finalize_digest())
    }

    /// Writes the bit-exact wire form.
    pub fn serialize(&self, stream: &mut MemoryStream)
        requires
            old(stream).wf(),
        ensures
            final(stream).wf(),
            final(stream).data_seq() == old(stream).data_seq() + self.spec_wire_bytes(),
            final(stream).pos() == old(stream).pos(),
    {
        stream.write_bytes(self.hashables.previous.as_bytes().as_slice());
        stream.write_bytes(self.hashables.representative.as_bytes().as_slice());
        stream.write_bytes(self.signature.as_bytes().as_slice());
        stream.write_u64_be(self.work);
        proof {
            assert(stream.data_seq() =~= old(stream).data_seq() + self.spec_wire_bytes());
        }
    }

    /// Reads the bit-exact wire form, replacing every field of `self`.
    pub fn deserialize(&mut self, stream: &mut MemoryStream) -> (r: Result<(), WireError>)
        requires
            old(stream).wf(),
        ensures
            final(stream).wf(),
            final(stream).data_seq() == old(stream).data_seq(),
            old(stream).remaining() < 136 ==> r is Err && final(stream).pos() == old(stream).pos()
                && *final(self) == *old(self),
            old(stream).remaining() >= 136 ==> r is Ok && final(stream).pos() == old(stream).pos()
                + 136 && final(self).spec_wire_bytes() == old(stream).data_seq().subrange(
                old(stream).pos(),
                old(stream).pos() + 136,
            ),
    {
        let buf = match stream.read_exact(136) {
            Ok(v) => v,
            Err(e) => {
                return Err(e);
            },
        };
        self.hashables.previous = BlockHash::from_bytes(
            vec_to_bytes32(&slice_range(buf.as_slice(), 0, 32)),
        );
        self.hashables.representative = Account::from_bytes(
            vec_to_bytes32(&slice_range(buf.as_slice(), 32, 64)),
        );
        self.signature = Signature::from_bytes(
            vec_to_bytes64(&slice_range(buf.as_slice(), 64, 128)),
        );
        self.work = u64_from_be_bytes(slice_range(buf.as_slice(), 128, 136).as_slice());
        proof {
            assert(self.spec_wire_bytes() =~= buf@);
        }
        Ok(())
    }
}

/// Equal wire bytes mean equal change blocks.
pub proof fn lemma_change_wire_injective(a: ChangeBlock, b: ChangeBlock)
    requires
        a.spec_wire_bytes() == b.spec_wire_bytes(),
    ensures
        a.same_as(&b),
{
    assert(a.hashables.previous@ =~= a.spec_wire_bytes().subrange(0, 32));
    assert(b.hashables.previous@ =~= b.spec_wire_bytes().subrange(0, 32));
    assert(a.hashables.representative@ =~= a.spec_wire_bytes().subrange(32, 64));
    assert(b.hashables.representative@ =~= b.spec_wire_bytes().subrange(32, 64));
    assert(a.signature@ =~= a.spec_wire_bytes().subrange(64, 128));
    assert(b.signature@ =~= b.spec_wire_bytes().subrange(64, 128));
    assert(be_bytes_of_u64(a.work) =~= a.spec_wire_bytes().subrange(128, 136));
    assert(be_bytes_of_u64(b.work) =~= b.spec_wire_bytes().subrange(128, 136));
    lemma_be_bytes_of_u64_injective(a.work, b.work);
}

/// A change block deserialized from another's wire form equals it.
pub proof fn lemma_change_wire_round_trip(a: ChangeBlock, b: ChangeBlock)
    requires
        b.spec_wire_bytes() == a.spec_wire_bytes(),
    ensures
        b.same_as(&a),
{
    lemma_change_wire_injective(b, a);
}


/// A block of any variant.
#[derive(Clone, Copy, Debug)]
pub enum BlockEnum {
    Open(OpenBlock),
    Send(SendBlock),
    Receive(ReceiveBlock),
    Change(ChangeBlock),
    State(StateBlock),
}

impl PartialEq for BlockEnum {
    fn eq(&self, other: &BlockEnum) -> (r: bool) {
        match (self, other) {
            (BlockEnum::Open(a), BlockEnum::Open(b)) => *a == *b,
            (BlockEnum::Send(a), BlockEnum::Send(b)) => *a == *b,
            (BlockEnum::Receive(a), BlockEnum::Receive(b)) => *a == *b,
            (BlockEnum::Change(a), BlockEnum::Change(b)) => *a == *b,
            (BlockEnum::State(a), BlockEnum::State(b)) => *a == *b,
            _ => false,
        }
    }
}

impl Eq for BlockEnum {}

impl vstd::std_specs::cmp::PartialEqSpecImpl for BlockEnum {
    open spec fn obeys_eq_spec() -> bool {
        true
    }

    open spec fn eq_spec(&self, other: &BlockEnum) -> bool {
        self.same_as(other)
    }
}

impl BlockEnum {
    /// Field-for-field equality over the views.
    pub open spec fn same_as(&self, other: &BlockEnum) -> bool {
        match (self, other) {
            (BlockEnum::Open(a), BlockEnum::Open(b)) => a.same_as(b),
            (BlockEnum::Send(a), BlockEnum::Send(b)) => a.same_as(b),
            (BlockEnum::Receive(a), BlockEnum::Receive(b)) => a.same_as(b),
            (BlockEnum::Change(a), BlockEnum::Change(b)) => a.same_as(b),
            (BlockEnum::State(a), BlockEnum::State(b)) => a.same_as(b),
            _ => false,
        }
    }

    pub open spec fn spec_block_type(&self) -> BlockType {
        match self {
            BlockEnum::Open(_) => BlockType::LegacyOpen,
            BlockEnum::Send(_) => BlockType::LegacySend,
            BlockEnum::Receive(_) => BlockType::LegacyReceive,
            BlockEnum::Change(_) => BlockType::LegacyChange,
            BlockEnum::State(_) => BlockType::State,
        }
    }

    pub fn block_type(&self) -> (r: BlockType)
        ensures
            r == self.spec_block_type(),
    {
        match self {
            BlockEnum::Open(_) => BlockType::LegacyOpen,
            BlockEnum::Send(_) => BlockType::LegacySend,
            BlockEnum::Receive(_) => BlockType::LegacyReceive,
            BlockEnum::Change(_) => BlockType::LegacyChange,
            BlockEnum::State(_) => BlockType::State,
        }
    }

    /// The hash of the wrapped block.
    pub open spec fn spec_hash(&self) -> Seq<u8> {
        match self {
            BlockEnum::Open(b) => b.spec_hash(),
            BlockEnum::Send(b) => b.spec_hash(),
            BlockEnum::Receive(b) => b.spec_hash(),
            BlockEnum::Change(b) => b.spec_hash(),
            BlockEnum::State(b) => b.spec_hash(),
        }
    }

    pub fn hash(&self) -> (r: BlockHash)
        ensures
            r@ == self.spec_hash(),
    {
        match self {
            BlockEnum::Open(b) => b.hash(),
            BlockEnum::Send(b) => b.hash(),
            BlockEnum::Receive(b) => b.hash(),
            BlockEnum::Change(b) => b.hash(),
            BlockEnum::State(b) => b.hash(),
        }
    }

    /// The predecessor hash; zero for an open block.
    pub open spec fn spec_previous(&self) -> Seq<u8> {
        match self {
            BlockEnum::Open(_) => Seq::new(32, |i: int| 0u8),
            BlockEnum::Send(b) => b.hashables.previous@,
            BlockEnum::Receive(b) => b.hashables.previous@,
            BlockEnum::Change(b) => b.hashables.previous@,
            BlockEnum::State(b) => b.hashables.previous@,
        }
    }

    pub fn previous(&self) -> (r: BlockHash)
        ensures
            r@ == self.spec_previous(),
    {
        match self {
            BlockEnum::Open(_) => BlockHash::zero(),
            BlockEnum::Send(b) => b.hashables.previous,
            BlockEnum::Receive(b) => b.hashables.previous,
            BlockEnum::Change(b) => b.hashables.previous,
            BlockEnum::State(b) => b.hashables.previous,
        }
    }

    /// The work root: the predecessor for chained blocks, the account
    /// for first blocks.
    pub open spec fn spec_root(&self) -> Seq<u8> {
        match self {
            BlockEnum::Open(b) => b.hashables.account@,
            BlockEnum::Send(b) => b.hashables.previous@,
            BlockEnum::Receive(b) => b.hashables.previous@,
            BlockEnum::Change(b) => b.hashables.previous@,
            BlockEnum::State(b) => if b.hashables.previous@ == Seq::new(32, |i: int| 0u8) {
                b.hashables.account@
            } else {
                b.hashables.previous@
            },
        }
    }

    pub fn root(&self) -> (r: [u8; 32])
        ensures
            r@ == self.spec_root(),
    {
        match self {
            BlockEnum::Open(b) => *b.hashables.account.as_bytes(),
            BlockEnum::Send(b) => *b.hashables.previous.as_bytes(),
            BlockEnum::Receive(b) => *b.hashables.previous.as_bytes(),
            BlockEnum::Change(b) => *b.hashables.previous.as_bytes(),
            BlockEnum::State(b) => {
                if b.hashables.previous.is_zero() {
                    *b.hashables.account.as_bytes()
                } else {
                    *b.hashables.previous.as_bytes()
                }
            },
        }
    }

    pub open spec fn spec_work(&self) -> u64 {
        match self {
            BlockEnum::Open(b) => b.work,
            BlockEnum::Send(b) => b.work,
            BlockEnum::Receive(b) => b.work,
            BlockEnum::Change(b) => b.work,
            BlockEnum::State(b) => b.work,
        }
    }

    pub fn work(&self) -> (r: u64)
        ensures
            r == self.spec_work(),
    {
        match self {
            BlockEnum::Open(b) => b.work,
            BlockEnum::Send(b) => b.work,
            BlockEnum::Receive(b) => b.work,
            BlockEnum::Change(b) => b.work,
            BlockEnum::State(b) => b.work,
        }
    }

    /// The wire form of the wrapped block, without the type byte.
    pub open spec fn spec_wire_bytes(&self) -> Seq<u8> {
        match self {
            BlockEnum::Open(b) => b.spec_wire_bytes(),
            BlockEnum::Send(b) => b.spec_wire_bytes(),
            BlockEnum::Receive(b) => b.spec_wire_bytes(),
            BlockEnum::Change(b) => b.spec_wire_bytes(),
            BlockEnum::State(b) => b.spec_wire_bytes(),
        }
    }

    /// The wire form with the leading type byte.
    pub open spec fn spec_enum_bytes(&self) -> Seq<u8> {
        seq![self.spec_block_type().spec_as_u8()] + self.spec_wire_bytes()
    }
}

/// Whether a wire value names a real block variant.
pub open spec fn spec_is_block_type(t: BlockType) -> bool {
    t != BlockType::Invalid && t != BlockType::NotABlock
}

/// The serialized size of a block of this type, without the type byte.
pub open spec fn spec_block_size(t: BlockType) -> int {
    match t {
        BlockType::LegacySend => 152,
        BlockType::LegacyReceive => 136,
        BlockType::LegacyOpen => 168,
        BlockType::LegacyChange => 136,
        BlockType::State => 216,
        BlockType::Invalid => 0,
        BlockType::NotABlock => 0,
    }
}

/// The serialized size of a block named by a wire value; values that
/// name no block variant have none.
pub open spec fn spec_block_size_of_byte(value: u8) -> int {
    if value == 2 {
        152
    } else if value == 3 {
        136
    } else if value == 4 {
        168
    } else if value == 5 {
        136
    } else if value == 6 {
        216
    } else {
        0
    }
}

/// A block's wire form is exactly its type's serialized size long.
pub proof fn lemma_block_wire_size(b: &BlockEnum)
    ensures
        b.spec_wire_bytes().len() == spec_block_size(b.spec_block_type()),
{
}

/// Two blocks of the same variant with the same wire bytes are equal.
pub proof fn lemma_block_wire_injective_same_type(a: &BlockEnum, b: &BlockEnum)
    requires
        a.spec_block_type() == b.spec_block_type(),
        a.spec_wire_bytes() == b.spec_wire_bytes(),
    ensures
        a.same_as(b),
{
    match (a, b) {
        (BlockEnum::Open(x), BlockEnum::Open(y)) => lemma_open_wire_injective(*x, *y),
        (BlockEnum::Send(x), BlockEnum::Send(y)) => lemma_send_wire_injective(*x, *y),
        (BlockEnum::Receive(x), BlockEnum::Receive(y)) => lemma_receive_wire_injective(*x, *y),
        (BlockEnum::Change(x), BlockEnum::Change(y)) => lemma_change_wire_injective(*x, *y),
        (BlockEnum::State(x), BlockEnum::State(y)) => lemma_state_wire_injective(*x, *y),
        _ => {
            assert(false);
        },
    }
}

/// Equal blocks carry the same work root and nonce.
pub proof fn lemma_same_as_same_root_work(a: &BlockEnum, b: &BlockEnum)
    requires
        a.same_as(b),
    ensures
        a.spec_root() == b.spec_root(),
        a.spec_work() == b.spec_work(),
{
}

/// Writes a block with its leading type byte.
pub fn serialize_block_enum(stream: &mut MemoryStream, block: &BlockEnum)
    requires
        old(stream).wf(),
    ensures
        final(stream).wf(),
        final(stream).data_seq() == old(stream).data_seq() + block.spec_enum_bytes(),
        final(stream).pos() == old(stream).pos(),
{
    stream.write_u8(block.block_type().as_u8());
    match block {
        BlockEnum::Open(b) => b.serialize(stream),
        BlockEnum::Send(b) => b.serialize(stream),
        BlockEnum::Receive(b) => b.serialize(stream),
        BlockEnum::Change(b) => b.serialize(stream),
        BlockEnum::State(b) => b.serialize(stream),
    }
    proof {
        assert(stream.data_seq() =~= old(stream).data_seq() + block.spec_enum_bytes());
    }
}

/// Reads a block of a known type, without a type byte.
pub fn deserialize_block_enum_with_type(block_type: BlockType, stream: &mut MemoryStream) -> (r:
    Result<BlockEnum, WireError>)
    requires
        old(stream).wf(),
    ensures
        final(stream).wf(),
        final(stream).data_seq() == old(stream).data_seq(),
        block_type == BlockType::Invalid || block_type == BlockType::NotABlock ==> r is Err,
        spec_is_block_type(block_type) ==> (r is Ok <==> old(stream).remaining()
            >= spec_block_size(block_type)),
        r is Err ==> final(stream).pos() == old(stream).pos(),
        r is Ok ==> r.unwrap().spec_block_type() == block_type
            && r.unwrap().spec_wire_bytes().len() == spec_block_size(block_type)
            && final(stream).pos() == old(stream).pos() + r.unwrap().spec_wire_bytes().len()
            && r.unwrap().spec_wire_bytes() == old(stream).data_seq().subrange(
            old(stream).pos(),
            old(stream).pos() + r.unwrap().spec_wire_bytes().len(),
        ),
{
    match block_type {
        BlockType::LegacyOpen => {
            let mut b = OpenBlock {
                work: 0,
                signature: Signature::new(),
                hashables: OpenHashables {
                    source: BlockHash::zero(),
                    representative: Account::zero(),
                    account: Account::zero(),
                },
            };
            match b.deserialize(stream) {
                Ok(()) => Ok(BlockEnum::Open(b)),
                Err(e) => Err(e),
            }
        },
        BlockType::LegacySend => {
            let mut b = SendBlock {
                work: 0,
                signature: Signature::new(),
                hashables: SendHashables {
                    previous: BlockHash::zero(),
                    destination: Account::zero(),
                    balance: Amount::zero(),
                },
            };
            match b.deserialize(stream) {
                Ok(()) => Ok(BlockEnum::Send(b)),
                Err(e) => Err(e),
            }
        },
        BlockType::LegacyReceive => {
            let mut b = ReceiveBlock {
                work: 0,
                signature: Signature::new(),
                hashables: ReceiveHashables {
                    previous: BlockHash::zero(),
                    source: BlockHash::zero(),
                },
            };
            match b.deserialize(stream) {
                Ok(()) => Ok(BlockEnum::Receive(b)),
                Err(e) => Err(e),
            }
        },
        BlockType::LegacyChange => {
            let mut b = ChangeBlock {
                work: 0,
                signature: Signature::new(),
                hashables: ChangeHashables {
                    previous: BlockHash::zero(),
                    representative: Account::zero(),
                },
            };
            match b.deserialize(stream) {
                Ok(()) => Ok(BlockEnum::Change(b)),
                Err(e) => Err(e),
            }
        },
        BlockType::State => {
            let mut b = StateBlock {
                work: 0,
                signature: Signature::new(),
                hashables: StateHashables {
                    account: Account::zero(),
                    previous: BlockHash::zero(),
                    representative: Account::zero(),
                    balance: Amount::zero(),
                    link: Link::zero(),
                },
            };
            match b.deserialize(stream) {
                Ok(()) => Ok(BlockEnum::State(b)),
                Err(e) => Err(e),
            }
        },
        BlockType::Invalid => Err(WireError::Eof),
        BlockType::NotABlock => Err(WireError::Eof),
    }
}

/// Reads a block with its leading type byte.
pub fn deserialize_block_enum(stream: &mut MemoryStream) -> (r: Result<BlockEnum, WireError>)
    requires
        old(stream).wf(),
    ensures
        final(stream).wf(),
        final(stream).data_seq() == old(stream).data_seq(),
        r is Ok <==> old(stream).remaining() >= 1 && {
            let first = old(stream).data_seq()[old(stream).pos()];
            2 <= first <= 6 && old(stream).remaining() >= 1 + spec_block_size_of_byte(first)
        },
        r is Err ==> final(stream).pos() == old(stream).pos(),
        r is Ok ==> final(stream).pos() == old(stream).pos()
            + r.unwrap().spec_enum_bytes().len() && r.unwrap().spec_enum_bytes() == old(
            stream,
        ).data_seq().subrange(
            old(stream).pos(),
            old(stream).pos() + r.unwrap().spec_enum_bytes().len(),
        ),
{
    let pos0 = stream.read_pos;
    let type_byte = match stream.read_u8() {
        Ok(b) => b,
        Err(e) => {
            return Err(e);
        },
    };
    let block_type = match BlockType::from_u8(type_byte) {
        Some(t) => t,
        None => {
            stream.read_pos = pos0;
            return Err(WireError::Eof);
        },
    };
    if matches!(block_type, BlockType::Invalid) || matches!(block_type, BlockType::NotABlock) {
        stream.read_pos = pos0;
        return Err(WireError::Eof);
    }
    let ghost mid = *stream;
    let block = match deserialize_block_enum_with_type(block_type, stream) {
        Ok(b) => b,
        Err(e) => {
            stream.read_pos = pos0;
            return Err(e);
        },
    };
    proof {
        assert(block.spec_enum_bytes() =~= old(stream).data_seq().subrange(
            old(stream).pos(),
            old(stream).pos() + block.spec_enum_bytes().len(),
        ));
    }
    Ok(block)
}

/// Equal type-tagged wire bytes mean equal blocks.
pub proof fn lemma_block_enum_wire_injective(a: BlockEnum, b: BlockEnum)
    requires
        a.spec_enum_bytes() == b.spec_enum_bytes(),
    ensures
        a.same_as(&b),
{
    assert(a.spec_enum_bytes()[0] == a.spec_block_type().spec_as_u8());
    assert(b.spec_enum_bytes()[0] == b.spec_block_type().spec_as_u8());
    assert(a.spec_wire_bytes() =~= a.spec_enum_bytes().subrange(
        1,
        a.spec_enum_bytes().len() as int,
    ));
    assert(b.spec_wire_bytes() =~= b.spec_enum_bytes().subrange(
        1,
        b.spec_enum_bytes().len() as int,
    ));
    match (a, b) {
        (BlockEnum::Open(x), BlockEnum::Open(y)) => lemma_open_wire_injective(x, y),
        (BlockEnum::Send(x), BlockEnum::Send(y)) => lemma_send_wire_injective(x, y),
        (BlockEnum::Receive(x), BlockEnum::Receive(y)) => lemma_receive_wire_injective(x, y),
        (BlockEnum::Change(x), BlockEnum::Change(y)) => lemma_change_wire_injective(x, y),
        (BlockEnum::State(x), BlockEnum::State(y)) => lemma_state_wire_injective(x, y),
        _ => {
            assert(false);
        },
    }
}

/// A block deserialized from another's type-tagged wire form equals it:
/// the serialize/deserialize pair is a round trip for every variant.
pub proof fn lemma_block_enum_round_trip(a: BlockEnum, b: BlockEnum)
    requires
        b.spec_enum_bytes() == a.spec_enum_bytes(),
    ensures
        b.same_as(&a),
{
    lemma_block_enum_wire_injective(b, a);
}


/// The epoch of an account chain.
#[derive(Clone, Copy, Debug, PartialEq, Eq, Structural)]
pub enum Epoch {
    Epoch0,
    Epoch1,
}

/// What kind of operation a block performed, recorded in its sideband.
#[derive(Clone, Copy, Debug, PartialEq, Eq, Structural)]
pub struct BlockDetails {
    pub epoch: Epoch,
    pub is_send: bool,
    pub is_receive: bool,
    pub is_epoch: bool,
}

impl BlockDetails {
    pub fn new(epoch: Epoch, is_send: bool, is_receive: bool, is_epoch: bool) -> (r: BlockDetails)
        ensures
            r == (BlockDetails { epoch, is_send, is_receive, is_epoch }),
    {
        BlockDetails { epoch, is_send, is_receive, is_epoch }
    }
}

/// Metadata attached to a block when it is stored: never persisted
/// before validation succeeds.
#[derive(Clone, Copy, Debug)]
pub struct BlockSideband {
    pub account: Account,
    pub successor: BlockHash,
    pub balance: Amount,
    pub height: u64,
    pub timestamp: u64,
    pub details: BlockDetails,
    pub source_epoch: Epoch,
}

impl PartialEq for BlockSideband {
    fn eq(&self, other: &BlockSideband) -> (r: bool) {
        self.account == other.account && self.successor == other.successor && self.balance
            == other.balance && self.height == other.height && self.timestamp == other.timestamp
            && self.details == other.details && self.source_epoch == other.source_epoch
    }
}

impl Eq for BlockSideband {}

impl vstd::std_specs::cmp::PartialEqSpecImpl for BlockSideband {
    open spec fn obeys_eq_spec() -> bool {
        true
    }

    open spec fn eq_spec(&self, other: &BlockSideband) -> bool {
        self.account@ == other.account@ && self.successor@ == other.successor@ && self.balance
            == other.balance && self.height == other.height && self.timestamp == other.timestamp
            && self.details == other.details && self.source_epoch == other.source_epoch
    }
}

impl BlockSideband {
    pub fn new(
        account: Account,
        successor: BlockHash,
        balance: Amount,
        height: u64,
        timestamp: u64,
        details: BlockDetails,
        source_epoch: Epoch,
    ) -> (r: BlockSideband)
        ensures
            r.account@ == account@,
            r.successor@ == successor@,
            r.balance == balance,
            r.height == height,
            r.timestamp == timestamp,
            r.details == details,
            r.source_epoch == source_epoch,
    {
        BlockSideband { account, successor, balance, height, timestamp, details, source_epoch }
    }
}

} // verus!
