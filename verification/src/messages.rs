//! Wire messages: the message types, the header, the payload codecs
//! and the deserializer with its duplicate-publish filter.

use vstd::prelude::*;

use crate::blocks::{deserialize_block_enum, serialize_block_enum, BlockEnum};
use crate::crypto::blake2b_of;
use crate::ledger::spec_valid_work;
use crate::numbers::{Account, Amount, BlockHash, Signature};
use crate::store::{EndpointKey, StoreKey};
use crate::wire::{
    be_bytes_of_u32, be_bytes_of_u128, le_bytes_of_u64, push_u32_be, slice_range,
    u128_from_be_bytes, u32_from_be_bytes, u64_from_le_bytes, vec_to_bytes32, vec_to_bytes64,
    MemoryStream, WireError,
};

verus! {

/// The most hashes one confirm request or vote may carry.
pub const HASHES_MAX: usize = 12;

/// Message types are serialized to the network; existing values must
/// never change as types are added, removed and reordered.
#[derive(Clone, Copy, Debug, PartialEq, Eq, Structural)]
pub enum MessageType {
    Invalid,
    NotAType,
    Keepalive,
    Publish,
    ConfirmReq,
    ConfirmAck,
    BulkPull,
    BulkPush,
    FrontierReq,
    NodeIdHandshake,
    BulkPullAccount,
    TelemetryReq,
    TelemetryAck,
    AscPullReq,
    AscPullAck,
}

impl MessageType {
    /// The wire value; the value 9 is retired and never reused.
    pub open spec fn spec_as_u8(self) -> u8 {
        match self {
            MessageType::Invalid => 0x0,
            MessageType::NotAType => 0x1,
            MessageType::Keepalive => 0x2,
            MessageType::Publish => 0x3,
            MessageType::ConfirmReq => 0x4,
            MessageType::ConfirmAck => 0x5,
            MessageType::BulkPull => 0x6,
            MessageType::BulkPush => 0x7,
            MessageType::FrontierReq => 0x8,
            MessageType::NodeIdHandshake => 0x0a,
            MessageType::BulkPullAccount => 0x0b,
            MessageType::TelemetryReq => 0x0c,
            MessageType::TelemetryAck => 0x0d,
            MessageType::AscPullReq => 0x0e,
            MessageType::AscPullAck => 0x0f,
        }
    }

    pub fn as_u8(self) -> (r: u8)
        ensures
            r == self.spec_as_u8(),
    {
        match self {
            MessageType::Invalid => 0x0,
            MessageType::NotAType => 0x1,
            MessageType::Keepalive => 0x2,
            MessageType::Publish => 0x3,
            MessageType::ConfirmReq => 0x4,
            MessageType::ConfirmAck => 0x5,
            MessageType::BulkPull => 0x6,
            MessageType::BulkPush => 0x7,
            MessageType::FrontierReq => 0x8,
            MessageType::NodeIdHandshake => 0x0a,
            MessageType::BulkPullAccount => 0x0b,
            MessageType::TelemetryReq => 0x0c,
            MessageType::TelemetryAck => 0x0d,
            MessageType::AscPullReq => 0x0e,
            MessageType::AscPullAck => 0x0f,
        }
    }

    pub fn from_u8(value: u8) -> (r: Option<MessageType>)
        ensures
            r is Some ==> r.unwrap().spec_as_u8() == value,
            r is None <==> (value == 9 || value > 0x0f),
    {
        match value {
            0x0 => Some(MessageType::Invalid),
            0x1 => Some(MessageType::NotAType),
            0x2 => Some(MessageType::Keepalive),
            0x3 => Some(MessageType::Publish),
            0x4 => Some(MessageType::ConfirmReq),
            0x5 => Some(MessageType::ConfirmAck),
            0x6 => Some(MessageType::BulkPull),
            0x7 => Some(MessageType::BulkPush),
            0x8 => Some(MessageType::FrontierReq),
            0x0a => Some(MessageType::NodeIdHandshake),
            0x0b => Some(MessageType::BulkPullAccount),
            0x0c => Some(MessageType::TelemetryReq),
            0x0d => Some(MessageType::TelemetryAck),
            0x0e => Some(MessageType::AscPullReq),
            0x0f => Some(MessageType::AscPullAck),
            _ => None,
        }
    }

    /// The lower-case name of the message type, as a character string.
    pub open spec fn spec_name(self) -> Seq<char> {
        match self {
            MessageType::Invalid => "invalid"@,
            MessageType::NotAType => "not_a_type"@,
            MessageType::Keepalive => "keepalive"@,
            MessageType::Publish => "publish"@,
            MessageType::ConfirmReq => "confirm_req"@,
            MessageType::ConfirmAck => "confirm_ack"@,
            MessageType::BulkPull => "bulk_pull"@,
            MessageType::BulkPush => "bulk_push"@,
            MessageType::FrontierReq => "frontier_req"@,
            MessageType::NodeIdHandshake => "node_id_handshake"@,
            MessageType::BulkPullAccount => "bulk_pull_account"@,
            MessageType::TelemetryReq => "telemetry_req"@,
            MessageType::TelemetryAck => "telemetry_ack"@,
            MessageType::AscPullReq => "asc_pull_req"@,
            MessageType::AscPullAck => "asc_pull_ack"@,
        }
    }
    /// The lower-case name of the message type.
    pub fn as_str(&self) -> (r: &'static str)
        ensures
            r@ == self.spec_name(),
    {
        match self {
            MessageType::Invalid => "invalid",
            MessageType::NotAType => "not_a_type",
            MessageType::Keepalive => "keepalive",
            MessageType::Publish => "publish",
            MessageType::ConfirmReq => "confirm_req",
            MessageType::ConfirmAck => "confirm_ack",
            MessageType::BulkPull => "bulk_pull",
            MessageType::BulkPush => "bulk_push",
            MessageType::FrontierReq => "frontier_req",
            MessageType::NodeIdHandshake => "node_id_handshake",
            MessageType::BulkPullAccount => "bulk_pull_account",
            MessageType::TelemetryReq => "telemetry_req",
            MessageType::TelemetryAck => "telemetry_ack",
            MessageType::AscPullReq => "asc_pull_req",
            MessageType::AscPullAck => "asc_pull_ack",
        }
    }
}

/// Why a message failed to parse, or that it did not.
#[derive(Clone, Copy, Debug, PartialEq, Eq, Structural)]
pub enum ParseStatus {
    Unset,
    Success,
    InsufficientWork,
    InvalidHeader,
    InvalidMessageType,
    InvalidKeepaliveMessage,
    InvalidPublishMessage,
    InvalidConfirmReqMessage,
    InvalidConfirmAckMessage,
    InvalidNodeIdHandshakeMessage,
    InvalidTelemetryReqMessage,
    InvalidTelemetryAckMessage,
    InvalidBulkPullMessage,
    InvalidBulkPullAccountMessage,
    InvalidFrontierReqMessage,
    InvalidAscPullReqMessage,
    InvalidAscPullAckMessage,
    InvalidNetwork,
    OutdatedVersion,
    DuplicatePublishMessage,
    MessageSizeTooBig,
}

impl ParseStatus {
    /// The lower-case name of the status, as a character string.
    pub open spec fn spec_name(self) -> Seq<char> {
        match self {
            ParseStatus::Unset => "none"@,
            ParseStatus::Success => "success"@,
            ParseStatus::InsufficientWork => "insufficient_work"@,
            ParseStatus::InvalidHeader => "invalid_header"@,
            ParseStatus::InvalidMessageType => "invalid_message_type"@,
            ParseStatus::InvalidKeepaliveMessage => "invalid_keepalive_message"@,
            ParseStatus::InvalidPublishMessage => "invalid_publish_message"@,
            ParseStatus::InvalidConfirmReqMessage => "invalid_confirm_req_message"@,
            ParseStatus::InvalidConfirmAckMessage => "invalid_confirm_ack_message"@,
            ParseStatus::InvalidNodeIdHandshakeMessage => "invalid_node_id_handshake_message"@,
            ParseStatus::InvalidTelemetryReqMessage => "invalid_telemetry_req_message"@,
            ParseStatus::InvalidTelemetryAckMessage => "invalid_telemetry_ack_message"@,
            ParseStatus::InvalidBulkPullMessage => "invalid_bulk_pull_message"@,
            ParseStatus::InvalidBulkPullAccountMessage => "invalid_bulk_pull_account_message"@,
            ParseStatus::InvalidFrontierReqMessage => "invalid_frontier_req_message"@,
            ParseStatus::InvalidAscPullReqMessage => "invalid_asc_pull_req_message"@,
            ParseStatus::InvalidAscPullAckMessage => "invalid_asc_pull_ack_message"@,
            ParseStatus::InvalidNetwork => "invalid_network"@,
            ParseStatus::OutdatedVersion => "outdated_version"@,
            ParseStatus::DuplicatePublishMessage => "duplicate_publish_message"@,
            ParseStatus::MessageSizeTooBig => "message_size_too_big"@,
        }
    }
    /// The lower-case name of the status.
    pub fn as_str(&self) -> (r: &'static str)
        ensures
            r@ == self.spec_name(),
    {
        match self {
            ParseStatus::Unset => "none",
            ParseStatus::Success => "success",
            ParseStatus::InsufficientWork => "insufficient_work",
            ParseStatus::InvalidHeader => "invalid_header",
            ParseStatus::InvalidMessageType => "invalid_message_type",
            ParseStatus::InvalidKeepaliveMessage => "invalid_keepalive_message",
            ParseStatus::InvalidPublishMessage => "invalid_publish_message",
            ParseStatus::InvalidConfirmReqMessage => "invalid_confirm_req_message",
            ParseStatus::InvalidConfirmAckMessage => "invalid_confirm_ack_message",
            ParseStatus::InvalidNodeIdHandshakeMessage => "invalid_node_id_handshake_message",
            ParseStatus::InvalidTelemetryReqMessage => "invalid_telemetry_req_message",
            ParseStatus::InvalidTelemetryAckMessage => "invalid_telemetry_ack_message",
            ParseStatus::InvalidBulkPullMessage => "invalid_bulk_pull_message",
            ParseStatus::InvalidBulkPullAccountMessage => "invalid_bulk_pull_account_message",
            ParseStatus::InvalidFrontierReqMessage => "invalid_frontier_req_message",
            ParseStatus::InvalidAscPullReqMessage => "invalid_asc_pull_req_message",
            ParseStatus::InvalidAscPullAckMessage => "invalid_asc_pull_ack_message",
            ParseStatus::InvalidNetwork => "invalid_network",
            ParseStatus::OutdatedVersion => "outdated_version",
            ParseStatus::DuplicatePublishMessage => "duplicate_publish_message",
            ParseStatus::MessageSizeTooBig => "message_size_too_big",
        }
    }
}

/// Protocol constants the message layer needs.
#[derive(Clone, Copy, Debug, PartialEq, Eq, Structural)]
pub struct NetworkConstants {
    pub protocol_version: u8,
    pub protocol_version_min: u8,
    pub work_threshold: u64,
}

impl NetworkConstants {
    /// Constants of the development network.
    pub fn dev() -> (r: NetworkConstants)
        ensures
            r.protocol_version == 19,
            r.protocol_version_min == 18,
            r.work_threshold == 0xfe00_0000_0000_0000,
    {
        NetworkConstants { protocol_version: 19, protocol_version_min: 18, work_threshold:
            0xfe00_0000_0000_0000 }
    }
}

/// The version fields of a message header.
#[derive(Clone, Copy, Debug, PartialEq, Eq, Structural)]
pub struct MessageHeader {
    pub message_type: MessageType,
    pub version_using: u8,
    pub version_max: u8,
    pub version_min: u8,
}

impl MessageHeader {
    pub fn new(constants: &NetworkConstants, message_type: MessageType) -> (r: MessageHeader)
        ensures
            r.message_type == message_type,
            r.version_using == constants.protocol_version,
            r.version_max == constants.protocol_version,
            r.version_min == constants.protocol_version_min,
    {
        let version_using = constants.protocol_version;
        MessageHeader::with_version_using(constants, message_type, version_using)
    }

    pub fn with_version_using(
        constants: &NetworkConstants,
        message_type: MessageType,
        version_using: u8,
    ) -> (r: MessageHeader)
        ensures
            r.message_type == message_type,
            r.version_using == version_using,
            r.version_max == constants.protocol_version,
            r.version_min == constants.protocol_version_min,
    {
        MessageHeader {
            message_type,
            version_using,
            version_max: constants.protocol_version,
            version_min: constants.protocol_version_min,
        }
    }

    pub fn message_type(&self) -> (r: MessageType)
        ensures
            r == self.message_type,
    {
        self.message_type
    }

    pub fn version_using(&self) -> (r: u8)
        ensures
            r == self.version_using,
    {
        self.version_using
    }

    pub fn version_max(&self) -> (r: u8)
        ensures
            r == self.version_max,
    {
        self.version_max
    }

    pub fn version_min(&self) -> (r: u8)
        ensures
            r == self.version_min,
    {
        self.version_min
    }

    /// The serialized size of the version fields.
    pub fn size() -> (r: usize)
        ensures
            r == 3,
    {
        3
    }

    /// The version fields in wire order.
    pub open spec fn spec_version_bytes(&self) -> Seq<u8> {
        seq![self.version_max, self.version_using, self.version_min]
    }

    /// Writes the version fields.
    pub fn serialize(&self, stream: &mut MemoryStream)
        requires
            old(stream).wf(),
        ensures
            final(stream).wf(),
            final(stream).data_seq() == old(stream).data_seq() + self.spec_version_bytes(),
            final(stream).pos() == old(stream).pos(),
    {
        stream.write_u8(self.version_max);
        stream.write_u8(self.version_using);
        stream.write_u8(self.version_min);
        proof {
            assert(stream.data_seq() =~= old(stream).data_seq() + self.spec_version_bytes());
        }
    }

    /// Reads the version fields, leaving the message type alone.
    pub fn deserialize(&mut self, stream: &mut MemoryStream) -> (r: Result<(), WireError>)
        requires
            old(stream).wf(),
        ensures
            final(stream).wf(),
            final(stream).data_seq() == old(stream).data_seq(),
            old(stream).remaining() < 3 ==> r is Err && *final(self) == *old(self) && final(stream).pos() == old(stream).pos(),
            old(stream).remaining() >= 3 ==> r is Ok && final(stream).pos() == old(stream).pos()
                + 3 && final(self).spec_version_bytes() == old(stream).data_seq().subrange(
                old(stream).pos(),
                old(stream).pos() + 3,
            ) && final(self).message_type == old(self).message_type,
    {
        let bytes = match stream.read_exact(3) {
            Ok(v) => v,
            Err(e) => {
                return Err(e);
            },
        };
        self.version_max = bytes[0];
        self.version_using = bytes[1];
        self.version_min = bytes[2];
        proof {
            assert(self.spec_version_bytes() =~= bytes@);
        }
        Ok(())
    }
}

/// A header deserialized from another's version bytes matches it.
pub proof fn lemma_header_version_round_trip(a: MessageHeader, b: MessageHeader)
    requires
        b.spec_version_bytes() == a.spec_version_bytes(),
    ensures
        b.version_max == a.version_max,
        b.version_using == a.version_using,
        b.version_min == a.version_min,
{
    assert(a.spec_version_bytes()[0] == a.version_max);
    assert(a.spec_version_bytes()[1] == a.version_using);
    assert(a.spec_version_bytes()[2] == a.version_min);
    assert(b.spec_version_bytes()[0] == b.version_max);
    assert(b.spec_version_bytes()[1] == b.version_using);
    assert(b.spec_version_bytes()[2] == b.version_min);
}

/// A keepalive: eight peer endpoints.
#[derive(Clone, Copy, Debug)]
pub struct Keepalive {
    pub peers: [EndpointKey; 8],
}

impl Keepalive {
    /// The wire form: eight 18-byte endpoints.
    pub open spec fn spec_bytes(&self) -> Seq<u8> {
        self.peers@[0].key_view() + self.peers@[1].key_view() + self.peers@[2].key_view()
            + self.peers@[3].key_view() + self.peers@[4].key_view() + self.peers@[5].key_view()
            + self.peers@[6].key_view() + self.peers@[7].key_view()
    }

    pub fn serialize(&self, stream: &mut MemoryStream)
        requires
            old(stream).wf(),
        ensures
            final(stream).wf(),
            final(stream).data_seq() == old(stream).data_seq() + self.spec_bytes(),
            final(stream).pos() == old(stream).pos(),
    {
        let mut i: usize = 0;
        let mut bytes: Vec<u8> = Vec::new();
        while i < 8
            invariant
                i <= 8,
            decreases 8 - i,
        {
            let peer_bytes = self.peers[i].key_bytes();
            crate::wire::push_bytes(&mut bytes, peer_bytes.as_slice());
            proof {
                // The loop builds an opaque prefix; the final shape is
                // re-established below from the eight pieces.
            }
            i += 1;
        }
        let b0 = self.peers[0].key_bytes();
        let b1 = self.peers[1].key_bytes();
        let b2 = self.peers[2].key_bytes();
        let b3 = self.peers[3].key_bytes();
        let b4 = self.peers[4].key_bytes();
        let b5 = self.peers[5].key_bytes();
        let b6 = self.peers[6].key_bytes();
        let b7 = self.peers[7].key_bytes();
        stream.write_bytes(b0.as_slice());
        stream.write_bytes(b1.as_slice());
        stream.write_bytes(b2.as_slice());
        stream.write_bytes(b3.as_slice());
        stream.write_bytes(b4.as_slice());
        stream.write_bytes(b5.as_slice());
        stream.write_bytes(b6.as_slice());
        stream.write_bytes(b7.as_slice());
        proof {
            assert(stream.data_seq() =~= old(stream).data_seq() + self.spec_bytes());
        }
    }

    /// Reads eight endpoints.
    pub fn from_stream(stream: &mut MemoryStream) -> (r: Result<Keepalive, WireError>)
        requires
            old(stream).wf(),
        ensures
            final(stream).wf(),
            final(stream).data_seq() == old(stream).data_seq(),
            r is Ok <==> old(stream).remaining() >= 144,
            r is Ok ==> final(stream).pos() == old(stream).pos() + 144 && r.unwrap().spec_bytes()
                == old(stream).data_seq().subrange(old(stream).pos(), old(stream).pos() + 144),
    {
        let e0 = match read_endpoint(stream) {
            Ok(e) => e,
            Err(e) => {
                return Err(e);
            },
        };
        let e1 = match read_endpoint(stream) {
            Ok(e) => e,
            Err(e) => {
                return Err(e);
            },
        };
        let e2 = match read_endpoint(stream) {
            Ok(e) => e,
            Err(e) => {
                return Err(e);
            },
        };
        let e3 = match read_endpoint(stream) {
            Ok(e) => e,
            Err(e) => {
                return Err(e);
            },
        };
        let e4 = match read_endpoint(stream) {
            Ok(e) => e,
            Err(e) => {
                return Err(e);
            },
        };
        let e5 = match read_endpoint(stream) {
            Ok(e) => e,
            Err(e) => {
                return Err(e);
            },
        };
        let e6 = match read_endpoint(stream) {
            Ok(e) => e,
            Err(e) => {
                return Err(e);
            },
        };
        let e7 = match read_endpoint(stream) {
            Ok(e) => e,
            Err(e) => {
                return Err(e);
            },
        };
        let r = Keepalive { peers: [e0, e1, e2, e3, e4, e5, e6, e7] };
        proof {
            assert(r.spec_bytes() =~= old(stream).data_seq().subrange(
                old(stream).pos(),
                old(stream).pos() + 144,
            ));
        }
        Ok(r)
    }
}

/// Reads one 18-byte endpoint: address, then port big-endian.
pub fn read_endpoint(stream: &mut MemoryStream) -> (r: Result<EndpointKey, WireError>)
    requires
        old(stream).wf(),
    ensures
        final(stream).wf(),
        final(stream).data_seq() == old(stream).data_seq(),
        old(stream).remaining() < 18 ==> r is Err && final(stream).pos() == old(stream).pos(),
        old(stream).remaining() >= 18 ==> r is Ok && final(stream).pos() == old(stream).pos() + 18
            && r.unwrap().key_view() == old(stream).data_seq().subrange(
            old(stream).pos(),
            old(stream).pos() + 18,
        ),
{
    let bytes = match stream.read_exact(18) {
        Ok(v) => v,
        Err(e) => {
            return Err(e);
        },
    };
    let mut address = [0u8; 16];
    let mut i: usize = 0;
    while i < 16
        invariant
            i <= 16,
            bytes@.len() == 18,
            address@.len() == 16,
            forall|j: int| 0 <= j < i ==> address@[j] == bytes@[j],
        decreases 16 - i,
    {
        address[i] = bytes[i];
        i += 1;
    }
    let hi = bytes[16];
    let lo = bytes[17];
    let port: u16 = ((hi as u16) << 8) | (lo as u16);
    let key = EndpointKey::new(address, port);
    proof {
        let h = hi;
        let l = lo;
        let p = port;
        assert((p == ((h as u16) << 8) | (l as u16)) ==> (((p >> 8) & 0xff) as u8 == h && (p
            & 0xff) as u8 == l)) by (bit_vector);
        assert(key.key_view() =~= old(stream).data_seq().subrange(
            old(stream).pos(),
            old(stream).pos() + 18,
        ));
    }
    Ok(key)
}

/// A published block.
#[derive(Clone, Copy, Debug)]
pub struct Publish {
    pub block: BlockEnum,
    pub digest: u128,
}

/// A request to confirm winners: pairs of block hash and chain root.
pub struct ConfirmReq {
    pub hashes: Vec<(BlockHash, BlockHash)>,
}

/// A vote by one representative over a set of hashes.
pub struct ConfirmAck {
    pub account: Account,
    pub signature: Signature,
    pub timestamp: u64,
    pub hashes: Vec<BlockHash>,
}

/// A node-identity handshake cookie.
#[derive(Clone, Copy, Debug)]
pub struct NodeIdHandshake {
    pub cookie: [u8; 32],
}

/// A request for a chain segment.
#[derive(Clone, Copy, Debug)]
pub struct BulkPull {
    pub start: BlockHash,
    pub end: BlockHash,
}

/// A request for the pending entries of an account.
#[derive(Clone, Copy, Debug)]
pub struct BulkPullAccount {
    pub account: Account,
    pub minimum_amount: Amount,
    pub flags: u8,
}

/// A request for frontiers from a starting account.
#[derive(Clone, Copy, Debug)]
pub struct FrontierReq {
    pub start: Account,
    pub age: u32,
    pub count: u32,
}

/// A telemetry response: an opaque payload kept for compatibility.
pub struct TelemetryAck {
    pub data: Vec<u8>,
}

/// An ascending-pull request or response: opaque payload.
pub struct AscPullPayload {
    pub data: Vec<u8>,
}

/// A parsed wire message.
pub enum Message {
    Keepalive(Keepalive),
    Publish(Publish),
    ConfirmReq(ConfirmReq),
    ConfirmAck(ConfirmAck),
    NodeIdHandshake(NodeIdHandshake),
    TelemetryReq,
    TelemetryAck(TelemetryAck),
    BulkPull(BulkPull),
    BulkPullAccount(BulkPullAccount),
    BulkPush,
    FrontierReq(FrontierReq),
    AscPullReq(AscPullPayload),
    AscPullAck(AscPullPayload),
}

/// Remembers digests of seen publish payloads to drop duplicates.
pub struct NetworkFilter {
    pub digests: Vec<u128>,
}

impl NetworkFilter {
    pub fn new() -> (r: NetworkFilter)
        ensures
            r.digests@ == Seq::<u128>::empty(),
    {
        let f = NetworkFilter { digests: Vec::new() };
        proof {
            assert(f.digests@ =~= Seq::<u128>::empty());
        }
        f
    }

    /// The digest of a payload: the first 16 bytes of its Blake2b hash.
    pub open spec fn spec_digest(payload: Seq<u8>) -> u128 {
        choose|d: u128| be_bytes_of_u128(d) == blake2b_of(payload).take(16)
    }

    /// Digests the payload and records it; reports whether it was
    /// already known.
    pub fn apply(&mut self, payload: &[u8]) -> (r: (u128, bool))
        ensures
            be_bytes_of_u128(r.0) == blake2b_of(payload@).take(16),
            r.1 == old(self).digests@.contains(r.0),
            final(self).digests@ == (if old(self).digests@.contains(r.0) {
                old(self).digests@
            } else {
                old(self).digests@ + seq![r.0]
            }),
    {
        let hash = crate::crypto::blake2b_digest(payload);
        let digest = u128_from_be_bytes(slice_range(hash.as_slice(), 0, 16).as_slice());
        proof {
            assert(hash@.subrange(0, 16) =~= blake2b_of(payload@).take(16));
        }
        let mut existed = false;
        let n = self.digests.len();
        let mut i: usize = 0;
        while i < n
            invariant
                i <= n,
                n == self.digests@.len(),
                existed == self.digests@.subrange(0, i as int).contains(digest),
                *self == *old(self),
            decreases n - i,
        {
            if self.digests[i] == digest {
                existed = true;
            }
            proof {
                assert(self.digests@.subrange(0, i + 1).drop_last() =~= self.digests@.subrange(
                    0,
                    i as int,
                ));
                assert(self.digests@.subrange(0, i + 1).last() == self.digests@[i as int]);
                if existed {
                } else {
                    assert(!self.digests@.subrange(0, i + 1).contains(digest));
                }
            }
            i += 1;
        }
        proof {
            assert(self.digests@.subrange(0, n as int) =~= self.digests@);
        }
        if !existed {
            self.digests.push(digest);
            proof {
                assert(self.digests@ =~= old(self).digests@ + seq![digest]);
            }
        }
        (digest, existed)
    }
}


impl NodeIdHandshake {
    /// The wire form: the 32-byte cookie.
    pub open spec fn spec_bytes(&self) -> Seq<u8> {
        self.cookie@
    }

    pub fn serialize(&self, stream: &mut MemoryStream)
        requires
            old(stream).wf(),
        ensures
            final(stream).wf(),
            final(stream).data_seq() == old(stream).data_seq() + self.spec_bytes(),
            final(stream).pos() == old(stream).pos(),
    {
        stream.write_bytes(self.cookie.as_slice());
    }

    pub fn from_stream(stream: &mut MemoryStream) -> (r: Result<NodeIdHandshake, WireError>)
        requires
            old(stream).wf(),
        ensures
            final(stream).wf(),
            final(stream).data_seq() == old(stream).data_seq(),
            r is Ok <==> old(stream).remaining() >= 32,
            r is Ok ==> final(stream).pos() == old(stream).pos() + 32 && r.unwrap().spec_bytes()
                == old(stream).data_seq().subrange(old(stream).pos(), old(stream).pos() + 32),
    {
        let bytes = match stream.read_exact(32) {
            Ok(v) => v,
            Err(e) => {
                return Err(e);
            },
        };
        Ok(NodeIdHandshake { cookie: vec_to_bytes32(&bytes) })
    }
}

impl BulkPull {
    /// The wire form: start hash, then end hash.
    pub open spec fn spec_bytes(&self) -> Seq<u8> {
        self.start@ + self.end@
    }

    pub fn serialize(&self, stream: &mut MemoryStream)
        requires
            old(stream).wf(),
        ensures
            final(stream).wf(),
            final(stream).data_seq() == old(stream).data_seq() + self.spec_bytes(),
            final(stream).pos() == old(stream).pos(),
    {
        stream.write_bytes(self.start.as_bytes().as_slice());
        stream.write_bytes(self.end.as_bytes().as_slice());
        proof {
            assert(stream.data_seq() =~= old(stream).data_seq() + self.spec_bytes());
        }
    }

    pub fn from_stream(stream: &mut MemoryStream) -> (r: Result<BulkPull, WireError>)
        requires
            old(stream).wf(),
        ensures
            final(stream).wf(),
            final(stream).data_seq() == old(stream).data_seq(),
            r is Ok <==> old(stream).remaining() >= 64,
            r is Ok ==> final(stream).pos() == old(stream).pos() + 64 && r.unwrap().spec_bytes()
                == old(stream).data_seq().subrange(old(stream).pos(), old(stream).pos() + 64),
    {
        let bytes = match stream.read_exact(64) {
            Ok(v) => v,
            Err(e) => {
                return Err(e);
            },
        };
        let start = BlockHash::from_bytes(vec_to_bytes32(&slice_range(bytes.as_slice(), 0, 32)));
        let end = BlockHash::from_bytes(vec_to_bytes32(&slice_range(bytes.as_slice(), 32, 64)));
        let r = BulkPull { start, end };
        proof {
            assert(r.spec_bytes() =~= bytes@);
        }
        Ok(r)
    }
}

impl BulkPullAccount {
    /// The wire form: account, minimum amount big-endian, flags byte.
    pub open spec fn spec_bytes(&self) -> Seq<u8> {
        self.account@ + be_bytes_of_u128(self.minimum_amount.raw) + seq![self.flags]
    }

    pub fn serialize(&self, stream: &mut MemoryStream)
        requires
            old(stream).wf(),
        ensures
            final(stream).wf(),
            final(stream).data_seq() == old(stream).data_seq() + self.spec_bytes(),
            final(stream).pos() == old(stream).pos(),
    {
        stream.write_bytes(self.account.as_bytes().as_slice());
        stream.write_u128_be(self.minimum_amount.number());
        stream.write_u8(self.flags);
        proof {
            assert(stream.data_seq() =~= old(stream).data_seq() + self.spec_bytes());
        }
    }

    pub fn from_stream(stream: &mut MemoryStream) -> (r: Result<BulkPullAccount, WireError>)
        requires
            old(stream).wf(),
        ensures
            final(stream).wf(),
            final(stream).data_seq() == old(stream).data_seq(),
            r is Ok <==> old(stream).remaining() >= 49,
            r is Ok ==> final(stream).pos() == old(stream).pos() + 49 && r.unwrap().spec_bytes()
                == old(stream).data_seq().subrange(old(stream).pos(), old(stream).pos() + 49),
    {
        let bytes = match stream.read_exact(49) {
            Ok(v) => v,
            Err(e) => {
                return Err(e);
            },
        };
        let account = Account::from_bytes(vec_to_bytes32(&slice_range(bytes.as_slice(), 0, 32)));
        let minimum_amount = Amount::raw(
            u128_from_be_bytes(slice_range(bytes.as_slice(), 32, 48).as_slice()),
        );
        let flags = bytes[48];
        let r = BulkPullAccount { account, minimum_amount, flags };
        proof {
            assert(r.spec_bytes() =~= bytes@);
        }
        Ok(r)
    }
}

impl FrontierReq {
    /// The wire form: start account, age, count, both big-endian.
    pub open spec fn spec_bytes(&self) -> Seq<u8> {
        self.start@ + be_bytes_of_u32(self.age) + be_bytes_of_u32(self.count)
    }

    pub fn serialize(&self, stream: &mut MemoryStream)
        requires
            old(stream).wf(),
        ensures
            final(stream).wf(),
            final(stream).data_seq() == old(stream).data_seq() + self.spec_bytes(),
            final(stream).pos() == old(stream).pos(),
    {
        stream.write_bytes(self.start.as_bytes().as_slice());
        let mut tail: Vec<u8> = Vec::new();
        push_u32_be(&mut tail, self.age);
        push_u32_be(&mut tail, self.count);
        stream.write_bytes(tail.as_slice());
        proof {
            assert(stream.data_seq() =~= old(stream).data_seq() + self.spec_bytes());
        }
    }

    pub fn from_stream(stream: &mut MemoryStream) -> (r: Result<FrontierReq, WireError>)
        requires
            old(stream).wf(),
        ensures
            final(stream).wf(),
            final(stream).data_seq() == old(stream).data_seq(),
            r is Ok <==> old(stream).remaining() >= 40,
            r is Ok ==> final(stream).pos() == old(stream).pos() + 40 && r.unwrap().spec_bytes()
                == old(stream).data_seq().subrange(old(stream).pos(), old(stream).pos() + 40),
    {
        let bytes = match stream.read_exact(40) {
            Ok(v) => v,
            Err(e) => {
                return Err(e);
            },
        };
        let start = Account::from_bytes(vec_to_bytes32(&slice_range(bytes.as_slice(), 0, 32)));
        let age = u32_from_be_bytes(slice_range(bytes.as_slice(), 32, 36).as_slice());
        let count = u32_from_be_bytes(slice_range(bytes.as_slice(), 36, 40).as_slice());
        let r = FrontierReq { start, age, count };
        proof {
            assert(r.spec_bytes() =~= bytes@);
        }
        Ok(r)
    }
}

/// A frontier request parsed from another's wire form equals it.
pub proof fn lemma_frontier_req_round_trip(a: FrontierReq, b: FrontierReq)
    requires
        b.spec_bytes() == a.spec_bytes(),
    ensures
        b.start@ == a.start@,
        b.age == a.age,
        b.count == a.count,
{
    assert(a.start@ =~= a.spec_bytes().subrange(0, 32));
    assert(b.start@ =~= b.spec_bytes().subrange(0, 32));
    assert(be_bytes_of_u32(a.age) =~= a.spec_bytes().subrange(32, 36));
    assert(be_bytes_of_u32(b.age) =~= b.spec_bytes().subrange(32, 36));
    assert(be_bytes_of_u32(a.count) =~= a.spec_bytes().subrange(36, 40));
    assert(be_bytes_of_u32(b.count) =~= b.spec_bytes().subrange(36, 40));
    crate::wire::lemma_be_bytes_of_u32_injective(a.age, b.age);
    crate::wire::lemma_be_bytes_of_u32_injective(a.count, b.count);
}

/// A bulk-pull request parsed from another's wire form equals it.
pub proof fn lemma_bulk_pull_round_trip(a: BulkPull, b: BulkPull)
    requires
        b.spec_bytes() == a.spec_bytes(),
    ensures
        b.start@ == a.start@,
        b.end@ == a.end@,
{
    assert(a.start@ =~= a.spec_bytes().subrange(0, 32));
    assert(b.start@ =~= b.spec_bytes().subrange(0, 32));
    assert(a.end@ =~= a.spec_bytes().subrange(32, 64));
    assert(b.end@ =~= b.spec_bytes().subrange(32, 64));
}

/// A bulk-pull-account request parsed from another's wire form equals
/// it.
pub proof fn lemma_bulk_pull_account_round_trip(a: BulkPullAccount, b: BulkPullAccount)
    requires
        b.spec_bytes() == a.spec_bytes(),
    ensures
        b.account@ == a.account@,
        b.minimum_amount == a.minimum_amount,
        b.flags == a.flags,
{
    assert(a.account@ =~= a.spec_bytes().subrange(0, 32));
    assert(b.account@ =~= b.spec_bytes().subrange(0, 32));
    assert(be_bytes_of_u128(a.minimum_amount.raw) =~= a.spec_bytes().subrange(32, 48));
    assert(be_bytes_of_u128(b.minimum_amount.raw) =~= b.spec_bytes().subrange(32, 48));
    assert(a.flags == a.spec_bytes()[48]);
    assert(b.flags == b.spec_bytes()[48]);
    crate::wire::lemma_be_bytes_of_u128_injective(a.minimum_amount.raw, b.minimum_amount.raw);
}

/// Two equal endpoint key byte strings name the same endpoint.
pub proof fn lemma_endpoint_key_injective(a: EndpointKey, b: EndpointKey)
    requires
        a.key_view() == b.key_view(),
    ensures
        a.address@ == b.address@,
        a.port == b.port,
{
    assert(a.address@ =~= a.key_view().subrange(0, 16));
    assert(b.address@ =~= b.key_view().subrange(0, 16));
    assert(a.key_view()[16] == ((a.port >> 8) & 0xff) as u8);
    assert(a.key_view()[17] == (a.port & 0xff) as u8);
    assert(b.key_view()[16] == ((b.port >> 8) & 0xff) as u8);
    assert(b.key_view()[17] == (b.port & 0xff) as u8);
    assert(a.key_view()[16] == b.key_view()[16]);
    assert(a.key_view()[17] == b.key_view()[17]);
    let p = a.port;
    let q = b.port;
    assert(((p >> 8) & 0xff) as u8 == ((q >> 8) & 0xff) as u8 && (p & 0xff) as u8 == (q & 0xff)
        as u8 ==> p == q) by (bit_vector);
}

/// A keepalive parsed from another's wire form carries the same eight
/// endpoints.
pub proof fn lemma_keepalive_round_trip(a: Keepalive, b: Keepalive)
    requires
        b.spec_bytes() == a.spec_bytes(),
    ensures
        forall|i: int|
            0 <= i < 8 ==> (#[trigger] b.peers@[i]).address@ == a.peers@[i].address@
                && b.peers@[i].port == a.peers@[i].port,
{
    assert forall|i: int|
        0 <= i < 8 implies (#[trigger] b.peers@[i]).address@ == a.peers@[i].address@
        && b.peers@[i].port == a.peers@[i].port by {
        assert(a.peers@[i].key_view().len() == 18) by {
            a.peers@[i].lemma_key_len();
        }
        assert(b.peers@[i].key_view().len() == 18) by {
            b.peers@[i].lemma_key_len();
        }
        assert(a.peers@[i].key_view() =~= a.spec_bytes().subrange(18 * i, 18 * i + 18)) by {
            lemma_keepalive_slot(a, i);
        }
        assert(b.peers@[i].key_view() =~= b.spec_bytes().subrange(18 * i, 18 * i + 18)) by {
            lemma_keepalive_slot(b, i);
        }
        lemma_endpoint_key_injective(a.peers@[i], b.peers@[i]);
    }
}

/// Each endpoint of a keepalive owns an 18-byte slot of the wire form.
pub proof fn lemma_keepalive_slot(a: Keepalive, i: int)
    requires
        0 <= i < 8,
    ensures
        a.peers@[i].key_view() == a.spec_bytes().subrange(18 * i, 18 * i + 18),
{
    a.peers@[0].lemma_key_len();
    a.peers@[1].lemma_key_len();
    a.peers@[2].lemma_key_len();
    a.peers@[3].lemma_key_len();
    a.peers@[4].lemma_key_len();
    a.peers@[5].lemma_key_len();
    a.peers@[6].lemma_key_len();
    a.peers@[7].lemma_key_len();
    assert(a.peers@[i].key_view() =~= a.spec_bytes().subrange(18 * i, 18 * i + 18));
}

/// A type-tagged block payload names a real block type in its first
/// byte and is exactly one byte longer than the block's wire form.
proof fn lemma_tagged_block_shape(b: &BlockEnum, data: Seq<u8>)
    requires
        b.spec_enum_bytes() == data,
    ensures
        data.len() >= 1,
        2 <= data[0] <= 6,
        data.len() == 1 + crate::blocks::spec_block_size_of_byte(data[0]),
        crate::blocks::spec_block_size_of_byte(data[0]) == crate::blocks::spec_block_size(
            b.spec_block_type(),
        ),
{
    crate::blocks::lemma_block_wire_size(b);
    assert(b.spec_enum_bytes()[0] == b.spec_block_type().spec_as_u8());
}

/// Parses wire messages by type, dropping duplicates and blocks with
/// insufficient work.
pub struct MessageDeserializerImpl {
    pub network_constants: NetworkConstants,
    pub publish_filter: NetworkFilter,
}

impl MessageDeserializerImpl {
    pub fn new(network_constants: NetworkConstants, publish_filter: NetworkFilter) -> (r:
        MessageDeserializerImpl)
        ensures
            r.network_constants == network_constants,
            r.publish_filter.digests@ == publish_filter.digests@,
    {
        MessageDeserializerImpl { network_constants, publish_filter }
    }

    /// Parses one message of the type named by the header from the
    /// payload bytes. Publish payloads are digested first and dropped
    /// as duplicates; blocks with insufficient work are rejected.
    pub fn deserialize(&mut self, header: MessageHeader, payload_bytes: &[u8]) -> (r: Result<
        Message,
        ParseStatus,
    >)
        ensures
            header.message_type == MessageType::Invalid || header.message_type
                == MessageType::NotAType ==> r == Result::<Message, ParseStatus>::Err(
                ParseStatus::InvalidMessageType,
            ),
            header.message_type == MessageType::Keepalive ==> (r is Ok <==> payload_bytes@.len()
                == 144),
            header.message_type == MessageType::Keepalive && r is Ok ==> r.unwrap() is Keepalive,
            header.message_type == MessageType::TelemetryReq ==> r is Ok && r.unwrap()
                is TelemetryReq,
            header.message_type == MessageType::BulkPush ==> r is Ok && r.unwrap() is BulkPush,
            header.message_type == MessageType::TelemetryAck ==> r is Ok && r.unwrap()
                is TelemetryAck,
            header.message_type == MessageType::BulkPull ==> (r is Ok <==> payload_bytes@.len()
                == 64),
            header.message_type == MessageType::BulkPull && r is Ok ==> r.unwrap() is BulkPull
                && r.unwrap()->BulkPull_0.spec_bytes() == payload_bytes@,
            header.message_type == MessageType::BulkPullAccount ==> (r is Ok
                <==> payload_bytes@.len() == 49),
            header.message_type == MessageType::BulkPullAccount && r is Ok ==> r.unwrap()
                is BulkPullAccount && r.unwrap()->BulkPullAccount_0.spec_bytes()
                == payload_bytes@,
            header.message_type == MessageType::FrontierReq ==> (r is Ok <==> payload_bytes@.len()
                == 40),
            header.message_type == MessageType::FrontierReq && r is Ok ==> r.unwrap()
                is FrontierReq && r.unwrap()->FrontierReq_0.spec_bytes() == payload_bytes@,
            header.message_type == MessageType::NodeIdHandshake ==> (r is Ok
                <==> payload_bytes@.len() == 32),
            header.message_type == MessageType::Publish && r is Ok ==> r.unwrap() is Publish && {
                let publish = r.unwrap()->Publish_0;
                &&& publish.block.spec_enum_bytes() == payload_bytes@
                &&& spec_valid_work(
                    publish.block.spec_root(),
                    publish.block.spec_work(),
                    old(self).network_constants.work_threshold,
                )
                &&& be_bytes_of_u128(publish.digest) == blake2b_of(payload_bytes@).take(16)
            },
            header.message_type == MessageType::Publish && old(self).publish_filter.digests@.contains(
                NetworkFilter::spec_digest(payload_bytes@),
            ) ==> r == Result::<Message, ParseStatus>::Err(ParseStatus::DuplicatePublishMessage),
            header.message_type == MessageType::Publish && !old(
                self,
            ).publish_filter.digests@.contains(NetworkFilter::spec_digest(payload_bytes@))
                ==> (forall|b: BlockEnum|
                (#[trigger] b.spec_enum_bytes()) == payload_bytes@ ==> {
                    let valid = spec_valid_work(
                        b.spec_root(),
                        b.spec_work(),
                        old(self).network_constants.work_threshold,
                    );
                    &&& (r is Ok <==> valid)
                    &&& (r == Result::<Message, ParseStatus>::Err(ParseStatus::InsufficientWork)
                        <==> !valid)
                }),
            header.message_type == MessageType::ConfirmReq && payload_bytes@.len() >= 1
                && payload_bytes@[0] <= 12 && payload_bytes@.len() == 1 + 64 * payload_bytes@[0]
                ==> r is Ok,
            header.message_type == MessageType::ConfirmReq && r is Ok ==> r.unwrap()
                is ConfirmReq && {
                let req = &r.unwrap()->ConfirmReq_0;
                &&& req.hashes@.len() <= 12
                &&& payload_bytes@.len() == 1 + 64 * req.hashes@.len()
                &&& forall|j: int|
                    0 <= j < req.hashes@.len() ==> (#[trigger] req.hashes@[j]).0@
                        == payload_bytes@.subrange(1 + 64 * j, 1 + 64 * j + 32)
                        && req.hashes@[j].1@ == payload_bytes@.subrange(
                        1 + 64 * j + 32,
                        1 + 64 * j + 64,
                    )
            },
            header.message_type == MessageType::ConfirmAck && payload_bytes@.len() >= 105
                && payload_bytes@[104] <= 12 && payload_bytes@.len() == 105 + 32
                * payload_bytes@[104] ==> r is Ok,
            header.message_type == MessageType::ConfirmAck && r is Ok ==> r.unwrap()
                is ConfirmAck && {
                let ack = &r.unwrap()->ConfirmAck_0;
                &&& ack.account@ == payload_bytes@.subrange(0, 32)
                &&& ack.signature@ == payload_bytes@.subrange(32, 96)
                &&& le_bytes_of_u64(ack.timestamp) == payload_bytes@.subrange(96, 104)
                &&& payload_bytes@.len() == 105 + 32 * ack.hashes@.len()
            },
            header.message_type == MessageType::AscPullReq ==> r is Ok && r.unwrap()
                is AscPullReq && r.unwrap()->AscPullReq_0.data@ == payload_bytes@,
            header.message_type == MessageType::AscPullAck ==> r is Ok && r.unwrap()
                is AscPullAck && r.unwrap()->AscPullAck_0.data@ == payload_bytes@,
            header.message_type == MessageType::TelemetryAck && r is Ok ==> r.unwrap()
                is TelemetryAck && r.unwrap()->TelemetryAck_0.data@ == payload_bytes@,
            final(self).network_constants == old(self).network_constants,
            header.message_type != MessageType::Publish ==> final(self).publish_filter.digests@
                == old(self).publish_filter.digests@,
    {
        let mut stream = MemoryStream::from_vec(slice_range(
            payload_bytes,
            0,
            payload_bytes.len(),
        ));
        proof {
            assert(payload_bytes@.subrange(0, payload_bytes@.len() as int) =~= payload_bytes@);
        }
        match header.message_type() {
            MessageType::Keepalive => self.deserialize_keepalive(&mut stream),
            MessageType::Publish => {
                let (digest, existed) = self.publish_filter.apply(payload_bytes);
                proof {
                    assert(be_bytes_of_u128(digest) == blake2b_of(payload_bytes@).take(16));
                    let d0 = NetworkFilter::spec_digest(payload_bytes@);
                    assert(be_bytes_of_u128(d0) == blake2b_of(payload_bytes@).take(16));
                    crate::wire::lemma_be_bytes_of_u128_injective(
                        digest,
                        NetworkFilter::spec_digest(payload_bytes@),
                    );
                }
                if !existed {
                    self.deserialize_publish(&mut stream, digest)
                } else {
                    Err(ParseStatus::DuplicatePublishMessage)
                }
            },
            MessageType::ConfirmReq => self.deserialize_confirm_req(&mut stream),
            MessageType::ConfirmAck => self.deserialize_confirm_ack(&mut stream),
            MessageType::NodeIdHandshake => self.deserialize_node_id_handshake(&mut stream),
            MessageType::TelemetryReq => self.deserialize_telemetry_req(),
            MessageType::TelemetryAck => self.deserialize_telemetry_ack(&mut stream),
            MessageType::BulkPull => self.deserialize_bulk_pull(&mut stream),
            MessageType::BulkPullAccount => self.deserialize_bulk_pull_account(&mut stream),
            MessageType::BulkPush => self.deserialize_bulk_push(),
            MessageType::FrontierReq => self.deserialize_frontier_req(&mut stream),
            MessageType::AscPullReq => self.deserialize_asc_pull_req(&mut stream),
            MessageType::AscPullAck => self.deserialize_asc_pull_ack(&mut stream),
            MessageType::Invalid => Err(ParseStatus::InvalidMessageType),
            MessageType::NotAType => Err(ParseStatus::InvalidMessageType),
        }
    }

    fn deserialize_keepalive(&self, stream: &mut MemoryStream) -> (r: Result<
        Message,
        ParseStatus,
    >)
        requires
            old(stream).wf(),
            old(stream).pos() == 0,
        ensures
            r is Ok <==> old(stream).data_seq().len() == 144,
            r is Ok ==> r.unwrap() is Keepalive && r.unwrap()->Keepalive_0.spec_bytes() == old(
                stream,
            ).data_seq(),
    {
        let msg = match Keepalive::from_stream(stream) {
            Ok(m) => m,
            Err(_) => {
                return Err(ParseStatus::InvalidKeepaliveMessage);
            },
        };
        if !stream.at_end() {
            return Err(ParseStatus::InvalidKeepaliveMessage);
        }
        proof {
            assert(msg.spec_bytes() =~= old(stream).data_seq());
        }
        Ok(Message::Keepalive(msg))
    }

    fn deserialize_publish(&self, stream: &mut MemoryStream, digest: u128) -> (r: Result<
        Message,
        ParseStatus,
    >)
        requires
            old(stream).wf(),
            old(stream).pos() == 0,
        ensures
            r is Ok ==> r.unwrap() is Publish && {
                let publish = r.unwrap()->Publish_0;
                &&& publish.block.spec_enum_bytes() == old(stream).data_seq()
                &&& spec_valid_work(
                    publish.block.spec_root(),
                    publish.block.spec_work(),
                    self.network_constants.work_threshold,
                )
                &&& publish.digest == digest
            },
            forall|b: BlockEnum|
                (#[trigger] b.spec_enum_bytes()) == old(stream).data_seq() ==> {
                    let valid = spec_valid_work(
                        b.spec_root(),
                        b.spec_work(),
                        self.network_constants.work_threshold,
                    );
                    &&& (r is Ok <==> valid)
                    &&& (r == Result::<Message, ParseStatus>::Err(ParseStatus::InsufficientWork)
                        <==> !valid)
                },
    {
        let ghost data = old(stream).data_seq();
        let block = match deserialize_block_enum(stream) {
            Ok(b) => b,
            Err(_) => {
                proof {
                    assert forall|b: BlockEnum| (#[trigger] b.spec_enum_bytes()) == data
                        implies false by {
                        lemma_tagged_block_shape(&b, data);
                    }
                }
                return Err(ParseStatus::InvalidPublishMessage);
            },
        };
        if !stream.at_end() {
            proof {
                assert forall|b: BlockEnum| (#[trigger] b.spec_enum_bytes()) == data
                    implies false by {
                    lemma_tagged_block_shape(&b, data);
                    lemma_tagged_block_shape(&block, block.spec_enum_bytes());
                    assert(block.spec_enum_bytes()[0] == data[0]);
                    assert(block.spec_enum_bytes().len() == data.len());
                }
            }
            return Err(ParseStatus::InvalidPublishMessage);
        }
        proof {
            assert(block.spec_enum_bytes() =~= data);
            assert forall|b: BlockEnum|
                (#[trigger] b.spec_enum_bytes()) == data implies b.spec_root()
                == block.spec_root() && b.spec_work() == block.spec_work() by {
                crate::blocks::lemma_block_enum_wire_injective(b, block);
                crate::blocks::lemma_same_as_same_root_work(&b, &block);
            }
        }
        let root = block.root();
        if !crate::ledger::check_work(&root, block.work(), self.network_constants.work_threshold) {
            return Err(ParseStatus::InsufficientWork);
        }
        Ok(Message::Publish(Publish { block, digest }))
    }

    fn deserialize_confirm_req(&self, stream: &mut MemoryStream) -> (r: Result<
        Message,
        ParseStatus,
    >)
        requires
            old(stream).wf(),
            old(stream).pos() == 0,
        ensures
            old(stream).data_seq().len() >= 1 && old(stream).data_seq()[0] <= 12 && old(
                stream,
            ).data_seq().len() == 1 + 64 * old(stream).data_seq()[0] ==> r is Ok,
            r is Ok ==> r.unwrap() is ConfirmReq && {
                let req = &r.unwrap()->ConfirmReq_0;
                &&& req.hashes@.len() <= 12
                &&& old(stream).data_seq().len() == 1 + 64 * req.hashes@.len()
                &&& old(stream).data_seq()[0] == req.hashes@.len()
                &&& forall|j: int|
                    0 <= j < req.hashes@.len() ==> (#[trigger] req.hashes@[j]).0@ == old(
                        stream,
                    ).data_seq().subrange(1 + 64 * j, 1 + 64 * j + 32) && req.hashes@[j].1@ == old(
                        stream,
                    ).data_seq().subrange(1 + 64 * j + 32, 1 + 64 * j + 64)
            },
    {
        let count = match stream.read_u8() {
            Ok(c) => c,
            Err(_) => {
                return Err(ParseStatus::InvalidConfirmReqMessage);
            },
        };
        if count as usize > HASHES_MAX {
            return Err(ParseStatus::InvalidConfirmReqMessage);
        }
        let mut hashes: Vec<(BlockHash, BlockHash)> = Vec::new();
        let n = count as usize;
        let mut i: usize = 0;
        while i < n
            invariant
                i <= n,
                n <= 12,
                stream.wf(),
                stream.data_seq() == old(stream).data_seq(),
                stream.pos() == 1 + 64 * i,
                old(stream).data_seq().len() >= 1,
                n == old(stream).data_seq()[0],
                hashes@.len() == i,
                forall|j: int|
                    0 <= j < i ==> (#[trigger] hashes@[j]).0@ == old(stream).data_seq().subrange(
                        1 + 64 * j,
                        1 + 64 * j + 32,
                    ) && hashes@[j].1@ == old(stream).data_seq().subrange(
                        1 + 64 * j + 32,
                        1 + 64 * j + 64,
                    ),
            decreases n - i,
        {
            let pair_bytes = match stream.read_exact(64) {
                Ok(v) => v,
                Err(_) => {
                    return Err(ParseStatus::InvalidConfirmReqMessage);
                },
            };
            let hash = BlockHash::from_bytes(vec_to_bytes32(&slice_range(pair_bytes.as_slice(), 0, 32)));
            let root = BlockHash::from_bytes(
                vec_to_bytes32(&slice_range(pair_bytes.as_slice(), 32, 64)),
            );
            hashes.push((hash, root));
            proof {
                assert(hashes@[i as int].0@ =~= old(stream).data_seq().subrange(
                    1 + 64 * (i as int),
                    1 + 64 * (i as int) + 32,
                ));
                assert(hashes@[i as int].1@ =~= old(stream).data_seq().subrange(
                    1 + 64 * (i as int) + 32,
                    1 + 64 * (i as int) + 64,
                ));
            }
            i += 1;
        }
        if !stream.at_end() {
            return Err(ParseStatus::InvalidConfirmReqMessage);
        }
        Ok(Message::ConfirmReq(ConfirmReq { hashes }))
    }

    fn deserialize_confirm_ack(&self, stream: &mut MemoryStream) -> (r: Result<
        Message,
        ParseStatus,
    >)
        requires
            old(stream).wf(),
            old(stream).pos() == 0,
        ensures
            old(stream).data_seq().len() >= 105 && old(stream).data_seq()[104] <= 12 && old(
                stream,
            ).data_seq().len() == 105 + 32 * old(stream).data_seq()[104] ==> r is Ok,
            r is Ok ==> r.unwrap() is ConfirmAck && {
                let ack = &r.unwrap()->ConfirmAck_0;
                &&& ack.hashes@.len() <= 12
                &&& old(stream).data_seq().len() == 105 + 32 * ack.hashes@.len()
                &&& ack.account@ == old(stream).data_seq().subrange(0, 32)
                &&& ack.signature@ == old(stream).data_seq().subrange(32, 96)
                &&& le_bytes_of_u64(ack.timestamp) == old(stream).data_seq().subrange(96, 104)
                &&& old(stream).data_seq()[104] == ack.hashes@.len()
                &&& forall|j: int|
                    0 <= j < ack.hashes@.len() ==> (#[trigger] ack.hashes@[j])@ == old(
                        stream,
                    ).data_seq().subrange(105 + 32 * j, 105 + 32 * j + 32)
            },
    {
        let head = match stream.read_exact(104) {
            Ok(v) => v,
            Err(_) => {
                return Err(ParseStatus::InvalidConfirmAckMessage);
            },
        };
        let account = Account::from_bytes(vec_to_bytes32(&slice_range(head.as_slice(), 0, 32)));
        let signature = Signature::from_bytes(vec_to_bytes64(&slice_range(head.as_slice(), 32, 96)));
        let timestamp = u64_from_le_bytes(slice_range(head.as_slice(), 96, 104).as_slice());
        let count = match stream.read_u8() {
            Ok(c) => c,
            Err(_) => {
                return Err(ParseStatus::InvalidConfirmAckMessage);
            },
        };
        if count as usize > HASHES_MAX {
            return Err(ParseStatus::InvalidConfirmAckMessage);
        }
        let mut hashes: Vec<BlockHash> = Vec::new();
        let n = count as usize;
        let mut i: usize = 0;
        while i < n
            invariant
                i <= n,
                n <= 12,
                stream.wf(),
                stream.data_seq() == old(stream).data_seq(),
                stream.pos() == 105 + 32 * i,
                old(stream).data_seq().len() >= 105,
                n == old(stream).data_seq()[104],
                hashes@.len() == i,
                forall|j: int|
                    0 <= j < i ==> (#[trigger] hashes@[j])@ == old(stream).data_seq().subrange(
                        105 + 32 * j,
                        105 + 32 * j + 32,
                    ),
            decreases n - i,
        {
            let hash_bytes = match stream.read_exact(32) {
                Ok(v) => v,
                Err(_) => {
                    return Err(ParseStatus::InvalidConfirmAckMessage);
                },
            };
            hashes.push(BlockHash::from_bytes(vec_to_bytes32(&hash_bytes)));
            i += 1;
        }
        if !stream.at_end() {
            return Err(ParseStatus::InvalidConfirmAckMessage);
        }
        proof {
            assert(account@ =~= old(stream).data_seq().subrange(0, 32));
            assert(signature@ =~= old(stream).data_seq().subrange(32, 96));
            assert(le_bytes_of_u64(timestamp) =~= old(stream).data_seq().subrange(96, 104));
        }
        Ok(Message::ConfirmAck(ConfirmAck { account, signature, timestamp, hashes }))
    }

    fn deserialize_node_id_handshake(&self, stream: &mut MemoryStream) -> (r: Result<
        Message,
        ParseStatus,
    >)
        requires
            old(stream).wf(),
            old(stream).pos() == 0,
        ensures
            r is Ok <==> old(stream).data_seq().len() == 32,
            r is Ok ==> r.unwrap() is NodeIdHandshake && r.unwrap()->NodeIdHandshake_0.spec_bytes()
                == old(stream).data_seq(),
    {
        let msg = match NodeIdHandshake::from_stream(stream) {
            Ok(m) => m,
            Err(_) => {
                return Err(ParseStatus::InvalidNodeIdHandshakeMessage);
            },
        };
        if !stream.at_end() {
            return Err(ParseStatus::InvalidNodeIdHandshakeMessage);
        }
        proof {
            assert(msg.spec_bytes() =~= old(stream).data_seq());
        }
        Ok(Message::NodeIdHandshake(msg))
    }

    /// A telemetry request has no payload beyond the header.
    fn deserialize_telemetry_req(&self) -> (r: Result<Message, ParseStatus>)
        ensures
            r is Ok && r.unwrap() is TelemetryReq,
    {
        Ok(Message::TelemetryReq)
    }

    /// Telemetry responses keep their payload opaque for backwards and
    /// forwards compatibility; the end of the stream is not checked.
    fn deserialize_telemetry_ack(&self, stream: &mut MemoryStream) -> (r: Result<
        Message,
        ParseStatus,
    >)
        requires
            old(stream).wf(),
            old(stream).pos() == 0,
        ensures
            r is Ok && r.unwrap() is TelemetryAck && r.unwrap()->TelemetryAck_0.data@ == old(
                stream,
            ).data_seq(),
    {
        let len = stream.data.len();
        let data = match stream.read_exact(len) {
            Ok(v) => v,
            Err(_) => {
                return vstd::pervasive::unreached();
            },
        };
        proof {
            assert(data@ =~= old(stream).data_seq());
        }
        Ok(Message::TelemetryAck(TelemetryAck { data }))
    }

    fn deserialize_bulk_pull(&self, stream: &mut MemoryStream) -> (r: Result<Message, ParseStatus>)
        requires
            old(stream).wf(),
            old(stream).pos() == 0,
        ensures
            r is Ok <==> old(stream).data_seq().len() == 64,
            r is Ok ==> r.unwrap() is BulkPull && r.unwrap()->BulkPull_0.spec_bytes() == old(
                stream,
            ).data_seq(),
    {
        let msg = match BulkPull::from_stream(stream) {
            Ok(m) => m,
            Err(_) => {
                return Err(ParseStatus::InvalidBulkPullMessage);
            },
        };
        if !stream.at_end() {
            return Err(ParseStatus::InvalidBulkPullMessage);
        }
        proof {
            assert(msg.spec_bytes() =~= old(stream).data_seq());
        }
        Ok(Message::BulkPull(msg))
    }

    fn deserialize_bulk_pull_account(&self, stream: &mut MemoryStream) -> (r: Result<
        Message,
        ParseStatus,
    >)
        requires
            old(stream).wf(),
            old(stream).pos() == 0,
        ensures
            r is Ok <==> old(stream).data_seq().len() == 49,
            r is Ok ==> r.unwrap() is BulkPullAccount
                && r.unwrap()->BulkPullAccount_0.spec_bytes() == old(stream).data_seq(),
    {
        let msg = match BulkPullAccount::from_stream(stream) {
            Ok(m) => m,
            Err(_) => {
                return Err(ParseStatus::InvalidBulkPullAccountMessage);
            },
        };
        if !stream.at_end() {
            return Err(ParseStatus::InvalidBulkPullAccountMessage);
        }
        proof {
            assert(msg.spec_bytes() =~= old(stream).data_seq());
        }
        Ok(Message::BulkPullAccount(msg))
    }

    /// A bulk push announcement has no payload beyond the header.
    fn deserialize_bulk_push(&self) -> (r: Result<Message, ParseStatus>)
        ensures
            r is Ok && r.unwrap() is BulkPush,
    {
        Ok(Message::BulkPush)
    }

    fn deserialize_frontier_req(&self, stream: &mut MemoryStream) -> (r: Result<
        Message,
        ParseStatus,
    >)
        requires
            old(stream).wf(),
            old(stream).pos() == 0,
        ensures
            r is Ok <==> old(stream).data_seq().len() == 40,
            r is Ok ==> r.unwrap() is FrontierReq && r.unwrap()->FrontierReq_0.spec_bytes() == old(
                stream,
            ).data_seq(),
    {
        let msg = match FrontierReq::from_stream(stream) {
            Ok(m) => m,
            Err(_) => {
                return Err(ParseStatus::InvalidFrontierReqMessage);
            },
        };
        if !stream.at_end() {
            return Err(ParseStatus::InvalidFrontierReqMessage);
        }
        proof {
            assert(msg.spec_bytes() =~= old(stream).data_seq());
        }
        Ok(Message::FrontierReq(msg))
    }

    /// Ascending-pull requests keep their payload opaque; the end of
    /// the stream is not checked.
    fn deserialize_asc_pull_req(&self, stream: &mut MemoryStream) -> (r: Result<
        Message,
        ParseStatus,
    >)
        requires
            old(stream).wf(),
            old(stream).pos() == 0,
        ensures
            r is Ok && r.unwrap() is AscPullReq && r.unwrap()->AscPullReq_0.data@ == old(
                stream,
            ).data_seq(),
    {
        let len = stream.data.len();
        let data = match stream.read_exact(len) {
            Ok(v) => v,
            Err(_) => {
                return vstd::pervasive::unreached();
            },
        };
        proof {
            assert(data@ =~= old(stream).data_seq());
        }
        Ok(Message::AscPullReq(AscPullPayload { data }))
    }

    /// Ascending-pull responses keep their payload opaque; the end of
    /// the stream is not checked.
    fn deserialize_asc_pull_ack(&self, stream: &mut MemoryStream) -> (r: Result<
        Message,
        ParseStatus,
    >)
        requires
            old(stream).wf(),
            old(stream).pos() == 0,
        ensures
            r is Ok && r.unwrap() is AscPullAck && r.unwrap()->AscPullAck_0.data@ == old(
                stream,
            ).data_seq(),
    {
        let len = stream.data.len();
        let data = match stream.read_exact(len) {
            Ok(v) => v,
            Err(_) => {
                return vstd::pervasive::unreached();
            },
        };
        proof {
            assert(data@ =~= old(stream).data_seq());
        }
        Ok(Message::AscPullAck(AscPullPayload { data }))
    }
}

} // verus!
