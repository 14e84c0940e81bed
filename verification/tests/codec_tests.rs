//! Round trips of every block variant and message codec, and the
//! deserializer's verdicts.

use rsnode::blocks::{
    deserialize_block_enum, serialize_block_enum, BlockEnum, BlockType, ChangeBlock, OpenBlock,
    ReceiveBlock, SendBlock, StateBlock,
};
use rsnode::crypto::public_key;
use rsnode::messages::{
    BulkPull, BulkPullAccount, FrontierReq, Keepalive, Message, MessageDeserializerImpl,
    MessageHeader, MessageType, NetworkConstants, NetworkFilter, NodeIdHandshake, ParseStatus,
    HASHES_MAX,
};
use rsnode::numbers::{Account, Amount, BlockHash, Link, RawKey};
use rsnode::store::EndpointKey;
use rsnode::unchecked::{UncheckedInfo, UncheckedKey};
use rsnode::wire::MemoryStream;

fn key() -> RawKey {
    RawKey::from_bytes([0x42u8; 32])
}

fn sample_open() -> OpenBlock {
    OpenBlock::new(
        BlockHash::from_bytes([1u8; 32]),
        Account::from_bytes([2u8; 32]),
        Account::from_bytes([3u8; 32]),
        &key(),
        &public_key(&key()),
        0x1122334455667788,
    )
}

fn sample_state() -> StateBlock {
    StateBlock::new(
        Account::from_bytes([4u8; 32]),
        BlockHash::from_bytes([5u8; 32]),
        Account::from_bytes([6u8; 32]),
        Amount::raw(0x0011223344556677_8899aabbccddeeff),
        Link::from_bytes([7u8; 32]),
        &key(),
        &public_key(&key()),
        0x8877665544332211,
    )
}

#[test]
fn open_block_round_trip() {
    let block = sample_open();
    let mut stream = MemoryStream::new();
    block.serialize(&mut stream);
    let mut stream = MemoryStream::from_vec(stream.to_vec());
    let mut parsed = sample_open();
    parsed.work = 0;
    parsed.deserialize(&mut stream).unwrap();
    assert_eq!(parsed, block);
    assert!(stream.at_end());
}

#[test]
fn state_block_round_trip() {
    let block = sample_state();
    let mut stream = MemoryStream::new();
    block.serialize(&mut stream);
    assert_eq!(stream.to_vec().len(), 216);
    let mut stream = MemoryStream::from_vec(stream.to_vec());
    let mut parsed = sample_state();
    parsed.work = 0;
    parsed.deserialize(&mut stream).unwrap();
    assert_eq!(parsed, block);
}

#[test]
fn send_block_round_trip() {
    let block = SendBlock::new(
        BlockHash::from_bytes([8u8; 32]),
        Account::from_bytes([9u8; 32]),
        Amount::raw(12345),
        &key(),
        &public_key(&key()),
        7,
    );
    let mut stream = MemoryStream::new();
    block.serialize(&mut stream);
    assert_eq!(stream.to_vec().len(), 152);
    let mut stream = MemoryStream::from_vec(stream.to_vec());
    let mut parsed = block;
    parsed.work = 0;
    parsed.deserialize(&mut stream).unwrap();
    assert_eq!(parsed, block);
}

#[test]
fn receive_block_round_trip() {
    let block = ReceiveBlock::new(
        BlockHash::from_bytes([10u8; 32]),
        BlockHash::from_bytes([11u8; 32]),
        &key(),
        &public_key(&key()),
        9,
    );
    let mut stream = MemoryStream::new();
    block.serialize(&mut stream);
    assert_eq!(stream.to_vec().len(), 136);
    let mut stream = MemoryStream::from_vec(stream.to_vec());
    let mut parsed = block;
    parsed.work = 0;
    parsed.deserialize(&mut stream).unwrap();
    assert_eq!(parsed, block);
}

#[test]
fn change_block_round_trip() {
    let block = ChangeBlock::new(
        BlockHash::from_bytes([12u8; 32]),
        Account::from_bytes([13u8; 32]),
        &key(),
        &public_key(&key()),
        11,
    );
    let mut stream = MemoryStream::new();
    block.serialize(&mut stream);
    assert_eq!(stream.to_vec().len(), 136);
    let mut stream = MemoryStream::from_vec(stream.to_vec());
    let mut parsed = block;
    parsed.work = 0;
    parsed.deserialize(&mut stream).unwrap();
    assert_eq!(parsed, block);
}

#[test]
fn block_enum_round_trip_every_variant() {
    let blocks = vec![
        BlockEnum::Open(sample_open()),
        BlockEnum::State(sample_state()),
        BlockEnum::Send(SendBlock::new(
            BlockHash::from_bytes([8u8; 32]),
            Account::from_bytes([9u8; 32]),
            Amount::raw(1),
            &key(),
            &public_key(&key()),
            1,
        )),
        BlockEnum::Receive(ReceiveBlock::new(
            BlockHash::from_bytes([1u8; 32]),
            BlockHash::from_bytes([2u8; 32]),
            &key(),
            &public_key(&key()),
            2,
        )),
        BlockEnum::Change(ChangeBlock::new(
            BlockHash::from_bytes([3u8; 32]),
            Account::from_bytes([4u8; 32]),
            &key(),
            &public_key(&key()),
            3,
        )),
    ];
    for block in blocks {
        let mut stream = MemoryStream::new();
        serialize_block_enum(&mut stream, &block);
        let mut stream = MemoryStream::from_vec(stream.to_vec());
        let parsed = deserialize_block_enum(&mut stream).unwrap();
        assert_eq!(parsed, block);
        assert!(stream.at_end());
    }
}

#[test]
fn block_type_values_are_wire_stable() {
    assert_eq!(BlockType::Invalid.as_u8(), 0);
    assert_eq!(BlockType::NotABlock.as_u8(), 1);
    assert_eq!(BlockType::LegacySend.as_u8(), 2);
    assert_eq!(BlockType::LegacyReceive.as_u8(), 3);
    assert_eq!(BlockType::LegacyOpen.as_u8(), 4);
    assert_eq!(BlockType::LegacyChange.as_u8(), 5);
    assert_eq!(BlockType::State.as_u8(), 6);
    assert_eq!(BlockType::from_u8(6), Some(BlockType::State));
    assert_eq!(BlockType::from_u8(7), None);
}

#[test]
fn message_type_values_are_wire_stable() {
    assert_eq!(MessageType::Invalid.as_u8(), 0x0);
    assert_eq!(MessageType::NotAType.as_u8(), 0x1);
    assert_eq!(MessageType::Keepalive.as_u8(), 0x2);
    assert_eq!(MessageType::Publish.as_u8(), 0x3);
    assert_eq!(MessageType::ConfirmReq.as_u8(), 0x4);
    assert_eq!(MessageType::ConfirmAck.as_u8(), 0x5);
    assert_eq!(MessageType::BulkPull.as_u8(), 0x6);
    assert_eq!(MessageType::BulkPush.as_u8(), 0x7);
    assert_eq!(MessageType::FrontierReq.as_u8(), 0x8);
    assert_eq!(MessageType::NodeIdHandshake.as_u8(), 0x0a);
    assert_eq!(MessageType::BulkPullAccount.as_u8(), 0x0b);
    assert_eq!(MessageType::TelemetryReq.as_u8(), 0x0c);
    assert_eq!(MessageType::TelemetryAck.as_u8(), 0x0d);
    assert_eq!(MessageType::from_u8(9), None);
    assert_eq!(MessageType::as_str(&MessageType::Keepalive), "keepalive");
    assert_eq!(ParseStatus::as_str(&ParseStatus::MessageSizeTooBig), "message_size_too_big");
}

#[test]
fn message_header_round_trip() {
    let constants = NetworkConstants::dev();
    let header = MessageHeader::with_version_using(&constants, MessageType::Keepalive, 17);
    assert_eq!(header.version_using(), 17);
    assert_eq!(header.version_max(), constants.protocol_version);
    assert_eq!(header.version_min(), constants.protocol_version_min);
    assert_eq!(MessageHeader::size(), 3);
    let mut stream = MemoryStream::new();
    header.serialize(&mut stream);
    let mut stream = MemoryStream::from_vec(stream.to_vec());
    let mut parsed = MessageHeader::new(&constants, MessageType::Keepalive);
    parsed.deserialize(&mut stream).unwrap();
    assert_eq!(parsed, header);
}

#[test]
fn keepalive_round_trip() {
    let peers = [
        EndpointKey::new([1; 16], 1),
        EndpointKey::new([2; 16], 2),
        EndpointKey::new([3; 16], 3),
        EndpointKey::new([4; 16], 4),
        EndpointKey::new([5; 16], 5),
        EndpointKey::new([6; 16], 6),
        EndpointKey::new([7; 16], 7),
        EndpointKey::new([8; 16], 0xabcd),
    ];
    let msg = Keepalive { peers };
    let mut stream = MemoryStream::new();
    msg.serialize(&mut stream);
    assert_eq!(stream.to_vec().len(), 144);
    let mut stream = MemoryStream::from_vec(stream.to_vec());
    let parsed = Keepalive::from_stream(&mut stream).unwrap();
    for i in 0..8 {
        assert_eq!(parsed.peers[i], msg.peers[i]);
    }
}

#[test]
fn frontier_req_round_trip() {
    let msg = FrontierReq { start: Account::from_bytes([6u8; 32]), age: 77, count: 1000 };
    let mut stream = MemoryStream::new();
    msg.serialize(&mut stream);
    assert_eq!(stream.to_vec().len(), 40);
    let mut stream = MemoryStream::from_vec(stream.to_vec());
    let parsed = FrontierReq::from_stream(&mut stream).unwrap();
    assert_eq!(parsed.start, msg.start);
    assert_eq!(parsed.age, 77);
    assert_eq!(parsed.count, 1000);
}

#[test]
fn bulk_pull_round_trip() {
    let msg = BulkPull {
        start: BlockHash::from_bytes([1u8; 32]),
        end: BlockHash::from_bytes([2u8; 32]),
    };
    let mut stream = MemoryStream::new();
    msg.serialize(&mut stream);
    let mut stream = MemoryStream::from_vec(stream.to_vec());
    let parsed = BulkPull::from_stream(&mut stream).unwrap();
    assert_eq!(parsed.start, msg.start);
    assert_eq!(parsed.end, msg.end);
}

#[test]
fn bulk_pull_account_round_trip() {
    let msg = BulkPullAccount {
        account: Account::from_bytes([3u8; 32]),
        minimum_amount: Amount::raw(987654321),
        flags: 2,
    };
    let mut stream = MemoryStream::new();
    msg.serialize(&mut stream);
    assert_eq!(stream.to_vec().len(), 49);
    let mut stream = MemoryStream::from_vec(stream.to_vec());
    let parsed = BulkPullAccount::from_stream(&mut stream).unwrap();
    assert_eq!(parsed.account, msg.account);
    assert_eq!(parsed.minimum_amount, msg.minimum_amount);
    assert_eq!(parsed.flags, 2);
}

#[test]
fn node_id_handshake_round_trip() {
    let msg = NodeIdHandshake { cookie: [9u8; 32] };
    let mut stream = MemoryStream::new();
    msg.serialize(&mut stream);
    let mut stream = MemoryStream::from_vec(stream.to_vec());
    let parsed = NodeIdHandshake::from_stream(&mut stream).unwrap();
    assert_eq!(parsed.cookie, msg.cookie);
}

#[test]
fn unchecked_info_round_trip() {
    let info = UncheckedInfo {
        block: Some(BlockEnum::State(sample_state())),
        modified: 555,
    };
    let bytes = info.to_bytes();
    let mut stream = MemoryStream::from_vec(bytes);
    let parsed = UncheckedInfo::deserialize(&mut stream).unwrap();
    assert_eq!(parsed.modified, 555);
    assert_eq!(parsed.block.unwrap(), info.block.unwrap());
    let null = UncheckedInfo::null();
    assert!(null.block.is_none());
    assert_eq!(null.modified, 0);
}

#[test]
fn unchecked_key_bytes() {
    let key = UncheckedKey::new(
        BlockHash::from_bytes([1u8; 32]),
        BlockHash::from_bytes([2u8; 32]),
    );
    let bytes = key.to_bytes();
    assert_eq!(&bytes[..32], &[1u8; 32]);
    assert_eq!(&bytes[32..], &[2u8; 32]);
}

#[test]
fn deserializer_dispatch_and_errors() {
    let mut deserializer =
        MessageDeserializerImpl::new(NetworkConstants::dev(), NetworkFilter::new());
    let constants = NetworkConstants::dev();
    // A keepalive parses only from a payload of exactly eight peers.
    let header = MessageHeader::new(&constants, MessageType::Keepalive);
    let result = deserializer.deserialize(header, &[0u8; 144]);
    assert!(matches!(result, Ok(Message::Keepalive(_))));
    let result = deserializer.deserialize(header, &[0u8; 143]);
    assert_eq!(result.err().unwrap(), ParseStatus::InvalidKeepaliveMessage);
    // Header-only message types always parse.
    let header = MessageHeader::new(&constants, MessageType::TelemetryReq);
    assert!(matches!(deserializer.deserialize(header, &[]), Ok(Message::TelemetryReq)));
    let header = MessageHeader::new(&constants, MessageType::BulkPush);
    assert!(matches!(deserializer.deserialize(header, &[]), Ok(Message::BulkPush)));
    // Invalid types are refused.
    let header = MessageHeader::new(&constants, MessageType::Invalid);
    assert_eq!(
        deserializer.deserialize(header, &[]).err().unwrap(),
        ParseStatus::InvalidMessageType
    );
    // A short frontier request is refused.
    let header = MessageHeader::new(&constants, MessageType::FrontierReq);
    assert_eq!(
        deserializer.deserialize(header, &[0u8; 39]).err().unwrap(),
        ParseStatus::InvalidFrontierReqMessage
    );
}

#[test]
fn duplicate_publish_is_dropped() {
    // The same publish payload a second time is filtered as a
    // duplicate before any parsing.
    let mut deserializer =
        MessageDeserializerImpl::new(NetworkConstants::dev(), NetworkFilter::new());
    let constants = NetworkConstants::dev();
    let header = MessageHeader::new(&constants, MessageType::Publish);
    let payload = [7u8; 10];
    let first = deserializer.deserialize(header, &payload);
    assert_eq!(first.err().unwrap(), ParseStatus::InvalidPublishMessage);
    let second = deserializer.deserialize(header, &payload);
    assert_eq!(second.err().unwrap(), ParseStatus::DuplicatePublishMessage);
}

#[test]
fn publish_with_insufficient_work_rejected() {
    // A well-formed block whose nonce misses the threshold is refused
    // as insufficient work.
    let constants = NetworkConstants::dev();
    let mut deserializer = MessageDeserializerImpl::new(constants, NetworkFilter::new());
    let mut block = sample_state();
    let mut nonce = 0u64;
    loop {
        let root = BlockEnum::State(block).root();
        if !rsnode::ledger::check_work(&root, nonce, constants.work_threshold) {
            break;
        }
        nonce += 1;
    }
    block.work = nonce;
    let mut stream = MemoryStream::new();
    serialize_block_enum(&mut stream, &BlockEnum::State(block));
    let payload = stream.to_vec();
    let header = MessageHeader::new(&constants, MessageType::Publish);
    let result = deserializer.deserialize(header, payload.as_slice());
    assert_eq!(result.err().unwrap(), ParseStatus::InsufficientWork);
}

#[test]
fn confirm_req_respects_hashes_max() {
    // A confirm request holds at most HASHES_MAX hash/root pairs.
    let constants = NetworkConstants::dev();
    let mut deserializer = MessageDeserializerImpl::new(constants, NetworkFilter::new());
    let mut payload: Vec<u8> = Vec::new();
    payload.push(HASHES_MAX as u8 + 1);
    for _ in 0..(HASHES_MAX + 1) * 64 {
        payload.push(0);
    }
    let header = MessageHeader::new(&constants, MessageType::ConfirmReq);
    assert_eq!(
        deserializer.deserialize(header, payload.as_slice()).err().unwrap(),
        ParseStatus::InvalidConfirmReqMessage
    );
    let mut payload: Vec<u8> = Vec::new();
    payload.push(2);
    for i in 0..128u32 {
        payload.push(i as u8);
    }
    let result = deserializer.deserialize(header, payload.as_slice());
    let Ok(Message::ConfirmReq(req)) = result else {
        panic!("expected a confirm request");
    };
    assert_eq!(req.hashes.len(), 2);
}

#[test]
fn work_generation_meets_threshold() {
    let root = [3u8; 32];
    let threshold = 0xfe00_0000_0000_0000u64;
    let nonce = rsnode::ledger::generate_work(&root, threshold, 0, 0xffff_ffff).unwrap();
    assert!(rsnode::ledger::check_work(&root, nonce, threshold));
    assert!(rsnode::ledger::work_value(&root, nonce) >= threshold);
}

#[test]
fn hex_round_trip() {
    let bytes = [0x00u8, 0x01, 0x9f, 0xa0, 0xff];
    let hex = rsnode::json::encode_hex(&bytes);
    assert_eq!(hex, "00019fa0ff");
    let decoded = rsnode::json::decode_hex(hex.as_str(), 5).unwrap();
    assert_eq!(decoded, bytes.to_vec());
    // Upper-case digits decode too; odd lengths and bad digits do not.
    assert_eq!(rsnode::json::decode_hex("9FA0", 2).unwrap(), vec![0x9f, 0xa0]);
    assert!(rsnode::json::decode_hex("9FA", 2).is_none());
    assert!(rsnode::json::decode_hex("9FZ0", 2).is_none());
}

#[test]
fn open_block_json_round_trip() {
    let block = sample_open();
    let mut tree = rsnode::json::PropertyTree::new();
    block.serialize_json(&mut tree);
    assert_eq!(tree.get_string("type").unwrap(), "open");
    let parsed = OpenBlock::deserialize_json(&tree).unwrap();
    assert_eq!(parsed, block);
}

#[test]
fn state_block_json_round_trip() {
    let block = sample_state();
    let mut tree = rsnode::json::PropertyTree::new();
    block.serialize_json(&mut tree);
    assert_eq!(tree.get_string("type").unwrap(), "state");
    let parsed = StateBlock::deserialize_json(&tree).unwrap();
    assert_eq!(parsed, block);
}

#[test]
fn state_block_json_rejects_wrong_type() {
    let block = sample_open();
    let mut tree = rsnode::json::PropertyTree::new();
    block.serialize_json(&mut tree);
    assert_eq!(
        StateBlock::deserialize_json(&tree).err().unwrap(),
        rsnode::json::JsonError::WrongType
    );
    let empty = rsnode::json::PropertyTree::new();
    assert_eq!(
        StateBlock::deserialize_json(&empty).err().unwrap(),
        rsnode::json::JsonError::MissingField
    );
}

#[test]
fn json_work_field_round_trips() {
    let hex = rsnode::json::to_string_hex(0x0123456789abcdef);
    assert_eq!(hex, "0123456789abcdef");
    assert_eq!(rsnode::json::from_string_hex(hex.as_str()).unwrap(), 0x0123456789abcdef);
    assert!(rsnode::json::from_string_hex("xyz").is_none());
}
