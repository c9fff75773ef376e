use redis_core::command::{Command, CommandInfo};
use redis_core::message::Message;
use redis_core::replica::{
    apply_master_frame, getack_command, handshake_open, handshake_step, parse_ack_offset,
    parse_snapshot_header, should_replicate, HandshakeState, PrimaryState, ReplicaMessage,
    ReplicaResponse, SnapshotHeader,
};
use redis_core::store::Store;
use redis_core::stream::{StreamInfo, StreamType};

fn new_primary() -> PrimaryState {
    let id = b"0123456789abcdef0123456789abcdef01234567".to_vec();
    PrimaryState::new(StreamInfo::new(StreamType::Master, id))
}

#[test]
fn writes_are_queued_to_each_link_in_order() {
    let mut prim = new_primary();
    prim.add_link();
    prim.add_link();
    let first = b"*3\r\n$3\r\nSET\r\n$1\r\na\r\n$1\r\n1\r\n".to_vec();
    let second = b"*3\r\n$3\r\nSET\r\n$1\r\nb\r\n$1\r\n2\r\n".to_vec();
    prim.accept_write(&first);
    prim.accept_write(&second);
    assert_eq!(prim.next_to_send(0).unwrap(), first);
    assert_eq!(prim.next_to_send(0).unwrap(), second);
    assert!(prim.next_to_send(0).is_none());
    assert_eq!(prim.next_to_send(1).unwrap(), first);
    assert_eq!(prim.next_to_send(1).unwrap(), second);
}

#[test]
fn late_link_sees_only_later_writes() {
    let mut prim = new_primary();
    let first = b"one".to_vec();
    prim.accept_write(&first);
    prim.add_link();
    let second = b"two".to_vec();
    prim.accept_write(&second);
    assert_eq!(prim.next_to_send(0).unwrap(), second);
    assert!(prim.next_to_send(0).is_none());
}

#[test]
fn acks_are_counted_against_a_target() {
    let mut prim = new_primary();
    prim.add_link();
    prim.add_link();
    prim.add_link();
    prim.accept_write(&b"w".to_vec());
    let target = prim.info.offset;
    assert_eq!(prim.count_acked(target), 0);
    prim.record_ack(0, target);
    prim.record_ack(1, target - 1);
    assert_eq!(prim.count_acked(target), 1);
    prim.record_ack(1, target + 5);
    assert_eq!(prim.count_acked(target), 2);
    prim.record_ack(1, 0);
    assert_eq!(prim.count_acked(target), 2);
}

#[test]
fn wait_is_immediate_without_writes_or_with_enough_acks() {
    let mut prim = new_primary();
    prim.add_link();
    prim.add_link();
    assert_eq!(prim.wait_immediate(5), Some(2));
    prim.accept_write(&b"w".to_vec());
    assert_eq!(prim.wait_immediate(1), None);
    let target = prim.info.offset;
    prim.record_ack(0, target);
    assert_eq!(prim.wait_immediate(1), Some(1));
}

#[test]
fn handshake_walks_the_four_steps() {
    let (state, hello) = handshake_open();
    assert_eq!(state, HandshakeState::AwaitPong);
    assert_eq!(hello, b"*1\r\n$4\r\nPING\r\n");

    let pong = Message::Simple(b"PONG".to_vec());
    let (state, wire) = handshake_step(state, &pong, 6380).unwrap();
    assert_eq!(state, HandshakeState::AwaitPortOk);
    assert_eq!(
        wire.unwrap(),
        b"*3\r\n$8\r\nREPLCONF\r\n$14\r\nlistening-port\r\n$4\r\n6380\r\n"
    );

    let ok = Message::Simple(b"OK".to_vec());
    let (state, wire) = handshake_step(state, &ok, 6380).unwrap();
    assert_eq!(state, HandshakeState::AwaitCapaOk);
    assert_eq!(
        wire.unwrap(),
        b"*5\r\n$8\r\nREPLCONF\r\n$4\r\ncapa\r\n$3\r\neof\r\n$4\r\ncapa\r\n$6\r\npsync2\r\n"
    );

    let ok = Message::Simple(b"OK".to_vec());
    let (state, wire) = handshake_step(state, &ok, 6380).unwrap();
    assert_eq!(state, HandshakeState::AwaitFullResync);
    assert_eq!(wire.unwrap(), b"*3\r\n$5\r\nPSYNC\r\n$1\r\n?\r\n$2\r\n-1\r\n");

    let announce = Message::Simple(
        b"FULLRESYNC 0123456789abcdef0123456789abcdef01234567 0".to_vec(),
    );
    let (state, wire) = handshake_step(state, &announce, 6380).unwrap();
    assert_eq!(state, HandshakeState::Complete);
    assert!(wire.is_none());
}

#[test]
fn handshake_rejects_wrong_replies() {
    let (state, _) = handshake_open();
    let wrong = Message::Simple(b"NOPE".to_vec());
    assert!(handshake_step(state, &wrong, 6380).is_err());
}

#[test]
fn replica_applies_set_silently() {
    let mut store = Store::new();
    let frame = Message::Array(vec![
        Message::Bulk(b"SET".to_vec()),
        Message::Bulk(b"k".to_vec()),
        Message::Bulk(b"v".to_vec()),
    ]);
    let reply = apply_master_frame(&mut store, &frame, 0, 0);
    assert!(reply.is_none());
    let got = store.get_kv(b"k", 0).expect("applied");
    assert_eq!(got.value, b"v");
}

#[test]
fn replica_answers_getack_with_its_offset() {
    let mut store = Store::new();
    let frame = Message::Array(vec![
        Message::Bulk(b"REPLCONF".to_vec()),
        Message::Bulk(b"GETACK".to_vec()),
        Message::Bulk(b"*".to_vec()),
    ]);
    let reply = apply_master_frame(&mut store, &frame, 154, 0).expect("an acknowledgement");
    assert_eq!(reply, b"*3\r\n$8\r\nREPLCONF\r\n$3\r\nACK\r\n$3\r\n154\r\n");
}

#[test]
fn replica_ignores_unknown_frames() {
    let mut store = Store::new();
    let frame = Message::Array(vec![Message::Bulk(b"FLUSHALL".to_vec())]);
    assert!(apply_master_frame(&mut store, &frame, 0, 0).is_none());
    assert_eq!(store.len(), 0);
    let not_a_command = Message::Simple(b"OK".to_vec());
    assert!(apply_master_frame(&mut store, &not_a_command, 0, 0).is_none());
}

#[test]
fn set_replicates_with_its_expiry() {
    let info = CommandInfo::new(
        b"SET".to_vec(),
        vec![b"k".to_vec(), b"v".to_vec(), b"px".to_vec(), b"100".to_vec()],
    );
    let cmd = info.to_command(7).expect("parses");
    let rc = Command::to_replica_command(&cmd).expect("a write replicates");
    assert_eq!(
        rc.message.encode(),
        b"*5\r\n$3\r\nset\r\n$1\r\nk\r\n$1\r\nv\r\n$2\r\npx\r\n$3\r\n100\r\n"
    );
    assert!(rc.timeout.is_none());

    let ping = CommandInfo::new(b"PING".to_vec(), Vec::new()).to_command(0).unwrap();
    assert!(Command::to_replica_command(&ping).is_none());
}

#[test]
fn roles_and_responses() {
    let master = StreamInfo::new(StreamType::Master, b"x".to_vec());
    let replica = StreamInfo::new(StreamType::Replica, b"x".to_vec());
    assert!(!should_replicate(&master));
    assert!(should_replicate(&replica));
    assert!(!ReplicaResponse::received().expired);
    assert!(ReplicaResponse::expired().expired);
    assert!(ReplicaMessage::RdbFile(Vec::new()).is_rdb_file());
    assert!(ReplicaMessage::Response(Message::Null).is_response());
    assert!(!ReplicaMessage::Response(Message::Null).is_rdb_file());
}

#[test]
fn replid_is_forty_hex_characters() {
    let id = redis_core::utils::random_sha1_hex();
    assert_eq!(id.len(), 40);
    assert!(id.iter().all(|b| b.is_ascii_hexdigit() && !b.is_ascii_uppercase()));
    let again = redis_core::utils::random_sha1_hex();
    assert_eq!(again.len(), 40);
}

#[test]
fn sha1_hex_matches_known_digest() {
    let digest = redis_core::utils::sha1_hex(b"abc");
    assert_eq!(digest, b"a9993e364706816aba3e25717850c26c9cd0d89d");
    let empty = redis_core::utils::sha1_hex(b"");
    assert_eq!(empty, b"da39a3ee5e6b4b0d3255bfef95601890afd80709");
}

#[test]
fn getack_request_is_preformed() {
    let rc = getack_command(450);
    assert_eq!(rc.timeout, Some(450));
    assert_eq!(
        rc.message.encode(),
        b"*3\r\n$8\r\nREPLCONF\r\n$6\r\nGETACK\r\n$1\r\n*\r\n"
    );
}

#[test]
fn ack_offsets_are_read_case_insensitively() {
    let frame = Message::Array(vec![
        Message::Bulk(b"replconf".to_vec()),
        Message::Bulk(b"Ack".to_vec()),
        Message::Bulk(b"1492".to_vec()),
    ]);
    assert_eq!(parse_ack_offset(&frame), Some(1492));
    let wrong = Message::Array(vec![
        Message::Bulk(b"REPLCONF".to_vec()),
        Message::Bulk(b"GETACK".to_vec()),
        Message::Bulk(b"*".to_vec()),
    ]);
    assert_eq!(parse_ack_offset(&wrong), None);
    assert_eq!(parse_ack_offset(&Message::Simple(b"OK".to_vec())), None);
}

#[test]
fn snapshot_framing_is_read_incrementally() {
    assert_eq!(parse_snapshot_header(b"$8"), SnapshotHeader::NeedMore);
    assert_eq!(parse_snapshot_header(b"$88\r\nREDIS"), SnapshotHeader::Framed(88, 5));
    assert_eq!(parse_snapshot_header(b"+OK\r\n"), SnapshotHeader::Bad);
    assert_eq!(parse_snapshot_header(b"$x\r\n"), SnapshotHeader::Bad);
}
