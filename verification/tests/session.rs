use redis_core::command::CommandInfo;
use redis_core::handler::{Handler, SessionOutcome, SessionReply};
use redis_core::message::Message;
use redis_core::rdb::RdbConfig;
use redis_core::replica::PrimaryState;
use redis_core::store::Store;
use redis_core::stream::{StreamInfo, StreamType};

fn new_primary() -> PrimaryState {
    let id = b"8371b4fb1155b71f4a04d3e1bc3e18c4a990aeeb".to_vec();
    PrimaryState::new(StreamInfo::new(StreamType::Master, id))
}

fn run(
    store: &mut Store,
    prim: &mut PrimaryState,
    config: &RdbConfig,
    wire: &[u8],
    now: u64,
) -> SessionOutcome {
    let (frame, used) = Message::decode(wire).expect("test frame decodes");
    assert_eq!(used, wire.len());
    let info = frame.parse_command().expect("test frame is a command");
    Handler::handle_command(store, prim, config, &info, now)
}

fn reply_bytes(outcome: &SessionOutcome) -> Vec<u8> {
    match &outcome.reply {
        SessionReply::Ready(m) => m.encode(),
        _ => panic!("expected a ready reply"),
    }
}

#[test]
fn ping_pongs() {
    let mut store = Store::new();
    let mut prim = new_primary();
    let config = RdbConfig::new();
    let out = run(&mut store, &mut prim, &config, b"*1\r\n$4\r\nPING\r\n", 0);
    assert_eq!(reply_bytes(&out), b"+PONG\r\n");
}

#[test]
fn echo_returns_bulk() {
    let mut store = Store::new();
    let mut prim = new_primary();
    let config = RdbConfig::new();
    let out = run(
        &mut store,
        &mut prim,
        &config,
        b"*2\r\n$4\r\nECHO\r\n$5\r\nhello\r\n",
        0,
    );
    assert_eq!(reply_bytes(&out), b"$5\r\nhello\r\n");
}

#[test]
fn set_then_get() {
    let mut store = Store::new();
    let mut prim = new_primary();
    let config = RdbConfig::new();
    let out = run(
        &mut store,
        &mut prim,
        &config,
        b"*3\r\n$3\r\nSET\r\n$1\r\nk\r\n$1\r\nv\r\n",
        0,
    );
    assert_eq!(reply_bytes(&out), b"+OK\r\n");
    let out = run(&mut store, &mut prim, &config, b"*2\r\n$3\r\nGET\r\n$1\r\nk\r\n", 0);
    assert_eq!(reply_bytes(&out), b"$1\r\nv\r\n");
}

#[test]
fn set_with_expiry_reads_null_after_deadline() {
    let mut store = Store::new();
    let mut prim = new_primary();
    let config = RdbConfig::new();
    let out = run(
        &mut store,
        &mut prim,
        &config,
        b"*5\r\n$3\r\nSET\r\n$1\r\nk\r\n$1\r\nv\r\n$2\r\nPX\r\n$3\r\n100\r\n",
        1_000,
    );
    assert_eq!(reply_bytes(&out), b"+OK\r\n");
    let out = run(
        &mut store,
        &mut prim,
        &config,
        b"*2\r\n$3\r\nGET\r\n$1\r\nk\r\n",
        1_050,
    );
    assert_eq!(reply_bytes(&out), b"$1\r\nv\r\n");
    let out = run(
        &mut store,
        &mut prim,
        &config,
        b"*2\r\n$3\r\nGET\r\n$1\r\nk\r\n",
        1_200,
    );
    assert_eq!(reply_bytes(&out), b"$-1\r\n");
    let out = run(
        &mut store,
        &mut prim,
        &config,
        b"*2\r\n$3\r\nGET\r\n$1\r\nk\r\n",
        1_100,
    );
    assert_eq!(reply_bytes(&out), b"$-1\r\n");
}

#[test]
fn xadd_accepts_then_rejects_zero_and_stale_ids() {
    let mut store = Store::new();
    let mut prim = new_primary();
    let config = RdbConfig::new();
    let out = run(
        &mut store,
        &mut prim,
        &config,
        b"*5\r\n$4\r\nXADD\r\n$1\r\ns\r\n$3\r\n0-1\r\n$1\r\na\r\n$1\r\n1\r\n",
        0,
    );
    assert_eq!(reply_bytes(&out), b"$3\r\n0-1\r\n");
    let out = run(
        &mut store,
        &mut prim,
        &config,
        b"*5\r\n$4\r\nXADD\r\n$1\r\ns\r\n$3\r\n0-0\r\n$1\r\na\r\n$1\r\n1\r\n",
        0,
    );
    assert_eq!(
        reply_bytes(&out),
        b"-ERR The ID specified in XADD must be greater than 0-0\r\n".to_vec()
    );
    let out = run(
        &mut store,
        &mut prim,
        &config,
        b"*5\r\n$4\r\nXADD\r\n$1\r\ns\r\n$3\r\n0-1\r\n$1\r\na\r\n$1\r\n1\r\n",
        0,
    );
    assert_eq!(
        reply_bytes(&out),
        b"-ERR The ID specified in XADD is equal or smaller than the target stream top item\r\n"
            .to_vec()
    );
}

#[test]
fn xadd_zero_id_leaves_stream_unchanged() {
    let mut store = Store::new();
    let mut prim = new_primary();
    let config = RdbConfig::new();
    let _ = run(
        &mut store,
        &mut prim,
        &config,
        b"*5\r\n$4\r\nXADD\r\n$1\r\ns\r\n$3\r\n0-1\r\n$1\r\na\r\n$1\r\n1\r\n",
        0,
    );
    let before = run(
        &mut store,
        &mut prim,
        &config,
        b"*4\r\n$6\r\nXRANGE\r\n$1\r\ns\r\n$1\r\n-\r\n$1\r\n+\r\n",
        0,
    );
    let _ = run(
        &mut store,
        &mut prim,
        &config,
        b"*5\r\n$4\r\nXADD\r\n$1\r\ns\r\n$3\r\n0-0\r\n$1\r\nb\r\n$1\r\n2\r\n",
        0,
    );
    let after = run(
        &mut store,
        &mut prim,
        &config,
        b"*4\r\n$6\r\nXRANGE\r\n$1\r\ns\r\n$1\r\n-\r\n$1\r\n+\r\n",
        0,
    );
    assert_eq!(reply_bytes(&before), reply_bytes(&after));
}

#[test]
fn psync_announces_fullresync_and_snapshot() {
    let mut store = Store::new();
    let mut prim = new_primary();
    let config = RdbConfig::new();
    let out = run(
        &mut store,
        &mut prim,
        &config,
        b"*3\r\n$5\r\nPSYNC\r\n$1\r\n?\r\n$2\r\n-1\r\n",
        0,
    );
    let reply = reply_bytes(&out);
    assert!(reply.starts_with(b"+FULLRESYNC "));
    assert!(reply.ends_with(b" 0\r\n"));
    let id = &reply[b"+FULLRESYNC ".len()..reply.len() - 4];
    assert_eq!(id.len(), 40);
    assert!(id.iter().all(|b| b.is_ascii_hexdigit()));
    let blob = out.blob.as_ref().expect("snapshot blob follows");
    assert!(blob.starts_with(b"$88\r\n"));
    assert_eq!(blob.len(), 5 + 88);
    assert!(!blob.ends_with(b"\r\n"));
    assert!(blob[5..].starts_with(b"REDIS0011"));
    assert!(out.become_replica);
    assert_eq!(prim.count_replicas(), 1);
}

#[test]
fn xrange_frames_entries() {
    let mut store = Store::new();
    let mut prim = new_primary();
    let config = RdbConfig::new();
    let _ = run(
        &mut store,
        &mut prim,
        &config,
        b"*5\r\n$4\r\nXADD\r\n$1\r\ns\r\n$3\r\n1-1\r\n$1\r\na\r\n$1\r\n1\r\n",
        0,
    );
    let _ = run(
        &mut store,
        &mut prim,
        &config,
        b"*5\r\n$4\r\nXADD\r\n$1\r\ns\r\n$3\r\n2-1\r\n$1\r\nb\r\n$1\r\n2\r\n",
        0,
    );
    let out = run(
        &mut store,
        &mut prim,
        &config,
        b"*4\r\n$6\r\nXRANGE\r\n$1\r\ns\r\n$1\r\n-\r\n$1\r\n+\r\n",
        0,
    );
    assert_eq!(
        reply_bytes(&out),
        b"*2\r\n*2\r\n$3\r\n1-1\r\n*2\r\n$1\r\na\r\n$1\r\n1\r\n*2\r\n$3\r\n2-1\r\n*2\r\n$1\r\nb\r\n$1\r\n2\r\n"
            .to_vec()
    );
    let out = run(
        &mut store,
        &mut prim,
        &config,
        b"*4\r\n$6\r\nXRANGE\r\n$1\r\ns\r\n$1\r\n2\r\n$1\r\n+\r\n",
        0,
    );
    assert_eq!(
        reply_bytes(&out),
        b"*1\r\n*2\r\n$3\r\n2-1\r\n*2\r\n$1\r\nb\r\n$1\r\n2\r\n".to_vec()
    );
}

#[test]
fn xread_returns_entries_after_id_or_null() {
    let mut store = Store::new();
    let mut prim = new_primary();
    let config = RdbConfig::new();
    let _ = run(
        &mut store,
        &mut prim,
        &config,
        b"*5\r\n$4\r\nXADD\r\n$1\r\ns\r\n$3\r\n5-1\r\n$1\r\na\r\n$1\r\n1\r\n",
        0,
    );
    let out = run(
        &mut store,
        &mut prim,
        &config,
        b"*4\r\n$5\r\nXREAD\r\n$7\r\nSTREAMS\r\n$1\r\ns\r\n$3\r\n5-0\r\n",
        0,
    );
    assert_eq!(
        reply_bytes(&out),
        b"*1\r\n*2\r\n$1\r\ns\r\n*1\r\n*2\r\n$3\r\n5-1\r\n*2\r\n$1\r\na\r\n$1\r\n1\r\n".to_vec()
    );
    let out = run(
        &mut store,
        &mut prim,
        &config,
        b"*4\r\n$5\r\nXREAD\r\n$7\r\nSTREAMS\r\n$1\r\ns\r\n$1\r\n$\r\n",
        0,
    );
    assert_eq!(reply_bytes(&out), b"*1\r\n*2\r\n$1\r\ns\r\n*0\r\n");
    let out = run(
        &mut store,
        &mut prim,
        &config,
        b"*4\r\n$5\r\nXREAD\r\n$7\r\nSTREAMS\r\n$1\r\nz\r\n$3\r\n0-0\r\n",
        0,
    );
    assert_eq!(reply_bytes(&out), b"*-1\r\n");
}

#[test]
fn xread_keeps_empty_pairs_for_existing_streams() {
    let mut store = Store::new();
    let mut prim = new_primary();
    let config = RdbConfig::new();
    let _ = run(
        &mut store,
        &mut prim,
        &config,
        b"*5\r\n$4\r\nXADD\r\n$1\r\na\r\n$3\r\n1-1\r\n$1\r\nf\r\n$1\r\n1\r\n",
        0,
    );
    let _ = run(
        &mut store,
        &mut prim,
        &config,
        b"*5\r\n$4\r\nXADD\r\n$1\r\nb\r\n$3\r\n2-1\r\n$1\r\ng\r\n$1\r\n2\r\n",
        0,
    );
    // Stream a has nothing past 1-1; stream b has one entry past 0-0. Both
    // exist, so both answer — a with an empty entry list.
    let out = run(
        &mut store,
        &mut prim,
        &config,
        b"*6\r\n$5\r\nXREAD\r\n$7\r\nSTREAMS\r\n$1\r\na\r\n$1\r\nb\r\n$3\r\n1-1\r\n$3\r\n0-0\r\n",
        0,
    );
    assert_eq!(
        reply_bytes(&out),
        b"*2\r\n*2\r\n$1\r\na\r\n*0\r\n*2\r\n$1\r\nb\r\n*1\r\n*2\r\n$3\r\n2-1\r\n*2\r\n$1\r\ng\r\n$1\r\n2\r\n"
            .to_vec()
    );
}

#[test]
fn del_counts_removed_keys() {
    let mut store = Store::new();
    let mut prim = new_primary();
    let config = RdbConfig::new();
    let _ = run(&mut store, &mut prim, &config, b"*3\r\n$3\r\nSET\r\n$1\r\na\r\n$1\r\n1\r\n", 0);
    let _ = run(&mut store, &mut prim, &config, b"*3\r\n$3\r\nSET\r\n$1\r\nb\r\n$1\r\n2\r\n", 0);
    let out = run(
        &mut store,
        &mut prim,
        &config,
        b"*4\r\n$3\r\nDEL\r\n$1\r\na\r\n$1\r\nb\r\n$1\r\nc\r\n",
        0,
    );
    assert_eq!(reply_bytes(&out), b":2\r\n");
    let out = run(&mut store, &mut prim, &config, b"*2\r\n$3\r\nGET\r\n$1\r\na\r\n", 0);
    assert_eq!(reply_bytes(&out), b"$-1\r\n");
}

#[test]
fn type_reports_kinds_and_honors_expiry() {
    let mut store = Store::new();
    let mut prim = new_primary();
    let config = RdbConfig::new();
    let _ = run(
        &mut store,
        &mut prim,
        &config,
        b"*5\r\n$3\r\nSET\r\n$1\r\nk\r\n$1\r\nv\r\n$2\r\nPX\r\n$2\r\n50\r\n",
        0,
    );
    let _ = run(
        &mut store,
        &mut prim,
        &config,
        b"*5\r\n$4\r\nXADD\r\n$1\r\ns\r\n$3\r\n1-1\r\n$1\r\na\r\n$1\r\n1\r\n",
        0,
    );
    let out = run(&mut store, &mut prim, &config, b"*2\r\n$4\r\nTYPE\r\n$1\r\nk\r\n", 0);
    assert_eq!(reply_bytes(&out), b"+string\r\n");
    let out = run(&mut store, &mut prim, &config, b"*2\r\n$4\r\nTYPE\r\n$1\r\nk\r\n", 60);
    assert_eq!(reply_bytes(&out), b"+none\r\n");
    let out = run(&mut store, &mut prim, &config, b"*2\r\n$4\r\nTYPE\r\n$1\r\ns\r\n", 0);
    assert_eq!(reply_bytes(&out), b"+stream\r\n");
    let out = run(&mut store, &mut prim, &config, b"*2\r\n$4\r\nTYPE\r\n$1\r\nz\r\n", 0);
    assert_eq!(reply_bytes(&out), b"+none\r\n");
}

#[test]
fn keys_lists_all_for_star_only() {
    let mut store = Store::new();
    let mut prim = new_primary();
    let config = RdbConfig::new();
    let _ = run(&mut store, &mut prim, &config, b"*3\r\n$3\r\nSET\r\n$1\r\na\r\n$1\r\n1\r\n", 0);
    let out = run(&mut store, &mut prim, &config, b"*2\r\n$4\r\nKEYS\r\n$1\r\n*\r\n", 0);
    assert_eq!(reply_bytes(&out), b"*1\r\n$1\r\na\r\n");
    let out = run(&mut store, &mut prim, &config, b"*2\r\n$4\r\nKEYS\r\n$2\r\na*\r\n", 0);
    assert_eq!(reply_bytes(&out), b"+Unsupported pattern\r\n");
}

#[test]
fn info_reports_replication_section() {
    let mut store = Store::new();
    let mut prim = new_primary();
    let config = RdbConfig::new();
    let out = run(&mut store, &mut prim, &config, b"*2\r\n$4\r\nINFO\r\n$11\r\nreplication\r\n", 0);
    let reply = reply_bytes(&out);
    let text = String::from_utf8(reply).unwrap();
    assert!(text.contains("role:master"));
    assert!(text.contains("connected_clients:0"));
    assert!(text.contains("master_repl_offset:0"));
    assert!(text.contains("master_replid:8371b4fb1155b71f4a04d3e1bc3e18c4a990aeeb"));
}

#[test]
fn config_get_answers_known_keys() {
    let mut store = Store::new();
    let mut prim = new_primary();
    let mut config = RdbConfig::new();
    config.dir = Some(b"/tmp/data".to_vec());
    let out = run(
        &mut store,
        &mut prim,
        &config,
        b"*3\r\n$6\r\nCONFIG\r\n$3\r\nGET\r\n$3\r\ndir\r\n",
        0,
    );
    assert_eq!(reply_bytes(&out), b"*2\r\n$3\r\ndir\r\n$9\r\n/tmp/data\r\n");
    let out = run(
        &mut store,
        &mut prim,
        &config,
        b"*3\r\n$6\r\nCONFIG\r\n$3\r\nGET\r\n$10\r\ndbfilename\r\n",
        0,
    );
    assert_eq!(reply_bytes(&out), b"+Value not found\r\n");
}

#[test]
fn unknown_command_is_refused() {
    let mut store = Store::new();
    let mut prim = new_primary();
    let config = RdbConfig::new();
    let out = run(&mut store, &mut prim, &config, b"*1\r\n$5\r\nHELLO\r\n", 0);
    assert_eq!(reply_bytes(&out), b"-ERR unknown command or wrong arguments\r\n");
}

#[test]
fn command_names_are_case_insensitive() {
    let mut store = Store::new();
    let mut prim = new_primary();
    let config = RdbConfig::new();
    let out = run(&mut store, &mut prim, &config, b"*1\r\n$4\r\npInG\r\n", 0);
    assert_eq!(reply_bytes(&out), b"+PONG\r\n");
}

#[test]
fn writes_advance_master_offset_monotonically() {
    let mut store = Store::new();
    let mut prim = new_primary();
    let config = RdbConfig::new();
    let before = prim.info.offset;
    assert_eq!(before, 0);
    let wire: &[u8] = b"*3\r\n$3\r\nSET\r\n$1\r\nk\r\n$1\r\nv\r\n";
    let _ = run(&mut store, &mut prim, &config, wire, 0);
    let after_one = prim.info.offset;
    assert_eq!(after_one, wire.len() as u64);
    let _ = run(&mut store, &mut prim, &config, b"*2\r\n$3\r\nGET\r\n$1\r\nk\r\n", 0);
    assert_eq!(prim.info.offset, after_one);
    let _ = run(&mut store, &mut prim, &config, wire, 0);
    assert!(prim.info.offset >= after_one);
}

#[test]
fn command_info_encode_and_is_write() {
    let info = CommandInfo::new(b"SET".to_vec(), vec![b"k".to_vec(), b"v".to_vec()]);
    assert_eq!(info.encode(), b"*3\r\n$3\r\nSET\r\n$1\r\nk\r\n$1\r\nv\r\n");
    assert!(info.is_write());
    let ping = CommandInfo::new(b"PING".to_vec(), Vec::new());
    assert!(!ping.is_write());
}

#[test]
fn xadd_derives_ids_from_patterns() {
    let mut store = Store::new();
    let mut prim = new_primary();
    let config = RdbConfig::new();
    let out = run(
        &mut store,
        &mut prim,
        &config,
        b"*5\r\n$4\r\nXADD\r\n$1\r\ns\r\n$1\r\n*\r\n$1\r\na\r\n$1\r\n1\r\n",
        5,
    );
    assert_eq!(reply_bytes(&out), b"$3\r\n5-0\r\n");
    let out = run(
        &mut store,
        &mut prim,
        &config,
        b"*5\r\n$4\r\nXADD\r\n$1\r\ns\r\n$1\r\n*\r\n$1\r\na\r\n$1\r\n2\r\n",
        5,
    );
    assert_eq!(reply_bytes(&out), b"$3\r\n5-1\r\n");
    let out = run(
        &mut store,
        &mut prim,
        &config,
        b"*5\r\n$4\r\nXADD\r\n$1\r\ns\r\n$3\r\n5-*\r\n$1\r\na\r\n$1\r\n3\r\n",
        9,
    );
    assert_eq!(reply_bytes(&out), b"$3\r\n5-2\r\n");
    let out = run(
        &mut store,
        &mut prim,
        &config,
        b"*5\r\n$4\r\nXADD\r\n$1\r\ns\r\n$4\r\nhuh?\r\n$1\r\na\r\n$1\r\n4\r\n",
        9,
    );
    assert_eq!(
        reply_bytes(&out),
        b"-ERR Invalid stream ID specified as stream command argument\r\n".to_vec()
    );
}
