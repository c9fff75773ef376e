//! The session's command handling: what each command answers and what it
//! does to the store and to the replication state. One call per decoded
//! command; the surrounding socket loop only decodes frames, calls in here,
//! and writes the answer out.

use vstd::prelude::*;
use vstd::string::StringSliceAdditionalSpecFns;

use crate::command::{
    spec_lower, spec_to_command, Command, CommandInfo, CommandV, XAddArgs, XRangArgs, XReadArgs,
    XReadSpec,
};
use crate::message::{msgs_view, Message, MessageV};
use crate::parser::{crlf, dec_digits, spec_find_byte, spec_parse_u64};
use crate::rdb::{empty_rdb, spec_config_value, Rdb, RdbConfig};
use crate::replica::PrimaryState;
use crate::store::{
    entry_live, in_xrange, type_name_none, Entry, ItemV, Store, StoreError,
};
use crate::stream::{
    id_lt, spec_format_id, spec_parse_id, spec_role_name, spec_flatten, Stream, StreamData,
    StreamId, StreamInfo,
};

verus! {

/// `PONG`, the PING answer.
pub open spec fn pong_text() -> Seq<u8> {
    "PONG".spec_bytes()
}

/// `OK`, the acknowledgement of SET, REPLCONF and friends.
pub open spec fn ok_text() -> Seq<u8> {
    "OK".spec_bytes()
}

/// The refusal of a command the session does not know or cannot read.
pub open spec fn msg_unknown() -> Seq<u8> {
    "ERR unknown command or wrong arguments".spec_bytes()
}

/// The refusal of an XADD whose id pattern denotes nothing.
pub open spec fn msg_bad_stream_id() -> Seq<u8> {
    "ERR Invalid stream ID specified as stream command argument".spec_bytes()
}

/// The refusal of an XRANGE whose bounds cannot be read or whose key holds
/// no stream.
pub open spec fn msg_bad_range() -> Seq<u8> {
    "ERR Unable to parse start ID".spec_bytes()
}

fn simple_from(lit: &str) -> (m: Message)
    ensures
        m@ == MessageV::Simple(lit.spec_bytes()),
{
    Message::Simple(vstd::string::StrSliceExecFns::as_bytes_vec(lit))
}

fn error_from(lit: &str) -> (m: Message)
    ensures
        m@ == MessageV::Error(lit.spec_bytes()),
{
    Message::Error(vstd::string::StrSliceExecFns::as_bytes_vec(lit))
}

/// Wraps byte strings as bulk frames, in order.
fn bulks_of(vals: Vec<Vec<u8>>) -> (r: Vec<Message>)
    ensures
        msgs_view(r@) == vals@.map_values(|v: Vec<u8>| MessageV::Bulk(v@)),
{
    let ghost target = vals@.map_values(|v: Vec<u8>| MessageV::Bulk(v@));
    let mut out: Vec<Message> = Vec::new();
    let mut i: usize = 0;
    proof {
        assert(msgs_view(out@) =~= target.take(0));
    }
    #[verifier::loop_isolation(false)]
    while i < vals.len()
        invariant
            i <= vals@.len(),
            target == vals@.map_values(|v: Vec<u8>| MessageV::Bulk(v@)),
            msgs_view(out@) == target.take(i as int),
        decreases vals@.len() - i,
    {
        let ghost prev = out@;
        out.push(Message::Bulk(vals[i].clone()));
        proof {
            crate::message::lemma_msgs_view_push(prev, out@.last());
            assert(target.take(i as int).push(target[i as int]) =~= target.take(i + 1));
        }
        i = i + 1;
    }
    proof {
        assert(target.take(target.len() as int) =~= target);
    }
    out
}

/// Answers PING.
pub fn process_ping() -> (r: Message)
    ensures
        r@ == MessageV::Simple(pong_text()),
{
    simple_from("PONG")
}

/// Answers ECHO: the message back, as a bulk string.
pub fn process_echo(message: Vec<u8>) -> (r: Message)
    ensures
        r@ == MessageV::Bulk(message@),
{
    Message::Bulk(message)
}

/// Answers GET: the scalar under the key as visible at `now`, or the null
/// bulk string for an absent, expired or stream-valued key.
pub fn process_get(store: &Store, key: &[u8], now: u64) -> (r: Message)
    ensures
        r@ == match store.spec_get(key@) {
            Some(ItemV::Scalar(e)) => if entry_live(e, now) {
                MessageV::Bulk(e.value)
            } else {
                MessageV::Null
            },
            _ => MessageV::Null,
        },
{
    match store.get_kv(key, now) {
        Some(entry) => Message::Bulk(entry.value.clone()),
        None => Message::Null,
    }
}

/// Answers SET: stores the entry under the key, overwriting any item of
/// either kind, and acknowledges with `OK`.
pub fn process_set(store: &mut Store, key: Vec<u8>, entry: Entry) -> (r: Message)
    requires
        old(store).wf(),
    ensures
        final(store).wf(),
        r@ == MessageV::Simple(ok_text()),
        final(store).spec_get(key@) == Some(ItemV::Scalar(entry@)),
        forall|k: Seq<u8>|
            k != key@ ==> #[trigger] final(store).spec_get(k) == old(store).spec_get(k),
{
    let _ = store.set_kv(key, entry);
    simple_from("OK")
}

/// Answers DEL: removes the listed keys and reports how many items existed.
pub fn process_del(store: &mut Store, keys: &Vec<Vec<u8>>) -> (r: Message)
    requires
        old(store).wf(),
    ensures
        final(store).wf(),
        r@ == MessageV::Int(
            clamp_i64(old(store).spec_del_count(keys@.map_values(|k: Vec<u8>| k@))),
        ),
        forall|k: Seq<u8>|
            #[trigger] final(store).spec_get(k) == if keys@.map_values(
                |kk: Vec<u8>| kk@,
            ).contains(k) {
                None
            } else {
                old(store).spec_get(k)
            },
{
    let count = store.del_keys(keys);
    Message::Int(clamped(count))
}

/// A count squeezed into a signed frame integer; realistic counts are far
/// below the clamp.
pub open spec fn clamp_i64(n: nat) -> int {
    if n > i64::MAX {
        i64::MAX as int
    } else {
        n as int
    }
}

fn clamped(n: usize) -> (r: i64)
    ensures
        r as int == clamp_i64(n as nat),
{
    if (n as u64) > i64::MAX as u64 {
        i64::MAX
    } else {
        n as i64
    }
}

/// The INFO replication section: the role, the replica count, the
/// replication id and the offset, one `name:value` per line.
pub open spec fn info_text(
    role: crate::stream::StreamType,
    replicas: u64,
    id: Seq<u8>,
    offset: u64,
) -> Seq<u8> {
    "# Replication\nrole:".spec_bytes() + spec_role_name(role)
        + "\nconnected_clients:".spec_bytes() + dec_digits(replicas as nat)
        + "\nmaster_replid:".spec_bytes() + id + "\nmaster_repl_offset:".spec_bytes()
        + dec_digits(offset as nat) + "\n".spec_bytes()
}

/// Answers INFO with the replication section.
pub fn process_info(info: &StreamInfo, replicas: u64) -> (r: Message)
    ensures
        r@ == MessageV::Bulk(info_text(info.role, replicas, info.id@, info.offset)),
{
    let mut text = vstd::string::StrSliceExecFns::as_bytes_vec("# Replication\nrole:");
    let mut role = info.role.name();
    text.append(&mut role);
    let mut l2 = vstd::string::StrSliceExecFns::as_bytes_vec("\nconnected_clients:");
    text.append(&mut l2);
    let mut count = crate::parser::u64_to_dec(replicas);
    text.append(&mut count);
    let mut l3 = vstd::string::StrSliceExecFns::as_bytes_vec("\nmaster_replid:");
    text.append(&mut l3);
    let mut id = info.id.clone();
    text.append(&mut id);
    let mut l4 = vstd::string::StrSliceExecFns::as_bytes_vec("\nmaster_repl_offset:");
    text.append(&mut l4);
    let mut off = crate::parser::u64_to_dec(info.offset);
    text.append(&mut off);
    let mut nl = vstd::string::StrSliceExecFns::as_bytes_vec("\n");
    text.append(&mut nl);
    Message::Bulk(text)
}

/// Answers REPLCONF on the primary: always `OK`.
pub fn process_replconf() -> (r: Message)
    ensures
        r@ == MessageV::Simple(ok_text()),
{
    simple_from("OK")
}

/// The FULLRESYNC announcement: the replication id, then offset 0.
pub open spec fn fullresync_text(id: Seq<u8>) -> Seq<u8> {
    "FULLRESYNC ".spec_bytes() + id + " 0".spec_bytes()
}

/// Answers PSYNC: announces a full resynchronisation at offset 0; the
/// snapshot blob follows out of band.
pub fn process_psync(info: &StreamInfo) -> (r: Message)
    ensures
        r@ == MessageV::Simple(fullresync_text(info.id@)),
{
    let mut text = vstd::string::StrSliceExecFns::as_bytes_vec("FULLRESYNC ");
    let mut id = info.id.clone();
    text.append(&mut id);
    let mut tail = vstd::string::StrSliceExecFns::as_bytes_vec(" 0");
    text.append(&mut tail);
    Message::Simple(text)
}

/// Answers CONFIG: only GET is supported, answering `[key, value]` or a
/// plain notice for an unknown key.
pub fn process_config(config: &RdbConfig, action: &[u8], key: Vec<u8>) -> (r: Message)
    ensures
        r@ == if spec_lower(action@) == "get".spec_bytes() {
            match spec_config_value(config, key@) {
                Some(v) => MessageV::Array(
                    seq![MessageV::Bulk(key@), MessageV::Bulk(v)],
                ),
                None => MessageV::Simple("Value not found".spec_bytes()),
            }
        } else {
            MessageV::Simple("Unsupported config action".spec_bytes())
        },
{
    let a = crate::command::lower_bytes(action);
    let get_lit = vstd::string::StrSliceExecFns::as_bytes_vec("get");
    if crate::store::compare_bytes(&a, get_lit.as_slice()) {
        match config.get_value(&key) {
            Some(value) => {
                let mut items: Vec<Message> = Vec::new();
                let ghost key_v = key@;
                let ghost value_v = value@;
                items.push(Message::Bulk(key));
                items.push(Message::Bulk(value));
                proof {
                    crate::message::lemma_msgs_view_len(items@);
                    assert(items@[0] matches Message::Bulk(p) && p@ == key_v);
                    assert(items@[1] matches Message::Bulk(p) && p@ == value_v);
                    assert(msgs_view(items@) =~= seq![
                        MessageV::Bulk(key_v),
                        MessageV::Bulk(value_v),
                    ]);
                }
                Message::Array(items)
            },
            None => simple_from("Value not found"),
        }
    } else {
        simple_from("Unsupported config action")
    }
}

/// Answers KEYS: all keys for the pattern `*`; any other pattern is
/// reported unsupported.
pub fn process_keys(store: &Store, pattern: &[u8]) -> (r: Message)
    ensures
        r@ == if pattern@ == seq![42u8] {
            MessageV::Array(
                store.assoc().map_values(|p: (Seq<u8>, ItemV)| MessageV::Bulk(p.0)),
            )
        } else {
            MessageV::Simple("Unsupported pattern".spec_bytes())
        },
{
    if pattern.len() == 1 && pattern[0] == 42 {
        proof {
            assert(pattern@ =~= seq![42u8]);
        }
        let keys = store.keys();
        let ghost keys_v = keys@;
        let items = bulks_of(keys);
        proof {
            let lhs = msgs_view(items@);
            let target = store.assoc().map_values(|p: (Seq<u8>, ItemV)| MessageV::Bulk(p.0));
            let key_seq = store.assoc().map_values(|p: (Seq<u8>, ItemV)| p.0);
            let km = keys_v.map_values(|k: Vec<u8>| k@);
            assert(km == key_seq);
            assert(km.len() == keys_v.len());
            assert(key_seq.len() == store.assoc().len());
            assert forall|j: int| 0 <= j < target.len() implies lhs[j] == target[j] by {
                assert(km[j] == keys_v[j]@);
                assert(key_seq[j] == store.assoc()[j].0);
                assert(lhs[j] == MessageV::Bulk(keys_v[j]@));
            }
            assert(lhs =~= target);
        }
        Message::Array(items)
    } else {
        proof {
            if pattern@ == seq![42u8] {
                assert(pattern@.len() == 1 && pattern@[0] == 42u8);
            }
        }
        simple_from("Unsupported pattern")
    }
}

/// The TYPE answer for a key at time `now`: `string` for a live scalar,
/// `stream` for a stream, `none` otherwise — expiry counts.
pub open spec fn spec_type_name(item: Option<ItemV>, now: u64) -> Seq<u8> {
    match item {
        Some(ItemV::Scalar(e)) => if entry_live(e, now) {
            crate::store::type_name_string()
        } else {
            type_name_none()
        },
        Some(ItemV::Stream(_)) => crate::store::type_name_stream(),
        None => type_name_none(),
    }
}

/// Answers TYPE.
pub fn process_type(store: &Store, key: &[u8], now: u64) -> (r: Message)
    ensures
        r@ == MessageV::Simple(spec_type_name(store.spec_get(key@), now)),
{
    match store.get_store_item(key) {
        Some(item) => {
            match item {
                crate::store::StoreItem::KeyValueEntry(e) => {
                    let live = match e.expiry_at {
                        Some(t) => now < t,
                        None => true,
                    };
                    if live {
                        Message::Simple(crate::store::EntryValue::value_type(item))
                    } else {
                        let mut v: Vec<u8> = Vec::new();
                        v.push(110u8);
                        v.push(111u8);
                        v.push(110u8);
                        v.push(101u8);
                        proof {
                            assert(v@ =~= type_name_none());
                        }
                        Message::Simple(v)
                    }
                },
                crate::store::StoreItem::Stream(_) => {
                    Message::Simple(crate::store::EntryValue::value_type(item))
                },
            }
        },
        None => {
            let mut v: Vec<u8> = Vec::new();
            v.push(110u8);
            v.push(111u8);
            v.push(110u8);
            v.push(101u8);
            proof {
                assert(v@ =~= type_name_none());
            }
            Message::Simple(v)
        },
    }
}

/// Answers XADD: derives the concrete id from the pattern, validates it
/// against the stream's newest entry, and appends. A pattern that denotes
/// nothing, the sentinel `0-0` or a non-increasing id is refused with the
/// documented error, leaving the store untouched.
pub fn process_xadd(store: &mut Store, args: XAddArgs, now: u64) -> (r: Message)
    requires
        old(store).wf(),
    ensures
        final(store).wf(),
        match crate::stream::spec_build_id(
            args.id@,
            old(store).spec_last_id(args.key@),
            now,
        ) {
            None => r@ == MessageV::Error(msg_bad_stream_id()) && *final(store) == *old(store),
            Some(id) => match crate::store::spec_validate(
                old(store).spec_get(args.key@),
                id,
            ) {
                Err(e) => {
                    &&& r@ == MessageV::Error(
                        match e {
                            StoreError::IdZero => crate::store::msg_id_zero(),
                            StoreError::IdNotGreater => crate::store::msg_id_not_greater(),
                        },
                    )
                    &&& *final(store) == *old(store)
                },
                Ok(_) => {
                    &&& r@ == MessageV::Bulk(spec_format_id(id))
                    &&& final(store).spec_get(args.key@) == Some(
                        ItemV::Stream(
                            match old(store).spec_get(args.key@) {
                                Some(ItemV::Stream(es)) => es.push((id, args.data@)),
                                _ => seq![(id, args.data@)],
                            },
                        ),
                    )
                    &&& forall|k: Seq<u8>|
                        k != args.key@ ==> #[trigger] final(store).spec_get(k) == old(store).spec_get(k)
                },
            },
        },
{
    let XAddArgs { key, id, data } = args;
    match store.generate_stream_id(&key, &id, now) {
        None => error_from("ERR Invalid stream ID specified as stream command argument"),
        Some(stream_id) => {
            match store.validate_stream(&key, stream_id) {
                Err(e) => Message::Error(e.message()),
                Ok(_) => {
                    let formatted = stream_id.format();
                    let _ = store.set_stream(key, stream_id, data);
                    Message::Bulk(formatted)
                },
            }
        },
    }
}

/// The XRANGE start bound a token denotes: `-` is unbounded, `5` means
/// `5-0`, `5-3` itself; an unreadable token denotes nothing.
pub open spec fn spec_xrange_start(s: Seq<u8>) -> Option<Option<StreamId>> {
    if s == seq![45u8] {
        Some(None)
    } else {
        match spec_parse_id(s) {
            Some(id) => Some(Some(id)),
            None => None,
        }
    }
}

/// The XRANGE end bound a token denotes: `+` is unbounded, a bare `5` means
/// `5-<max>`, `5-3` itself.
pub open spec fn spec_xrange_end(s: Seq<u8>) -> Option<Option<StreamId>> {
    if s == seq![43u8] {
        Some(None)
    } else {
        match spec_find_byte(s, 45u8, 0) {
            Some(_) => match spec_parse_id(s) {
                Some(id) => Some(Some(id)),
                None => None,
            },
            None => match spec_parse_u64(s) {
                Some(ms) => Some(Some(StreamId { ms, seq: u64::MAX })),
                None => None,
            },
        }
    }
}

/// Reads an XRANGE start token.
pub fn get_xrange_start(id: &[u8]) -> (r: Option<Option<StreamId>>)
    ensures
        r == spec_xrange_start(id@),
{
    if id.len() == 1 && id[0] == 45 {
        proof {
            assert(id@ =~= seq![45u8]);
        }
        return Some(None);
    }
    proof {
        if id@ == seq![45u8] {
            assert(id@.len() == 1 && id@[0] == 45u8);
        }
    }
    match StreamId::parse(id) {
        Some(sid) => Some(Some(sid)),
        None => None,
    }
}

/// Reads an XRANGE end token.
pub fn get_xrange_end(id: &[u8]) -> (r: Option<Option<StreamId>>)
    ensures
        r == spec_xrange_end(id@),
{
    if id.len() == 1 && id[0] == 43 {
        proof {
            assert(id@ =~= seq![43u8]);
        }
        return Some(None);
    }
    proof {
        if id@ == seq![43u8] {
            assert(id@.len() == 1 && id@[0] == 43u8);
        }
        crate::parser::lemma_find_byte_props(id@, 45u8, 0);
    }
    match crate::parser::find_byte(id, 45u8) {
        Some(_) => {
            match StreamId::parse(id) {
                Some(sid) => Some(Some(sid)),
                None => None,
            }
        },
        None => {
            match crate::parser::parse_u64(id) {
                Some(ms) => Some(Some(StreamId { ms, seq: u64::MAX })),
                None => None,
            }
        },
    }
}

/// One stream entry as XRANGE and XREAD frame it: the id, then the flat
/// field list.
pub open spec fn spec_entry_msg(e: (StreamId, Seq<(Seq<u8>, Seq<u8>)>)) -> MessageV {
    MessageV::Array(
        seq![
            MessageV::Bulk(spec_format_id(e.0)),
            MessageV::Array(spec_flatten(e.1).map_values(|f: Seq<u8>| MessageV::Bulk(f))),
        ],
    )
}

/// Frames one entry.
fn entry_message(id: StreamId, data: &StreamData) -> (m: Message)
    ensures
        m@ == spec_entry_msg((id, data@)),
{
    let flat = data.flatten();
    let ghost flat_v = flat@.map_values(|v: Vec<u8>| v@);
    let fields = bulks_of(flat);
    proof {
        assert(msgs_view(fields@) =~= spec_flatten(data@).map_values(
            |f: Seq<u8>| MessageV::Bulk(f),
        ));
    }
    let ghost fields_v = msgs_view(fields@);
    let mut items: Vec<Message> = Vec::new();
    items.push(Message::Bulk(id.format()));
    items.push(Message::Array(fields));
    proof {
        crate::message::lemma_msgs_view_len(items@);
        assert(items@[0] matches Message::Bulk(p) && p@ == spec_format_id(id));
        assert(items@[1] matches Message::Array(f) && msgs_view(f@) == fields_v);
        assert(msgs_view(items@) =~= seq![
            MessageV::Bulk(spec_format_id(id)),
            MessageV::Array(spec_flatten(data@).map_values(|f: Seq<u8>| MessageV::Bulk(f))),
        ]);
    }
    Message::Array(items)
}

/// Frames every entry of a stream, in order.
fn entries_messages(stream: &Stream) -> (r: Vec<Message>)
    ensures
        msgs_view(r@) == stream@.map_values(
            |e: (StreamId, Seq<(Seq<u8>, Seq<u8>)>)| spec_entry_msg(e),
        ),
{
    let ghost target = stream@.map_values(
        |e: (StreamId, Seq<(Seq<u8>, Seq<u8>)>)| spec_entry_msg(e),
    );
    let mut out: Vec<Message> = Vec::new();
    let mut i: usize = 0;
    proof {
        assert(msgs_view(out@) =~= target.take(0));
    }
    #[verifier::loop_isolation(false)]
    while i < stream.entries.len()
        invariant
            i <= stream.entries@.len(),
            target == stream@.map_values(
                |e: (StreamId, Seq<(Seq<u8>, Seq<u8>)>)| spec_entry_msg(e),
            ),
            target.len() == stream.entries@.len(),
            msgs_view(out@) == target.take(i as int),
        decreases stream.entries@.len() - i,
    {
        let ghost prev = out@;
        let m = entry_message(stream.entries[i].0, &stream.entries[i].1);
        out.push(m);
        proof {
            crate::message::lemma_msgs_view_push(prev, out@.last());
            assert(target[i as int] == spec_entry_msg(stream@[i as int]));
            assert(target.take(i as int).push(target[i as int]) =~= target.take(i + 1));
        }
        i = i + 1;
    }
    proof {
        assert(target.take(target.len() as int) =~= target);
    }
    out
}

/// Answers XRANGE: the entries within the bounds, framed; unreadable bounds
/// and keys not holding a stream are refused with the documented error.
pub fn process_xrange(store: &Store, args: &XRangArgs) -> (r: Message)
    ensures
        r@ == match (spec_xrange_start(args.start@), spec_xrange_end(args.end@)) {
            (Some(start), Some(end)) => match store.spec_get(args.key@) {
                Some(ItemV::Stream(es)) => MessageV::Array(
                    es.filter(
                        (|e: (StreamId, Seq<(Seq<u8>, Seq<u8>)>)| in_xrange(e.0, start, end)),
                    ).map_values(|e: (StreamId, Seq<(Seq<u8>, Seq<u8>)>)| spec_entry_msg(e)),
                ),
                _ => MessageV::Error(msg_bad_range()),
            },
            _ => MessageV::Error(msg_bad_range()),
        },
{
    let start = match get_xrange_start(&args.start) {
        Some(b) => b,
        None => {
            return error_from("ERR Unable to parse start ID");
        },
    };
    let end = match get_xrange_end(&args.end) {
        Some(b) => b,
        None => {
            return error_from("ERR Unable to parse start ID");
        },
    };
    match store.get_stream_range(&args.key, start, end) {
        None => error_from("ERR Unable to parse start ID"),
        Some(stream) => {
            let items = entries_messages(&stream);
            Message::Array(items)
        },
    }
}

/// Where one XREAD request starts: after the given id, or after the newest
/// id the stream held when the command arrived (`$`), taken as `0-0` for a
/// stream yet to exist.
pub open spec fn spec_xread_from(store: &Store, key: Seq<u8>, pos: XReadSpec) -> StreamId {
    match pos {
        XReadSpec::From(id) => id,
        XReadSpec::Latest => match store.spec_last_id(key) {
            Some(l) => l,
            None => StreamId { ms: 0, seq: 0 },
        },
    }
}

/// The XREAD reply items: for each requested stream that exists, `[key,
/// entries past the position]` — the entry list may be empty. Only requests
/// naming an absent key or a scalar contribute nothing.
pub open spec fn spec_xread_items(store: &Store, reqs: Seq<(Seq<u8>, XReadSpec)>) -> Seq<
    MessageV,
>
    decreases reqs.len(),
{
    if reqs.len() == 0 {
        Seq::empty()
    } else {
        let head = spec_xread_items(store, reqs.drop_last());
        let (key, pos) = reqs.last();
        head + match store.spec_get(key) {
            Some(ItemV::Stream(es)) => {
                let from = spec_xread_from(store, key, pos);
                let kept = es.filter(
                    (|e: (StreamId, Seq<(Seq<u8>, Seq<u8>)>)| id_lt(from, e.0)),
                );
                seq![
                    MessageV::Array(
                        seq![
                            MessageV::Bulk(key),
                            MessageV::Array(
                                kept.map_values(
                                    |e: (StreamId, Seq<(Seq<u8>, Seq<u8>)>)| spec_entry_msg(e),
                                ),
                            ),
                        ],
                    ),
                ]
            },
            _ => Seq::empty(),
        }
    }
}

/// Answers XREAD: for each requested stream that exists, its entries past
/// the position (possibly none); only absent streams are omitted. When no
/// requested stream exists at all, the answer is the null array.
pub fn process_xread(store: &Store, args: &XReadArgs) -> (r: Message)
    ensures
        r@ == (if spec_xread_items(store, args.requests_view()).len() == 0 {
            MessageV::NullArray
        } else {
            MessageV::Array(spec_xread_items(store, args.requests_view()))
        }),
{
    let ghost reqs = args.requests_view();
    let mut out: Vec<Message> = Vec::new();
    let mut i: usize = 0;
    proof {
        assert(reqs.take(0) =~= Seq::<(Seq<u8>, XReadSpec)>::empty());
        assert(msgs_view(out@) =~= spec_xread_items(store, reqs.take(0)));
    }
    #[verifier::loop_isolation(false)]
    while i < args.requests.len()
        invariant
            i <= args.requests@.len(),
            reqs == args.requests_view(),
            msgs_view(out@) == spec_xread_items(store, reqs.take(i as int)),
        decreases args.requests@.len() - i,
    {
        let key = &args.requests[i].0;
        let pos = args.requests[i].1;
        let from: StreamId = match pos {
            XReadSpec::From(id) => id,
            XReadSpec::Latest => {
                match store.get_stream(key.as_slice()) {
                    Some(stream) => {
                        match stream.last_id() {
                            Some(l) => l,
                            None => StreamId { ms: 0, seq: 0 },
                        }
                    },
                    None => {
                        proof {
                            match store.spec_get(key@) {
                                Some(ItemV::Stream(_)) => {
                                    assert(false);
                                },
                                _ => {},
                            }
                        }
                        StreamId { ms: 0, seq: 0 }
                    },
                }
            },
        };
        proof {
            assert(from == spec_xread_from(store, key@, pos));
            assert(reqs.take(i + 1).drop_last() =~= reqs.take(i as int));
            assert(reqs.take(i + 1).last() == reqs[i as int]);
        }
        let ghost prev = out@;
        match store.get_stream_after_id(key.as_slice(), &from) {
            None => {
                proof {
                    assert(msgs_view(out@) =~= spec_xread_items(store, reqs.take(i + 1)));
                }
            },
            Some(kept) => {
                let items = entries_messages(&kept);
                let ghost items_v = msgs_view(items@);
                let mut pair: Vec<Message> = Vec::new();
                pair.push(Message::Bulk(key.clone()));
                pair.push(Message::Array(items));
                proof {
                    crate::message::lemma_msgs_view_len(pair@);
                    assert(pair@[0] matches Message::Bulk(p) && p@ == key@);
                    assert(pair@[1] matches Message::Array(f) && msgs_view(f@) == items_v);
                    assert(msgs_view(pair@) =~= seq![
                        MessageV::Bulk(key@),
                        MessageV::Array(
                            kept@.map_values(
                                |e: (StreamId, Seq<(Seq<u8>, Seq<u8>)>)| spec_entry_msg(e),
                            ),
                        ),
                    ]);
                }
                out.push(Message::Array(pair));
                proof {
                    crate::message::lemma_msgs_view_push(prev, out@.last());
                    assert(msgs_view(out@) =~= spec_xread_items(store, reqs.take(i + 1)));
                }
            },
        }
        i = i + 1;
    }
    proof {
        assert(reqs.take(reqs.len() as int) =~= reqs);
    }
    if out.len() == 0 {
        Message::NullArray
    } else {
        Message::Array(out)
    }
}

/// What the session does after one command: the answer (or the need to
/// gather acknowledgements first, for WAIT), an out-of-band blob to write
/// after the answer (the PSYNC snapshot), and whether the connection turns
/// into a replica link or ends.
pub enum SessionReply {
    Ready(Message),
    AwaitAcks(u64, u64),
    Silent,
}

/// The full outcome of one command.
pub struct SessionOutcome {
    pub reply: SessionReply,
    pub blob: Option<Vec<u8>>,
    pub become_replica: bool,
    pub end: bool,
}

/// The session dispatcher.
pub struct Handler {}



/// What accepting one write does to the replication state: the wire form
/// joins the history and every attached link's queue, in arrival order, and
/// nothing else about the links moves.
pub open spec fn write_propagated(
    before: &PrimaryState,
    after: &PrimaryState,
    wire: Seq<u8>,
) -> bool {
    &&& after.history@ == before.history@.push(wire)
    &&& after.links@.len() == before.links@.len()
    &&& forall|i: int|
        0 <= i < before.links@.len() ==> {
            &&& (#[trigger] after.links@[i]).queue_view() == before.links@[i].queue_view().push(
                wire,
            )
            &&& after.links@[i].delivered@ == before.links@[i].delivered@
            &&& after.links@[i].attach@ == before.links@[i].attach@
            &&& after.links@[i].bytes_sent == before.links@[i].bytes_sent
            &&& after.links@[i].last_ack_offset == before.links@[i].last_ack_offset
        }
}

impl Handler {
    /// Dispatches one decoded command at time `now`. The answer (and, for
    /// PSYNC, the snapshot blob) goes back on the connection; a write also
    /// joins the replication history, advancing the primary's offset —
    /// which, like every step here, never decreases it.
    #[verifier::rlimit(50)]
    pub fn handle_command(
        store: &mut Store,
        prim: &mut PrimaryState,
        config: &RdbConfig,
        info: &CommandInfo,
        now: u64,
    ) -> (r: SessionOutcome)
        requires
            old(store).wf(),
            old(prim).wf(),
        ensures
            final(store).wf(),
            final(prim).wf(),
            final(prim).offset() >= old(prim).offset(),
            match spec_to_command(info.name@, info.args_view(), now) {
                None => {
                    &&& r.reply matches SessionReply::Ready(m) && m@ == MessageV::Error(
                        msg_unknown(),
                    )
                    &&& *final(store) == *old(store)
                    &&& *final(prim) == *old(prim)
                },
                Some(c) => match c {
                    CommandV::Ping => r.reply matches SessionReply::Ready(m) && m@
                        == MessageV::Simple(pong_text()) && *final(store) == *old(store)
                        && *final(prim) == *old(prim),
                    CommandV::Echo(msg) => r.reply matches SessionReply::Ready(m) && m@
                        == MessageV::Bulk(msg) && *final(store) == *old(store) && *final(prim) == *old(prim),
                    CommandV::Quit => r.reply is Silent && r.end && *final(store) == *old(store) && *final(prim) == *old(prim),
                    CommandV::SetValue(k, e) => {
                        &&& r.reply matches SessionReply::Ready(m) && m@ == MessageV::Simple(
                            ok_text(),
                        )
                        &&& final(store).spec_get(k) == Some(ItemV::Scalar(e))
                        &&& forall|k2: Seq<u8>|
                            k2 != k ==> #[trigger] final(store).spec_get(k2) == old(store).spec_get(k2)
                        &&& write_propagated(
                            old(prim),
                            final(prim),
                            crate::command::spec_command_wire(info.name@, info.args_view()),
                        )
                    },
                    CommandV::Get(k) => {
                        &&& r.reply matches SessionReply::Ready(m) && m@ == match old(store).spec_get(k) {
                            Some(ItemV::Scalar(e)) => if entry_live(e, now) {
                                MessageV::Bulk(e.value)
                            } else {
                                MessageV::Null
                            },
                            _ => MessageV::Null,
                        }
                        &&& *final(store) == *old(store)
                        &&& *final(prim) == *old(prim)
                    },
                    CommandV::Del(ks) => {
                        &&& r.reply matches SessionReply::Ready(m) && m@ == MessageV::Int(
                            clamp_i64(old(store).spec_del_count(ks)),
                        )
                        &&& forall|k2: Seq<u8>|
                            #[trigger] final(store).spec_get(k2) == if ks.contains(k2) {
                                None
                            } else {
                                old(store).spec_get(k2)
                            }
                        &&& write_propagated(
                            old(prim),
                            final(prim),
                            crate::command::spec_command_wire(info.name@, info.args_view()),
                        )
                    },
                    CommandV::Info => {
                        &&& r.reply matches SessionReply::Ready(m) && m@ == MessageV::Bulk(
                            info_text(
                                old(prim).info.role,
                                old(prim).links@.len() as u64,
                                old(prim).info.id@,
                                old(prim).info.offset,
                            ),
                        )
                        &&& *final(store) == *old(store)
                        &&& *final(prim) == *old(prim)
                    },
                    CommandV::Replconf(_) => r.reply matches SessionReply::Ready(m) && m@
                        == MessageV::Simple(ok_text()) && *final(store) == *old(store)
                        && *final(prim) == *old(prim),
                    CommandV::Psync => {
                        &&& r.reply matches SessionReply::Ready(m) && m@ == MessageV::Simple(
                            fullresync_text(old(prim).info.id@),
                        )
                        &&& r.blob matches Some(b) && b@ == seq![36u8] + dec_digits(88)
                            + crlf() + empty_rdb()
                        &&& r.become_replica
                        &&& final(prim).links@.len() == old(prim).links@.len() + 1
                        &&& forall|i: int|
                            0 <= i < old(prim).links@.len() ==> #[trigger] final(prim).links@[i] == old(prim).links@[i]
                        &&& final(prim).history@ == old(prim).history@
                        &&& *final(store) == *old(store)
                    },
                    CommandV::Wait(needed, timeout) => {
                        &&& *final(store) == *old(store)
                        &&& *final(prim) == *old(prim)
                        &&& if old(prim).offset() == 0 {
                            r.reply matches SessionReply::Ready(m) && m@ == MessageV::Int(
                                clamp_i64(old(prim).links@.len() as nat),
                            )
                        } else {
                            let acked = crate::replica::spec_count_acked(
                                old(prim).links@.map_values(
                                    |l: crate::replica::ReplicaLink| l.last_ack_offset,
                                ),
                                old(prim).offset(),
                            );
                            if acked >= needed {
                                r.reply matches SessionReply::Ready(m) && m@
                                    == MessageV::Int(clamp_i64(acked))
                            } else {
                                r.reply == SessionReply::AwaitAcks(needed, timeout)
                            }
                        }
                    },
                    CommandV::Config(action, key) => {
                        &&& r.reply matches SessionReply::Ready(m) && m@ == if spec_lower(
                            action,
                        ) == "get".spec_bytes() {
                            match spec_config_value(config, key) {
                                Some(v) => MessageV::Array(
                                    seq![MessageV::Bulk(key), MessageV::Bulk(v)],
                                ),
                                None => MessageV::Simple("Value not found".spec_bytes()),
                            }
                        } else {
                            MessageV::Simple("Unsupported config action".spec_bytes())
                        }
                        &&& *final(store) == *old(store)
                        &&& *final(prim) == *old(prim)
                    },
                    CommandV::Keys(p) => {
                        &&& r.reply matches SessionReply::Ready(m) && m@ == if p
                            == seq![42u8] {
                            MessageV::Array(
                                old(store).assoc().map_values(
                                    |q: (Seq<u8>, ItemV)| MessageV::Bulk(q.0),
                                ),
                            )
                        } else {
                            MessageV::Simple("Unsupported pattern".spec_bytes())
                        }
                        &&& *final(store) == *old(store)
                        &&& *final(prim) == *old(prim)
                    },
                    CommandV::Type(k) => {
                        &&& r.reply matches SessionReply::Ready(m) && m@ == MessageV::Simple(
                            spec_type_name(old(store).spec_get(k), now),
                        )
                        &&& *final(store) == *old(store)
                        &&& *final(prim) == *old(prim)
                    },
                    CommandV::XAdd { key, id, data } => {
                        &&& *final(prim) == *old(prim)
                        &&& match crate::stream::spec_build_id(
                            id,
                            old(store).spec_last_id(key),
                            now,
                        ) {
                            None => r.reply matches SessionReply::Ready(m) && m@
                                == MessageV::Error(msg_bad_stream_id()) && *final(store)
                                == *old(store),
                            Some(sid) => match crate::store::spec_validate(
                                old(store).spec_get(key),
                                sid,
                            ) {
                                Err(e) => r.reply matches SessionReply::Ready(m) && m@
                                    == MessageV::Error(
                                    match e {
                                        StoreError::IdZero => crate::store::msg_id_zero(),
                                        StoreError::IdNotGreater => crate::store::msg_id_not_greater(),
                                    },
                                ) && *final(store) == *old(store),
                                Ok(_) => {
                                    &&& r.reply matches SessionReply::Ready(m) && m@
                                        == MessageV::Bulk(spec_format_id(sid))
                                    &&& final(store).spec_get(key) == Some(
                                        ItemV::Stream(
                                            match old(store).spec_get(key) {
                                                Some(ItemV::Stream(es)) => es.push((sid, data)),
                                                _ => seq![(sid, data)],
                                            },
                                        ),
                                    )
                                    &&& forall|k2: Seq<u8>|
                                        k2 != key ==> #[trigger] final(store).spec_get(k2)
                                            == old(store).spec_get(k2)
                                },
                            },
                        }
                    },
                    CommandV::XRange { key, start, end } => {
                        &&& r.reply matches SessionReply::Ready(m) && m@ == match (
                            spec_xrange_start(start),
                            spec_xrange_end(end),
                        ) {
                            (Some(st), Some(en)) => match old(store).spec_get(key) {
                                Some(ItemV::Stream(es)) => MessageV::Array(
                                    es.filter(
                                        (|e: (StreamId, Seq<(Seq<u8>, Seq<u8>)>)| in_xrange(
                                            e.0,
                                            st,
                                            en,
                                        )),
                                    ).map_values(
                                        |e: (StreamId, Seq<(Seq<u8>, Seq<u8>)>)| spec_entry_msg(e),
                                    ),
                                ),
                                _ => MessageV::Error(msg_bad_range()),
                            },
                            _ => MessageV::Error(msg_bad_range()),
                        }
                        &&& *final(store) == *old(store)
                        &&& *final(prim) == *old(prim)
                    },
                    CommandV::XRead(reqs) => {
                        &&& r.reply matches SessionReply::Ready(m) && m@ == (
                        if spec_xread_items(old(store), reqs).len() == 0 {
                            MessageV::NullArray
                        } else {
                            MessageV::Array(spec_xread_items(old(store), reqs))
                        })
                        &&& *final(store) == *old(store)
                        &&& *final(prim) == *old(prim)
                    },
                },
            },
    {
        let cmd = match info.to_command(now) {
            Some(cmd) => cmd,
            None => {
                return SessionOutcome {
                    reply: SessionReply::Ready(
                        error_from("ERR unknown command or wrong arguments"),
                    ),
                    blob: None,
                    become_replica: false,
                    end: false,
                };
            },
        };
        let outcome = match cmd {
            Command::Ping => SessionOutcome {
                reply: SessionReply::Ready(process_ping()),
                blob: None,
                become_replica: false,
                end: false,
            },
            Command::Echo(msg) => SessionOutcome {
                reply: SessionReply::Ready(process_echo(msg)),
                blob: None,
                become_replica: false,
                end: false,
            },
            Command::Quit => SessionOutcome {
                reply: SessionReply::Silent,
                blob: None,
                become_replica: false,
                end: true,
            },
            Command::SetValue(key, entry) => {
                let reply = process_set(store, key, entry);
                let wire = info.encode();
                prim.accept_write(&wire);
                SessionOutcome {
                    reply: SessionReply::Ready(reply),
                    blob: None,
                    become_replica: false,
                    end: false,
                }
            },
            Command::Get(key) => SessionOutcome {
                reply: SessionReply::Ready(process_get(store, key.as_slice(), now)),
                blob: None,
                become_replica: false,
                end: false,
            },
            Command::Del(keys) => {
                let reply = process_del(store, &keys);
                let wire = info.encode();
                prim.accept_write(&wire);
                SessionOutcome {
                    reply: SessionReply::Ready(reply),
                    blob: None,
                    become_replica: false,
                    end: false,
                }
            },
            Command::Info => SessionOutcome {
                reply: SessionReply::Ready(
                    process_info(&prim.info, prim.count_replicas() as u64),
                ),
                blob: None,
                become_replica: false,
                end: false,
            },
            Command::Replconf(_) => SessionOutcome {
                reply: SessionReply::Ready(process_replconf()),
                blob: None,
                become_replica: false,
                end: false,
            },
            Command::Psync => {
                let reply = process_psync(&prim.info);
                prim.add_link();
                SessionOutcome {
                    reply: SessionReply::Ready(reply),
                    blob: Some(Rdb::get_empty()),
                    become_replica: true,
                    end: false,
                }
            },
            Command::Wait(needed, timeout) => {
                // Read the link count first: its being a machine integer
                // bounds the counts the clamp proof below works with.
                let _link_count = prim.count_replicas();
                let ghost acked_spec = crate::replica::spec_count_acked(
                    prim.links@.map_values(
                        |l: crate::replica::ReplicaLink| l.last_ack_offset,
                    ),
                    prim.offset(),
                );
                match prim.wait_immediate(needed) {
                    Some(count) => {
                        proof {
                            assert(acked_spec <= prim.links@.len());
                            if prim.offset() == 0 {
                                assert(count == prim.links@.len());
                            } else {
                                assert(acked_spec >= needed);
                                assert(count as nat == acked_spec);
                            }
                        }
                        let msg = Message::Int(clamped(count));
                        proof {
                            assert(msg@ == MessageV::Int(clamp_i64(count as nat)));
                        }
                        SessionOutcome {
                            reply: SessionReply::Ready(msg),
                            blob: None,
                            become_replica: false,
                            end: false,
                        }
                    },
                    None => SessionOutcome {
                        reply: SessionReply::AwaitAcks(needed, timeout),
                        blob: None,
                        become_replica: false,
                        end: false,
                    },
                }
            },
            Command::Config(action, key) => SessionOutcome {
                reply: SessionReply::Ready(process_config(config, action.as_slice(), key)),
                blob: None,
                become_replica: false,
                end: false,
            },
            Command::Keys(pattern) => SessionOutcome {
                reply: SessionReply::Ready(process_keys(store, pattern.as_slice())),
                blob: None,
                become_replica: false,
                end: false,
            },
            Command::Type(key) => SessionOutcome {
                reply: SessionReply::Ready(process_type(store, key.as_slice(), now)),
                blob: None,
                become_replica: false,
                end: false,
            },
            Command::XAdd(args) => SessionOutcome {
                reply: SessionReply::Ready(process_xadd(store, args, now)),
                blob: None,
                become_replica: false,
                end: false,
            },
            Command::XRange(args) => SessionOutcome {
                reply: SessionReply::Ready(process_xrange(store, &args)),
                blob: None,
                become_replica: false,
                end: false,
            },
            Command::XRead(args) => SessionOutcome {
                reply: SessionReply::Ready(process_xread(store, &args)),
                blob: None,
                become_replica: false,
                end: false,
            },
        };
        outcome
    }
}


} // verus!
