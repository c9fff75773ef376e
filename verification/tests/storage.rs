use redis_core::rdb::Rdb;
use redis_core::store::{Entry, EntryValue, Store, StoreItem};
use redis_core::stream::{build_stream_id, Stream, StreamData, StreamId};

#[test]
fn set_overwrites_either_kind() {
    let mut store = Store::new();
    store.set_kv(b"k".to_vec(), Entry::new(b"one".to_vec(), None, 0)).unwrap();
    store.set_kv(b"k".to_vec(), Entry::new(b"two".to_vec(), None, 0)).unwrap();
    assert_eq!(store.get_kv(b"k", 0).unwrap().value, b"two");
    assert_eq!(store.len(), 1);
    store
        .set_stream(
            b"s".to_vec(),
            StreamId { ms: 1, seq: 1 },
            StreamData { data: vec![(b"f".to_vec(), b"v".to_vec())] },
        )
        .unwrap();
    assert!(store.get_kv(b"s", 0).is_none());
    store.set_kv(b"s".to_vec(), Entry::new(b"scalar".to_vec(), None, 0)).unwrap();
    assert_eq!(store.get_kv(b"s", 0).unwrap().value, b"scalar");
}

#[test]
fn expiry_is_absolute_and_saturating() {
    let entry = Entry::new(b"v".to_vec(), Some(100), 1_000);
    assert_eq!(entry.expiry_at, Some(1_100));
    assert_eq!(entry.expiry_time, Some(100));
    let saturated = Entry::new(b"v".to_vec(), Some(u64::MAX), 5);
    assert_eq!(saturated.expiry_at, Some(u64::MAX));
}

#[test]
fn get_kv_hides_streams_and_expired_entries() {
    let mut store = Store::new();
    store.set_kv(b"k".to_vec(), Entry::new(b"v".to_vec(), Some(10), 0)).unwrap();
    assert!(store.get_kv(b"k", 9).is_some());
    assert!(store.get_kv(b"k", 10).is_none());
    assert!(store.get_kv(b"missing", 0).is_none());
}

#[test]
fn del_removes_and_reports() {
    let mut store = Store::new();
    store.set_kv(b"a".to_vec(), Entry::new(b"1".to_vec(), None, 0)).unwrap();
    assert!(store.del(b"a"));
    assert!(!store.del(b"a"));
    assert!(store.is_empty());
}

#[test]
fn keys_come_back_in_insertion_order() {
    let mut store = Store::new();
    store.set_kv(b"b".to_vec(), Entry::new(b"1".to_vec(), None, 0)).unwrap();
    store.set_kv(b"a".to_vec(), Entry::new(b"2".to_vec(), None, 0)).unwrap();
    let keys = store.keys();
    assert_eq!(keys, vec![b"b".to_vec(), b"a".to_vec()]);
}

#[test]
fn stream_ids_order_lexicographically() {
    let a = StreamId { ms: 1, seq: 9 };
    let b = StreamId { ms: 2, seq: 0 };
    let c = StreamId { ms: 2, seq: 1 };
    assert!(a.lt(&b));
    assert!(b.lt(&c));
    assert!(!c.lt(&b));
    assert!(b.le(&b));
}

#[test]
fn stream_id_parsing_and_formatting() {
    assert_eq!(StreamId::parse(b"5-3"), Some(StreamId { ms: 5, seq: 3 }));
    assert_eq!(StreamId::parse(b"7"), Some(StreamId { ms: 7, seq: 0 }));
    assert_eq!(StreamId::parse(b"x-1"), None);
    assert_eq!(StreamId { ms: 12, seq: 34 }.format(), b"12-34");
}

#[test]
fn id_patterns_derive_concrete_ids() {
    let last = StreamId { ms: 5, seq: 2 };
    assert_eq!(build_stream_id(b"5-3", Some(&last), 99), Some(StreamId { ms: 5, seq: 3 }));
    assert_eq!(build_stream_id(b"5-*", Some(&last), 99), Some(StreamId { ms: 5, seq: 3 }));
    assert_eq!(build_stream_id(b"6-*", Some(&last), 99), Some(StreamId { ms: 6, seq: 0 }));
    assert_eq!(build_stream_id(b"*", Some(&last), 99), Some(StreamId { ms: 99, seq: 0 }));
    assert_eq!(build_stream_id(b"*", None, 0), Some(StreamId { ms: 0, seq: 1 }));
    assert_eq!(build_stream_id(b"0-*", None, 7), Some(StreamId { ms: 0, seq: 1 }));
    assert_eq!(build_stream_id(b"nope", None, 0), None);
    let maxed = StreamId { ms: 5, seq: u64::MAX };
    assert_eq!(build_stream_id(b"5-*", Some(&maxed), 99), None);
}

#[test]
fn appended_ids_strictly_increase() {
    let mut store = Store::new();
    let key = b"s".to_vec();
    for (ms, seq) in [(1u64, 1u64), (1, 2), (3, 0)] {
        let id = StreamId { ms, seq };
        assert!(store.validate_stream(&key, id).is_ok());
        store
            .set_stream(key.clone(), id, StreamData { data: Vec::new() })
            .unwrap();
    }
    let stream = store.get_stream(&key).unwrap();
    for w in stream.entries.windows(2) {
        assert!(w[0].0.lt(&w[1].0));
    }
    assert!(store.validate_stream(&key, StreamId { ms: 2, seq: 5 }).is_err());
    assert!(store.validate_stream(&key, StreamId { ms: 0, seq: 0 }).is_err());
    assert!(store.validate_stream(&key, StreamId { ms: 3, seq: 1 }).is_ok());
}

#[test]
fn stream_reads_filter_by_id() {
    let mut store = Store::new();
    let key = b"s".to_vec();
    for seq in 1..=4u64 {
        store
            .set_stream(
                key.clone(),
                StreamId { ms: 1, seq },
                StreamData { data: vec![(b"n".to_vec(), vec![48 + seq as u8])] },
            )
            .unwrap();
    }
    let range = store
        .get_stream_range(
            &key,
            Some(StreamId { ms: 1, seq: 2 }),
            Some(StreamId { ms: 1, seq: 3 }),
        )
        .unwrap();
    let ids: Vec<u64> = range.entries.iter().map(|e| e.0.seq).collect();
    assert_eq!(ids, vec![2, 3]);
    let after = store.get_stream_after_id(&key, &StreamId { ms: 1, seq: 2 }).unwrap();
    let ids: Vec<u64> = after.entries.iter().map(|e| e.0.seq).collect();
    assert_eq!(ids, vec![3, 4]);
    assert!(store.get_stream_range(b"missing", None, None).is_none());
}

#[test]
fn flatten_preserves_field_order() {
    let data = StreamData {
        data: vec![
            (b"first".to_vec(), b"1".to_vec()),
            (b"second".to_vec(), b"2".to_vec()),
            (b"first".to_vec(), b"3".to_vec()),
        ],
    };
    let flat = data.flatten();
    assert_eq!(
        flat,
        vec![
            b"first".to_vec(),
            b"1".to_vec(),
            b"second".to_vec(),
            b"2".to_vec(),
            b"first".to_vec(),
            b"3".to_vec(),
        ]
    );
}

#[test]
fn empty_stream_constructors() {
    let s = Stream::empty();
    assert!(s.entries.is_empty());
    assert!(s.last_id().is_none());
}

fn sample_snapshot() -> Vec<u8> {
    let mut data = Vec::new();
    data.extend_from_slice(b"REDIS0011");
    data.extend_from_slice(&[0xFE, 0x00]);
    data.extend_from_slice(&[0xFB, 0x02, 0x00]);
    // plain record: type 0, key "foo", value "bar"
    data.push(0x00);
    data.push(3);
    data.extend_from_slice(b"foo");
    data.push(3);
    data.extend_from_slice(b"bar");
    // record with a millisecond expiry of 2000
    data.push(0xFC);
    data.extend_from_slice(&2000u64.to_le_bytes());
    data.push(0x00);
    data.push(3);
    data.extend_from_slice(b"ttl");
    data.push(3);
    data.extend_from_slice(b"yes");
    data.push(0xFF);
    data.extend_from_slice(&[0; 8]);
    data
}

#[test]
fn snapshot_records_load_with_expiry() {
    let mut store = Store::new();
    store.import_rdb(&sample_snapshot(), 100).unwrap();
    assert_eq!(store.get_kv(b"foo", 100).unwrap().value, b"bar");
    assert_eq!(store.get_kv(b"ttl", 100).unwrap().value, b"yes");
    assert_eq!(store.get_kv(b"ttl", 100).unwrap().expiry_at, Some(2000));
    assert!(store.get_kv(b"ttl", 2000).is_none());
}

#[test]
fn snapshot_entries_past_expiry_are_dropped_at_load() {
    let mut store = Store::new();
    store.import_rdb(&sample_snapshot(), 5_000).unwrap();
    assert_eq!(store.get_kv(b"foo", 5_000).unwrap().value, b"bar");
    assert!(store.get_store_item(b"ttl").is_none());
}

#[test]
fn snapshot_without_magic_or_db_loads_nothing() {
    let mut store = Store::new();
    store.import_rdb(b"NOTRDB", 0).unwrap();
    assert!(store.is_empty());
    store.import_rdb(b"REDIS0011no selector here", 0).unwrap();
    assert!(store.is_empty());
}

#[test]
fn snapshot_with_unsupported_type_is_refused() {
    let mut data = Vec::new();
    data.extend_from_slice(b"REDIS0011");
    data.extend_from_slice(&[0xFE, 0x00, 0xFB, 0x00, 0x00]);
    data.push(0x09); // a value type the reader does not support
    data.push(0xFF);
    let mut store = Store::new();
    assert!(store.import_rdb(&data, 0).is_err());
    assert!(store.is_empty());
}

#[test]
fn empty_snapshot_parses_as_empty() {
    let framed = Rdb::get_empty();
    assert!(framed.starts_with(b"$88\r\n"));
    let mut store = Store::new();
    store.import_rdb(&framed[5..], 0).unwrap();
    assert!(store.is_empty());
}

#[test]
fn type_names_match_the_wire_words() {
    let scalar = StoreItem::KeyValueEntry(Entry::new(b"v".to_vec(), None, 0));
    assert_eq!(scalar.value_type(), b"string");
    let stream = StoreItem::Stream(Stream::empty());
    assert_eq!(stream.value_type(), b"stream");
}

#[test]
fn length_encodings_cover_the_three_sizes() {
    let mut marker = 0usize;
    assert_eq!(
        redis_core::rdb::read_length_encoded_int(&[0x2A], &mut marker),
        Some(42)
    );
    assert_eq!(marker, 1);
    marker = 0;
    assert_eq!(
        redis_core::rdb::read_length_encoded_int(&[0x41, 0x02], &mut marker),
        Some(258)
    );
    assert_eq!(marker, 2);
    marker = 0;
    assert_eq!(
        redis_core::rdb::read_length_encoded_int(&[0x80, 0x00, 0x01, 0x00, 0x00], &mut marker),
        Some(65536)
    );
    assert_eq!(marker, 5);
    marker = 0;
    assert_eq!(
        redis_core::rdb::read_length_encoded_int(&[0xC0, 0x0A], &mut marker),
        None
    );
}
