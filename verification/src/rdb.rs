//! The snapshot reader: a compact binary format holding key/value records
//! with optional expiry, consumed when a replica bootstraps or the process
//! loads a snapshot at startup. Also the built-in empty snapshot a primary
//! answers PSYNC with, already framed for the wire.

use vstd::prelude::*;
use vstd::string::StringSliceAdditionalSpecFns;

use crate::parser::{crlf, dec_digits};
use crate::store::{entry_live, Entry, EntryV, ItemV, Store};

verus! {

/// Where snapshots are read from, as CONFIG GET reports it.
#[derive(Debug)]
pub struct RdbConfig {
    pub dir: Option<Vec<u8>>,
    pub dbfilename: Option<Vec<u8>>,
}

impl RdbConfig {
    /// A configuration with nothing set.
    pub fn new() -> (r: RdbConfig)
        ensures
            r.dir is None,
            r.dbfilename is None,
    {
        RdbConfig { dir: None, dbfilename: None }
    }

    /// The value of a configuration key, case-insensitively: `dir` or
    /// `dbfilename`.
    pub fn get_value(&self, key: &[u8]) -> (r: Option<Vec<u8>>)
        ensures
            match r {
                Some(v) => spec_config_value(self, key@) matches Some(w) && v@ == w,
                None => spec_config_value(self, key@) is None,
            },
    {
        let k = crate::command::lower_bytes(key);
        let dir_lit = vstd::string::StrSliceExecFns::as_bytes_vec("dir");
        let file_lit = vstd::string::StrSliceExecFns::as_bytes_vec("dbfilename");
        if crate::store::compare_bytes(&k, dir_lit.as_slice()) {
            match &self.dir {
                Some(v) => Some(v.clone()),
                None => None,
            }
        } else if crate::store::compare_bytes(&k, file_lit.as_slice()) {
            match &self.dbfilename {
                Some(v) => Some(v.clone()),
                None => None,
            }
        } else {
            None
        }
    }
}

/// What CONFIG GET answers for a key.
pub open spec fn spec_config_value(config: &RdbConfig, key: Seq<u8>) -> Option<Seq<u8>> {
    let k = crate::command::spec_lower(key);
    if k == "dir".spec_bytes() {
        match config.dir {
            Some(v) => Some(v@),
            None => None,
        }
    } else if k == "dbfilename".spec_bytes() {
        match config.dbfilename {
            Some(v) => Some(v@),
            None => None,
        }
    } else {
        None
    }
}

/// The built-in empty snapshot: magic, version, a few metadata fields, the
/// end marker and its checksum — and nothing else.
pub open spec fn empty_rdb() -> Seq<u8> {
    seq![
        82u8, 69u8, 68u8, 73u8, 83u8, 48u8, 48u8, 49u8, 49u8, 250u8, 9u8, 114u8, 101u8,
        100u8, 105u8, 115u8, 45u8, 118u8, 101u8, 114u8, 5u8, 55u8, 46u8, 50u8, 46u8, 48u8,
        250u8, 10u8, 114u8, 101u8, 100u8, 105u8, 115u8, 45u8, 98u8, 105u8, 116u8, 115u8,
        192u8, 64u8, 250u8, 5u8, 99u8, 116u8, 105u8, 109u8, 101u8, 194u8, 109u8, 8u8, 188u8,
        101u8, 250u8, 8u8, 117u8, 115u8, 101u8, 100u8, 45u8, 109u8, 101u8, 109u8, 194u8,
        176u8, 196u8, 16u8, 0u8, 250u8, 8u8, 97u8, 111u8, 102u8, 45u8, 98u8, 97u8, 115u8,
        101u8, 192u8, 0u8, 255u8, 240u8, 110u8, 59u8, 254u8, 192u8, 255u8, 90u8, 162u8,
    ]
}

/// The snapshot reader and the snapshot the primary serves.
#[derive(Debug)]
pub struct Rdb {}

impl Rdb {
    /// The empty snapshot, framed for the PSYNC reply: `$<len>` CR LF and
    /// the raw bytes, with no terminator after them.
    pub fn get_empty() -> (r: Vec<u8>)
        ensures
            r@ == seq![36u8] + dec_digits(88) + crlf() + empty_rdb(),
    {
        let payload: [u8; 88] = [
            82u8, 69u8, 68u8, 73u8, 83u8, 48u8, 48u8, 49u8, 49u8, 250u8, 9u8, 114u8, 101u8,
            100u8, 105u8, 115u8, 45u8, 118u8, 101u8, 114u8, 5u8, 55u8, 46u8, 50u8, 46u8,
            48u8, 250u8, 10u8, 114u8, 101u8, 100u8, 105u8, 115u8, 45u8, 98u8, 105u8, 116u8,
            115u8, 192u8, 64u8, 250u8, 5u8, 99u8, 116u8, 105u8, 109u8, 101u8, 194u8, 109u8,
            8u8, 188u8, 101u8, 250u8, 8u8, 117u8, 115u8, 101u8, 100u8, 45u8, 109u8, 101u8,
            109u8, 194u8, 176u8, 196u8, 16u8, 0u8, 250u8, 8u8, 97u8, 111u8, 102u8, 45u8,
            98u8, 97u8, 115u8, 101u8, 192u8, 0u8, 255u8, 240u8, 110u8, 59u8, 254u8, 192u8,
            255u8, 90u8, 162u8,
        ];
        let mut out: Vec<u8> = Vec::new();
        out.push(36u8);
        out.push(56u8);
        out.push(56u8);
        out.push(crate::parser::CR);
        out.push(crate::parser::LF);
        let mut body = vstd::slice::slice_to_vec(payload.as_slice());
        out.append(&mut body);
        proof {
            reveal_with_fuel(dec_digits, 3);
            assert(dec_digits(88) =~= seq![56u8, 56u8]);
            assert(out@ =~= seq![36u8] + dec_digits(88) + crlf() + empty_rdb());
        }
        out
    }
}

/// One key/value record read from a snapshot: the absolute expiry if the
/// record carried one, the key and the value.
pub struct RdbRecord {
    pub expiry: Option<u64>,
    pub key: Seq<u8>,
    pub value: Seq<u8>,
}

/// A length field: single byte below 64; two bytes up to 14 bits; a marker
/// byte then four big-endian bytes; the remaining form (integers, compressed
/// strings) is not read.
pub open spec fn spec_rdb_len(s: Seq<u8>, m: nat) -> Option<(u64, nat)> {
    if m >= s.len() {
        None
    } else {
        let b = s[m as int];
        if b < 64 {
            Some(((b as u64), 1nat))
        } else if b < 128 {
            if m + 2 <= s.len() {
                Some(((((b - 64) as u64) * 256 + s[m as int + 1]) as u64, 2nat))
            } else {
                None
            }
        } else if b < 192 {
            if m + 5 <= s.len() {
                Some(
                    (
                        (s[m as int + 1] as u64 * 0x1000000 + s[m as int + 2] as u64 * 0x10000
                            + s[m as int + 3] as u64 * 0x100 + s[m as int + 4] as u64) as u64,
                        5nat,
                    ),
                )
            } else {
                None
            }
        } else {
            None
        }
    }
}

/// A length-prefixed byte string.
pub open spec fn spec_rdb_string(s: Seq<u8>, m: nat) -> Option<(Seq<u8>, nat)> {
    match spec_rdb_len(s, m) {
        None => None,
        Some((len, used)) => if m + used + len <= s.len() {
            Some(
                (
                    s.subrange((m + used) as int, (m + used + len) as int),
                    (used + len) as nat,
                ),
            )
        } else {
            None
        },
    }
}

/// The little-endian value of eight bytes.
pub open spec fn spec_le64(s: Seq<u8>, m: int) -> u64 {
    (s[m] as u64 + s[m + 1] as u64 * 0x100 + s[m + 2] as u64 * 0x10000 + s[m + 3] as u64
        * 0x1000000 + s[m + 4] as u64 * 0x100000000 + s[m + 5] as u64 * 0x10000000000 + s[m
        + 6] as u64 * 0x1000000000000 + s[m + 7] as u64 * 0x100000000000000) as u64
}

/// The little-endian value of four bytes.
pub open spec fn spec_le32(s: Seq<u8>, m: int) -> u64 {
    (s[m] as u64 + s[m + 1] as u64 * 0x100 + s[m + 2] as u64 * 0x10000 + s[m + 3] as u64
        * 0x1000000) as u64
}

/// One record at position `m`: an optional expiry prefix (milliseconds from
/// eight bytes, or seconds from four), the scalar type byte, then the key
/// and value. Any other value type is refused.
pub open spec fn spec_rdb_record(s: Seq<u8>, m: nat) -> Option<(RdbRecord, nat)> {
    if m >= s.len() {
        None
    } else {
        let b = s[m as int];
        let header: Option<(Option<u64>, nat)> = if b == 252 {
            if m + 9 <= s.len() {
                Some((Some(spec_le64(s, m as int + 1)), 9nat))
            } else {
                None
            }
        } else if b == 253 {
            if m + 5 <= s.len() {
                if spec_le32(s, m as int + 1) * 1000 <= u64::MAX {
                    Some((Some((spec_le32(s, m as int + 1) * 1000) as u64), 5nat))
                } else {
                    None
                }
            } else {
                None
            }
        } else {
            Some((None, 0nat))
        };
        match header {
            None => None,
            Some((expiry, h)) => {
                let t = m + h;
                if t < s.len() && s[t as int] == 0 {
                    match spec_rdb_string(s, (t + 1) as nat) {
                        None => None,
                        Some((key, kused)) => match spec_rdb_string(s, (t + 1 + kused) as nat) {
                            None => None,
                            Some((value, vused)) => Some(
                                (
                                    RdbRecord { expiry, key, value },
                                    (h + 1 + kused + vused) as nat,
                                ),
                            ),
                        },
                    }
                } else {
                    None
                }
            },
        }
    }
}

/// The records from position `m` to the end marker `0xFF`; nothing if a
/// record is unreadable or the marker never comes.
pub open spec fn spec_rdb_records(s: Seq<u8>, m: nat) -> Option<Seq<RdbRecord>>
    decreases s.len() - m,
    when m <= s.len()
{
    if m >= s.len() {
        None
    } else if s[m as int] == 255 {
        Some(Seq::empty())
    } else {
        match spec_rdb_record(s, m) {
            None => None,
            Some((rec, used)) => {
                let step = if used < 1 {
                    1nat
                } else if m + used > s.len() {
                    (s.len() - m) as nat
                } else {
                    used
                };
                match spec_rdb_records(s, (m + step) as nat) {
                    None => None,
                    Some(rest) => Some(seq![rec] + rest),
                }
            },
        }
    }
}

/// Index of the first database selector `0xFE <db>` at or after `from`: the
/// position of the `0xFE` byte.
pub open spec fn spec_find_selector(s: Seq<u8>, db: u8, from: nat) -> Option<nat>
    decreases s.len() - from,
    when from <= s.len()
{
    if from + 2 > s.len() {
        None
    } else if s[from as int] == 254 && s[from as int + 1] == db {
        Some(from)
    } else {
        spec_find_selector(s, db, from + 1)
    }
}

/// Position after the optional resizedb marker `0xFB` and its two length
/// fields; nothing if the marker is present but the lengths are unreadable.
pub open spec fn spec_skip_resize(s: Seq<u8>, m: nat) -> Option<nat> {
    if m < s.len() && s[m as int] == 251 {
        match spec_rdb_len(s, m + 1) {
            None => None,
            Some((_, c1)) => match spec_rdb_len(s, (m + 1 + c1) as nat) {
                None => None,
                Some((_, c2)) => Some((m + 1 + c1 + c2) as nat),
            },
        }
    } else {
        Some(m)
    }
}

/// What a snapshot holds: no database at all (not a snapshot, or none
/// selected) — nothing to load; a record list; or a malformed body.
pub enum RdbOutcome {
    NoDb,
    Records(Seq<RdbRecord>),
    Bad,
}

/// Reads a whole snapshot: the `REDIS` magic, anything up to the first
/// database selector, the optional resizedb sizes, then records to the end
/// marker.
pub open spec fn spec_rdb_parse(s: Seq<u8>) -> RdbOutcome {
    if s.len() < 5 || s.subrange(0, 5) != "REDIS".spec_bytes() {
        RdbOutcome::NoDb
    } else {
        match spec_find_selector(s, 0, 5) {
            None => RdbOutcome::NoDb,
            Some(j) => {
                match spec_skip_resize(s, j + 2) {
                    None => RdbOutcome::Bad,
                    Some(m) => match spec_rdb_records(s, m) {
                        None => RdbOutcome::Bad,
                        Some(rs) => RdbOutcome::Records(rs),
                    },
                }
            },
        }
    }
}

/// What one record leaves under a key: it overwrites the key it names —
/// unless it is already past its expiry at load time, in which case it is
/// dropped.
pub open spec fn rdb_step(
    base: Option<ItemV>,
    rec: RdbRecord,
    k: Seq<u8>,
    now: u64,
) -> Option<ItemV> {
    if rec.key == k && entry_live(
        EntryV { value: rec.value, expiry_time: None, expiry_at: rec.expiry },
        now,
    ) {
        Some(ItemV::Scalar(EntryV { value: rec.value, expiry_time: None, expiry_at: rec.expiry }))
    } else {
        base
    }
}

/// What a record list leaves under a key, applied first to last.
pub open spec fn rdb_final(
    rs: Seq<RdbRecord>,
    k: Seq<u8>,
    base: Option<ItemV>,
    now: u64,
) -> Option<ItemV>
    decreases rs.len(),
{
    if rs.len() == 0 {
        base
    } else {
        rdb_final(rs.drop_first(), k, rdb_step(base, rs.first(), k, now), now)
    }
}

/// A snapshot body that could not be read.
#[derive(Debug, PartialEq, Eq, Structural, Clone, Copy)]
pub struct RdbError;


/// Whether the buffer opens with the `REDIS` magic; the marker moves past
/// it either way, as the reader then abandons a foreign buffer.
pub fn has_magic_number(data: &[u8], marker: &mut usize) -> (r: bool)
    requires
        *old(marker) == 0,
    ensures
        *final(marker) == 5,
        r == (data@.len() >= 5 && data@.subrange(0, 5) == "REDIS".spec_bytes()),
{
    *marker = 5;
    let magic = vstd::string::StrSliceExecFns::as_bytes_vec("REDIS");
    if data.len() < 5 {
        return false;
    }
    let head = vstd::slice::slice_subrange(data, 0, 5);
    crate::store::compare_bytes(head, magic.as_slice())
}

/// Scans for the first database selector `0xFE <database>` from the marker
/// on; on success the marker lands just past the selector pair.
pub fn find_database_selector(data: &[u8], database: u8, marker: &mut usize) -> (r: bool)
    requires
        *old(marker) <= data@.len(),
    ensures
        match spec_find_selector(data@, database, *old(marker) as nat) {
            Some(j) => r && *final(marker) == j + 2 && *final(marker) <= data@.len(),
            None => !r && *final(marker) == *old(marker),
        },
{
    let mut i: usize = *marker;
    loop
        invariant
            *old(marker) <= i <= data@.len(),
            *marker == *old(marker),
            spec_find_selector(data@, database, *old(marker) as nat) == spec_find_selector(
                data@,
                database,
                i as nat,
            ),
        decreases data@.len() - i,
    {
        if data.len() < 2 || i > data.len() - 2 {
            return false;
        }
        if data[i] == 254 && data[i + 1] == database {
            *marker = i + 2;
            return true;
        }
        i = i + 1;
    }
}

/// Reads a length field at the marker, advancing it, exactly as
/// `spec_rdb_len` says.
pub fn read_length_encoded_int(data: &[u8], marker: &mut usize) -> (r: Option<u64>)
    requires
        *old(marker) <= data@.len(),
    ensures
        match spec_rdb_len(data@, *old(marker) as nat) {
            Some((v, used)) => r == Some(v) && *final(marker) == *old(marker) + used,
            None => r is None && *final(marker) == *old(marker),
        },
{
    let m = *marker;
    if m >= data.len() {
        return None;
    }
    let b = data[m];
    if b < 64 {
        *marker = m + 1;
        Some(b as u64)
    } else if b < 128 {
        if data.len() >= 2 && m <= data.len() - 2 {
            *marker = m + 2;
            Some(((b - 64) as u64) * 256 + (data[m + 1] as u64))
        } else {
            None
        }
    } else if b < 192 {
        if data.len() >= 5 && m <= data.len() - 5 {
            *marker = m + 5;
            Some(
                (data[m + 1] as u64) * 0x1000000 + (data[m + 2] as u64) * 0x10000 + (data[m
                    + 3] as u64) * 0x100 + (data[m + 4] as u64),
            )
        } else {
            None
        }
    } else {
        None
    }
}

/// Skips the optional resizedb marker and its two length fields.
pub fn read_resizedb_field(data: &[u8], marker: &mut usize) -> (r: bool)
    requires
        *old(marker) <= data@.len(),
    ensures
        match spec_skip_resize(data@, *old(marker) as nat) {
            Some(m2) => r && *final(marker) == m2 && m2 <= data@.len(),
            None => !r,
        },
{
    let m = *marker;
    if m < data.len() && data[m] == 251 {
        *marker = m + 1;
        match read_length_encoded_int(data, marker) {
            None => false,
            Some(_) => {
                match read_length_encoded_int(data, marker) {
                    None => false,
                    Some(_) => true,
                }
            },
        }
    } else {
        true
    }
}

/// Reads a length-prefixed byte string at the marker, advancing it.
pub fn read_length_string(data: &[u8], marker: &mut usize) -> (r: Option<Vec<u8>>)
    requires
        *old(marker) <= data@.len(),
    ensures
        match spec_rdb_string(data@, *old(marker) as nat) {
            Some((v, used)) => r matches Some(out) && out@ == v && *final(marker) == *old(marker) + used && *final(marker) <= data@.len(),
            None => r is None,
        },
{
    let start = *marker;
    match read_length_encoded_int(data, marker) {
        None => None,
        Some(len) => {
            let m = *marker;
            let remaining = (data.len() - m) as u64;
            if len > remaining {
                return None;
            }
            let end = m + (len as usize);
            let v = vstd::slice::slice_to_vec(vstd::slice::slice_subrange(data, m, end));
            *marker = end;
            Some(v)
        },
    }
}

/// Reads a key and a value, both length-prefixed.
pub fn read_key_value_pair(data: &[u8], marker: &mut usize) -> (r: Option<(Vec<u8>, Vec<u8>)>)
    requires
        *old(marker) <= data@.len(),
    ensures
        match spec_rdb_string(data@, *old(marker) as nat) {
            Some((k, kused)) => match spec_rdb_string(
                data@,
                (*old(marker) + kused) as nat,
            ) {
                Some((v, vused)) => r matches Some((ko, vo)) && ko@ == k && vo@ == v && *final(marker) == *old(marker) + kused + vused && *final(marker) <= data@.len(),
                None => r is None,
            },
            None => r is None,
        },
{
    match read_length_string(data, marker) {
        None => None,
        Some(key) => {
            match read_length_string(data, marker) {
                None => None,
                Some(value) => Some((key, value)),
            }
        },
    }
}

/// Reads one record — optional expiry, type byte, key, value — advancing
/// the marker, exactly as `spec_rdb_record` says.
pub fn read_entry(data: &[u8], marker: &mut usize) -> (r: Option<(Vec<u8>, Option<u64>, Vec<u8>)>)
    requires
        *old(marker) <= data@.len(),
    ensures
        match spec_rdb_record(data@, *old(marker) as nat) {
            Some((rec, used)) => {
                &&& r matches Some((k, e, v)) && k@ == rec.key && e == rec.expiry && v@
                    == rec.value
                &&& *final(marker) == *old(marker) + used
                &&& *final(marker) <= data@.len()
                &&& used >= 1
            },
            None => r is None && *final(marker) == *old(marker),
        },
{
    let m = *marker;
    if m >= data.len() {
        return None;
    }
    let b = data[m];
    let expiry: Option<u64>;
    let mut t: usize = m;
    if b == 252 {
        if data.len() < 9 || m > data.len() - 9 {
            return None;
        }
        let v = (data[m + 1] as u64) + (data[m + 2] as u64) * 0x100 + (data[m + 3] as u64)
            * 0x10000 + (data[m + 4] as u64) * 0x1000000 + (data[m + 5] as u64) * 0x100000000 + (
        data[m + 6] as u64) * 0x10000000000 + (data[m + 7] as u64) * 0x1000000000000 + (data[m
            + 8] as u64) * 0x100000000000000;
        expiry = Some(v);
        t = m + 9;
    } else if b == 253 {
        if data.len() < 5 || m > data.len() - 5 {
            return None;
        }
        let secs = (data[m + 1] as u64) + (data[m + 2] as u64) * 0x100 + (data[m + 3] as u64)
            * 0x10000 + (data[m + 4] as u64) * 0x1000000;
        expiry = Some(secs * 1000);
        t = m + 5;
    } else {
        expiry = None;
    }
    if t >= data.len() || data[t] != 0 {
        return None;
    }
    *marker = t + 1;
    match read_key_value_pair(data, marker) {
        None => {
            *marker = m;
            None
        },
        Some((key, value)) => Some((key, expiry, value)),
    }
}

impl Rdb {
    /// Loads a snapshot into the store: each record overwrites its key in
    /// file order, records already past their expiry at time `now` are
    /// dropped, and a buffer without the magic or a database selector loads
    /// nothing. A malformed body changes nothing and reports the fault.
    #[verifier::rlimit(50)]
    pub fn parse_rdb(store: &mut Store, data: &[u8], now: u64) -> (r: Result<(), RdbError>)
        requires
            old(store).wf(),
        ensures
            final(store).wf(),
            match spec_rdb_parse(data@) {
                RdbOutcome::NoDb => r is Ok && *final(store) == *old(store),
                RdbOutcome::Bad => r is Err && *final(store) == *old(store),
                RdbOutcome::Records(rs) => r is Ok && (forall|k: Seq<u8>|
                    #[trigger] final(store).spec_get(k) == rdb_final(
                        rs,
                        k,
                        old(store).spec_get(k),
                        now,
                    )),
            },
    {
        let mut marker: usize = 0;
        if !has_magic_number(data, &mut marker) {
            return Ok(());
        }
        if !find_database_selector(data, 0, &mut marker) {
            return Ok(());
        }
        if !read_resizedb_field(data, &mut marker) {
            return Err(RdbError);
        }
        let ghost m0 = marker as nat;
        let mut records: Vec<(Vec<u8>, Option<u64>, Vec<u8>)> = Vec::new();
        proof {
            let recs0 = records@.map_values(
                |t: (Vec<u8>, Option<u64>, Vec<u8>)| RdbRecord {
                    expiry: t.1,
                    key: t.0@,
                    value: t.2@,
                },
            );
            assert(recs0 =~= Seq::<RdbRecord>::empty());
            match spec_rdb_records(data@, m0) {
                Some(rest) => {
                    assert(recs0 + rest =~= rest);
                },
                None => {},
            }
        }
        loop
            invariant
                marker <= data@.len(),
                m0 <= data@.len(),
                old(store).wf(),
                *store == *old(store),
                match spec_rdb_records(data@, m0) {
                    Some(all) => spec_rdb_parse(data@) == RdbOutcome::Records(all),
                    None => spec_rdb_parse(data@) == RdbOutcome::Bad,
                },
                match spec_rdb_records(data@, marker as nat) {
                    Some(rest) => spec_rdb_records(data@, m0) == Some(
                        records@.map_values(
                            |t: (Vec<u8>, Option<u64>, Vec<u8>)| RdbRecord {
                                expiry: t.1,
                                key: t.0@,
                                value: t.2@,
                            },
                        ) + rest,
                    ),
                    None => spec_rdb_records(data@, m0) is None,
                },
            ensures
                marker < data@.len(),
                data@[marker as int] == 255,
                spec_rdb_records(data@, m0) == Some(
                    records@.map_values(
                        |t: (Vec<u8>, Option<u64>, Vec<u8>)| RdbRecord {
                            expiry: t.1,
                            key: t.0@,
                            value: t.2@,
                        },
                    ),
                ),
            decreases data@.len() - marker,
        {
            if marker >= data.len() {
                return Err(RdbError);
            }
            if data[marker] == 255 {
                proof {
                    let recs_view = records@.map_values(
                        |t: (Vec<u8>, Option<u64>, Vec<u8>)| RdbRecord {
                            expiry: t.1,
                            key: t.0@,
                            value: t.2@,
                        },
                    );
                    assert(spec_rdb_records(data@, marker as nat) == Some(Seq::<
                        RdbRecord,
                    >::empty()));
                    assert(recs_view + Seq::<RdbRecord>::empty() =~= recs_view);
                }
                break;
            }
            let before = marker;
            match read_entry(data, &mut marker) {
                None => {
                    return Err(RdbError);
                },
                Some((key, expiry, value)) => {
                    records.push((key, expiry, value));
                    proof {
                        let recs_view = records@.map_values(
                            |t: (Vec<u8>, Option<u64>, Vec<u8>)| RdbRecord {
                                expiry: t.1,
                                key: t.0@,
                                value: t.2@,
                            },
                        );
                        let prev_view = recs_view.drop_last();
                        assert(prev_view =~= records@.drop_last().map_values(
                            |t: (Vec<u8>, Option<u64>, Vec<u8>)| RdbRecord {
                                expiry: t.1,
                                key: t.0@,
                                value: t.2@,
                            },
                        ));
                        match spec_rdb_records(data@, marker as nat) {
                            Some(rest) => {
                                assert(prev_view + (seq![recs_view.last()] + rest)
                                    =~= recs_view + rest);
                            },
                            None => {},
                        }
                    }
                },
            }
        }
        let ghost recs_view = records@.map_values(
            |t: (Vec<u8>, Option<u64>, Vec<u8>)| RdbRecord {
                expiry: t.1,
                key: t.0@,
                value: t.2@,
            },
        );
        let mut i: usize = 0;
        #[verifier::loop_isolation(false)]
        while i < records.len()
            invariant
                i <= records@.len(),
                store.wf(),
                recs_view == records@.map_values(
                    |t: (Vec<u8>, Option<u64>, Vec<u8>)| RdbRecord {
                        expiry: t.1,
                        key: t.0@,
                        value: t.2@,
                    },
                ),
                forall|k: Seq<u8>|
                    #[trigger] store.spec_get(k) == rdb_final(
                        recs_view.take(i as int),
                        k,
                        old(store).spec_get(k),
                        now,
                    ),
            decreases records@.len() - i,
        {
            let live = match &records[i].1 {
                Some(t) => now < *t,
                None => true,
            };
            let ghost pre = *store;
            if live {
                let entry = Entry {
                    value: records[i].2.clone(),
                    expiry_time: None,
                    expiry_at: records[i].1,
                };
                let _ = store.set_kv(records[i].0.clone(), entry);
            }
            proof {
                lemma_rdb_final_snoc(recs_view, i as int, old(store), now);
                assert forall|k: Seq<u8>| true implies #[trigger] store.spec_get(k)
                    == rdb_final(recs_view.take(i + 1), k, old(store).spec_get(k), now) by {
                    assert(rdb_final(recs_view.take(i + 1), k, old(store).spec_get(k), now)
                        == rdb_step(
                        rdb_final(recs_view.take(i as int), k, old(store).spec_get(k), now),
                        recs_view[i as int],
                        k,
                        now,
                    ));
                    assert(pre.spec_get(k) == rdb_final(
                        recs_view.take(i as int),
                        k,
                        old(store).spec_get(k),
                        now,
                    ));
                }
            }
            i = i + 1;
        }
        proof {
            assert(recs_view.take(recs_view.len() as int) =~= recs_view);
        }
        Ok(())
    }
}

/// Applying one more record at the end folds as one more step.
proof fn lemma_rdb_final_snoc(rs: Seq<RdbRecord>, i: int, store: &Store, now: u64)
    requires
        0 <= i < rs.len(),
    ensures
        forall|k: Seq<u8>, base: Option<ItemV>|
            #[trigger] rdb_final(rs.take(i + 1), k, base, now) == rdb_step(
                rdb_final(rs.take(i), k, base, now),
                rs[i],
                k,
                now,
            ),
{
    assert forall|k: Seq<u8>, base: Option<ItemV>| #[trigger] rdb_final(
        rs.take(i + 1),
        k,
        base,
        now,
    ) == rdb_step(rdb_final(rs.take(i), k, base, now), rs[i], k, now) by {
        lemma_rdb_final_push(rs.take(i), rs[i], k, base, now);
        assert(rs.take(i + 1) =~= rs.take(i).push(rs[i]));
    }
}

proof fn lemma_rdb_final_push(
    rs: Seq<RdbRecord>,
    rec: RdbRecord,
    k: Seq<u8>,
    base: Option<ItemV>,
    now: u64,
)
    ensures
        rdb_final(rs.push(rec), k, base, now) == rdb_step(rdb_final(rs, k, base, now), rec, k, now),
    decreases rs.len(),
{
    if rs.len() == 0 {
        assert(rs.push(rec).first() == rec);
        assert(rs.push(rec).drop_first() =~= Seq::<RdbRecord>::empty());
        assert(rdb_final(Seq::<RdbRecord>::empty(), k, rdb_step(base, rec, k, now), now)
            == rdb_step(base, rec, k, now));
        assert(rs =~= Seq::<RdbRecord>::empty());
        assert(rdb_final(rs, k, base, now) == base);
    } else {
        assert(rs.push(rec).first() == rs.first());
        assert(rs.push(rec).drop_first() =~= rs.drop_first().push(rec));
        lemma_rdb_final_push(rs.drop_first(), rec, k, rdb_step(base, rs.first(), k, now), now);
    }
}

impl Store {
    /// Loads a snapshot buffer into this store.
    pub fn import_rdb(&mut self, data: &[u8], now: u64) -> (r: Result<(), RdbError>)
        requires
            old(self).wf(),
        ensures
            final(self).wf(),
            match spec_rdb_parse(data@) {
                RdbOutcome::NoDb => r is Ok && *final(self) == *old(self),
                RdbOutcome::Bad => r is Err && *final(self) == *old(self),
                RdbOutcome::Records(rs) => r is Ok && (forall|k: Seq<u8>|
                    #[trigger] final(self).spec_get(k) == rdb_final(
                        rs,
                        k,
                        old(self).spec_get(k),
                        now,
                    )),
            },
    {
        Rdb::parse_rdb(self, data, now)
    }
}

} // verus!
