//! Append-only log streams: entry ids, entry payloads, the stream itself
//! (strictly increasing ids), and the derivation of a concrete id from an id
//! pattern such as `*`, `5-*` or `5-3`.

use vstd::prelude::*;

use crate::parser::{spec_find_byte, spec_parse_u64, find_byte, parse_u64};

verus! {

/// A stream entry id: a pair of 64-bit numbers, ordered lexicographically.
/// The sentinel `0-0` is reserved and never appears as an entry id.
#[derive(Debug, Clone, Copy, PartialEq, Eq, Structural)]
pub struct StreamId {
    pub ms: u64,
    pub seq: u64,
}

/// The lexicographic order on ids.
pub open spec fn id_lt(a: StreamId, b: StreamId) -> bool {
    a.ms < b.ms || (a.ms == b.ms && a.seq < b.seq)
}

pub open spec fn id_le(a: StreamId, b: StreamId) -> bool {
    id_lt(a, b) || a == b
}

impl StreamId {
    /// Strict lexicographic comparison.
    pub fn lt(&self, other: &StreamId) -> (r: bool)
        ensures
            r == id_lt(*self, *other),
    {
        self.ms < other.ms || (self.ms == other.ms && self.seq < other.seq)
    }

    pub fn le(&self, other: &StreamId) -> (r: bool)
        ensures
            r == id_le(*self, *other),
    {
        self.ms < other.ms || (self.ms == other.ms && self.seq <= other.seq)
    }

    /// Renders the id as `ms-seq`.
    pub fn format(&self) -> (r: Vec<u8>)
        ensures
            r@ == spec_format_id(*self),
    {
        let mut out = crate::parser::u64_to_dec(self.ms);
        out.push(45u8);
        let mut seq_digits = crate::parser::u64_to_dec(self.seq);
        out.append(&mut seq_digits);
        proof {
            assert(out@ =~= spec_format_id(*self));
        }
        out
    }

    /// Reads an id written as `ms-seq`; a bare `ms` stands for `ms-0`.
    pub fn parse(s: &[u8]) -> (r: Option<StreamId>)
        ensures
            r == spec_parse_id(s@),
    {
        proof {
            crate::parser::lemma_find_byte_props(s@, 45u8, 0);
        }
        let n = s.len();
        match find_byte(s, 45u8) {
            Some(k) => {
                let ms_part = vstd::slice::slice_subrange(s, 0, k);
                let seq_part = vstd::slice::slice_subrange(s, k + 1, n);
                match (parse_u64(ms_part), parse_u64(seq_part)) {
                    (Some(ms), Some(seq)) => Some(StreamId { ms, seq }),
                    _ => None,
                }
            },
            None => {
                match parse_u64(s) {
                    Some(ms) => Some(StreamId { ms, seq: 0 }),
                    None => None,
                }
            },
        }
    }
}

/// `ms-seq` in decimal.
pub open spec fn spec_format_id(id: StreamId) -> Seq<u8> {
    crate::parser::dec_digits(id.ms as nat) + seq![45u8] + crate::parser::dec_digits(
        id.seq as nat)
}

/// What `StreamId::parse` accepts: `ms-seq`, or a bare `ms` meaning `ms-0`.
pub open spec fn spec_parse_id(s: Seq<u8>) -> Option<StreamId> {
    match spec_find_byte(s, 45u8, 0) {
        Some(k) => {
            let ms_part = s.subrange(0, k as int);
            let seq_part = s.subrange(k as int + 1, s.len() as int);
            match (spec_parse_u64(ms_part), spec_parse_u64(seq_part)) {
                (Some(ms), Some(seq)) => Some(StreamId { ms, seq }),
                _ => None,
            }
        },
        None => match spec_parse_u64(s) {
            Some(ms) => Some(StreamId { ms, seq: 0 }),
            None => None,
        },
    }
}

/// The payload of one stream entry: field name/value pairs in insertion
/// order, kept verbatim for readers.
#[derive(Debug)]
pub struct StreamData {
    pub data: Vec<(Vec<u8>, Vec<u8>)>,
}

impl View for StreamData {
    type V = Seq<(Seq<u8>, Seq<u8>)>;

    open spec fn view(&self) -> Seq<(Seq<u8>, Seq<u8>)> {
        self.data@.map_values(|p: (Vec<u8>, Vec<u8>)| (p.0@, p.1@))
    }
}

/// The alternating name/value rendering of entry fields.
pub open spec fn spec_flatten(fields: Seq<(Seq<u8>, Seq<u8>)>) -> Seq<Seq<u8>>
    decreases fields.len(),
{
    if fields.len() == 0 {
        Seq::empty()
    } else {
        spec_flatten(fields.drop_last()).push(fields.last().0).push(fields.last().1)
    }
}

impl StreamData {
    /// Lays the fields out as an alternating name/value list, in order.
    pub fn flatten(&self) -> (r: Vec<Vec<u8>>)
        ensures
            r@.map_values(|v: Vec<u8>| v@) == spec_flatten(self@),
    {
        let mut result: Vec<Vec<u8>> = Vec::new();
        let mut i: usize = 0;
        #[verifier::loop_isolation(false)]
        while i < self.data.len()
            invariant
                i <= self.data@.len(),
                result@.map_values(|v: Vec<u8>| v@) == spec_flatten(self@.take(i as int)),
            decreases self.data@.len() - i,
        {
            let (name, value) = (&self.data[i].0, &self.data[i].1);
            result.push(name.clone());
            result.push(value.clone());
            proof {
                assert(self@.take(i + 1).drop_last() =~= self@.take(i as int));
                assert(result@.map_values(|v: Vec<u8>| v@) =~= spec_flatten(self@.take(i
                    + 1)));
            }
            i = i + 1;
        }
        proof {
            assert(self@.take(self.data@.len() as int) =~= self@);
        }
        result
    }
}

/// An append-only sequence of entries in strictly increasing id order.
#[derive(Debug)]
pub struct Stream {
    pub entries: Vec<(StreamId, StreamData)>,
}

/// The view of a stream: its entries as id/fields pairs.
pub open spec fn stream_view(entries: Seq<(StreamId, StreamData)>) -> Seq<
    (StreamId, Seq<(Seq<u8>, Seq<u8>)>),
> {
    entries.map_values(|e: (StreamId, StreamData)| (e.0, e.1@))
}

impl View for Stream {
    type V = Seq<(StreamId, Seq<(Seq<u8>, Seq<u8>)>)>;

    open spec fn view(&self) -> Seq<(StreamId, Seq<(Seq<u8>, Seq<u8>)>)> {
        stream_view(self.entries@)
    }
}

/// Entry ids strictly increase along the stream.
pub open spec fn ids_strictly_increasing(s: Seq<(StreamId, Seq<(Seq<u8>, Seq<u8>)>)>) -> bool {
    forall|i: int, j: int| 0 <= i < j < s.len() ==> id_lt(#[trigger] s[i].0, #[trigger] s[j].0)
}

impl Stream {
    /// Wraps entries that are already in strictly increasing id order.
    pub fn new(entries: Vec<(StreamId, StreamData)>) -> (r: Stream)
        requires
            ids_strictly_increasing(stream_view(entries@)),
        ensures
            r@ == stream_view(entries@),
            ids_strictly_increasing(r@),
    {
        Stream { entries }
    }

    /// A stream with no entries yet.
    pub fn empty() -> (r: Stream)
        ensures
            r@ == Seq::<(StreamId, Seq<(Seq<u8>, Seq<u8>)>)>::empty(),
            ids_strictly_increasing(r@),
    {
        let entries: Vec<(StreamId, StreamData)> = Vec::new();
        proof {
            assert(stream_view(entries@) =~= Seq::<
                (StreamId, Seq<(Seq<u8>, Seq<u8>)>),
            >::empty());
        }
        Stream { entries }
    }

    /// The id of the newest entry, if any.
    pub fn last_id(&self) -> (r: Option<StreamId>)
        ensures
            match r {
                Some(id) => self@.len() > 0 && id == self@.last().0,
                None => self@.len() == 0,
            },
    {
        if self.entries.len() == 0 {
            None
        } else {
            Some(self.entries[self.entries.len() - 1].0)
        }
    }
}

/// What id a pattern denotes, given the newest existing id and the clock:
/// `*` for the ms part means "now"; `*` for the seq part means "one past the
/// newest seq at that ms", or 0 for a fresh ms — except 1 at ms 0, keeping
/// the sentinel `0-0` reserved. Exhausting the seq space at one ms yields
/// nothing.
pub open spec fn spec_build_id(pattern: Seq<u8>, last: Option<StreamId>, now: u64) -> Option<
    StreamId,
> {
    let star = seq![42u8];
    if pattern == star {
        match last {
            Some(l) => if l.ms == now && l.seq == u64::MAX {
                None
            } else {
                Some(spec_auto_seq(now, last))
            },
            None => Some(spec_auto_seq(now, last)),
        }
    } else {
        match spec_find_byte(pattern, 45u8, 0) {
            None => None,
            Some(k) => {
                let ms_part = pattern.subrange(0, k as int);
                let seq_part = pattern.subrange(k as int + 1, pattern.len() as int);
                let ms = if ms_part == star {
                    Some(now)
                } else {
                    spec_parse_u64(ms_part)
                };
                match ms {
                    None => None,
                    Some(ms) => {
                        if seq_part == star {
                            if last matches Some(l) && l.ms == ms && l.seq == u64::MAX {
                                None
                            } else {
                                Some(spec_auto_seq(ms, last))
                            }
                        } else {
                            match spec_parse_u64(seq_part) {
                                Some(seq) => Some(StreamId { ms, seq }),
                                None => None,
                            }
                        }
                    },
                }
            },
        }
    }
}

/// The id chosen for `ms-*`: continue the newest entry at this ms, else
/// start at 0, or at 1 when ms is 0.
pub open spec fn spec_auto_seq(ms: u64, last: Option<StreamId>) -> StreamId
    recommends
        match last {
            Some(l) => l.ms == ms ==> l.seq < u64::MAX,
            None => true,
        },
{
    match last {
        Some(l) => if l.ms == ms {
            StreamId { ms, seq: (l.seq + 1) as u64 }
        } else {
            StreamId { ms, seq: if ms == 0 { 1 } else { 0 } }
        },
        None => StreamId { ms, seq: if ms == 0 { 1 } else { 0 } },
    }
}

/// Derives the concrete id that an id pattern denotes, per `spec_build_id`.
pub fn build_stream_id(pattern: &[u8], last_stream_entry: Option<&StreamId>, now: u64) -> (r:
    Option<StreamId>)
    ensures
        r == spec_build_id(pattern@, match last_stream_entry {
            Some(l) => Some(*l),
            None => None,
        }, now),
{
    let ghost last_g = match last_stream_entry {
        Some(l) => Some(*l),
        None => None,
    };
    proof {
        crate::parser::lemma_find_byte_props(pattern@, 45u8, 0);
    }
    if pattern.len() == 1 && pattern[0] == 42 {
        proof {
            assert(pattern@ =~= seq![42u8]);
        }
        match last_stream_entry {
            Some(l) => {
                if l.ms == now && l.seq == u64::MAX {
                    return None;
                }
            },
            None => {},
        }
        return Some(auto_seq(now, last_stream_entry));
    }
    proof {
        if pattern@ == seq![42u8] {
            assert(pattern@.len() == 1 && pattern@[0] == 42u8);
        }
    }
    match find_byte(pattern, 45u8) {
        None => None,
        Some(k) => {
            let ms_part = vstd::slice::slice_subrange(pattern, 0, k);
            let seq_part = vstd::slice::slice_subrange(pattern, k + 1, pattern.len());
            let ms: Option<u64> = if ms_part.len() == 1 && ms_part[0] == 42 {
                proof {
                    assert(ms_part@ =~= seq![42u8]);
                }
                Some(now)
            } else {
                proof {
                    if ms_part@ == seq![42u8] {
                        assert(ms_part@.len() == 1 && ms_part@[0] == 42u8);
                    }
                }
                parse_u64(ms_part)
            };
            match ms {
                None => None,
                Some(ms) => {
                    if seq_part.len() == 1 && seq_part[0] == 42 {
                        proof {
                            assert(seq_part@ =~= seq![42u8]);
                        }
                        match last_stream_entry {
                            Some(l) => {
                                if l.ms == ms && l.seq == u64::MAX {
                                    None
                                } else {
                                    Some(auto_seq(ms, last_stream_entry))
                                }
                            },
                            None => Some(auto_seq(ms, last_stream_entry)),
                        }
                    } else {
                        proof {
                            if seq_part@ == seq![42u8] {
                                assert(seq_part@.len() == 1 && seq_part@[0] == 42u8);
                            }
                        }
                        match parse_u64(seq_part) {
                            Some(seq) => Some(StreamId { ms, seq }),
                            None => None,
                        }
                    }
                },
            }
        },
    }
}

fn auto_seq(ms: u64, last: Option<&StreamId>) -> (r: StreamId)
    requires
        match last {
            Some(l) => l.ms == ms ==> l.seq < u64::MAX,
            None => true,
        },
    ensures
        r == spec_auto_seq(ms, match last {
            Some(l) => Some(*l),
            None => None,
        }),
{
    match last {
        Some(l) => {
            if l.ms == ms {
                StreamId { ms, seq: l.seq + 1 }
            } else {
                StreamId { ms, seq: if ms == 0 { 1 } else { 0 } }
            }
        },
        None => StreamId { ms, seq: if ms == 0 { 1 } else { 0 } },
    }
}

/// Whether this process serves as the primary or as a replica of one.
#[derive(Debug, Clone, Copy, PartialEq, Eq, Structural)]
pub enum StreamType {
    Master,
    Replica,
}

impl StreamType {
    /// The role name as reported by INFO.
    pub fn name(&self) -> (r: Vec<u8>)
        ensures
            r@ == spec_role_name(*self),
    {
        match self {
            StreamType::Master => {
                let mut v: Vec<u8> = Vec::new();
                v.push(109u8);
                v.push(97u8);
                v.push(115u8);
                v.push(116u8);
                v.push(101u8);
                v.push(114u8);
                proof {
                    assert(v@ =~= spec_role_name(*self));
                }
                v
            },
            StreamType::Replica => {
                let mut v: Vec<u8> = Vec::new();
                v.push(115u8);
                v.push(108u8);
                v.push(97u8);
                v.push(118u8);
                v.push(101u8);
                proof {
                    assert(v@ =~= spec_role_name(*self));
                }
                v
            },
        }
    }
}

/// `master` or `slave`, as the INFO text spells the roles.
pub open spec fn spec_role_name(t: StreamType) -> Seq<u8> {
    match t {
        StreamType::Master => seq![109u8, 97u8, 115u8, 116u8, 101u8, 114u8],
        StreamType::Replica => seq![115u8, 108u8, 97u8, 118u8, 101u8],
    }
}

/// This process's replication identity: its role, its 40-hex replication id,
/// and the bytes it has produced to the replication stream.
#[derive(Debug)]
pub struct StreamInfo {
    pub role: StreamType,
    pub id: Vec<u8>,
    pub offset: u64,
}

impl StreamInfo {
    /// A fresh identity with no replication bytes produced yet.
    pub fn new(role: StreamType, id: Vec<u8>) -> (r: StreamInfo)
        ensures
            r.role == role,
            r.id@ == id@,
            r.offset == 0,
    {
        StreamInfo { role, id, offset: 0 }
    }
}

} // verus!
