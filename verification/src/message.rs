//! The framing codec: the five wire value kinds, their byte encoding, and an
//! incremental, restartable decoder. Decoding distinguishes "incomplete —
//! need more bytes" from "malformed"; only the latter ends a session.

use vstd::prelude::*;

use crate::parser::{
    all_digits, crlf, dec_digits, dec_value, i64_to_dec, int_digits, is_digit,
    lemma_dec_digits_digits, lemma_dec_value_of_digits, lemma_find_crlf_after_clean,
    lemma_find_crlf_props, parse_int, read_until_crlf, spec_find_crlf, u64_to_dec, CR, LF,
};

verus! {

/// Prefix byte of a simple string frame: `+`.
pub const SIMPLE_PREFIX: u8 = 43;

/// Prefix byte of an error frame: `-`.
pub const ERROR_PREFIX: u8 = 45;

/// Prefix byte of an integer frame: `:`.
pub const INT_PREFIX: u8 = 58;

/// Prefix byte of a bulk string frame: `$`.
pub const BULK_PREFIX: u8 = 36;

/// Prefix byte of an array frame: `*`.
pub const ARRAY_PREFIX: u8 = 42;

/// One protocol-level value. Bulk strings and arrays have null forms with
/// encodings of their own.
#[derive(Debug)]
pub enum Message {
    Simple(Vec<u8>),
    Error(Vec<u8>),
    Int(i64),
    Bulk(Vec<u8>),
    Null,
    Array(Vec<Message>),
    NullArray,
}

/// The mathematical shape of a frame: what the contracts speak about.
pub enum MessageV {
    Simple(Seq<u8>),
    Error(Seq<u8>),
    Int(int),
    Bulk(Seq<u8>),
    Null,
    Array(Seq<MessageV>),
    NullArray,
}

pub open spec fn msg_view(m: Message) -> MessageV
    decreases m,
{
    match m {
        Message::Simple(p) => MessageV::Simple(p@),
        Message::Error(p) => MessageV::Error(p@),
        Message::Int(i) => MessageV::Int(i as int),
        Message::Bulk(p) => MessageV::Bulk(p@),
        Message::Null => MessageV::Null,
        Message::Array(items) => MessageV::Array(msgs_view(items@)),
        Message::NullArray => MessageV::NullArray,
    }
}

pub open spec fn msgs_view(s: Seq<Message>) -> Seq<MessageV>
    decreases s,
{
    if s.len() == 0 {
        Seq::empty()
    } else {
        msgs_view(s.drop_last()).push(msg_view(s.last()))
    }
}

impl View for Message {
    type V = MessageV;

    open spec fn view(&self) -> MessageV {
        msg_view(*self)
    }
}

pub proof fn lemma_msgs_view_len(s: Seq<Message>)
    ensures
        msgs_view(s).len() == s.len(),
        forall|i: int| 0 <= i < s.len() ==> msgs_view(s)[i] == msg_view(#[trigger] s[i]),
    decreases s,
{
    if s.len() > 0 {
        lemma_msgs_view_len(s.drop_last());
        assert forall|i: int| 0 <= i < s.len() implies msgs_view(s)[i] == msg_view(
            #[trigger] s[i]) by {
            if i < s.len() - 1 {
                assert(s.drop_last()[i] == s[i]);
                assert(msgs_view(s)[i] == msgs_view(s.drop_last())[i]);
            } else {
                assert(msgs_view(s)[i] == msg_view(s.last()));
            }
        }
    }
}


pub proof fn lemma_msgs_view_push(s: Seq<Message>, m: Message)
    ensures
        msgs_view(s.push(m)) == msgs_view(s).push(msg_view(m)),
{
    assert(s.push(m).drop_last() =~= s);
    assert(s.push(m).last() == m);
}

/// The byte encoding of a frame.
pub open spec fn enc(m: MessageV) -> Seq<u8>
    decreases m,
{
    match m {
        MessageV::Simple(p) => seq![SIMPLE_PREFIX] + p + crlf(),
        MessageV::Error(p) => seq![ERROR_PREFIX] + p + crlf(),
        MessageV::Int(i) => seq![INT_PREFIX] + int_digits(i) + crlf(),
        MessageV::Bulk(p) => seq![BULK_PREFIX] + dec_digits(p.len()) + crlf() + p + crlf(),
        MessageV::Null => seq![BULK_PREFIX, 45u8, 49u8, CR, LF],
        MessageV::Array(items) => seq![ARRAY_PREFIX] + dec_digits(items.len()) + crlf()
            + enc_list(items),
        MessageV::NullArray => seq![ARRAY_PREFIX, 45u8, 49u8, CR, LF],
    }
}

pub open spec fn enc_list(items: Seq<MessageV>) -> Seq<u8>
    decreases items,
{
    if items.len() == 0 {
        Seq::empty()
    } else {
        enc(items.first()) + enc_list(items.drop_first())
    }
}

/// A payload that may sit on a CR LF terminated line: it holds neither CR
/// nor LF, so the decoder's scan finds exactly the terminator the encoder
/// wrote.
pub open spec fn line_ok(p: Seq<u8>) -> bool {
    forall|i: int| 0 <= i < p.len() ==> #[trigger] p[i] != CR && p[i] != LF
}

/// The frames the encoder is meant for: simple and error payloads fit on a
/// line, and lengths and counts fit the decoder's numeric range. Every such
/// frame round-trips through encode and decode.
pub open spec fn wf(m: MessageV) -> bool
    decreases m,
{
    match m {
        MessageV::Simple(p) => line_ok(p),
        MessageV::Error(p) => line_ok(p),
        MessageV::Int(i) => i64::MIN <= i <= i64::MAX,
        MessageV::Bulk(p) => p.len() <= u64::MAX,
        MessageV::Null => true,
        MessageV::Array(items) => items.len() <= u64::MAX && (forall|i: int|
            0 <= i < items.len() ==> wf(#[trigger] items[i])),
        MessageV::NullArray => true,
    }
}

proof fn lemma_enc_list_push(items: Seq<MessageV>, m: MessageV)
    ensures
        enc_list(items.push(m)) == enc_list(items) + enc(m),
    decreases items,
{
    if items.len() == 0 {
        assert(items.push(m).drop_first() =~= Seq::<MessageV>::empty());
        assert(enc_list(Seq::<MessageV>::empty()) == Seq::<u8>::empty());
        assert(items =~= Seq::<MessageV>::empty());
        assert(items.push(m).first() == m);
        assert(enc_list(items.push(m)) =~= enc(m));
        assert(enc_list(items) + enc(m) =~= enc(m));
    } else {
        lemma_enc_list_push(items.drop_first(), m);
        assert(items.push(m).drop_first() =~= items.drop_first().push(m));
        assert(items.push(m).first() == items.first());
        assert(enc(items.first()) + (enc_list(items.drop_first()) + enc(m)) =~= (enc(
            items.first()) + enc_list(items.drop_first())) + enc(m));
    }
}

impl Message {
    /// Encodes the frame deterministically into its wire bytes.
    pub fn encode(&self) -> (r: Vec<u8>)
        ensures
            r@ == enc(self@),
        decreases *self,
    {
        match self {
            Message::Simple(p) => {
                let mut out: Vec<u8> = Vec::new();
                out.push(SIMPLE_PREFIX);
                let mut payload = p.clone();
                out.append(&mut payload);
                out.push(CR);
                out.push(LF);
                proof {
                    assert(out@ =~= enc(self@));
                }
                out
            }
            Message::Error(p) => {
                let mut out: Vec<u8> = Vec::new();
                out.push(ERROR_PREFIX);
                let mut payload = p.clone();
                out.append(&mut payload);
                out.push(CR);
                out.push(LF);
                proof {
                    assert(out@ =~= enc(self@));
                }
                out
            }
            Message::Int(i) => {
                let mut out: Vec<u8> = Vec::new();
                out.push(INT_PREFIX);
                let mut digits = i64_to_dec(*i);
                out.append(&mut digits);
                out.push(CR);
                out.push(LF);
                proof {
                    assert(out@ =~= enc(self@));
                }
                out
            }
            Message::Bulk(p) => {
                let mut out: Vec<u8> = Vec::new();
                out.push(BULK_PREFIX);
                let mut digits = u64_to_dec(p.len() as u64);
                out.append(&mut digits);
                out.push(CR);
                out.push(LF);
                let mut payload = p.clone();
                out.append(&mut payload);
                out.push(CR);
                out.push(LF);
                proof {
                    assert(out@ =~= enc(self@));
                }
                out
            }
            Message::Null => {
                let mut out: Vec<u8> = Vec::new();
                out.push(BULK_PREFIX);
                out.push(45u8);
                out.push(49u8);
                out.push(CR);
                out.push(LF);
                proof {
                    assert(out@ =~= enc(self@));
                }
                out
            }
            Message::Array(items) => {
                let mut out: Vec<u8> = Vec::new();
                out.push(ARRAY_PREFIX);
                let mut digits = u64_to_dec(items.len() as u64);
                out.append(&mut digits);
                out.push(CR);
                out.push(LF);
                proof {
                    lemma_msgs_view_len(items@);
                    assert(msgs_view(items@.take(0)) =~= Seq::<MessageV>::empty());
                    assert(out@ =~= seq![ARRAY_PREFIX] + dec_digits(items@.len()) + crlf()
                        + enc_list(msgs_view(items@.take(0))));
                }
                let ghost header = out@;
                let mut i: usize = 0;
                #[verifier::loop_isolation(false)]
                while i < items.len()
                    invariant
                        i <= items@.len(),
                        out@ == header + enc_list(msgs_view(items@.take(i as int))),
                        header == seq![ARRAY_PREFIX] + dec_digits(items@.len()) + crlf(),
                    decreases items@.len() - i,
                {
                    proof {
                        assert(decreases_to!(*self => *items));
                        assert(decreases_to!(*items => items@[i as int]));
                    }
                    let mut piece = items[i].encode();
                    proof {
                        lemma_msgs_view_len(items@.take(i as int));
                        lemma_enc_list_push(msgs_view(items@.take(i as int)), items@[i as int]@);
                        assert(items@.take(i + 1).drop_last() =~= items@.take(i as int));
                        assert(msgs_view(items@.take(i + 1)) =~= msgs_view(items@.take(
                            i as int)).push(items@[i as int]@));
                    }
                    out.append(&mut piece);
                    i = i + 1;
                }
                proof {
                    assert(items@.take(items@.len() as int) =~= items@);
                    assert(out@ =~= enc(self@));
                }
                out
            }
            Message::NullArray => {
                let mut out: Vec<u8> = Vec::new();
                out.push(ARRAY_PREFIX);
                out.push(45u8);
                out.push(49u8);
                out.push(CR);
                out.push(LF);
                proof {
                    assert(out@ =~= enc(self@));
                }
                out
            }
        }
    }
}


/// Outcome of decoding one frame from the front of a byte sequence: the
/// frame and the bytes it occupies, or the need for more bytes, or a
/// protocol violation.
pub enum SpecDecode {
    Frame(MessageV, nat),
    Incomplete,
    Malformed,
}

/// Outcome of decoding a run of frames (the elements of an array).
pub enum SpecDecodeList {
    Items(Seq<MessageV>, nat),
    Incomplete,
    Malformed,
}

/// An unsigned length or count line: all digits, at least one, value within
/// `u64`.
pub open spec fn parse_unsigned(line: Seq<u8>) -> Option<nat> {
    if all_digits(line) && line.len() >= 1 && dec_value(line) <= u64::MAX {
        Some(dec_value(line))
    } else {
        None
    }
}

/// A signed decimal line: an optional minus sign, then digits.
pub open spec fn parse_signed(line: Seq<u8>) -> Option<int> {
    if line.len() >= 1 && line[0] == 45 {
        match parse_unsigned(line.drop_first()) {
            Some(mag) => Some(-(mag as int)),
            None => None,
        }
    } else {
        match parse_unsigned(line) {
            Some(mag) => Some(mag as int),
            None => None,
        }
    }
}

/// The line announcing a null bulk string or null array: `-1`.
pub open spec fn null_line() -> Seq<u8> {
    seq![45u8, 49u8]
}

/// What the decoder yields on any byte sequence. The exec decoder is proved
/// to return exactly this.
pub open spec fn spec_decode(s: Seq<u8>) -> SpecDecode
    decreases s.len(), 1nat,
{
    if s.len() == 0 {
        SpecDecode::Incomplete
    } else if s[0] == SIMPLE_PREFIX || s[0] == ERROR_PREFIX {
        match spec_find_crlf(s, 1) {
            Option::None => SpecDecode::Incomplete,
            Option::Some(k) => {
                let line = s.subrange(1, k as int);
                if s[0] == SIMPLE_PREFIX {
                    SpecDecode::Frame(MessageV::Simple(line), (k + 2) as nat)
                } else {
                    SpecDecode::Frame(MessageV::Error(line), (k + 2) as nat)
                }
            },
        }
    } else if s[0] == INT_PREFIX {
        match spec_find_crlf(s, 1) {
            Option::None => SpecDecode::Incomplete,
            Option::Some(k) => {
                match parse_signed(s.subrange(1, k as int)) {
                    Option::None => SpecDecode::Malformed,
                    Option::Some(v) => if i64::MIN <= v <= i64::MAX {
                        SpecDecode::Frame(MessageV::Int(v), (k + 2) as nat)
                    } else {
                        SpecDecode::Malformed
                    },
                }
            },
        }
    } else if s[0] == BULK_PREFIX {
        match spec_find_crlf(s, 1) {
            Option::None => SpecDecode::Incomplete,
            Option::Some(k) => {
                let line = s.subrange(1, k as int);
                if line == null_line() {
                    SpecDecode::Frame(MessageV::Null, (k + 2) as nat)
                } else {
                    match parse_unsigned(line) {
                        Option::None => SpecDecode::Malformed,
                        Option::Some(len) => {
                            if k + 2 + len + 2 > s.len() {
                                SpecDecode::Incomplete
                            } else if s[(k + 2 + len) as int] == CR && s[(k + 2 + len
                                + 1) as int] == LF {
                                SpecDecode::Frame(
                                    MessageV::Bulk(s.subrange((k + 2) as int, (k + 2
                                        + len) as int)),
                                    (k + 2 + len + 2) as nat,
                                )
                            } else {
                                SpecDecode::Malformed
                            }
                        },
                    }
                }
            },
        }
    } else if s[0] == ARRAY_PREFIX {
        match spec_find_crlf(s, 1) {
            Option::None => SpecDecode::Incomplete,
            Option::Some(k) => {
                let line = s.subrange(1, k as int);
                if line == null_line() {
                    SpecDecode::Frame(MessageV::NullArray, (k + 2) as nat)
                } else {
                    match parse_unsigned(line) {
                        Option::None => SpecDecode::Malformed,
                        Option::Some(n) => {
                            proof {
                                lemma_find_crlf_props(s, 1);
                            }
                            let body = s.subrange((k + 2) as int, s.len() as int);
                            match spec_decode_list(body, n) {
                                SpecDecodeList::Incomplete => SpecDecode::Incomplete,
                                SpecDecodeList::Malformed => SpecDecode::Malformed,
                                SpecDecodeList::Items(items, used) => SpecDecode::Frame(
                                    MessageV::Array(items),
                                    (k + 2 + used) as nat,
                                ),
                            }
                        },
                    }
                }
            },
        }
    } else {
        SpecDecode::Malformed
    }
}

/// Decodes `n` consecutive frames. The clamp of the step to the sequence
/// length only serves termination; a decoded frame never reports more bytes
/// than it was given (`lemma_decode_bounds`).
pub open spec fn spec_decode_list(s: Seq<u8>, n: nat) -> SpecDecodeList
    decreases s.len(), n + 2nat,
{
    if n == 0 {
        SpecDecodeList::Items(Seq::empty(), 0)
    } else {
        match spec_decode(s) {
            SpecDecode::Incomplete => SpecDecodeList::Incomplete,
            SpecDecode::Malformed => SpecDecodeList::Malformed,
            SpecDecode::Frame(m, used) => {
                let step = if used <= s.len() { used } else { s.len() };
                match spec_decode_list(s.subrange(step as int, s.len() as int), (n
                    - 1) as nat) {
                    SpecDecodeList::Incomplete => SpecDecodeList::Incomplete,
                    SpecDecodeList::Malformed => SpecDecodeList::Malformed,
                    SpecDecodeList::Items(rest, used2) => SpecDecodeList::Items(
                        seq![m] + rest,
                        (step + used2) as nat,
                    ),
                }
            },
        }
    }
}

/// A decoded frame occupies at least one byte and no more than were given.
pub proof fn lemma_decode_bounds(s: Seq<u8>)
    ensures
        spec_decode(s) matches SpecDecode::Frame(m, used) ==> 1 <= used <= s.len(),
    decreases s.len(), 1nat,
{
    if s.len() == 0 {
    } else if s[0] == SIMPLE_PREFIX || s[0] == ERROR_PREFIX || s[0] == INT_PREFIX || s[0]
        == BULK_PREFIX {
        lemma_find_crlf_props(s, 1);
    } else if s[0] == ARRAY_PREFIX {
        lemma_find_crlf_props(s, 1);
        match spec_find_crlf(s, 1) {
            Option::None => {},
            Option::Some(k) => {
                let line = s.subrange(1, k as int);
                if line == null_line() {
                } else {
                    match parse_unsigned(line) {
                        Option::None => {},
                        Option::Some(n) => {
                            let body = s.subrange((k + 2) as int, s.len() as int);
                            lemma_decode_list_bounds(body, n);
                        },
                    }
                }
            },
        }
    } else {
    }
}

/// A decoded run of frames occupies no more bytes than it was given and
/// yields exactly the announced count.
pub proof fn lemma_decode_list_bounds(s: Seq<u8>, n: nat)
    ensures
        spec_decode_list(s, n) matches SpecDecodeList::Items(items, used) ==> used
            <= s.len() && items.len() == n,
    decreases s.len(), n + 2nat,
{
    if n == 0 {
    } else {
        lemma_decode_bounds(s);
        match spec_decode(s) {
            SpecDecode::Incomplete => {},
            SpecDecode::Malformed => {},
            SpecDecode::Frame(m, used) => {
                let step = if used <= s.len() { used } else { s.len() };
                lemma_decode_list_bounds(s.subrange(step as int, s.len() as int), (n
                    - 1) as nat);
            },
        }
    }
}

/// Why a frame could not be decoded: the buffer ends too early, or the bytes
/// cannot begin any frame.
#[derive(Debug, PartialEq, Eq, Structural, Clone, Copy)]
pub enum DecodeError {
    Incomplete,
    Malformed,
}

proof fn lemma_msgs_view_concat(a: Seq<Message>, b: Seq<Message>)
    ensures
        msgs_view(a + b) == msgs_view(a) + msgs_view(b),
{
    lemma_msgs_view_len(a);
    lemma_msgs_view_len(b);
    lemma_msgs_view_len(a + b);
    assert forall|i: int| 0 <= i < (a + b).len() implies msgs_view(a + b)[i] == (msgs_view(a)
        + msgs_view(b))[i] by {
        if i < a.len() {
            assert((a + b)[i] == a[i]);
        } else {
            assert((a + b)[i] == b[i - a.len()]);
        }
    }
    assert(msgs_view(a + b) =~= msgs_view(a) + msgs_view(b));
}

impl Message {
    /// Decodes one frame from the front of the buffer, returning it with the
    /// number of bytes it occupied, exactly as the specification decoder
    /// says. Multiple frames per buffer are handled by decoding again at the
    /// reported offset; partial frames report `Incomplete`.
    pub fn decode(buffer: &[u8]) -> (r: Result<(Message, usize), DecodeError>)
        ensures
            match r {
                Ok((m, used)) => spec_decode(buffer@) == SpecDecode::Frame(m@, used as nat)
                    && used <= buffer@.len(),
                Err(DecodeError::Incomplete) => spec_decode(buffer@)
                    == SpecDecode::Incomplete,
                Err(DecodeError::Malformed) => spec_decode(buffer@)
                    == SpecDecode::Malformed,
            },
        decreases buffer@.len(), 1nat,
    {
        proof {
            lemma_decode_bounds(buffer@);
        }
        if buffer.len() == 0 {
            return Err(DecodeError::Incomplete);
        }
        let b = buffer[0];
        if b == SIMPLE_PREFIX || b == ERROR_PREFIX {
            parse_simple_string(buffer)
        } else if b == INT_PREFIX {
            parse_integer(buffer)
        } else if b == BULK_PREFIX {
            parse_bulk_string(buffer)
        } else if b == ARRAY_PREFIX {
            parse_array(buffer)
        } else {
            Err(DecodeError::Malformed)
        }
    }
}

/// Decodes a simple-string or error frame: the payload is the line up to
/// CR LF.
pub fn parse_simple_string(buffer: &[u8]) -> (r: Result<(Message, usize), DecodeError>)
    requires
        buffer@.len() >= 1,
        buffer@[0] == SIMPLE_PREFIX || buffer@[0] == ERROR_PREFIX,
    ensures
        match r {
            Ok((m, used)) => spec_decode(buffer@) == SpecDecode::Frame(m@, used as nat)
                && used <= buffer@.len(),
            Err(DecodeError::Incomplete) => spec_decode(buffer@) == SpecDecode::Incomplete,
            Err(DecodeError::Malformed) => spec_decode(buffer@) == SpecDecode::Malformed,
        },
{
    proof {
        lemma_find_crlf_props(buffer@, 1);
    }
    match crate::parser::find_crlf_from(buffer, 1) {
        None => Err(DecodeError::Incomplete),
        Some(k) => {
            let line = vstd::slice::slice_to_vec(vstd::slice::slice_subrange(buffer, 1, k));
            if buffer[0] == SIMPLE_PREFIX {
                Ok((Message::Simple(line), k + 2))
            } else {
                Ok((Message::Error(line), k + 2))
            }
        },
    }
}

/// Decodes an integer frame: a signed decimal line.
pub fn parse_integer(buffer: &[u8]) -> (r: Result<(Message, usize), DecodeError>)
    requires
        buffer@.len() >= 1,
        buffer@[0] == INT_PREFIX,
    ensures
        match r {
            Ok((m, used)) => spec_decode(buffer@) == SpecDecode::Frame(m@, used as nat)
                && used <= buffer@.len(),
            Err(DecodeError::Incomplete) => spec_decode(buffer@) == SpecDecode::Incomplete,
            Err(DecodeError::Malformed) => spec_decode(buffer@) == SpecDecode::Malformed,
        },
{
    proof {
        lemma_find_crlf_props(buffer@, 1);
    }
    match crate::parser::find_crlf_from(buffer, 1) {
        None => Err(DecodeError::Incomplete),
        Some(k) => {
            let blen = buffer.len();
            assert(k + 2 <= blen);
            let line = vstd::slice::slice_subrange(buffer, 1, k);
            if line.len() >= 1 && line[0] == 45 {
                let mag_slice = vstd::slice::slice_subrange(line, 1, line.len());
                proof {
                    assert(mag_slice@ =~= line@.drop_first());
                }
                match parse_int(mag_slice) {
                    None => Err(DecodeError::Malformed),
                    Some(mag) => {
                        if mag > 9223372036854775808u64 {
                            return Err(DecodeError::Malformed);
                        }
                        let v: i64 = (-(mag as i128)) as i64;
                        Ok((Message::Int(v), k + 2))
                    },
                }
            } else {
                match parse_int(line) {
                    None => Err(DecodeError::Malformed),
                    Some(mag) => {
                        if mag > i64::MAX as u64 {
                            return Err(DecodeError::Malformed);
                        }
                        Ok((Message::Int(mag as i64), k + 2))
                    },
                }
            }
        },
    }
}

/// Decodes a bulk-string frame: a length line, that many payload bytes, and
/// a closing CR LF. The length line `-1` denotes the null bulk string.
pub fn parse_bulk_string(buffer: &[u8]) -> (r: Result<(Message, usize), DecodeError>)
    requires
        buffer@.len() >= 1,
        buffer@[0] == BULK_PREFIX,
    ensures
        match r {
            Ok((m, used)) => spec_decode(buffer@) == SpecDecode::Frame(m@, used as nat)
                && used <= buffer@.len(),
            Err(DecodeError::Incomplete) => spec_decode(buffer@) == SpecDecode::Incomplete,
            Err(DecodeError::Malformed) => spec_decode(buffer@) == SpecDecode::Malformed,
        },
{
    proof {
        lemma_find_crlf_props(buffer@, 1);
    }
    match crate::parser::find_crlf_from(buffer, 1) {
        None => Err(DecodeError::Incomplete),
        Some(k) => {
            let blen = buffer.len();
            assert(k + 2 <= blen);
            let line = vstd::slice::slice_subrange(buffer, 1, k);
            if line.len() == 2 && line[0] == 45 && line[1] == 49 {
                proof {
                    assert(line@ =~= null_line());
                }
                return Ok((Message::Null, k + 2));
            }
            proof {
                if line@ == null_line() {
                    assert(line@[0] == 45u8 && line@[1] == 49u8 && line@.len() == 2);
                }
            }
            match parse_int(line) {
                None => Err(DecodeError::Malformed),
                Some(len64) => {
                    let after_line = k + 2;
                    let remaining = (buffer.len() - after_line) as u64;
                    if remaining < 2 || len64 > remaining - 2 {
                        return Err(DecodeError::Incomplete);
                    }
                    let len = len64 as usize;
                    let end = after_line + len;
                    if buffer[end] == CR && buffer[end + 1] == LF {
                        let payload = vstd::slice::slice_to_vec(
                            vstd::slice::slice_subrange(buffer, after_line, end),
                        );
                        Ok((Message::Bulk(payload), end + 2))
                    } else {
                        Err(DecodeError::Malformed)
                    }
                },
            }
        },
    }
}

/// Decodes an array frame: a count line, then that many frames in sequence.
/// The count line `-1` denotes the null array.
pub fn parse_array(buffer: &[u8]) -> (r: Result<(Message, usize), DecodeError>)
    requires
        buffer@.len() >= 1,
        buffer@[0] == ARRAY_PREFIX,
    ensures
        match r {
            Ok((m, used)) => spec_decode(buffer@) == SpecDecode::Frame(m@, used as nat)
                && used <= buffer@.len(),
            Err(DecodeError::Incomplete) => spec_decode(buffer@) == SpecDecode::Incomplete,
            Err(DecodeError::Malformed) => spec_decode(buffer@) == SpecDecode::Malformed,
        },
    decreases buffer@.len(), 0nat,
{
    proof {
        lemma_find_crlf_props(buffer@, 1);
    }
    match crate::parser::find_crlf_from(buffer, 1) {
        None => Err(DecodeError::Incomplete),
        Some(k) => {
            let blen = buffer.len();
            assert(k + 2 <= blen);
            let line = vstd::slice::slice_subrange(buffer, 1, k);
            if line.len() == 2 && line[0] == 45 && line[1] == 49 {
                proof {
                    assert(line@ =~= null_line());
                }
                return Ok((Message::NullArray, k + 2));
            }
            proof {
                if line@ == null_line() {
                    assert(line@[0] == 45u8 && line@[1] == 49u8 && line@.len() == 2);
                }
            }
            match parse_int(line) {
                None => Err(DecodeError::Malformed),
                Some(n) => {
                    let body = vstd::slice::slice_subrange(buffer, k + 2, buffer.len());
                    proof {
                        lemma_decode_list_bounds(body@, n as nat);
                    }
                    match decode_elems(body, n) {
                        Err(e) => Err(e),
                        Ok((items, used)) => Ok((Message::Array(items), k + 2 + used)),
                    }
                },
            }
        },
    }
}

/// Decodes `n` consecutive frames, the elements of an array.
fn decode_elems(buffer: &[u8], n: u64) -> (r: Result<(Vec<Message>, usize), DecodeError>)
    ensures
        match r {
            Ok((items, used)) => spec_decode_list(buffer@, n as nat)
                == SpecDecodeList::Items(msgs_view(items@), used as nat) && used
                <= buffer@.len(),
            Err(DecodeError::Incomplete) => spec_decode_list(buffer@, n as nat)
                == SpecDecodeList::Incomplete,
            Err(DecodeError::Malformed) => spec_decode_list(buffer@, n as nat)
                == SpecDecodeList::Malformed,
        },
    decreases buffer@.len(), n as nat + 2nat,
{
    if n == 0 {
        let items: Vec<Message> = Vec::new();
        proof {
            assert(msgs_view(items@) =~= Seq::<MessageV>::empty());
        }
        Ok((items, 0))
    } else {
        match Message::decode(buffer) {
            Err(e) => Err(e),
            Ok((m, used)) => {
                proof {
                    lemma_decode_bounds(buffer@);
                }
                let rest = vstd::slice::slice_subrange(buffer, used, buffer.len());
                match decode_elems(rest, n - 1) {
                    Err(e) => Err(e),
                    Ok((rest_items, used2)) => {
                        proof {
                            lemma_decode_list_bounds(rest@, (n - 1) as nat);
                        }
                        let mut items: Vec<Message> = Vec::new();
                        items.push(m);
                        let ghost first_seq = items@;
                        let mut tail = rest_items;
                        let ghost tail_seq = tail@;
                        items.append(&mut tail);
                        proof {
                            lemma_msgs_view_concat(first_seq, tail_seq);
                            lemma_msgs_view_len(first_seq);
                            assert(msgs_view(first_seq)[0] == msg_view(first_seq[0]));
                            assert(msgs_view(first_seq) =~= seq![m@]);
                            assert(msgs_view(items@) =~= seq![m@] + msgs_view(tail_seq));
                        }
                        Ok((items, used + used2))
                    },
                }
            },
        }
    }
}


proof fn lemma_digits_not_crlf(d: Seq<u8>)
    requires
        all_digits(d),
    ensures
        forall|i: int| 0 <= i < d.len() ==> #[trigger] d[i] != CR && d[i] != LF,
{
}

/// Layout of every line-framed prefix: in `[p] + line + CR LF + tail` with a
/// CR-free line, the scan from position 1 lands exactly on the terminator.
proof fn lemma_framed_line(s: Seq<u8>, line: Seq<u8>, tail: Seq<u8>, p: u8)
    requires
        s == seq![p] + line + crlf() + tail,
        forall|i: int| 0 <= i < line.len() ==> #[trigger] line[i] != CR,
    ensures
        spec_find_crlf(s, 1) == Some((1 + line.len()) as nat),
        s.subrange(1, 1 + line.len() as int) == line,
        s.len() == line.len() + 3 + tail.len(),
{
    let k = 1 + line.len() as int;
    assert(s[k] == CR);
    assert(s[k + 1] == LF);
    assert forall|j: int| 1 <= j < k implies s[j] != CR by {
        assert(s[j] == line[j - 1]);
    }
    lemma_find_crlf_after_clean(s, 1, (1 + line.len()) as nat);
    assert(s.subrange(1, k) =~= line);
}

proof fn lemma_int_digits_parse(i: int)
    requires
        i64::MIN <= i <= i64::MAX,
    ensures
        parse_signed(int_digits(i)) == Some(i),
        all_digits(int_digits(i)) || (int_digits(i)[0] == 45u8 && all_digits(int_digits(
            i).drop_first())),
        int_digits(i).len() >= 1,
        forall|j: int| 0 <= j < int_digits(i).len() ==> #[trigger] int_digits(i)[j] != CR
            && int_digits(i)[j] != LF,
{
    if i < 0 {
        let d = dec_digits((-i) as nat);
        lemma_dec_digits_digits((-i) as nat);
        lemma_dec_value_of_digits((-i) as nat);
        let line = seq![45u8] + d;
        assert(int_digits(i) == line);
        assert(line[0] == 45u8);
        assert(line.drop_first() =~= d);
        assert(parse_unsigned(d) == Some((-i) as nat));
        assert(parse_signed(line) == Some(i));
        assert forall|j: int| 0 <= j < line.len() implies #[trigger] line[j] != CR
            && line[j] != LF by {
            if j > 0 {
                assert(line[j] == d[j - 1]);
                assert(is_digit(d[j - 1]));
            }
        }
    } else {
        lemma_dec_digits_digits(i as nat);
        lemma_dec_value_of_digits(i as nat);
        let d = dec_digits(i as nat);
        assert(d[0] != 45u8);
        assert(parse_unsigned(d) == Some(i as nat));
        lemma_digits_not_crlf(d);
    }
}

/// Round trip, one frame: decoding the encoding of a well-formed frame
/// yields that frame back and consumes exactly its bytes, whatever else
/// follows in the buffer.
pub proof fn lemma_decode_of_encoding(m: MessageV, rest: Seq<u8>)
    requires
        wf(m),
    ensures
        spec_decode(enc(m) + rest) == SpecDecode::Frame(m, enc(m).len()),
    decreases m,
{
    let s = enc(m) + rest;
    match m {
        MessageV::Simple(p) => {
            assert(s =~= seq![SIMPLE_PREFIX] + p + crlf() + rest);
            lemma_framed_line(s, p, rest, SIMPLE_PREFIX);
            assert(s[0] == SIMPLE_PREFIX);
        }
        MessageV::Error(p) => {
            assert(s =~= seq![ERROR_PREFIX] + p + crlf() + rest);
            lemma_framed_line(s, p, rest, ERROR_PREFIX);
            assert(s[0] == ERROR_PREFIX);
        }
        MessageV::Int(i) => {
            let line = int_digits(i);
            lemma_int_digits_parse(i);
            assert(s =~= seq![INT_PREFIX] + line + crlf() + rest);
            lemma_framed_line(s, line, rest, INT_PREFIX);
            assert(s[0] == INT_PREFIX);
            assert(s[0] != SIMPLE_PREFIX && s[0] != ERROR_PREFIX);
        }
        MessageV::Bulk(p) => {
            let d = dec_digits(p.len());
            lemma_dec_digits_digits(p.len());
            lemma_dec_value_of_digits(p.len());
            lemma_digits_not_crlf(d);
            assert(s =~= seq![BULK_PREFIX] + d + crlf() + (p + crlf() + rest));
            lemma_framed_line(s, d, p + crlf() + rest, BULK_PREFIX);
            assert(s[0] == BULK_PREFIX);
            let k = 1 + d.len() as int;
            assert(is_digit(d[0]));
            assert(d != null_line());
            assert(parse_unsigned(d) == Some(p.len()));
            let len = p.len() as int;
            assert(s.len() == k + 2 + len + 2 + rest.len());
            assert forall|j: int| 0 <= j < len implies s[k + 2 + j] == p[j] by {
                assert(s == seq![BULK_PREFIX] + d + crlf() + (p + crlf() + rest));
            }
            assert(s[k + 2 + len] == CR);
            assert(s[k + 2 + len + 1] == LF);
            assert(s.subrange(k + 2, k + 2 + len) =~= p);
            assert(enc(m).len() == k + 2 + len + 2);
        }
        MessageV::Null => {
            assert(s =~= seq![BULK_PREFIX] + null_line() + crlf() + rest);
            lemma_framed_line(s, null_line(), rest, BULK_PREFIX);
            assert(s[0] == BULK_PREFIX);
            assert(s.subrange(1, 3) == null_line());
        }
        MessageV::Array(items) => {
            let d = dec_digits(items.len());
            lemma_dec_digits_digits(items.len());
            lemma_dec_value_of_digits(items.len());
            lemma_digits_not_crlf(d);
            assert(s =~= seq![ARRAY_PREFIX] + d + crlf() + (enc_list(items) + rest));
            lemma_framed_line(s, d, enc_list(items) + rest, ARRAY_PREFIX);
            assert(s[0] == ARRAY_PREFIX);
            assert(s[0] != SIMPLE_PREFIX && s[0] != ERROR_PREFIX && s[0] != INT_PREFIX
                && s[0] != BULK_PREFIX);
            let k = 1 + d.len() as int;
            assert(is_digit(d[0]));
            assert(d != null_line());
            assert(parse_unsigned(d) == Some(items.len()));
            let body = s.subrange(k + 2, s.len() as int);
            assert(body =~= enc_list(items) + rest);
            lemma_decode_list_of_encoding(items, rest);
            assert(spec_decode_list(body, items.len()) == SpecDecodeList::Items(
                items,
                enc_list(items).len(),
            ));
            assert(enc(m).len() == k + 2 + enc_list(items).len());
        }
        MessageV::NullArray => {
            assert(s =~= seq![ARRAY_PREFIX] + null_line() + crlf() + rest);
            lemma_framed_line(s, null_line(), rest, ARRAY_PREFIX);
            assert(s[0] == ARRAY_PREFIX);
            assert(s[0] != SIMPLE_PREFIX && s[0] != ERROR_PREFIX && s[0] != INT_PREFIX
                && s[0] != BULK_PREFIX);
            assert(s.subrange(1, 3) == null_line());
        }
    }
}

/// Round trip for the elements of an array, decoded in sequence.
proof fn lemma_decode_list_of_encoding(items: Seq<MessageV>, rest: Seq<u8>)
    requires
        forall|i: int| 0 <= i < items.len() ==> wf(#[trigger] items[i]),
    ensures
        spec_decode_list(enc_list(items) + rest, items.len()) == SpecDecodeList::Items(
            items,
            enc_list(items).len(),
        ),
    decreases items,
{
    let s = enc_list(items) + rest;
    if items.len() == 0 {
        assert(spec_decode_list(s, 0) == SpecDecodeList::Items(Seq::<MessageV>::empty(), 0nat));
        assert(items =~= Seq::<MessageV>::empty());
    } else {
        let first = items.first();
        let tail = items.drop_first();
        assert(wf(first));
        assert(s =~= enc(first) + (enc_list(tail) + rest));
        lemma_decode_of_encoding(first, enc_list(tail) + rest);
        let used = enc(first).len();
        assert(spec_decode(s) == SpecDecode::Frame(first, used));
        assert(used <= s.len());
        let body = s.subrange(used as int, s.len() as int);
        assert(body =~= enc_list(tail) + rest);
        assert(forall|i: int| 0 <= i < tail.len() ==> wf(#[trigger] tail[i]));
        lemma_decode_list_of_encoding(tail, rest);
        assert(spec_decode_list(body, tail.len()) == SpecDecodeList::Items(
            tail,
            enc_list(tail).len(),
        ));
        assert(seq![first] + tail =~= items);
        assert(enc_list(items).len() == used + enc_list(tail).len());
    }
}

/// Round trip on a buffer holding exactly one encoded frame.
pub proof fn lemma_round_trip(m: MessageV)
    requires
        wf(m),
    ensures
        spec_decode(enc(m)) == SpecDecode::Frame(m, enc(m).len()),
{
    lemma_decode_of_encoding(m, Seq::<u8>::empty());
    assert(enc(m) + Seq::<u8>::empty() =~= enc(m));
}


/// An array of bulk strings carrying the given byte strings.
pub open spec fn spec_array_of_bulks(vals: Seq<Seq<u8>>) -> MessageV {
    MessageV::Array(vals.map_values(|v: Seq<u8>| MessageV::Bulk(v)))
}

impl Message {
    /// Encodes an array of bulk strings, the form every command takes on the
    /// wire.
    pub fn encode_array_str(values: Vec<Vec<u8>>) -> (r: Vec<u8>)
        ensures
            r@ == enc(spec_array_of_bulks(values@.map_values(|v: Vec<u8>| v@))),
    {
        let ghost vals = values@.map_values(|v: Vec<u8>| v@);
        let ghost target = vals.map_values(|v: Seq<u8>| MessageV::Bulk(v));
        let mut items: Vec<Message> = Vec::new();
        let mut i: usize = 0;
        proof {
            assert(msgs_view(items@) =~= target.take(0));
        }
        #[verifier::loop_isolation(false)]
        while i < values.len()
            invariant
                i <= values@.len(),
                vals == values@.map_values(|v: Vec<u8>| v@),
                target == vals.map_values(|v: Seq<u8>| MessageV::Bulk(v)),
                msgs_view(items@) == target.take(i as int),
            decreases values@.len() - i,
        {
            let ghost prev = items@;
            let piece = Message::Bulk(values[i].clone());
            let ghost piece_v = piece@;
            items.push(piece);
            proof {
                lemma_msgs_view_push(prev, items@.last());
                assert(piece_v == target[i as int]);
                assert(target.take(i as int).push(target[i as int]) =~= target.take(i + 1));
            }
            i = i + 1;
        }
        proof {
            assert(target.take(target.len() as int) =~= target);
        }
        Message::Array(items).encode()
    }
}

} // verus!
