//! Replication: the messages queued to a replica link, the primary's
//! bookkeeping of its links and offsets (WAIT), the replica-side handshake
//! and apply-loop decisions. The sockets, tasks and timers that carry these
//! values live outside the crate; everything decided here is a function of
//! the state and the bytes.

use vstd::prelude::*;
use vstd::string::StringSliceAdditionalSpecFns;

use crate::command::{spec_parse_command, spec_to_command, CommandV};
use crate::message::{enc, Message, MessageV};
use crate::store::Store;
use crate::stream::{StreamInfo, StreamType};

verus! {

/// One item queued to a replica link: a preformed frame, and a deadline
/// (milliseconds) when the link must wait for an acknowledgement after
/// sending it.
#[derive(Debug)]
pub struct ReplicaCommand {
    pub message: Message,
    pub timeout: Option<u64>,
}

impl ReplicaCommand {
    pub fn new(message: Message, timeout: Option<u64>) -> (r: ReplicaCommand)
        ensures
            r.message@ == message@,
            r.timeout == timeout,
    {
        ReplicaCommand { message, timeout }
    }
}

/// What came back from an acknowledgement request: a reply in time, or the
/// deadline.
#[derive(Debug, PartialEq, Eq, Structural, Clone, Copy)]
pub struct ReplicaResponse {
    pub expired: bool,
}

impl ReplicaResponse {
    /// The replica answered before the deadline.
    pub fn received() -> (r: ReplicaResponse)
        ensures
            !r.expired,
    {
        ReplicaResponse { expired: false }
    }

    /// The deadline passed with no answer.
    pub fn expired() -> (r: ReplicaResponse)
        ensures
            r.expired,
    {
        ReplicaResponse { expired: true }
    }
}

/// What a replica reads from its inbound connection: the snapshot blob sent
/// once after FULLRESYNC, or an ordinary frame.
#[derive(Debug)]
pub enum ReplicaMessage {
    RdbFile(Vec<u8>),
    Response(Message),
}

impl ReplicaMessage {
    pub fn is_rdb_file(&self) -> (r: bool)
        ensures
            r == (self matches ReplicaMessage::RdbFile(_)),
    {
        match self {
            ReplicaMessage::RdbFile(_) => true,
            ReplicaMessage::Response(_) => false,
        }
    }

    pub fn is_response(&self) -> (r: bool)
        ensures
            r == (self matches ReplicaMessage::Response(_)),
    {
        match self {
            ReplicaMessage::RdbFile(_) => false,
            ReplicaMessage::Response(_) => true,
        }
    }
}


/// One attached replica, as the primary sees it: the commands queued for it,
/// how many bytes it has been sent, and the highest offset it has
/// acknowledged. The ghost fields record what has already left the queue and
/// where in the primary's history this link began, so that delivery order
/// can be stated.
pub struct ReplicaLink {
    pub queue: Vec<Vec<u8>>,
    pub bytes_sent: u64,
    pub last_ack_offset: u64,
    pub delivered: Ghost<Seq<Seq<u8>>>,
    pub attach: Ghost<int>,
}

impl ReplicaLink {
    /// The queued commands, oldest first.
    pub open spec fn queue_view(&self) -> Seq<Seq<u8>> {
        self.queue@.map_values(|w: Vec<u8>| w@)
    }
}

/// The primary's replication state: its identity and offset, the attached
/// links, and (as ghost state) the full sequence of accepted writes.
pub struct PrimaryState {
    pub info: StreamInfo,
    pub links: Vec<ReplicaLink>,
    pub history: Ghost<Seq<Seq<u8>>>,
}

/// A link is consistent with the history: everything it has been handed —
/// delivered first, then still queued — is exactly the history from its
/// attach point on, in order.
pub open spec fn link_wf(link: ReplicaLink, history: Seq<Seq<u8>>) -> bool {
    &&& 0 <= link.attach@ <= history.len()
    &&& link.delivered@ + link.queue_view() == history.skip(link.attach@)
}

impl PrimaryState {
    pub open spec fn wf(&self) -> bool {
        forall|i: int|
            0 <= i < self.links@.len() ==> link_wf(#[trigger] self.links@[i], self.history@)
    }

    /// The primary's replication offset.
    pub open spec fn offset(&self) -> u64 {
        self.info.offset
    }

    /// A fresh primary: no links, no history, offset zero.
    pub fn new(info: StreamInfo) -> (r: PrimaryState)
        requires
            info.offset == 0,
        ensures
            r.wf(),
            r.info == info,
            r.links@.len() == 0,
            r.history@ == Seq::<Seq<u8>>::empty(),
            r.offset() == 0,
    {
        PrimaryState { info, links: Vec::new(), history: Ghost(Seq::empty()) }
    }

    /// The number of attached replicas.
    pub fn count_replicas(&self) -> (r: usize)
        ensures
            r == self.links@.len(),
    {
        self.links.len()
    }

    /// Attaches a replica (PSYNC completed): it starts with an empty queue
    /// at the current point of history.
    pub fn add_link(&mut self)
        requires
            old(self).wf(),
        ensures
            final(self).wf(),
            final(self).links@.len() == old(self).links@.len() + 1,
            final(self).history@ == old(self).history@,
            final(self).info == old(self).info,
            final(self).offset() == old(self).offset(),
            forall|i: int|
                0 <= i < old(self).links@.len() ==> final(self).links@[i] == old(self).links@[i],
    {
        let link = ReplicaLink {
            queue: Vec::new(),
            bytes_sent: 0,
            last_ack_offset: 0,
            delivered: Ghost(Seq::empty()),
            attach: Ghost(self.history@.len() as int),
        };
        proof {
            assert(link.queue_view() =~= Seq::<Seq<u8>>::empty());
            assert(self.history@.skip(self.history@.len() as int) =~= Seq::<Seq<u8>>::empty());
            assert(link.delivered@ + link.queue_view() =~= self.history@.skip(
                self.history@.len() as int,
            ));
        }
        self.links.push(link);
    }

    /// Drops a link whose connection died.
    pub fn remove_link(&mut self, i: usize)
        requires
            old(self).wf(),
            i < old(self).links@.len(),
        ensures
            final(self).wf(),
            final(self).links@ == old(self).links@.remove(i as int),
            final(self).history@ == old(self).history@,
            final(self).info == old(self).info,
            final(self).offset() == old(self).offset(),
    {
        let _ = self.links.remove(i);
    }

    /// Accepts one write: it joins the history, is queued to every attached
    /// replica in arrival order, and advances the offset by the length of
    /// its wire form (saturating at the largest offset). The offset never
    /// decreases.
    pub fn accept_write(&mut self, wire: &Vec<u8>)
        requires
            old(self).wf(),
        ensures
            final(self).wf(),
            final(self).history@ == old(self).history@.push(wire@),
            final(self).links@.len() == old(self).links@.len(),
            forall|i: int|
                0 <= i < old(self).links@.len() ==> {
                    &&& (#[trigger] final(self).links@[i]).queue_view() == old(self).links@[i].queue_view().push(wire@)
                    &&& final(self).links@[i].delivered@ == old(self).links@[i].delivered@
                    &&& final(self).links@[i].attach@ == old(self).links@[i].attach@
                    &&& final(self).links@[i].bytes_sent == old(self).links@[i].bytes_sent
                    &&& final(self).links@[i].last_ack_offset == old(self).links@[i].last_ack_offset
                },
            final(self).offset() >= old(self).offset(),
            wire@.len() <= u64::MAX - old(self).offset() ==> final(self).offset() == old(self).offset() + wire@.len(),
            final(self).info.role == old(self).info.role,
            final(self).info.id@ == old(self).info.id@,
    {
        let ghost old_history = self.history@;
        proof {
            self.history@ = self.history@.push(wire@);
        }
        let mut i: usize = 0;
        #[verifier::loop_isolation(false)]
        while i < self.links.len()
            invariant
                i <= self.links@.len(),
                self.links@.len() == old(self).links@.len(),
                self.history@ == old_history.push(wire@),
                old_history == old(self).history@,
                self.info == old(self).info,
                forall|j: int|
                    i <= j < self.links@.len() ==> #[trigger] self.links@[j] == old(self).links@[j],
                forall|j: int|
                    0 <= j < i ==> {
                        &&& (#[trigger] self.links@[j]).queue_view() == old(self).links@[j].queue_view().push(wire@)
                        &&& self.links@[j].delivered@ == old(self).links@[j].delivered@
                        &&& self.links@[j].attach@ == old(self).links@[j].attach@
                        &&& self.links@[j].bytes_sent == old(self).links@[j].bytes_sent
                        &&& self.links@[j].last_ack_offset == old(self).links@[j].last_ack_offset
                        &&& link_wf(self.links@[j], self.history@)
                    },
            decreases self.links@.len() - i,
        {
            let ghost before = self.links@[i as int];
            let link = &mut self.links[i];
            link.queue.push(wire.clone());
            proof {
                assert(self.links@[i as int].queue_view() =~= before.queue_view().push(
                    wire@,
                ));
                assert(link_wf(before, old_history));
                let d = before.delivered@;
                let q = before.queue_view();
                assert(d + q == old_history.skip(before.attach@));
                assert(d + q.push(wire@) =~= (d + q).push(wire@));
                assert((old_history.skip(before.attach@)).push(wire@) =~= old_history.push(
                    wire@,
                ).skip(before.attach@));
                assert(self.links@[i as int].delivered@ + self.links@[i as int].queue_view()
                    == old_history.push(wire@).skip(before.attach@));
            }
            i = i + 1;
        }
        let add = if self.info.offset > u64::MAX - (wire.len() as u64) {
            u64::MAX - self.info.offset
        } else {
            wire.len() as u64
        };
        self.info.offset = self.info.offset + add;
    }

    /// Takes the oldest queued command off a link for sending, counting its
    /// bytes as sent (saturating).
    pub fn next_to_send(&mut self, i: usize) -> (r: Option<Vec<u8>>)
        requires
            old(self).wf(),
            i < old(self).links@.len(),
        ensures
            final(self).wf(),
            final(self).history@ == old(self).history@,
            final(self).info == old(self).info,
            final(self).links@.len() == old(self).links@.len(),
            forall|j: int|
                0 <= j < old(self).links@.len() && j != i ==> #[trigger] final(self).links@[j] == old(self).links@[j],
            match r {
                Some(wire) => {
                    &&& old(self).links@[i as int].queue_view().len() > 0
                    &&& wire@ == old(self).links@[i as int].queue_view().first()
                    &&& final(self).links@[i as int].queue_view() == old(self).links@[i as int].queue_view().drop_first()
                    &&& final(self).links@[i as int].delivered@ == old(self).links@[i as int].delivered@.push(wire@)
                },
                None => {
                    &&& old(self).links@[i as int].queue_view().len() == 0
                    &&& final(self).links@[i as int] == old(self).links@[i as int]
                },
            },
    {
        let ghost before = self.links@[i as int];
        let link = &mut self.links[i];
        if link.queue.len() == 0 {
            proof {
                assert(final(self).links@ =~= old(self).links@);
            }
            return None;
        }
        let wire = link.queue.remove(0);
        proof {
            link.delivered@ = link.delivered@.push(wire@);
        }
        let add = if link.bytes_sent > u64::MAX - (wire.len() as u64) {
            u64::MAX - link.bytes_sent
        } else {
            wire.len() as u64
        };
        link.bytes_sent = link.bytes_sent + add;
        proof {
            assert(self.links@[i as int].queue_view() =~= before.queue_view().drop_first());
            assert(before.queue_view().first() == wire@);
            assert(link_wf(before, self.history@));
            assert(self.links@[i as int].delivered@ + self.links@[i as int].queue_view()
                =~= before.delivered@ + before.queue_view());
        }
        Some(wire)
    }

    /// Records an acknowledged offset from a replica; the remembered
    /// acknowledgement never moves backwards.
    pub fn record_ack(&mut self, i: usize, offset: u64)
        requires
            old(self).wf(),
            i < old(self).links@.len(),
        ensures
            final(self).wf(),
            final(self).history@ == old(self).history@,
            final(self).info == old(self).info,
            final(self).links@.len() == old(self).links@.len(),
            forall|j: int|
                0 <= j < old(self).links@.len() && j != i ==> #[trigger] final(self).links@[j] == old(self).links@[j],
            final(self).links@[i as int].last_ack_offset == (if offset > old(self).links@[i as int].last_ack_offset {
                offset
            } else {
                old(self).links@[i as int].last_ack_offset
            }),
            final(self).links@[i as int].queue_view() == old(self).links@[i as int].queue_view(),
            final(self).links@[i as int].delivered@ == old(self).links@[i as int].delivered@,
            final(self).links@[i as int].bytes_sent == old(self).links@[i as int].bytes_sent,
            final(self).links@[i as int].attach@ == old(self).links@[i as int].attach@,
    {
        let link = &mut self.links[i];
        if offset > link.last_ack_offset {
            link.last_ack_offset = offset;
        }
    }

    /// How many replicas have acknowledged at least `target`.
    pub fn count_acked(&self, target: u64) -> (r: usize)
        ensures
            r == spec_count_acked(self.links@.map_values(|l: ReplicaLink| l.last_ack_offset), target),
            r <= self.links@.len(),
    {
        let ghost acks = self.links@.map_values(|l: ReplicaLink| l.last_ack_offset);
        let mut count: usize = 0;
        let mut i: usize = 0;
        proof {
            assert(acks.take(0) =~= Seq::<u64>::empty());
        }
        #[verifier::loop_isolation(false)]
        while i < self.links.len()
            invariant
                i <= self.links@.len(),
                acks == self.links@.map_values(|l: ReplicaLink| l.last_ack_offset),
                count == spec_count_acked(acks.take(i as int), target),
                count <= i,
            decreases self.links@.len() - i,
        {
            proof {
                assert(acks.take(i + 1).drop_last() =~= acks.take(i as int));
            }
            if self.links[i].last_ack_offset >= target {
                count = count + 1;
            }
            i = i + 1;
        }
        proof {
            assert(acks.take(acks.len() as int) =~= acks);
        }
        count
    }

    /// The WAIT fast paths: with no writes accepted yet, every attached
    /// replica counts; otherwise, if enough replicas have already
    /// acknowledged the current offset, their number is the answer. A `None`
    /// means acknowledgements must be requested first.
    pub fn wait_immediate(&self, needed: u64) -> (r: Option<usize>)
        ensures
            spec_count_acked(
                self.links@.map_values(|l: ReplicaLink| l.last_ack_offset),
                self.offset(),
            ) <= self.links@.len(),
            self.offset() == 0 ==> r == Some(self.links@.len() as usize),
            self.offset() != 0 ==> {
                let acked = spec_count_acked(
                    self.links@.map_values(|l: ReplicaLink| l.last_ack_offset),
                    self.offset(),
                );
                if acked >= needed {
                    r == Some(acked as usize)
                } else {
                    r is None
                }
            },
    {
        let acked = self.count_acked(self.info.offset);
        if self.info.offset == 0 {
            return Some(self.links.len());
        }
        if (acked as u64) >= needed {
            Some(acked)
        } else {
            None
        }
    }
}

/// How many of the acknowledged offsets reach the target.
pub open spec fn spec_count_acked(acks: Seq<u64>, target: u64) -> nat
    decreases acks.len(),
{
    if acks.len() == 0 {
        0
    } else {
        spec_count_acked(acks.drop_last(), target) + (if acks.last() >= target {
            1nat
        } else {
            0nat
        })
    }
}

/// Law: a replica link receives the primary's writes in the order the
/// primary accepted them. What the link has been handed so far is exactly
/// the contiguous slice of the primary's history that follows its attach
/// point, so any two delivered writes stand in the same relative order as in
/// the history.
pub proof fn lemma_replica_delivery_order(prim: &PrimaryState, i: int)
    requires
        prim.wf(),
        0 <= i < prim.links@.len(),
    ensures
        prim.links@[i].delivered@ == prim.history@.subrange(
            prim.links@[i].attach@,
            prim.links@[i].attach@ + prim.links@[i].delivered@.len(),
        ),
        forall|a: int|
            0 <= a < prim.links@[i].delivered@.len() ==> #[trigger] prim.links@[i].delivered@[a]
                == prim.history@[prim.links@[i].attach@ + a],
{
    let link = prim.links@[i];
    assert(link_wf(link, prim.history@));
    let tail = prim.history@.skip(link.attach@);
    assert(link.delivered@ + link.queue_view() == tail);
    assert forall|a: int| 0 <= a < link.delivered@.len() implies #[trigger] link.delivered@[a]
        == prim.history@[link.attach@ + a] by {
        assert(link.delivered@[a] == (link.delivered@ + link.queue_view())[a]);
        assert(tail[a] == prim.history@[link.attach@ + a]);
    }
    assert(link.delivered@ =~= prim.history@.subrange(
        link.attach@,
        link.attach@ + link.delivered@.len(),
    ));
}

/// Whether this process should run the replica-mode controller.
pub fn should_replicate(stream_info: &StreamInfo) -> (r: bool)
    ensures
        r == (stream_info.role is Replica),
{
    match stream_info.role {
        StreamType::Master => false,
        StreamType::Replica => true,
    }
}


/// Where the replica-side handshake with the master stands: which reply it
/// is waiting for.
#[derive(Debug, PartialEq, Eq, Structural, Clone, Copy)]
pub enum HandshakeState {
    AwaitPong,
    AwaitPortOk,
    AwaitCapaOk,
    AwaitFullResync,
    Complete,
}

/// A reply that does not fit the handshake.
#[derive(Debug, PartialEq, Eq, Structural, Clone, Copy)]
pub struct HandshakeError;

/// The wire form of an array of bulk strings.
pub open spec fn bulks_wire(vals: Seq<Seq<u8>>) -> Seq<u8> {
    enc(crate::message::spec_array_of_bulks(vals))
}

/// Begins the handshake: the first thing sent is `PING`.
pub fn handshake_open() -> (r: (HandshakeState, Vec<u8>))
    ensures
        r.0 == HandshakeState::AwaitPong,
        r.1@ == bulks_wire(seq!["PING".spec_bytes()]),
{
    let mut vals: Vec<Vec<u8>> = Vec::new();
    vals.push(vstd::string::StrSliceExecFns::as_bytes_vec("PING"));
    proof {
        assert(vals@.map_values(|v: Vec<u8>| v@) =~= seq!["PING".spec_bytes()]);
    }
    let wire = Message::encode_array_str(vals);
    (HandshakeState::AwaitPong, wire)
}

/// A simple-string reply `OK`.
pub open spec fn is_ok_reply(m: MessageV) -> bool {
    m == MessageV::Simple("OK".spec_bytes())
}

/// A simple-string reply starting `FULLRESYNC`, announcing the snapshot.
pub open spec fn is_fullresync_reply(m: MessageV) -> bool {
    match m {
        MessageV::Simple(p) => p.len() >= 10 && p.subrange(0, 10)
            == "FULLRESYNC".spec_bytes(),
        _ => false,
    }
}

/// What the handshake sends next, given the master's reply to the previous
/// step: `PING`, then `REPLCONF listening-port`, then `REPLCONF capa`, then
/// `PSYNC ? -1`; a reply that does not fit fails the handshake.
pub open spec fn spec_handshake_step(
    state: HandshakeState,
    reply: MessageV,
    port: u64,
) -> Result<(HandshakeState, Option<Seq<u8>>), HandshakeError> {
    match state {
        HandshakeState::AwaitPong => if reply == MessageV::Simple("PONG".spec_bytes()) {
            Ok(
                (
                    HandshakeState::AwaitPortOk,
                    Some(
                        bulks_wire(
                            seq![
                                "REPLCONF".spec_bytes(),
                                "listening-port".spec_bytes(),
                                crate::parser::dec_digits(port as nat),
                            ],
                        ),
                    ),
                ),
            )
        } else {
            Err(HandshakeError)
        },
        HandshakeState::AwaitPortOk => if is_ok_reply(reply) {
            Ok(
                (
                    HandshakeState::AwaitCapaOk,
                    Some(
                        bulks_wire(
                            seq![
                                "REPLCONF".spec_bytes(),
                                "capa".spec_bytes(),
                                "eof".spec_bytes(),
                                "capa".spec_bytes(),
                                "psync2".spec_bytes(),
                            ],
                        ),
                    ),
                ),
            )
        } else {
            Err(HandshakeError)
        },
        HandshakeState::AwaitCapaOk => if is_ok_reply(reply) {
            Ok(
                (
                    HandshakeState::AwaitFullResync,
                    Some(
                        bulks_wire(seq!["PSYNC".spec_bytes(), "?".spec_bytes(), "-1".spec_bytes()]),
                    ),
                ),
            )
        } else {
            Err(HandshakeError)
        },
        HandshakeState::AwaitFullResync => if is_fullresync_reply(reply) {
            Ok((HandshakeState::Complete, None))
        } else {
            Err(HandshakeError)
        },
        HandshakeState::Complete => Err(HandshakeError),
    }
}

/// Advances the handshake on the master's reply, handing back what to send
/// next, exactly as `spec_handshake_step` says.
pub fn handshake_step(state: HandshakeState, reply: &Message, port: u64) -> (r: Result<
    (HandshakeState, Option<Vec<u8>>),
    HandshakeError,
>)
    ensures
        match r {
            Ok((next, Some(wire))) => spec_handshake_step(state, reply@, port) == Ok::<
                _,
                HandshakeError,
            >((next, Some(wire@))),
            Ok((next, None)) => spec_handshake_step(state, reply@, port) == Ok::<
                _,
                HandshakeError,
            >((next, None::<Seq<u8>>)),
            Err(e) => spec_handshake_step(state, reply@, port) == Err::<
                (HandshakeState, Option<Seq<u8>>),
                _,
            >(e),
        },
{
    match state {
        HandshakeState::AwaitPong => {
            if is_simple_lit(reply, "PONG") {
                let mut vals: Vec<Vec<u8>> = Vec::new();
                vals.push(vstd::string::StrSliceExecFns::as_bytes_vec("REPLCONF"));
                vals.push(vstd::string::StrSliceExecFns::as_bytes_vec("listening-port"));
                vals.push(crate::parser::u64_to_dec(port));
                let ghost target = seq![
                    "REPLCONF".spec_bytes(),
                    "listening-port".spec_bytes(),
                    crate::parser::dec_digits(port as nat),
                ];
                proof {
                    assert(vals@.map_values(|v: Vec<u8>| v@) =~= target);
                }
                Ok((HandshakeState::AwaitPortOk, Some(Message::encode_array_str(vals))))
            } else {
                Err(HandshakeError)
            }
        },
        HandshakeState::AwaitPortOk => {
            if is_simple_lit(reply, "OK") {
                let mut vals: Vec<Vec<u8>> = Vec::new();
                vals.push(vstd::string::StrSliceExecFns::as_bytes_vec("REPLCONF"));
                vals.push(vstd::string::StrSliceExecFns::as_bytes_vec("capa"));
                vals.push(vstd::string::StrSliceExecFns::as_bytes_vec("eof"));
                vals.push(vstd::string::StrSliceExecFns::as_bytes_vec("capa"));
                vals.push(vstd::string::StrSliceExecFns::as_bytes_vec("psync2"));
                let ghost target = seq![
                    "REPLCONF".spec_bytes(),
                    "capa".spec_bytes(),
                    "eof".spec_bytes(),
                    "capa".spec_bytes(),
                    "psync2".spec_bytes(),
                ];
                proof {
                    assert(vals@.map_values(|v: Vec<u8>| v@) =~= target);
                }
                Ok((HandshakeState::AwaitCapaOk, Some(Message::encode_array_str(vals))))
            } else {
                Err(HandshakeError)
            }
        },
        HandshakeState::AwaitCapaOk => {
            if is_simple_lit(reply, "OK") {
                let mut vals: Vec<Vec<u8>> = Vec::new();
                vals.push(vstd::string::StrSliceExecFns::as_bytes_vec("PSYNC"));
                vals.push(vstd::string::StrSliceExecFns::as_bytes_vec("?"));
                vals.push(vstd::string::StrSliceExecFns::as_bytes_vec("-1"));
                let ghost target = seq!["PSYNC".spec_bytes(), "?".spec_bytes(), "-1".spec_bytes()];
                proof {
                    assert(vals@.map_values(|v: Vec<u8>| v@) =~= target);
                }
                Ok((HandshakeState::AwaitFullResync, Some(Message::encode_array_str(vals))))
            } else {
                Err(HandshakeError)
            }
        },
        HandshakeState::AwaitFullResync => {
            match reply {
                Message::Simple(p) => {
                    let tag = vstd::string::StrSliceExecFns::as_bytes_vec("FULLRESYNC");
                    if p.len() >= 10 {
                        let head = vstd::slice::slice_subrange(p.as_slice(), 0, 10);
                        if crate::store::compare_bytes(head, tag.as_slice()) {
                            Ok((HandshakeState::Complete, None))
                        } else {
                            Err(HandshakeError)
                        }
                    } else {
                        Err(HandshakeError)
                    }
                },
                _ => Err(HandshakeError),
            }
        },
        HandshakeState::Complete => Err(HandshakeError),
    }
}

/// Whether the frame is the given simple-string reply.
fn is_simple_lit(m: &Message, lit: &str) -> (r: bool)
    ensures
        r == (m@ == MessageV::Simple(lit.spec_bytes())),
{
    match m {
        Message::Simple(p) => {
            let lit_bytes = vstd::string::StrSliceExecFns::as_bytes_vec(lit);
            crate::store::compare_bytes(p.as_slice(), lit_bytes.as_slice())
        },
        _ => false,
    }
}

/// The `REPLCONF ACK <n>` frame a replica answers GETACK with.
pub open spec fn ack_wire(n: u64) -> Seq<u8> {
    bulks_wire(
        seq!["REPLCONF".spec_bytes(), "ACK".spec_bytes(), crate::parser::dec_digits(n as nat)],
    )
}

/// The replica-mode controller's apply step.
pub struct ReplicaHandler {}

/// What the replica does with one frame from its master: writes (SET and
/// DEL) are applied to the local store silently, `REPLCONF GETACK` is
/// answered with `REPLCONF ACK <bytes_received>`, and everything else —
/// unknown commands, ill-formed frames — is ignored without error.
pub fn apply_master_frame(store: &mut Store, frame: &Message, bytes_received: u64, now: u64) -> (r:
    Option<Vec<u8>>)
    requires
        old(store).wf(),
    ensures
        final(store).wf(),
        match spec_parse_command(frame@) {
            None => r is None && *final(store) == *old(store),
            Some((name, args)) => match spec_to_command(name, args, now) {
                Some(CommandV::SetValue(k, e)) => {
                    &&& r is None
                    &&& final(store).spec_get(k) == Some(
                        crate::store::ItemV::Scalar(e),
                    )
                    &&& forall|k2: Seq<u8>|
                        k2 != k ==> #[trigger] final(store).spec_get(k2) == old(
                            store,
                        ).spec_get(k2)
                },
                Some(CommandV::Del(ks)) => {
                    &&& r is None
                    &&& forall|k2: Seq<u8>|
                        #[trigger] final(store).spec_get(k2) == if ks.contains(k2) {
                            None
                        } else {
                            old(store).spec_get(k2)
                        }
                },
                Some(CommandV::Replconf(rargs)) => {
                    &&& *final(store) == *old(store)
                    &&& if rargs.len() >= 1 && crate::command::spec_lower(rargs[0])
                        == "getack".spec_bytes() {
                        r matches Some(wire) && wire@ == ack_wire(bytes_received)
                    } else {
                        r is None
                    }
                },
                _ => r is None && *final(store) == *old(store),
            },
        },
{
    let info = match frame.parse_command() {
        Some(info) => info,
        None => {
            return None;
        },
    };
    let cmd = match info.to_command(now) {
        Some(cmd) => cmd,
        None => {
            return None;
        },
    };
    match cmd {
        crate::command::Command::SetValue(key, entry) => {
            let _ = store.set_kv(key, entry);
            None
        },
        crate::command::Command::Del(keys) => {
            let _ = store.del_keys(&keys);
            None
        },
        crate::command::Command::Replconf(rargs) => {
            if rargs.len() >= 1 {
                let tag = crate::command::lower_bytes(&rargs[0]);
                let getack = vstd::string::StrSliceExecFns::as_bytes_vec("getack");
                if crate::store::compare_bytes(&tag, getack.as_slice()) {
                    let mut vals: Vec<Vec<u8>> = Vec::new();
                    vals.push(vstd::string::StrSliceExecFns::as_bytes_vec("REPLCONF"));
                    vals.push(vstd::string::StrSliceExecFns::as_bytes_vec("ACK"));
                    vals.push(crate::parser::u64_to_dec(bytes_received));
                    let ghost target = seq![
                        "REPLCONF".spec_bytes(),
                        "ACK".spec_bytes(),
                        crate::parser::dec_digits(bytes_received as nat),
                    ];
                    proof {
                        assert(vals@.map_values(|v: Vec<u8>| v@) =~= target);
                    }
                    Some(Message::encode_array_str(vals))
                } else {
                    None
                }
            } else {
                None
            }
        },
        _ => None,
    }
}


impl ReplicaHandler {
    /// One step of the apply loop: what `apply_master_frame` does, under the
    /// controller's name.
    pub fn handle_frame(store: &mut Store, frame: &Message, bytes_received: u64, now: u64) -> (r:
        Option<Vec<u8>>)
        requires
            old(store).wf(),
        ensures
            final(store).wf(),
            match spec_parse_command(frame@) {
                None => r is None && *final(store) == *old(store),
                Some((name, args)) => match spec_to_command(name, args, now) {
                    Some(CommandV::SetValue(k, e)) => {
                        &&& r is None
                        &&& final(store).spec_get(k) == Some(
                            crate::store::ItemV::Scalar(e),
                        )
                        &&& forall|k2: Seq<u8>|
                            k2 != k ==> #[trigger] final(store).spec_get(k2) == old(
                                store,
                            ).spec_get(k2)
                    },
                    Some(CommandV::Del(ks)) => {
                        &&& r is None
                        &&& forall|k2: Seq<u8>|
                            #[trigger] final(store).spec_get(k2) == if ks.contains(k2) {
                                None
                            } else {
                                old(store).spec_get(k2)
                            }
                    },
                    Some(CommandV::Replconf(rargs)) => {
                        &&& *final(store) == *old(store)
                        &&& if rargs.len() >= 1 && crate::command::spec_lower(rargs[0])
                            == "getack".spec_bytes() {
                            r matches Some(wire) && wire@ == ack_wire(bytes_received)
                        } else {
                            r is None
                        }
                    },
                    _ => r is None && *final(store) == *old(store),
                },
            },
    {
        apply_master_frame(store, frame, bytes_received, now)
    }
}


/// The acknowledgement request a WAIT round sends: `REPLCONF GETACK *`,
/// carrying the round's deadline.
pub fn getack_command(timeout_ms: u64) -> (r: ReplicaCommand)
    ensures
        r.message@ == crate::message::spec_array_of_bulks(
            seq!["REPLCONF".spec_bytes(), "GETACK".spec_bytes(), "*".spec_bytes()],
        ),
        r.timeout == Some(timeout_ms),
{
    let mut items: Vec<Message> = Vec::new();
    items.push(Message::Bulk(vstd::string::StrSliceExecFns::as_bytes_vec("REPLCONF")));
    items.push(Message::Bulk(vstd::string::StrSliceExecFns::as_bytes_vec("GETACK")));
    items.push(Message::Bulk(vstd::string::StrSliceExecFns::as_bytes_vec("*")));
    proof {
        crate::message::lemma_msgs_view_len(items@);
        assert(items@[0] matches Message::Bulk(p) && p@ == "REPLCONF".spec_bytes());
        assert(items@[1] matches Message::Bulk(p) && p@ == "GETACK".spec_bytes());
        assert(items@[2] matches Message::Bulk(p) && p@ == "*".spec_bytes());
        assert(crate::message::msgs_view(items@) =~= seq![
            MessageV::Bulk("REPLCONF".spec_bytes()),
            MessageV::Bulk("GETACK".spec_bytes()),
            MessageV::Bulk("*".spec_bytes()),
        ]);
        assert(seq![
            "REPLCONF".spec_bytes(),
            "GETACK".spec_bytes(),
            "*".spec_bytes(),
        ].map_values(|v: Seq<u8>| MessageV::Bulk(v)) =~= seq![
            MessageV::Bulk("REPLCONF".spec_bytes()),
            MessageV::Bulk("GETACK".spec_bytes()),
            MessageV::Bulk("*".spec_bytes()),
        ]);
    }
    ReplicaCommand { message: Message::Array(items), timeout: Some(timeout_ms) }
}

/// The offset a frame acknowledges: the number in `REPLCONF ACK <n>`
/// (command and keyword case-insensitive), and nothing from any other frame.
pub open spec fn spec_ack_offset(m: MessageV) -> Option<u64> {
    match spec_parse_command(m) {
        Some((name, args)) => if crate::command::spec_lower(name) == "replconf".spec_bytes()
            && args.len() >= 2 && crate::command::spec_lower(args[0]) == "ack".spec_bytes() {
            crate::parser::spec_parse_u64(args[1])
        } else {
            None
        },
        None => None,
    }
}

/// Reads a replica's acknowledged offset out of an inbound frame, exactly as
/// `spec_ack_offset` says.
pub fn parse_ack_offset(frame: &Message) -> (r: Option<u64>)
    ensures
        r == spec_ack_offset(frame@),
{
    let info = match frame.parse_command() {
        Some(info) => info,
        None => {
            return None;
        },
    };
    let name = crate::command::lower_bytes(&info.name);
    let replconf = vstd::string::StrSliceExecFns::as_bytes_vec("replconf");
    if !crate::store::compare_bytes(&name, replconf.as_slice()) {
        return None;
    }
    if info.args.len() < 2 {
        return None;
    }
    let tag = crate::command::lower_bytes(&info.args[0]);
    let ack = vstd::string::StrSliceExecFns::as_bytes_vec("ack");
    if !crate::store::compare_bytes(&tag, ack.as_slice()) {
        return None;
    }
    crate::parser::parse_u64(&info.args[1])
}

/// How far reading the snapshot blob's framing got: the line has not fully
/// arrived yet, or it is not a length line, or the length and the bytes the
/// header occupies are known.
#[derive(Debug, PartialEq, Eq, Structural, Clone, Copy)]
pub enum SnapshotHeader {
    NeedMore,
    Bad,
    Framed(u64, usize),
}

/// Reads the framing the snapshot blob travels under after FULLRESYNC:
/// `$<len>` CR LF, with `len` raw bytes following and no terminator after
/// them. Yields the length and the header's size once the line is complete.
pub fn parse_snapshot_header(buffer: &[u8]) -> (r: SnapshotHeader)
    ensures
        match r {
            SnapshotHeader::NeedMore => crate::parser::spec_find_crlf(buffer@, 0) is None,
            SnapshotHeader::Framed(len, consumed) => {
                &&& 3 <= consumed <= buffer@.len()
                &&& crate::parser::spec_find_crlf(buffer@, 0) == Some((consumed - 2) as nat)
                &&& buffer@[0] == 36u8
                &&& crate::parser::spec_parse_u64(buffer@.subrange(1, consumed - 2))
                    == Some(len)
            },
            SnapshotHeader::Bad => match crate::parser::spec_find_crlf(buffer@, 0) {
                Some(k) => k == 0 || buffer@[0] != 36u8 || crate::parser::spec_parse_u64(
                    buffer@.subrange(1, k as int),
                ) is None,
                None => false,
            },
        },
{
    match crate::parser::find_crlf_from(buffer, 0) {
        None => SnapshotHeader::NeedMore,
        Some(k) => {
            if k == 0 || buffer[0] != 36 {
                return SnapshotHeader::Bad;
            }
            let line = vstd::slice::slice_subrange(buffer, 1, k);
            match crate::parser::parse_u64(line) {
                Some(len) => SnapshotHeader::Framed(len, k + 2),
                None => SnapshotHeader::Bad,
            }
        },
    }
}

} // verus!
