//! Commands: the name/argument form read off the wire, the typed command it
//! denotes, and the canonical wire form written to replicas.

use vstd::prelude::*;
use vstd::string::StringSliceAdditionalSpecFns;

use crate::message::{enc, Message, MessageV};
use crate::parser::spec_parse_u64;
use crate::store::{Entry, EntryV};
use crate::stream::{spec_parse_id, StreamData, StreamId};

verus! {

/// A command as it arrives: a name and its arguments, all byte strings.
#[derive(Debug)]
pub struct CommandInfo {
    pub name: Vec<u8>,
    pub args: Vec<Vec<u8>>,
}

impl CommandInfo {
    /// The arguments as byte sequences.
    pub open spec fn args_view(&self) -> Seq<Seq<u8>> {
        self.args@.map_values(|a: Vec<u8>| a@)
    }
}

/// Arguments of XADD: the stream key, the id pattern, and the field pairs.
#[derive(Debug)]
pub struct XAddArgs {
    pub key: Vec<u8>,
    pub id: Vec<u8>,
    pub data: StreamData,
}

/// Arguments of XRANGE: the stream key and the two bound tokens.
#[derive(Debug)]
pub struct XRangArgs {
    pub key: Vec<u8>,
    pub start: Vec<u8>,
    pub end: Vec<u8>,
}

/// Where one XREAD request starts reading: after the newest id the stream
/// holds now, or after a given id.
#[derive(Debug, Clone, Copy, PartialEq, Eq, Structural)]
pub enum XReadSpec {
    Latest,
    From(StreamId),
}

/// Arguments of XREAD: one (key, position) request per stream.
#[derive(Debug)]
pub struct XReadArgs {
    pub requests: Vec<(Vec<u8>, XReadSpec)>,
}

impl XReadArgs {
    pub open spec fn requests_view(&self) -> Seq<(Seq<u8>, XReadSpec)> {
        self.requests@.map_values(|r: (Vec<u8>, XReadSpec)| (r.0@, r.1))
    }
}

/// A typed command, ready to dispatch.
#[derive(Debug)]
pub enum Command {
    Echo(Vec<u8>),
    Ping,
    Quit,
    SetValue(Vec<u8>, Entry),
    Get(Vec<u8>),
    Del(Vec<Vec<u8>>),
    Info,
    Replconf(Vec<Vec<u8>>),
    Psync,
    Wait(u64, u64),
    Config(Vec<u8>, Vec<u8>),
    Keys(Vec<u8>),
    Type(Vec<u8>),
    XAdd(XAddArgs),
    XRange(XRangArgs),
    XRead(XReadArgs),
}

/// The mathematical shape of a typed command.
pub enum CommandV {
    Echo(Seq<u8>),
    Ping,
    Quit,
    SetValue(Seq<u8>, EntryV),
    Get(Seq<u8>),
    Del(Seq<Seq<u8>>),
    Info,
    Replconf(Seq<Seq<u8>>),
    Psync,
    Wait(u64, u64),
    Config(Seq<u8>, Seq<u8>),
    Keys(Seq<u8>),
    Type(Seq<u8>),
    XAdd { key: Seq<u8>, id: Seq<u8>, data: Seq<(Seq<u8>, Seq<u8>)> },
    XRange { key: Seq<u8>, start: Seq<u8>, end: Seq<u8> },
    XRead(Seq<(Seq<u8>, XReadSpec)>),
}

impl View for Command {
    type V = CommandV;

    open spec fn view(&self) -> CommandV {
        match self {
            Command::Echo(m) => CommandV::Echo(m@),
            Command::Ping => CommandV::Ping,
            Command::Quit => CommandV::Quit,
            Command::SetValue(k, e) => CommandV::SetValue(k@, e@),
            Command::Get(k) => CommandV::Get(k@),
            Command::Del(ks) => CommandV::Del(ks@.map_values(|k: Vec<u8>| k@)),
            Command::Info => CommandV::Info,
            Command::Replconf(a) => CommandV::Replconf(a@.map_values(|k: Vec<u8>| k@)),
            Command::Psync => CommandV::Psync,
            Command::Wait(n, t) => CommandV::Wait(*n, *t),
            Command::Config(a, k) => CommandV::Config(a@, k@),
            Command::Keys(p) => CommandV::Keys(p@),
            Command::Type(k) => CommandV::Type(k@),
            Command::XAdd(x) => CommandV::XAdd { key: x.key@, id: x.id@, data: x.data@ },
            Command::XRange(x) => CommandV::XRange {
                key: x.key@,
                start: x.start@,
                end: x.end@,
            },
            Command::XRead(x) => CommandV::XRead(x.requests_view()),
        }
    }
}

/// ASCII lower case of one byte.
pub open spec fn lower_byte(b: u8) -> u8 {
    if 65 <= b <= 90 {
        (b + 32) as u8
    } else {
        b
    }
}

/// ASCII lower case of a byte string, as command names are compared.
pub open spec fn spec_lower(s: Seq<u8>) -> Seq<u8> {
    s.map_values(|b: u8| lower_byte(b))
}

/// Lower-cases a byte string (ASCII letters only).
pub fn lower_bytes(s: &[u8]) -> (r: Vec<u8>)
    ensures
        r@ == spec_lower(s@),
{
    let mut out: Vec<u8> = Vec::new();
    let mut i: usize = 0;
    #[verifier::loop_isolation(false)]
    while i < s.len()
        invariant
            i <= s@.len(),
            out@ == spec_lower(s@.take(i as int)),
        decreases s@.len() - i,
    {
        let b = s[i];
        let l = if 65 <= b && b <= 90 {
            b + 32
        } else {
            b
        };
        out.push(l);
        proof {
            assert(out@ =~= spec_lower(s@.take(i + 1)));
        }
        i = i + 1;
    }
    proof {
        assert(s@.take(s@.len() as int) =~= s@);
    }
    out
}

/// The arguments joined with single spaces, as ECHO renders them.
pub open spec fn spec_join_spaces(args: Seq<Seq<u8>>) -> Seq<u8>
    decreases args.len(),
{
    if args.len() == 0 {
        Seq::empty()
    } else if args.len() == 1 {
        args.first()
    } else {
        args.first() + seq![32u8] + spec_join_spaces(args.drop_first())
    }
}

/// Alternating elements read as (name, value) pairs.
pub open spec fn spec_pairs(args: Seq<Seq<u8>>) -> Seq<(Seq<u8>, Seq<u8>)>
    decreases args.len(),
{
    if args.len() < 2 {
        Seq::empty()
    } else {
        seq![(args[0], args[1])] + spec_pairs(args.skip(2))
    }
}

/// An XREAD position token: `$` for the newest id, else an entry id.
pub open spec fn spec_xread_spec(s: Seq<u8>) -> Option<XReadSpec> {
    if s == seq![36u8] {
        Some(XReadSpec::Latest)
    } else {
        match spec_parse_id(s) {
            Some(id) => Some(XReadSpec::From(id)),
            None => None,
        }
    }
}

/// The XREAD requests denoted by a key list and an id list of equal length;
/// nothing if any id token is unreadable.
pub open spec fn spec_xread_requests(keys: Seq<Seq<u8>>, ids: Seq<Seq<u8>>) -> Option<
    Seq<(Seq<u8>, XReadSpec)>,
>
    decreases keys.len(),
    when keys.len() == ids.len()
{
    if keys.len() == 0 {
        Some(Seq::empty())
    } else {
        match spec_xread_spec(ids.first()) {
            None => None,
            Some(pos) => match spec_xread_requests(keys.drop_first(), ids.drop_first()) {
                None => None,
                Some(rest) => Some(seq![(keys.first(), pos)] + rest),
            },
        }
    }
}

/// Absolute expiry for a relative one, saturating at the largest time.
pub open spec fn spec_expiry_at(now: u64, e: u64) -> u64 {
    if e > u64::MAX - now {
        u64::MAX
    } else {
        (now + e) as u64
    }
}

/// The typed command a name and arguments denote at time `now`, or nothing
/// when the name is unknown or the arguments do not fit it. SET with `PX`
/// computes its absolute expiry from `now`.
pub open spec fn spec_to_command(name: Seq<u8>, args: Seq<Seq<u8>>, now: u64) -> Option<
    CommandV,
> {
    let n = spec_lower(name);
    if n == "ping".spec_bytes() {
        Some(CommandV::Ping)
    } else if n == "echo".spec_bytes() {
        Some(CommandV::Echo(spec_join_spaces(args)))
    } else if n == "get".spec_bytes() {
        if args.len() >= 1 {
            Some(CommandV::Get(args[0]))
        } else {
            None
        }
    } else if n == "set".spec_bytes() {
        if args.len() < 2 {
            None
        } else if args.len() >= 4 && spec_lower(args[2]) == "px".spec_bytes() {
            match spec_parse_u64(args[3]) {
                Some(ms) => Some(
                    CommandV::SetValue(
                        args[0],
                        EntryV {
                            value: args[1],
                            expiry_time: Some(ms),
                            expiry_at: Some(spec_expiry_at(now, ms)),
                        },
                    ),
                ),
                None => None,
            }
        } else {
            Some(
                CommandV::SetValue(
                    args[0],
                    EntryV { value: args[1], expiry_time: None, expiry_at: None },
                ),
            )
        }
    } else if n == "del".spec_bytes() {
        if args.len() >= 1 {
            Some(CommandV::Del(args))
        } else {
            None
        }
    } else if n == "info".spec_bytes() {
        Some(CommandV::Info)
    } else if n == "replconf".spec_bytes() {
        Some(CommandV::Replconf(args))
    } else if n == "psync".spec_bytes() {
        Some(CommandV::Psync)
    } else if n == "wait".spec_bytes() {
        if args.len() >= 2 {
            match (spec_parse_u64(args[0]), spec_parse_u64(args[1])) {
                (Some(want), Some(timeout)) => Some(CommandV::Wait(want, timeout)),
                _ => None,
            }
        } else {
            None
        }
    } else if n == "config".spec_bytes() {
        if args.len() >= 2 {
            Some(CommandV::Config(args[0], args[1]))
        } else {
            None
        }
    } else if n == "keys".spec_bytes() {
        if args.len() >= 1 {
            Some(CommandV::Keys(args[0]))
        } else {
            Some(CommandV::Keys(Seq::empty()))
        }
    } else if n == "type".spec_bytes() {
        if args.len() >= 1 {
            Some(CommandV::Type(args[0]))
        } else {
            None
        }
    } else if n == "xadd".spec_bytes() {
        if args.len() >= 2 && (args.len() - 2) % 2 == 0 {
            Some(CommandV::XAdd { key: args[0], id: args[1], data: spec_pairs(args.skip(2)) })
        } else {
            None
        }
    } else if n == "xrange".spec_bytes() {
        if args.len() >= 3 {
            Some(CommandV::XRange { key: args[0], start: args[1], end: args[2] })
        } else {
            None
        }
    } else if n == "xread".spec_bytes() {
        if args.len() >= 3 && spec_lower(args[0]) == "streams".spec_bytes() && (args.len()
            - 1) % 2 == 0 {
            let count = (args.len() - 1) / 2;
            let keys = args.subrange(1, 1 + count);
            let ids = args.subrange(1 + count, args.len() as int);
            match spec_xread_requests(keys, ids) {
                Some(reqs) => Some(CommandV::XRead(reqs)),
                None => None,
            }
        } else {
            None
        }
    } else if n == "quit".spec_bytes() {
        Some(CommandV::Quit)
    } else {
        None
    }
}

impl CommandInfo {
    /// Pairs a command name with its arguments.
    pub fn new(name: Vec<u8>, args: Vec<Vec<u8>>) -> (r: CommandInfo)
        ensures
            r.name@ == name@,
            r.args_view() == args@.map_values(|a: Vec<u8>| a@),
    {
        CommandInfo { name, args }
    }

    /// Resolves the name (case-insensitively) and arguments into a typed
    /// command, exactly as `spec_to_command` reads them.
    pub fn to_command(&self, now: u64) -> (r: Option<Command>)
        ensures
            match r {
                Some(c) => spec_to_command(self.name@, self.args_view(), now) == Some(c@),
                None => spec_to_command(self.name@, self.args_view(), now) is None,
            },
    {
        let ghost args_v = self.args_view();
        let n = lower_bytes(&self.name);
        if eq_str(&n, "ping") {
            Some(Command::Ping)
        } else if eq_str(&n, "echo") {
            Some(Command::Echo(join_spaces(&self.args)))
        } else if eq_str(&n, "get") {
            if self.args.len() >= 1 {
                Some(Command::Get(self.args[0].clone()))
            } else {
                None
            }
        } else if eq_str(&n, "set") {
            if self.args.len() < 2 {
                None
            } else {
                let has_px = if self.args.len() >= 4 {
                    let tag = lower_bytes(&self.args[2]);
                    eq_str(&tag, "px")
                } else {
                    false
                };
                if has_px {
                    match crate::parser::parse_u64(&self.args[3]) {
                        Some(ms) => Some(
                            Command::SetValue(
                                self.args[0].clone(),
                                Entry::new(self.args[1].clone(), Some(ms), now),
                            ),
                        ),
                        None => None,
                    }
                } else {
                    Some(
                        Command::SetValue(
                            self.args[0].clone(),
                            Entry::new(self.args[1].clone(), None, now),
                        ),
                    )
                }
            }
        } else if eq_str(&n, "del") {
            if self.args.len() >= 1 {
                Some(Command::Del(clone_args(&self.args)))
            } else {
                None
            }
        } else if eq_str(&n, "info") {
            Some(Command::Info)
        } else if eq_str(&n, "replconf") {
            Some(Command::Replconf(clone_args(&self.args)))
        } else if eq_str(&n, "psync") {
            Some(Command::Psync)
        } else if eq_str(&n, "wait") {
            if self.args.len() >= 2 {
                match (
                    crate::parser::parse_u64(&self.args[0]),
                    crate::parser::parse_u64(&self.args[1]),
                ) {
                    (Some(want), Some(timeout)) => Some(Command::Wait(want, timeout)),
                    _ => None,
                }
            } else {
                None
            }
        } else if eq_str(&n, "config") {
            if self.args.len() >= 2 {
                Some(Command::Config(self.args[0].clone(), self.args[1].clone()))
            } else {
                None
            }
        } else if eq_str(&n, "keys") {
            if self.args.len() >= 1 {
                Some(Command::Keys(self.args[0].clone()))
            } else {
                let empty: Vec<u8> = Vec::new();
                proof {
                    assert(empty@ =~= Seq::<u8>::empty());
                }
                Some(Command::Keys(empty))
            }
        } else if eq_str(&n, "type") {
            if self.args.len() >= 1 {
                Some(Command::Type(self.args[0].clone()))
            } else {
                None
            }
        } else if eq_str(&n, "xadd") {
            if self.args.len() >= 2 && (self.args.len() - 2) % 2 == 0 {
                let data = collect_pairs(&self.args, 2);
                proof {
                    assert(args_v.skip(2) =~= self.args@.skip(2).map_values(
                        |a: Vec<u8>| a@,
                    ));
                }
                Some(
                    Command::XAdd(
                        XAddArgs {
                            key: self.args[0].clone(),
                            id: self.args[1].clone(),
                            data: StreamData { data },
                        },
                    ),
                )
            } else {
                None
            }
        } else if eq_str(&n, "xrange") {
            if self.args.len() >= 3 {
                Some(
                    Command::XRange(
                        XRangArgs {
                            key: self.args[0].clone(),
                            start: self.args[1].clone(),
                            end: self.args[2].clone(),
                        },
                    ),
                )
            } else {
                None
            }
        } else if eq_str(&n, "xread") {
            let is_streams = if self.args.len() >= 1 {
                let tag = lower_bytes(&self.args[0]);
                eq_str(&tag, "streams")
            } else {
                false
            };
            if self.args.len() >= 3 && is_streams && (self.args.len() - 1) % 2 == 0 {
                let count = (self.args.len() - 1) / 2;
                let ghost keys = args_v.subrange(1, 1 + count as int);
                let ghost ids = args_v.subrange(1 + count as int, args_v.len() as int);
                let mut requests: Vec<(Vec<u8>, XReadSpec)> = Vec::new();
                let mut i: usize = 0;
                proof {
                    assert(keys.skip(0) =~= keys);
                    assert(ids.skip(0) =~= ids);
                }
                #[verifier::loop_isolation(false)]
                while i < count
                    invariant
                        i <= count,
                        count == (args_v.len() - 1) / 2,
                        args_v.len() == self.args@.len(),
                        keys == args_v.subrange(1, 1 + count as int),
                        ids == args_v.subrange(1 + count as int, args_v.len() as int),
                        (args_v.len() - 1) % 2 == 0,
                        3 <= args_v.len(),
                        match spec_xread_requests(keys.skip(i as int), ids.skip(i as int)) {
                            Some(rest) => spec_xread_requests(keys, ids) == Some(
                                requests@.map_values(|r: (Vec<u8>, XReadSpec)| (r.0@, r.1))
                                    + rest,
                            ),
                            None => spec_xread_requests(keys, ids) is None,
                        },
                    decreases count - i,
                {
                    let token = &self.args[1 + count + i];
                    let pos: XReadSpec = if token.len() == 1 && token[0] == 36 {
                        proof {
                            assert(token@ =~= seq![36u8]);
                        }
                        XReadSpec::Latest
                    } else {
                        proof {
                            if token@ == seq![36u8] {
                                assert(token@.len() == 1 && token@[0] == 36u8);
                            }
                        }
                        match StreamId::parse(token.as_slice()) {
                            Some(id) => XReadSpec::From(id),
                            None => {
                                proof {
                                    lemma_xread_step(keys, ids, i as int);
                                    assert(ids[i as int] == token@);
                                }
                                return None;
                            },
                        }
                    };
                    requests.push((self.args[1 + i].clone(), pos));
                    proof {
                        lemma_xread_step(keys, ids, i as int);
                        assert(keys[i as int] == args_v[1 + i as int]);
                        assert(ids[i as int] == token@);
                        assert(requests@.map_values(|r: (Vec<u8>, XReadSpec)| (r.0@, r.1))
                            =~= requests@.map_values(
                            |r: (Vec<u8>, XReadSpec)| (r.0@, r.1),
                        ));
                    }
                    i = i + 1;
                }
                proof {
                    assert(keys.skip(count as int).len() == 0);
                    assert(ids.skip(count as int).len() == 0);
                    assert(keys.skip(count as int) =~= Seq::<Seq<u8>>::empty());
                    assert(ids.skip(count as int) =~= Seq::<Seq<u8>>::empty());
                    let built = requests@.map_values(|r: (Vec<u8>, XReadSpec)| (r.0@, r.1));
                    assert(built + Seq::<(Seq<u8>, XReadSpec)>::empty() =~= built);
                }
                Some(Command::XRead(XReadArgs { requests }))
            } else {
                None
            }
        } else if eq_str(&n, "quit") {
            Some(Command::Quit)
        } else {
            None
        }
    }

}


/// One XREAD request peeled off the front of the key and id lists.
proof fn lemma_xread_step(keys: Seq<Seq<u8>>, ids: Seq<Seq<u8>>, i: int)
    requires
        keys.len() == ids.len(),
        0 <= i < keys.len(),
    ensures
        spec_xread_requests(keys.skip(i), ids.skip(i)) == (match spec_xread_spec(ids[i]) {
            None => None,
            Some(pos) => match spec_xread_requests(keys.skip(i + 1), ids.skip(i + 1)) {
                None => None::<Seq<(Seq<u8>, XReadSpec)>>,
                Some(rest) => Some(seq![(keys[i], pos)] + rest),
            },
        }),
{
    let ks = keys.skip(i);
    let is_ = ids.skip(i);
    assert(ks.first() == keys[i]);
    assert(is_.first() == ids[i]);
    assert(ks.drop_first() =~= keys.skip(i + 1));
    assert(is_.drop_first() =~= ids.skip(i + 1));
}

/// Compares a byte string against an ASCII literal.
fn eq_str(a: &[u8], lit: &str) -> (r: bool)
    ensures
        r == (a@ == lit.spec_bytes()),
{
    let lit_bytes = vstd::string::StrSliceExecFns::as_bytes_vec(lit);
    crate::store::compare_bytes(a, lit_bytes.as_slice())
}

/// Deep copies of the argument vector.
fn clone_args(args: &Vec<Vec<u8>>) -> (r: Vec<Vec<u8>>)
    ensures
        r@.map_values(|a: Vec<u8>| a@) == args@.map_values(|a: Vec<u8>| a@),
{
    let mut out: Vec<Vec<u8>> = Vec::new();
    let mut i: usize = 0;
    #[verifier::loop_isolation(false)]
    while i < args.len()
        invariant
            i <= args@.len(),
            out@.map_values(|a: Vec<u8>| a@) == args@.map_values(|a: Vec<u8>| a@).take(
                i as int,
            ),
        decreases args@.len() - i,
    {
        out.push(args[i].clone());
        proof {
            assert(out@.map_values(|a: Vec<u8>| a@) =~= args@.map_values(
                |a: Vec<u8>| a@,
            ).take(i + 1));
        }
        i = i + 1;
    }
    proof {
        let full = args@.map_values(|a: Vec<u8>| a@);
        assert(full.take(full.len() as int) =~= full);
    }
    out
}

/// Joins arguments with single spaces, as `spec_join_spaces` lays them out.
fn join_spaces(args: &Vec<Vec<u8>>) -> (r: Vec<u8>)
    ensures
        r@ == spec_join_spaces(args@.map_values(|a: Vec<u8>| a@)),
{
    let mut out: Vec<u8> = Vec::new();
    let mut i: usize = 0;
    let ghost full = args@.map_values(|a: Vec<u8>| a@);
    #[verifier::loop_isolation(false)]
    while i < args.len()
        invariant
            i <= args@.len(),
            out@ == spec_join_prefix(full, i as int),
        decreases args@.len() - i,
    {
        if i > 0 {
            out.push(32u8);
        }
        let mut piece = args[i].clone();
        out.append(&mut piece);
        proof {
            lemma_join_prefix_step(full, i as int);
        }
        i = i + 1;
    }
    proof {
        lemma_join_prefix_full(full);
    }
    out
}

/// The join of the first `i` arguments.
spec fn spec_join_prefix(args: Seq<Seq<u8>>, i: int) -> Seq<u8>
    decreases i,
{
    if i <= 0 {
        Seq::empty()
    } else if i == 1 {
        args[0]
    } else {
        spec_join_prefix(args, i - 1) + seq![32u8] + args[i - 1]
    }
}

proof fn lemma_join_prefix_step(args: Seq<Seq<u8>>, i: int)
    requires
        0 <= i < args.len(),
    ensures
        i == 0 ==> spec_join_prefix(args, 1) == spec_join_prefix(args, 0) + args[0],
        i > 0 ==> spec_join_prefix(args, i + 1) == spec_join_prefix(args, i) + seq![32u8]
            + args[i],
{
    if i == 0 {
        assert(spec_join_prefix(args, 0) + args[0] =~= args[0]);
    }
}

proof fn lemma_join_prefix_full(args: Seq<Seq<u8>>)
    ensures
        spec_join_prefix(args, args.len() as int) == spec_join_spaces(args),
    decreases args.len(),
{
    if args.len() == 0 {
    } else {
        lemma_join_full_helper(args, args.len() as int);
        assert(args.take(args.len() as int) =~= args);
    }
}

/// For 1 <= i <= |args|: the prefix join equals the recursive join of the
/// first i arguments.
proof fn lemma_join_full_helper(args: Seq<Seq<u8>>, i: int)
    requires
        1 <= i <= args.len(),
    ensures
        spec_join_prefix(args, i) == spec_join_spaces(args.take(i)),
    decreases i,
{
    if i == 1 {
        assert(args.take(1).len() == 1);
        assert(args.take(1).first() == args[0]);
    } else {
        lemma_join_full_helper(args, i - 1);
        lemma_join_append(args.take(i - 1), args[i - 1]);
        assert(args.take(i).drop_last() =~= args.take(i - 1));
        assert(args.take(i) =~= args.take(i - 1).push(args[i - 1]));
    }
}

/// Joining after appending one more piece adds a space and the piece.
proof fn lemma_join_append(args: Seq<Seq<u8>>, tail: Seq<u8>)
    requires
        args.len() >= 1,
    ensures
        spec_join_spaces(args.push(tail)) == spec_join_spaces(args) + seq![32u8] + tail,
    decreases args.len(),
{
    let t = args.push(tail);
    if args.len() == 1 {
        assert(t.first() == args[0]);
        assert(t.drop_first() =~= seq![tail]);
        assert(spec_join_spaces(seq![tail]) == tail);
        assert(spec_join_spaces(args) == args[0]);
        assert(args[0] + seq![32u8] + tail =~= spec_join_spaces(args) + seq![32u8] + tail);
    } else {
        assert(t.first() == args.first());
        assert(t.drop_first() =~= args.drop_first().push(tail));
        lemma_join_append(args.drop_first(), tail);
        assert(args.first() + seq![32u8] + (spec_join_spaces(args.drop_first()) + seq![32u8]
            + tail) =~= (args.first() + seq![32u8] + spec_join_spaces(args.drop_first()))
            + seq![32u8] + tail);
    }
}

/// Collects alternating (name, value) pairs from `args[from..]`.
fn collect_pairs(args: &Vec<Vec<u8>>, from: usize) -> (r: Vec<(Vec<u8>, Vec<u8>)>)
    requires
        from <= args@.len(),
        (args@.len() - from) % 2 == 0,
    ensures
        r@.map_values(|p: (Vec<u8>, Vec<u8>)| (p.0@, p.1@)) == spec_pairs(
            args@.map_values(|a: Vec<u8>| a@).skip(from as int),
        ),
{
    let ghost full = args@.map_values(|a: Vec<u8>| a@);
    let mut out: Vec<(Vec<u8>, Vec<u8>)> = Vec::new();
    let mut i: usize = from;
    #[verifier::loop_isolation(false)]
    while args.len() - i >= 2
        invariant
            from <= i <= args@.len(),
            (i - from) % 2 == 0,
            spec_pairs(full.skip(from as int)) == out@.map_values(
                |p: (Vec<u8>, Vec<u8>)| (p.0@, p.1@),
            ) + spec_pairs(full.skip(i as int)),
        decreases args@.len() - i,
    {
        out.push((args[i].clone(), args[i + 1].clone()));
        proof {
            lemma_pairs_step(full, i as int);
        }
        i = i + 2;
    }
    proof {
        assert(full.skip(i as int).len() < 2);
        assert(spec_pairs(full.skip(i as int)) =~= Seq::<(Seq<u8>, Seq<u8>)>::empty());
        assert(out@.map_values(|p: (Vec<u8>, Vec<u8>)| (p.0@, p.1@)) + Seq::<
            (Seq<u8>, Seq<u8>),
        >::empty() =~= out@.map_values(|p: (Vec<u8>, Vec<u8>)| (p.0@, p.1@)));
    }
    out
}

proof fn lemma_pairs_step(full: Seq<Seq<u8>>, i: int)
    requires
        0 <= i,
        i + 2 <= full.len(),
    ensures
        spec_pairs(full.skip(i)) == seq![(full[i], full[i + 1])] + spec_pairs(full.skip(i + 2)),
{
    let s = full.skip(i);
    assert(s.len() >= 2);
    assert(s[0] == full[i]);
    assert(s[1] == full[i + 1]);
    assert(s.skip(2) =~= full.skip(i + 2));
}


/// The name and arguments a frame carries, when it is an array of bulk
/// strings with at least the name.
pub open spec fn spec_parse_command(m: MessageV) -> Option<(Seq<u8>, Seq<Seq<u8>>)> {
    match m {
        MessageV::Array(items) => if items.len() >= 1 && (forall|i: int|
            0 <= i < items.len() ==> #[trigger] items[i] is Bulk) {
            Some((items[0]->Bulk_0, items.drop_first().map_values(|v: MessageV| v->Bulk_0)))
        } else {
            None
        },
        _ => None,
    }
}

impl Message {
    /// Reads a top-level frame as a command: it must be an array of bulk
    /// strings naming the command and its arguments.
    pub fn parse_command(&self) -> (r: Option<CommandInfo>)
        ensures
            match r {
                Some(info) => spec_parse_command(self@) == Some(
                    (info.name@, info.args_view()),
                ),
                None => spec_parse_command(self@) is None,
            },
    {
        match self {
            Message::Array(items) => {
                proof {
                    crate::message::lemma_msgs_view_len(items@);
                }
                if items.len() == 0 {
                    return None;
                }
                let name = match &items[0] {
                    Message::Bulk(p) => p.clone(),
                    _ => {
                        return None;
                    },
                };
                let mut args: Vec<Vec<u8>> = Vec::new();
                let ghost view_items = crate::message::msgs_view(items@);
                let mut i: usize = 1;
                #[verifier::loop_isolation(false)]
                while i < items.len()
                    invariant
                        1 <= i <= items@.len(),
                        view_items == crate::message::msgs_view(items@),
                        view_items.len() == items@.len(),
                        forall|j: int|
                            0 <= j < i ==> #[trigger] view_items[j] is Bulk,
                        args@.len() == i - 1,
                        forall|j: int|
                            0 <= j < i - 1 ==> (#[trigger] args@[j])@ == view_items[j
                                + 1]->Bulk_0,
                    decreases items@.len() - i,
                {
                    match &items[i] {
                        Message::Bulk(p) => {
                            args.push(p.clone());
                            proof {
                                assert(view_items[i as int] == crate::message::msg_view(
                                    items@[i as int],
                                ));
                                assert(view_items[i as int] == MessageV::Bulk(p@));
                            }
                        },
                        _ => {
                            return None;
                        },
                    }
                    i = i + 1;
                }
                proof {
                    assert(args@.map_values(|a: Vec<u8>| a@) =~= view_items.drop_first().map_values(
                        |v: MessageV| v->Bulk_0,
                    ));
                }
                Some(CommandInfo { name, args })
            },
            _ => None,
        }
    }
}

/// The canonical wire form of a command: an array of bulk strings, the name
/// first.
pub open spec fn spec_command_wire(name: Seq<u8>, args: Seq<Seq<u8>>) -> Seq<u8> {
    enc(
        MessageV::Array(
            seq![MessageV::Bulk(name)] + args.map_values(|a: Seq<u8>| MessageV::Bulk(a)),
        ),
    )
}

impl CommandInfo {
    /// Encodes the command in its canonical wire form, as it is replicated
    /// and as `master_offset` counts it.
    pub fn encode(&self) -> (r: Vec<u8>)
        ensures
            r@ == spec_command_wire(self.name@, self.args_view()),
    {
        let mut array_values: Vec<Message> = Vec::new();
        array_values.push(Message::Bulk(self.name.clone()));
        let mut i: usize = 0;
        let ghost target = seq![MessageV::Bulk(self.name@)] + self.args_view().map_values(
            |a: Seq<u8>| MessageV::Bulk(a),
        );
        proof {
            crate::message::lemma_msgs_view_len(array_values@);
            assert(crate::message::msgs_view(array_values@) =~= target.take(1));
        }
        #[verifier::loop_isolation(false)]
        while i < self.args.len()
            invariant
                i <= self.args@.len(),
                target == seq![MessageV::Bulk(self.name@)] + self.args_view().map_values(
                    |a: Seq<u8>| MessageV::Bulk(a),
                ),
                target.len() == 1 + self.args@.len(),
                crate::message::msgs_view(array_values@) == target.take(1 + i as int),
            decreases self.args@.len() - i,
        {
            let ghost prev = array_values@;
            let piece = Message::Bulk(self.args[i].clone());
            let ghost piece_v = piece@;
            array_values.push(piece);
            proof {
                crate::message::lemma_msgs_view_push(prev, array_values@.last());
                assert(piece_v == MessageV::Bulk(self.args_view()[i as int]));
                assert(target[1 + i as int] == piece_v);
                assert(target.take(1 + i as int).push(target[1 + i as int]) =~= target.take(
                    1 + i + 1,
                ));
            }
            i = i + 1;
        }
        let msg = Message::Array(array_values);
        proof {
            assert(target.take(target.len() as int) =~= target);
        }
        msg.encode()
    }

    /// Whether the command mutates the store and so must reach replicas.
    pub fn is_write(&self) -> (r: bool)
        ensures
            r == spec_is_write(self.name@),
    {
        let n = lower_bytes(&self.name);
        eq_str(&n, "set") || eq_str(&n, "del")
    }
}

/// SET and DEL are the write commands.
pub open spec fn spec_is_write(name: Seq<u8>) -> bool {
    spec_lower(name) == "set".spec_bytes() || spec_lower(name) == "del".spec_bytes()
}

/// The bulk payload of a frame, if it is a bulk string.
pub fn unpack_bulk_str(value: &Message) -> (r: Option<Vec<u8>>)
    ensures
        match r {
            Some(p) => value@ matches MessageV::Bulk(b) && p@ == b,
            None => !(value@ is Bulk),
        },
{
    match value {
        Message::Bulk(p) => Some(p.clone()),
        _ => None,
    }
}

/// The frame replicated for a write: `set key value [px ms]` or
/// `del key ...`, as arrays of bulk strings.
pub open spec fn spec_replica_message(c: CommandV) -> Option<MessageV> {
    match c {
        CommandV::SetValue(key, e) => Some(
            MessageV::Array(
                match e.expiry_time {
                    Some(ms) => seq![
                        MessageV::Bulk("set".spec_bytes()),
                        MessageV::Bulk(key),
                        MessageV::Bulk(e.value),
                        MessageV::Bulk("px".spec_bytes()),
                        MessageV::Bulk(crate::parser::dec_digits(ms as nat)),
                    ],
                    None => seq![
                        MessageV::Bulk("set".spec_bytes()),
                        MessageV::Bulk(key),
                        MessageV::Bulk(e.value),
                    ],
                },
            ),
        ),
        CommandV::Del(keys) => Some(
            MessageV::Array(
                seq![MessageV::Bulk("del".spec_bytes())] + keys.map_values(
                    |k: Seq<u8>| MessageV::Bulk(k),
                ),
            ),
        ),
        _ => None,
    }
}

impl Command {
    /// The replication form of a write command; reads replicate nothing.
    pub fn to_replica_command(cmd: &Command) -> (r: Option<crate::replica::ReplicaCommand>)
        ensures
            match r {
                Some(rc) => spec_replica_message(cmd@) == Some(rc.message@) && rc.timeout
                    is None,
                None => spec_replica_message(cmd@) is None,
            },
    {
        match cmd {
            Command::SetValue(key, entry) => {
                let mut items: Vec<Message> = Vec::new();
                items.push(Message::Bulk(vstd::string::StrSliceExecFns::as_bytes_vec("set")));
                items.push(Message::Bulk(key.clone()));
                items.push(Message::Bulk(entry.value.clone()));
                proof {
                    crate::message::lemma_msgs_view_len(items@);
                    assert(items@[0] matches Message::Bulk(p) && p@ == "set".spec_bytes());
                    assert(items@[1] matches Message::Bulk(p) && p@ == key@);
                    assert(items@[2] matches Message::Bulk(p) && p@ == entry.value@);
                    assert(crate::message::msgs_view(items@) =~= seq![
                        MessageV::Bulk("set".spec_bytes()),
                        MessageV::Bulk(key@),
                        MessageV::Bulk(entry.value@),
                    ]);
                }
                match entry.expiry_time {
                    Some(ms) => {
                        items.push(
                            Message::Bulk(vstd::string::StrSliceExecFns::as_bytes_vec("px")),
                        );
                        items.push(Message::Bulk(crate::parser::u64_to_dec(ms)));
                        proof {
                            crate::message::lemma_msgs_view_len(items@);
                            assert(items@[0] matches Message::Bulk(p) && p@
                                == "set".spec_bytes());
                            assert(items@[1] matches Message::Bulk(p) && p@ == key@);
                            assert(items@[2] matches Message::Bulk(p) && p@
                                == entry.value@);
                            assert(items@[3] matches Message::Bulk(p) && p@
                                == "px".spec_bytes());
                            assert(items@[4] matches Message::Bulk(p) && p@
                                == crate::parser::dec_digits(ms as nat));
                            assert(crate::message::msgs_view(items@) =~= seq![
                                MessageV::Bulk("set".spec_bytes()),
                                MessageV::Bulk(key@),
                                MessageV::Bulk(entry.value@),
                                MessageV::Bulk("px".spec_bytes()),
                                MessageV::Bulk(crate::parser::dec_digits(ms as nat)),
                            ]);
                        }
                    },
                    None => {},
                }
                Some(
                    crate::replica::ReplicaCommand { message: Message::Array(items), timeout: None },
                )
            },
            Command::Del(keys) => {
                let mut items: Vec<Message> = Vec::new();
                items.push(Message::Bulk(vstd::string::StrSliceExecFns::as_bytes_vec("del")));
                let ghost keys_v = keys@.map_values(|k: Vec<u8>| k@);
                let ghost target = seq![MessageV::Bulk("del".spec_bytes())] + keys_v.map_values(
                    |k: Seq<u8>| MessageV::Bulk(k),
                );
                proof {
                    crate::message::lemma_msgs_view_len(items@);
                    assert(crate::message::msgs_view(items@) =~= target.take(1));
                }
                let mut i: usize = 0;
                #[verifier::loop_isolation(false)]
                while i < keys.len()
                    invariant
                        i <= keys@.len(),
                        keys_v == keys@.map_values(|k: Vec<u8>| k@),
                        target == seq![MessageV::Bulk("del".spec_bytes())] + keys_v.map_values(
                            |k: Seq<u8>| MessageV::Bulk(k),
                        ),
                        target.len() == 1 + keys@.len(),
                        crate::message::msgs_view(items@) == target.take(1 + i as int),
                    decreases keys@.len() - i,
                {
                    let ghost prev = items@;
                    let piece = Message::Bulk(keys[i].clone());
                    let ghost piece_v = piece@;
                    items.push(piece);
                    proof {
                        crate::message::lemma_msgs_view_push(prev, items@.last());
                        assert(piece_v == MessageV::Bulk(keys_v[i as int]));
                        assert(target[1 + i as int] == piece_v);
                        assert(target.take(1 + i as int).push(target[1 + i as int])
                            =~= target.take(1 + i + 1));
                    }
                    i = i + 1;
                }
                proof {
                    assert(target.take(target.len() as int) =~= target);
                }
                Some(
                    crate::replica::ReplicaCommand { message: Message::Array(items), timeout: None },
                )
            },
            _ => None,
        }
    }
}

} // verus!
