//! The decisions of the forwarding resolver: the table of in-flight query
//! IDs (RFC 5452 §9.2), the bytes sent upstream, the checks made on a
//! reply, and the race between upstreams. Sockets and timers are run by the
//! caller.

use vstd::prelude::*;
use vstd::string::StringExecFns;

use std::collections::HashMap;

use crate::proto::error::{joined, parse_error_text, write_error_text, ParseError, WriteError};
use crate::proto::header::Header;
use crate::proto::message::{questions_view, spec_message_bytes, spec_parse_message, Message, SpecMessage};
use crate::proto::question::Question;
use crate::proto::wire::{be_u16_at, u16_bytes};

verus! {

broadcast use vstd::std_specs::hash::group_hash_axioms;

/// `std::io::Error`, carried by [`ResolveError::Io`].
#[verifier::external_type_specification]
#[verifier::external_body]
pub struct ExIoError(std::io::Error);

/// Why a query could not be resolved.
#[derive(Debug)]
pub enum ResolveError {
    Write(WriteError),
    Parse(ParseError),
    Io(std::io::Error),
    Timeout,
    NoUpstreams,
    AllFailed,
    InvalidResponse,
    IdSpaceExhausted,
}

/// `<std::io::Error as ToString>::to_string`: the error's description.
/// Nothing is stated of the text.
#[verifier::external_body]
pub(crate) fn io_error_text(e: &std::io::Error) -> String {
    e.to_string()
}

impl ResolveError {
    /// A description of the error.
    pub fn message(&self) -> (r: String)
        ensures
            match self {
                ResolveError::Write(e) => r@ == "write: "@ + write_error_text(*e),
                ResolveError::Parse(e) => {
                    &&& !(e is InvalidUtf8) ==> r@ == "parse: "@ + parse_error_text(*e)
                    &&& e is InvalidUtf8 ==> exists|d: Seq<char>|
                        r@ == "parse: "@ + parse_error_text(*e) + d
                },
                ResolveError::Io(_) => exists|d: Seq<char>| r@ == "io: "@ + d,
                ResolveError::Timeout => r@ == "upstream timed out"@,
                ResolveError::NoUpstreams => r@ == "no upstreams configured"@,
                ResolveError::AllFailed => r@ == "all upstreams failed"@,
                ResolveError::InvalidResponse => r@ == "invalid response from upstream"@,
                ResolveError::IdSpaceExhausted => r@ == "all 65536 query IDs in use"@,
            },
    {
        match self {
            ResolveError::Write(e) => joined("write: ", e.message().as_str()),
            ResolveError::Parse(e) => {
                let text = e.message();
                proof {
                    if e is InvalidUtf8 {
                        let d = choose|d: Seq<char>| text@ == parse_error_text(*e) + d;
                        assert("parse: "@ + text@ =~= "parse: "@ + parse_error_text(*e) + d);
                    }
                }
                joined("parse: ", text.as_str())
            },
            ResolveError::Io(e) => joined("io: ", io_error_text(e).as_str()),
            ResolveError::Timeout => String::from_str("upstream timed out"),
            ResolveError::NoUpstreams => String::from_str("no upstreams configured"),
            ResolveError::AllFailed => String::from_str("all upstreams failed"),
            ResolveError::InvalidResponse => String::from_str("invalid response from upstream"),
            ResolveError::IdSpaceExhausted => String::from_str("all 65536 query IDs in use"),
        }
    }
}

impl From<WriteError> for ResolveError {
    fn from(e: WriteError) -> (r: Self) {
        ResolveError::Write(e)
    }
}

impl vstd::std_specs::convert::FromSpecImpl<WriteError> for ResolveError {
    open spec fn obeys_from_spec() -> bool {
        true
    }

    open spec fn from_spec(e: WriteError) -> Self {
        ResolveError::Write(e)
    }
}

impl From<ParseError> for ResolveError {
    fn from(e: ParseError) -> (r: Self) {
        ResolveError::Parse(e)
    }
}

impl vstd::std_specs::convert::FromSpecImpl<ParseError> for ResolveError {
    open spec fn obeys_from_spec() -> bool {
        true
    }

    open spec fn from_spec(e: ParseError) -> Self {
        ResolveError::Parse(e)
    }
}

impl From<std::io::Error> for ResolveError {
    fn from(e: std::io::Error) -> (r: Self) {
        ResolveError::Io(e)
    }
}

impl vstd::std_specs::convert::FromSpecImpl<std::io::Error> for ResolveError {
    open spec fn obeys_from_spec() -> bool {
        true
    }

    open spec fn from_spec(e: std::io::Error) -> Self {
        ResolveError::Io(e)
    }
}

// ---------------------------------------------------------------------------
// In-flight query IDs
// ---------------------------------------------------------------------------

/// How many random IDs are tried before the table is scanned.
pub const RANDOM_ID_ATTEMPTS: usize = 16;

/// `rand::random::<u16>()`: a random query ID. Nothing is said of it.
#[verifier::external_body]
fn random_id() -> u16 {
    rand::random::<u16>()
}

/// The queries sent to one upstream and not yet answered, by query ID,
/// each with what waits for its reply.
pub struct InFlight<T> {
    map: HashMap<u16, T>,
}

impl<T> InFlight<T> {
    /// The waiting entries by ID.
    pub closed spec fn ids(&self) -> Map<u16, T> {
        self.map@
    }

    /// An empty table.
    pub fn new() -> (r: Self)
        ensures
            r.ids() == Map::<u16, T>::empty(),
    {
        InFlight { map: HashMap::new() }
    }

    /// The number of queries in flight.
    pub fn len(&self) -> (r: usize)
        ensures
            r == self.ids().len(),
    {
        self.map.len()
    }

    /// Takes out what waits for the reply with ID `id`.
    pub fn remove(&mut self, id: u16) -> (r: Option<T>)
        ensures
            final(self).ids() == old(self).ids().remove(id),
            match r {
                Some(v) => old(self).ids().contains_key(id) && v == old(self).ids()[id],
                None => !old(self).ids().contains_key(id),
            },
    {
        self.map.remove(&id)
    }

    /// Registers `waiter` under a fresh ID chosen from `draws` and `start`,
    /// and returns the ID: the first of `draws` that is free, else the first
    /// free ID counting up from `start` and wrapping around, else
    /// `IdSpaceExhausted`, exactly when all 65536 IDs are in use.
    pub fn allocate_from(&mut self, draws: &Vec<u16>, start: u16, waiter: T) -> (r: Result<
        u16,
        ResolveError,
    >)
        ensures
            allocation_outcome(old(self).ids(), final(self).ids(), r, draws@, start, waiter),
            r is Err <==> forall|id: u16| #[trigger] old(self).ids().contains_key(id),
    {
        let ghost m = self.ids();
        let n = draws.len();
        let mut i: usize = 0;
        assert(draws@.subrange(0, n as int) =~= draws@);
        while i < n
            invariant
                i <= n,
                n == draws@.len(),
                self.ids() == m,
                m == old(self).ids(),
                first_free_draw(m, draws@) == first_free_draw(m, draws@.subrange(i as int, n as int)),
            decreases n - i,
        {
            let ghost rest = draws@.subrange(i as int, n as int);
            assert(rest.drop_first() =~= draws@.subrange(i + 1, n as int));
            let id = draws[i];
            assert(rest[0] == id);
            if !self.map.contains_key(&id) {
                self.map.insert(id, waiter);
                return Ok(id);
            }
            i = i + 1;
        }
        assert(draws@.subrange(n as int, n as int).len() == 0);
        let mut offset: u32 = 0;
        while offset < 0x1_0000
            invariant
                offset <= 0x1_0000,
                self.ids() == m,
                m == old(self).ids(),
                first_free_draw(m, draws@) is None,
                first_free_scan(m, start, 0) == first_free_scan(m, start, offset as int),
                forall|o: int| 0 <= o < offset ==> #[trigger] m.contains_key(id_at(start, o)),
            decreases 0x1_0000 - offset,
        {
            let id = start.wrapping_add(offset as u16);
            assert(id == id_at(start, offset as int));
            if !self.map.contains_key(&id) {
                self.map.insert(id, waiter);
                return Ok(id);
            }
            offset = offset + 1;
        }
        proof {
            assert forall|id: u16| #[trigger] m.contains_key(id) by {
                let o: int = if id >= start { id - start } else { id + 0x1_0000 - start };
                assert(id_at(start, o) == id);
                assert(m.contains_key(id_at(start, o)));
            }
        }
        Err(ResolveError::IdSpaceExhausted)
    }

    /// Registers `waiter` under a fresh ID and returns the ID, as
    /// [`InFlight::allocate_from`] does with up to `RANDOM_ID_ATTEMPTS`
    /// random draws and a random starting point for the scan (RFC 5452
    /// §9.2). The error comes exactly when all 65536 IDs are in use.
    pub fn allocate_and_insert(&mut self, waiter: T) -> (r: Result<u16, ResolveError>)
        ensures
            exists|draws: Seq<u16>, start: u16|
                #![trigger allocation_outcome(old(self).ids(), final(self).ids(), r, draws, start, waiter)]
                {
                    &&& draws.len() == RANDOM_ID_ATTEMPTS
                    &&& allocation_outcome(old(self).ids(), final(self).ids(), r, draws, start, waiter)
                },
            r is Err <==> forall|id: u16| #[trigger] old(self).ids().contains_key(id),
    {
        let mut draws: Vec<u16> = Vec::new();
        while draws.len() < RANDOM_ID_ATTEMPTS
            invariant
                draws.len() <= RANDOM_ID_ATTEMPTS,
            decreases RANDOM_ID_ATTEMPTS - draws.len(),
        {
            draws.push(random_id());
        }
        let start = random_id();
        self.allocate_from(&draws, start, waiter)
    }
}

/// The first of `draws` that `m` does not hold, if any.
pub open spec fn first_free_draw<T>(m: Map<u16, T>, draws: Seq<u16>) -> Option<u16>
    decreases draws.len(),
{
    if draws.len() == 0 {
        None
    } else if !m.contains_key(draws[0]) {
        Some(draws[0])
    } else {
        first_free_draw(m, draws.drop_first())
    }
}

/// The first ID that `m` does not hold, counting up from `o` places after
/// `start` to the end of the 65536 IDs, if any.
pub open spec fn first_free_scan<T>(m: Map<u16, T>, start: u16, o: int) -> Option<u16>
    decreases 0x1_0000 - o,
{
    if o < 0 || o >= 0x1_0000 {
        None
    } else if !m.contains_key(id_at(start, o)) {
        Some(id_at(start, o))
    } else {
        first_free_scan(m, start, o + 1)
    }
}

/// The ID chosen for a new query in flight, given the IDs `m` in use: the
/// first free one of `draws`, else the first free one counting up from
/// `start`, else none.
pub open spec fn allocated_id<T>(m: Map<u16, T>, draws: Seq<u16>, start: u16) -> Option<u16> {
    match first_free_draw(m, draws) {
        Some(id) => Some(id),
        None => first_free_scan(m, start, 0),
    }
}

/// What allocating from `draws` and `start` does: the chosen ID is
/// returned and `waiter` registered under it; without one the table is
/// unchanged and the error is `IdSpaceExhausted`.
pub open spec fn allocation_outcome<T>(
    before: Map<u16, T>,
    after: Map<u16, T>,
    r: Result<u16, ResolveError>,
    draws: Seq<u16>,
    start: u16,
    waiter: T,
) -> bool {
    match allocated_id(before, draws, start) {
        Some(id) => {
            &&& r matches Ok(got) && got == id
            &&& !before.contains_key(id)
            &&& after == before.insert(id, waiter)
        },
        None => {
            &&& r matches Err(e) && e is IdSpaceExhausted
            &&& after == before
        },
    }
}

/// The ID `o` places after `start`, wrapping around.
pub open spec fn id_at(start: u16, o: int) -> u16 {
    ((start + o) % 0x1_0000) as u16
}

// ---------------------------------------------------------------------------
// The bytes sent upstream
// ---------------------------------------------------------------------------

/// `bytes` with its first two bytes replaced by `id` in network order and
/// the RD bit of the flags set.
pub open spec fn stamped(bytes: Seq<u8>, id: u16) -> Seq<u8> {
    bytes.update(0, u16_bytes(id)[0]).update(1, u16_bytes(id)[1]).update(2, bytes[2] | 1u8)
}

/// The wire bytes of `query` as sent upstream: its ID replaced by `id` and
/// recursion desired.
pub fn upstream_query_bytes(query: &Message, id: u16) -> (r: Result<Vec<u8>, WriteError>)
    ensures
        match spec_message_bytes(query@) {
            Ok(bytes) => r matches Ok(v) && v@ == stamped(bytes, id),
            Err(e) => r == Err::<Vec<u8>, WriteError>(e),
        },
{
    let mut bytes = query.to_bytes_mut()?;
    proof {
        crate::proto::message::lemma_message_bytes_len(query@);
    }
    let hi: u8 = (id / 256) as u8;
    let lo: u8 = (id % 256) as u8;
    bytes.set(0, hi);
    bytes.set(1, lo);
    let flags_hi: u8 = bytes[2] | 1u8;
    bytes.set(2, flags_hi);
    Ok(bytes)
}

/// The ID of a reply read from an upstream socket, or `None` when it is too
/// short to hold a header.
pub fn reply_id(buf: &[u8]) -> (r: Option<u16>)
    ensures
        buf@.len() < 12 ==> r is None,
        buf@.len() >= 12 ==> r == Some(be_u16_at(buf@, 0)),
{
    if buf.len() < 12 {
        None
    } else {
        Some((buf[0] as u16) * 256 + (buf[1] as u16))
    }
}

// ---------------------------------------------------------------------------
// Checking a reply
// ---------------------------------------------------------------------------

/// Whether two lists of questions are equal.
pub fn questions_equal(a: &Vec<Question>, b: &Vec<Question>) -> (r: bool)
    ensures
        r == (questions_view(a@) == questions_view(b@)),
{
    if a.len() != b.len() {
        assert(questions_view(a@).len() != questions_view(b@).len());
        return false;
    }
    let mut i: usize = 0;
    while i < a.len()
        invariant
            i <= a@.len(),
            a@.len() == b@.len(),
            forall|j: int| 0 <= j < i ==> #[trigger] a@[j]@ == b@[j]@,
        decreases a.len() - i,
    {
        let same = a[i].name == b[i].name && a[i].qtype.to_u16() == b[i].qtype.to_u16()
            && a[i].qclass.0 == b[i].qclass.0;
        if !same {
            proof {
                a@[i as int].qtype.lemma_roundtrip();
                b@[i as int].qtype.lemma_roundtrip();
                assert(questions_view(a@)[i as int] != questions_view(b@)[i as int]);
            }
            return false;
        }
        proof {
            a@[i as int].qtype.lemma_roundtrip();
            b@[i as int].qtype.lemma_roundtrip();
        }
        i = i + 1;
    }
    assert(questions_view(a@) =~= questions_view(b@));
    true
}

/// What the reply `m` to `query` is taken as: refused unless it has the QR
/// bit and asks the same questions, and otherwise given the ID that the
/// query had before it was sent upstream.
pub open spec fn accepted_reply(m: SpecMessage, query: SpecMessage, query_id: u16) -> Option<
    SpecMessage,
> {
    if !m.header.flag(Header::QR) || m.questions != query.questions {
        None
    } else {
        Some(SpecMessage { header: Header { id: query_id, ..m.header }, ..m })
    }
}

/// Parses `bytes` as the reply to `query`, refuses it if the QR bit is
/// missing or the questions differ, and gives it back the ID the query had
/// before it was rewritten for the upstream.
pub fn parse_validated_response(bytes: Vec<u8>, query: &Message, query_id: u16) -> (r: Result<
    Message,
    ResolveError,
>)
    ensures
        match spec_parse_message(bytes@) {
            Err(e) => r matches Err(ResolveError::Parse(pe)) && pe.kind() == e,
            Ok(m) => match accepted_reply(m, query@, query_id) {
                None => r matches Err(ResolveError::InvalidResponse),
                Some(v) => r matches Ok(msg) && msg@ == v,
            },
        },
{
    let mut msg = match Message::parse(bytes) {
        Ok(m) => m,
        Err(e) => {
            return Err(ResolveError::Parse(e));
        },
    };
    if !msg.header.is_response() || !questions_equal(&msg.questions, &query.questions) {
        return Err(ResolveError::InvalidResponse);
    }
    msg.header.id = query_id;
    Ok(msg)
}

/// What to do with a reply that came over UDP.
pub enum UdpReply {
    /// The reply is the answer.
    Answer(Message),
    /// The reply was truncated: ask again over TCP (RFC 1035 §4.2.1).
    RetryOverTcp,
}

/// The decision on a UDP reply to `query`: refused as by
/// [`parse_validated_response`], retried over TCP when truncated, else the
/// answer.
pub fn udp_reply(bytes: Vec<u8>, query: &Message, query_id: u16) -> (r: Result<
    UdpReply,
    ResolveError,
>)
    ensures
        match spec_parse_message(bytes@) {
            Err(e) => r matches Err(ResolveError::Parse(pe)) && pe.kind() == e,
            Ok(m) => match accepted_reply(m, query@, query_id) {
                None => r matches Err(ResolveError::InvalidResponse),
                Some(v) => if v.header.flag(Header::TC) {
                    r matches Ok(UdpReply::RetryOverTcp)
                } else {
                    r matches Ok(UdpReply::Answer(msg)) && msg@ == v
                },
            },
        },
{
    let msg = parse_validated_response(bytes, query, query_id)?;
    if msg.header.is_truncated() {
        Ok(UdpReply::RetryOverTcp)
    } else {
        Ok(UdpReply::Answer(msg))
    }
}

// ---------------------------------------------------------------------------
// The race between upstreams
// ---------------------------------------------------------------------------

/// A query sent to every upstream at once: the first answer wins, and the
/// query fails only once every upstream has failed.
pub struct Race {
    pending: usize,
}

impl Race {
    /// The upstreams that have not replied yet.
    pub closed spec fn spec_pending(&self) -> usize {
        self.pending
    }

    /// The number of upstreams that have not replied yet.
    pub fn pending(&self) -> (r: usize)
        ensures
            r == self.spec_pending(),
    {
        self.pending
    }

    /// A race among `upstreams` upstreams; there must be at least one.
    pub fn start(upstreams: usize) -> (r: Result<Race, ResolveError>)
        ensures
            upstreams == 0 ==> r matches Err(ResolveError::NoUpstreams),
            upstreams > 0 ==> (r matches Ok(race) && race.spec_pending() == upstreams),
    {
        if upstreams == 0 {
            Err(ResolveError::NoUpstreams)
        } else {
            Ok(Race { pending: upstreams })
        }
    }

    /// Records the result of one upstream. Returns the outcome of the
    /// query once it is decided: the first answer, or `AllFailed` when the
    /// last upstream has failed.
    pub fn record(&mut self, result: Result<Message, ResolveError>) -> (r: Option<
        Result<Message, ResolveError>,
    >)
        requires
            old(self).spec_pending() > 0,
        ensures
            final(self).spec_pending() == old(self).spec_pending() - 1,
            result is Ok ==> r == Some(result),
            result is Err && old(self).spec_pending() == 1 ==> r matches Some(
                Err(ResolveError::AllFailed),
            ),
            result is Err && old(self).spec_pending() > 1 ==> r is None,
    {
        self.pending = self.pending - 1;
        match result {
            Ok(m) => Some(Ok(m)),
            Err(_) => if self.pending == 0 {
                Some(Err(ResolveError::AllFailed))
            } else {
                None
            },
        }
    }
}

} // verus!
