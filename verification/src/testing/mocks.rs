//! Replies of mock upstreams: each takes the bytes of a query and gives the
//! bytes of a well-formed reply.

use vstd::prelude::*;
use vstd::slice::slice_to_vec;

use crate::proto::class::Class;
use crate::proto::header::Header;
use crate::proto::message::{copy_questions, records_view, spec_message_bytes, spec_parse_message, Message, SpecMessage};
use crate::proto::question::SpecQuestion;
use crate::proto::rdata::{RData, SpecRData};
use crate::proto::resource_record::{ResourceRecord, SpecRecord};
use crate::testing::{soa_record, soa_spec};

verus! {

/// The query that `bytes` parse to; meaningful when they parse.
pub open spec fn parsed(bytes: Seq<u8>) -> SpecMessage {
    spec_parse_message(bytes)->Ok_0
}

/// A reply to `query` with the flags `extra` added and no records.
pub open spec fn plain_reply(query: SpecMessage, extra: u16) -> SpecMessage {
    SpecMessage {
        header: Header::spec_reply_to(query.header, extra),
        questions: query.questions,
        answers: Seq::empty(),
        authority: Seq::empty(),
        additional: Seq::empty(),
    }
}

/// The zone named by the first question of `query`, or `example.com`.
pub open spec fn zone_of(query: SpecMessage) -> Seq<char> {
    if query.questions.len() > 0 {
        query.questions[0].name
    } else {
        "example.com"@
    }
}

/// A reply to `query` with the flags `extra`, NSCOUNT 1 and a SOA of TTL and
/// MINIMUM 60 for the zone asked about.
pub open spec fn negative_reply(query: SpecMessage, extra: u16) -> SpecMessage {
    SpecMessage {
        header: Header { ns_count: 1, ..Header::spec_reply_to(query.header, extra) },
        questions: query.questions,
        answers: Seq::empty(),
        authority: seq![soa_spec(zone_of(query), 60, 60)],
        additional: Seq::empty(),
    }
}

/// Whether the bytes of `query` parse and `reply` of what they parse to can
/// be written.
pub open spec fn answerable(query: Seq<u8>, reply: spec_fn(SpecMessage) -> SpecMessage) -> bool {
    &&& spec_parse_message(query) is Ok
    &&& spec_message_bytes(reply(parsed(query))) is Ok
}

/// Parses the bytes of a query.
fn parse_query(query_bytes: &[u8]) -> (r: Message)
    requires
        spec_parse_message(query_bytes@) is Ok,
    ensures
        r@ == parsed(query_bytes@),
{
    match Message::parse(slice_to_vec(query_bytes)) {
        Ok(m) => m,
        Err(_) => {
            assert(false);
            Message::empty()
        },
    }
}

/// Writes a reply whose bytes are known to exist.
fn reply_bytes(m: &Message) -> (r: Vec<u8>)
    requires
        spec_message_bytes(m@) is Ok,
    ensures
        r@ == spec_message_bytes(m@)->Ok_0,
{
    match m.to_bytes() {
        Ok(v) => v,
        Err(_) => {
            assert(false);
            Vec::new()
        },
    }
}

/// Echo: QR, RA and the query's RD, the questions copied, no records.
pub fn echo(query_bytes: &[u8]) -> (r: Vec<u8>)
    requires
        answerable(query_bytes@, |q: SpecMessage| plain_reply(q, Header::RA)),
    ensures
        r@ == spec_message_bytes(plain_reply(parsed(query_bytes@), Header::RA))->Ok_0,
{
    let query = parse_query(query_bytes);
    let mut m = Message::empty();
    m.header = Header::reply_to(&query.header, Header::RA);
    m.questions = copy_questions(&query.questions);
    reply_bytes(&m)
}

/// TC set and no records: what an upstream sends when the answer did not
/// fit in UDP.
pub fn truncated(query_bytes: &[u8]) -> (r: Vec<u8>)
    requires
        answerable(query_bytes@, |q: SpecMessage| plain_reply(q, Header::TC)),
    ensures
        r@ == spec_message_bytes(plain_reply(parsed(query_bytes@), Header::TC))->Ok_0,
{
    let query = parse_query(query_bytes);
    let mut m = Message::empty();
    m.header = Header::reply_to(&query.header, Header::TC);
    m.questions = copy_questions(&query.questions);
    reply_bytes(&m)
}

/// The zone named by the first question of `query`, or `example.com`.
fn zone_name(query: &Message) -> (r: String)
    ensures
        r@ == zone_of(query@),
{
    if query.questions.len() > 0 {
        query.questions[0].name.clone()
    } else {
        proof {
            reveal_strlit("example.com");
        }
        "example.com".to_owned()
    }
}

/// A reply to `query` with the flags `extra`, NSCOUNT 1 and a SOA for the
/// zone asked about.
fn negative(query: &Message, extra: u16) -> (r: Message)
    ensures
        r@ == negative_reply(query@, extra),
{
    let zone = zone_name(query);
    let mut header = Header::reply_to(&query.header, extra);
    header.ns_count = 1;
    let mut m = Message::empty();
    m.header = header;
    m.questions = copy_questions(&query.questions);
    let soa = soa_record(zone.as_str(), 60, 60);
    let ghost sv = soa@;
    m.authority.push(soa);
    assert(records_view(m.authority@) =~= seq![sv]);
    m
}

/// NXDOMAIN with a SOA of TTL and MINIMUM 60 in the authority section.
pub fn nxdomain(query_bytes: &[u8]) -> (r: Vec<u8>)
    requires
        answerable(query_bytes@, |q: SpecMessage| negative_reply(q, Header::RA | 3u16)),
    ensures
        r@ == spec_message_bytes(negative_reply(parsed(query_bytes@), Header::RA | 3u16))->Ok_0,
{
    let query = parse_query(query_bytes);
    let m = negative(&query, Header::RA | 3u16);
    reply_bytes(&m)
}

/// NODATA (NOERROR, no answers) with a SOA of TTL and MINIMUM 60.
pub fn nodata(query_bytes: &[u8]) -> (r: Vec<u8>)
    requires
        answerable(query_bytes@, |q: SpecMessage| negative_reply(q, Header::RA)),
    ensures
        r@ == spec_message_bytes(negative_reply(parsed(query_bytes@), Header::RA))->Ok_0,
{
    let query = parse_query(query_bytes);
    let m = negative(&query, Header::RA);
    reply_bytes(&m)
}

/// The name of the first question of `query`, or the empty name.
pub open spec fn first_name(query: SpecMessage) -> Seq<char> {
    if query.questions.len() > 0 {
        query.questions[0].name
    } else {
        Seq::empty()
    }
}

/// `n` A records for `name`, the i-th at 10.0.0.i, TTL 300.
pub open spec fn numbered_a_records(name: Seq<char>, n: u8) -> Seq<SpecRecord> {
    Seq::new(
        n as nat,
        |i: int|
            SpecRecord {
                name,
                class: Class(1),
                ttl: 300,
                rdata: SpecRData::A(seq![10u8, 0u8, 0u8, i as u8]),
            },
    )
}

/// The reply of [`many_a_records`] to `query`.
pub open spec fn many_a_reply(query: SpecMessage, n: u8) -> SpecMessage {
    SpecMessage {
        header: Header { an_count: n as u16, ..Header::spec_reply_to(query.header, Header::RA) },
        questions: query.questions,
        answers: numbered_a_records(first_name(query), n),
        authority: Seq::empty(),
        additional: Seq::empty(),
    }
}

/// A reply with `n` A records (10.0.0.0 to 10.0.0.n-1, TTL 300) for the
/// name asked about; enough of them force a UDP reply to be truncated.
pub fn many_a_records(n: u8, query_bytes: &[u8]) -> (r: Vec<u8>)
    requires
        spec_parse_message(query_bytes@) is Ok,
        spec_message_bytes(many_a_reply(parsed(query_bytes@), n)) is Ok,
    ensures
        r@ == spec_message_bytes(many_a_reply(parsed(query_bytes@), n))->Ok_0,
{
    let query = parse_query(query_bytes);
    let name = if query.questions.len() > 0 {
        query.questions[0].name.clone()
    } else {
        String::new()
    };
    let ghost nv = first_name(query@);
    assert(name@ == nv);
    let mut answers: Vec<ResourceRecord> = Vec::new();
    let mut i: u8 = 0;
    while i < n
        invariant
            i <= n,
            name@ == nv,
            records_view(answers@) == numbered_a_records(nv, n).subrange(0, i as int),
        decreases n - i,
    {
        let ghost prev = answers@;
        let rr = ResourceRecord {
            name: name.clone(),
            class: Class(1),
            ttl: 300,
            rdata: RData::A([10u8, 0u8, 0u8, i]),
        };
        answers.push(rr);
        assert(records_view(answers@) =~= records_view(prev).push(numbered_a_records(nv, n)[i as int]));
        assert(numbered_a_records(nv, n).subrange(0, i + 1) =~= numbered_a_records(nv, n).subrange(
            0,
            i as int,
        ).push(numbered_a_records(nv, n)[i as int]));
        i = i + 1;
    }
    assert(numbered_a_records(nv, n).subrange(0, n as int) =~= numbered_a_records(nv, n));
    let mut header = Header::reply_to(&query.header, Header::RA);
    header.an_count = n as u16;
    let mut m = Message::empty();
    m.header = header;
    m.questions = copy_questions(&query.questions);
    m.answers = answers;
    reply_bytes(&m)
}

} // verus!
