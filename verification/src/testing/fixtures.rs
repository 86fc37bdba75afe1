//! Typed messages for tests that feed DNS logic directly.

use vstd::prelude::*;

use crate::proto::class::Class;
use crate::proto::header::Header;
use crate::proto::message::{records_view, Message, SpecMessage};
use crate::proto::question::{Question, SpecQuestion};
use crate::proto::rcode::Rcode;
use crate::proto::rdata::{RData, SpecRData};
use crate::proto::record_type::RecordType;
use crate::proto::resource_record::{ResourceRecord, SpecRecord};

verus! {

/// A question of class IN.
pub fn question(name: &str, qtype: RecordType) -> (r: Question)
    ensures
        r@ == (SpecQuestion { name: name@, qtype, qclass: Class(1) }),
{
    Question { name: name.to_owned(), qtype, qclass: Class(1) }
}

/// An A record of class IN.
pub fn a_record(name: &str, ip: [u8; 4], ttl: u32) -> (r: ResourceRecord)
    ensures
        r@ == (SpecRecord { name: name@, class: Class(1), ttl, rdata: SpecRData::A(ip@) }),
{
    ResourceRecord { name: name.to_owned(), class: Class(1), ttl, rdata: RData::A(ip) }
}

/// A response with ID 1, the given flags and counts, the question `q`, and
/// the given sections.
pub open spec fn response_spec(
    flags: u16,
    q: SpecQuestion,
    answers: Seq<SpecRecord>,
    authority: Seq<SpecRecord>,
) -> SpecMessage {
    SpecMessage {
        header: Header {
            id: 1,
            flags,
            qd_count: 1,
            an_count: answers.len() as u16,
            ns_count: authority.len() as u16,
            ar_count: 0,
        },
        questions: seq![q],
        answers,
        authority,
        additional: Seq::empty(),
    }
}

/// Builds the response of [`response_spec`].
fn response(flags: u16, q: Question, answers: Vec<ResourceRecord>, authority: Vec<ResourceRecord>) -> (r: Message)
    ensures
        r@ == response_spec(flags, q@, records_view(answers@), records_view(authority@)),
{
    let an_count = answers.len() as u16;
    let ns_count = authority.len() as u16;
    let mut m = Message::empty();
    m.header = Header { id: 1, flags, qd_count: 1, an_count, ns_count, ar_count: 0 };
    let ghost qv = q@;
    m.questions.push(q);
    m.answers = answers;
    m.authority = authority;
    assert(m@.questions =~= seq![qv]);
    m
}

/// A NOERROR response (QR, RD, RA) with the given question and answers.
pub fn noerror(q: Question, answers: Vec<ResourceRecord>) -> (r: Message)
    ensures
        r@ == response_spec(
            Header::QR | Header::RD | Header::RA,
            q@,
            records_view(answers@),
            Seq::empty(),
        ),
{
    let none: Vec<ResourceRecord> = Vec::new();
    assert(records_view(none@) =~= Seq::<SpecRecord>::empty());
    response(Header::QR | Header::RD | Header::RA, q, answers, none)
}

/// A SERVFAIL response without RD or RA and without answers.
pub fn servfail(q: Question) -> (r: Message)
    ensures
        r@ == response_spec(Header::QR | 2u16, q@, Seq::empty(), Seq::empty()),
{
    let none: Vec<ResourceRecord> = Vec::new();
    let none2: Vec<ResourceRecord> = Vec::new();
    assert(records_view(none@) =~= Seq::<SpecRecord>::empty());
    response(Header::QR | Rcode::ServFail.to_u16(), q, none, none2)
}

/// A truncated NOERROR response (QR, TC, RD) with the given answers.
pub fn truncated(q: Question, answers: Vec<ResourceRecord>) -> (r: Message)
    ensures
        r@ == response_spec(
            Header::QR | Header::TC | Header::RD,
            q@,
            records_view(answers@),
            Seq::empty(),
        ),
{
    let none: Vec<ResourceRecord> = Vec::new();
    assert(records_view(none@) =~= Seq::<SpecRecord>::empty());
    response(Header::QR | Header::TC | Header::RD, q, answers, none)
}

/// An NXDOMAIN response with `soa` in the authority section.
pub fn nxdomain(q: Question, soa: ResourceRecord) -> (r: Message)
    ensures
        r@ == response_spec(Header::QR | 3u16, q@, Seq::empty(), seq![soa@]),
{
    let none: Vec<ResourceRecord> = Vec::new();
    assert(records_view(none@) =~= Seq::<SpecRecord>::empty());
    let ghost sv = soa@;
    let mut authority: Vec<ResourceRecord> = Vec::new();
    authority.push(soa);
    assert(records_view(authority@) =~= seq![sv]);
    response(Header::QR | Rcode::NXDomain.to_u16(), q, none, authority)
}

/// A NODATA response (NOERROR, no answers) with `soa` in the authority section.
pub fn nodata(q: Question, soa: ResourceRecord) -> (r: Message)
    ensures
        r@ == response_spec(Header::QR | Header::RA, q@, Seq::empty(), seq![soa@]),
{
    let none: Vec<ResourceRecord> = Vec::new();
    assert(records_view(none@) =~= Seq::<SpecRecord>::empty());
    let ghost sv = soa@;
    let mut authority: Vec<ResourceRecord> = Vec::new();
    authority.push(soa);
    assert(records_view(authority@) =~= seq![sv]);
    response(Header::QR | Header::RA, q, none, authority)
}

} // verus!
