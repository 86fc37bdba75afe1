//! Messages for tests: queries, records, and typed and on-the-wire replies.

use vstd::prelude::*;
use vstd::string::StringExecFns;

use crate::proto::class::Class;
use crate::proto::header::Header;
use crate::proto::message::{records_view, Message, SpecMessage};
use crate::proto::question::{Question, SpecQuestion};
use crate::proto::rdata::{RData, SpecRData};
use crate::proto::record_type::RecordType;
use crate::proto::resource_record::{ResourceRecord, SpecRecord};

pub mod fixtures;
pub mod mocks;

verus! {

/// The query that [`make_query`] builds: ID 1234, RD set, one question of
/// class IN.
pub open spec fn query_spec(name: Seq<char>, qtype: RecordType) -> SpecMessage {
    SpecMessage {
        header: Header { id: 1234, flags: Header::RD, qd_count: 1, an_count: 0, ns_count: 0, ar_count: 0 },
        questions: seq![SpecQuestion { name, qtype, qclass: Class(1) }],
        answers: Seq::empty(),
        authority: Seq::empty(),
        additional: Seq::empty(),
    }
}

/// A single-question query with RD set and ID 1234.
pub fn make_query(name: &str, qtype: RecordType) -> (r: Message)
    ensures
        r@ == query_spec(name@, qtype),
{
    let mut m = Message::empty();
    m.header = Header { id: 1234, flags: Header::RD, qd_count: 1, an_count: 0, ns_count: 0, ar_count: 0 };
    let q = Question { name: name.to_owned(), qtype, qclass: Class(1) };
    let ghost qv = q@;
    m.questions.push(q);
    assert(m@.questions =~= seq![qv]);
    m
}

/// [`make_query`] with an EDNS(0) OPT record advertising `udp_size`.
pub fn make_edns_query(name: &str, qtype: RecordType, udp_size: u16) -> (r: Message)
    ensures
        r@.header == (Header { ar_count: 1, ..query_spec(name@, qtype).header }),
        r@.questions == query_spec(name@, qtype).questions,
        r@.answers == Seq::<SpecRecord>::empty(),
        r@.authority == Seq::<SpecRecord>::empty(),
        r@.additional == seq![
            SpecRecord {
                name: Seq::empty(),
                class: Class(udp_size),
                ttl: 0,
                rdata: SpecRData::OPT(Seq::empty()),
            },
        ],
{
    let mut q = make_query(name, qtype);
    let opt = ResourceRecord::edns_opt(udp_size);
    let ghost ov = opt@;
    q.additional.push(opt);
    q.header.ar_count = 1;
    assert(records_view(q.additional@) =~= seq![ov]);
    q
}

/// The SOA record that [`soa_record`] builds.
pub open spec fn soa_spec(zone: Seq<char>, ttl: u32, minimum: u32) -> SpecRecord {
    SpecRecord {
        name: zone,
        class: Class(1),
        ttl,
        rdata: SpecRData::SOA {
            mname: "ns1."@ + zone,
            rname: "admin."@ + zone,
            serial: 1,
            refresh: 3600,
            retry: 600,
            expire: 86400,
            minimum,
        },
    }
}

/// A minimal SOA record for `zone` with the given TTL and MINIMUM.
pub fn soa_record(zone: &str, ttl: u32, minimum: u32) -> (r: ResourceRecord)
    ensures
        r@ == soa_spec(zone@, ttl, minimum),
{
    let mname = String::from_str("ns1.").concat(zone);
    let rname = String::from_str("admin.").concat(zone);
    ResourceRecord {
        name: zone.to_owned(),
        class: Class(1),
        ttl,
        rdata: RData::SOA {
            mname,
            rname,
            serial: 1,
            refresh: 3600,
            retry: 600,
            expire: 86400,
            minimum,
        },
    }
}

} // verus!
