//! How the server answers a query: EDNS(0) handling (RFC 6891), replies
//! built locally (SERVFAIL, truncation, BADVERS), answers from the cache or
//! from upstream, and the UDP size limit (RFC 1035 §4.2.1). Receiving and
//! sending are done by the caller.

use vstd::prelude::*;

use crate::cache::{
    aged_message, bump, cacheable_ttl, elapsed_secs, expiry, insert_outcome, lemma_lookup_after_insert,
    lookup, opt_view, spec_key, touched, Cache, EntryView, KeyView,
};
use crate::proto::header::Header;
use crate::proto::message::{
    copy_questions, first_opt_index, lemma_first_opt_index, records_view, spec_message_bytes, Message,
    SpecMessage,
};
use crate::proto::class::Class;
use crate::proto::error::WriteError;
use crate::proto::rdata::SpecRData;
use crate::proto::resource_record::{spec_is_opt, ttl_version, ResourceRecord, SpecRecord};
use crate::proto::MAX_UDP_SIZE;
use crate::resolver::ResolveError;

verus! {

/// The UDP payload limit of a query without EDNS(0) (RFC 1035).
pub const MAX_UDP_PAYLOAD: usize = 512;

/// The UDP payload size this server advertises.
pub const SERVER_UDP_PAYLOAD: u16 = 4096;

// ---------------------------------------------------------------------------
// Specifications
// ---------------------------------------------------------------------------

/// The first OPT record of `rs`, if any.
pub open spec fn first_opt(rs: Seq<SpecRecord>) -> Option<SpecRecord> {
    if first_opt_index(rs) < rs.len() {
        Some(rs[first_opt_index(rs)])
    } else {
        None
    }
}

/// The UDP payload limit of a reply to `query`: the size its OPT record
/// advertises, clamped to `[512, MAX_UDP_SIZE]`, or 512 without one.
pub open spec fn udp_limit(query: SpecMessage) -> int {
    match first_opt(query.additional) {
        None => MAX_UDP_PAYLOAD as int,
        Some(rr) => if rr.class.0 < MAX_UDP_PAYLOAD {
            MAX_UDP_PAYLOAD as int
        } else if rr.class.0 > MAX_UDP_SIZE {
            MAX_UDP_SIZE as int
        } else {
            rr.class.0 as int
        },
    }
}

/// The OPT record this server adds to its replies.
pub open spec fn server_opt() -> SpecRecord {
    SpecRecord {
        name: Seq::empty(),
        class: Class(SERVER_UDP_PAYLOAD),
        ttl: 0,
        rdata: SpecRData::OPT(Seq::empty()),
    }
}

/// The records of `rs` that are not OPT records, in order.
pub open spec fn without_opt(rs: Seq<SpecRecord>) -> Seq<SpecRecord>
    decreases rs.len(),
{
    if rs.len() == 0 {
        rs
    } else if spec_is_opt(rs.last().rdata) {
        without_opt(rs.drop_last())
    } else {
        without_opt(rs.drop_last()).push(rs.last())
    }
}

/// `m` with its OPT records replaced by the server's own at the end of the
/// additional section, and the ARCOUNT set to match.
pub open spec fn with_server_opt(m: SpecMessage) -> SpecMessage {
    let additional = without_opt(m.additional).push(server_opt());
    SpecMessage {
        header: Header { ar_count: additional.len() as u16, ..m.header },
        additional,
        ..m
    }
}

/// `m` without its OPT records, ARCOUNT set to match; `m` itself when it
/// has none.
pub open spec fn without_any_opt(m: SpecMessage) -> SpecMessage {
    if first_opt(m.additional) is None {
        m
    } else {
        let additional = without_opt(m.additional);
        SpecMessage {
            header: Header { ar_count: additional.len() as u16, ..m.header },
            additional,
            ..m
        }
    }
}

/// `m` fitted to the EDNS(0) use of `query` (RFC 6891 §7): with the
/// server's OPT record when the query has one, and with none when it has
/// none.
pub open spec fn edns_fitted(query: SpecMessage, m: SpecMessage) -> SpecMessage {
    if has_opt(query) {
        with_server_opt(m)
    } else {
        without_any_opt(m)
    }
}

/// A reply to `query` with no records and the flags `extra` added.
pub open spec fn bare_reply(query: SpecMessage, extra: u16) -> SpecMessage {
    SpecMessage {
        header: Header::spec_reply_to(query.header, extra),
        questions: query.questions,
        answers: Seq::empty(),
        authority: Seq::empty(),
        additional: Seq::empty(),
    }
}

/// The SERVFAIL reply to `query`.
pub open spec fn servfail_reply(query: SpecMessage) -> SpecMessage {
    bare_reply(query, 2)
}

/// The reply that tells the client to retry over TCP: TC set, no records.
pub open spec fn truncated_reply(query: SpecMessage) -> SpecMessage {
    bare_reply(query, Header::TC)
}

/// The BADVERS reply (RFC 6891 §6.1.3): RCODE 0 in the header, extended
/// RCODE 1 in the top byte of its OPT record's TTL.
pub open spec fn badvers_reply(query: SpecMessage) -> SpecMessage {
    let opt = SpecRecord { ttl: 0x0100_0000, ..server_opt() };
    SpecMessage {
        header: Header { ar_count: 1, ..Header::spec_reply_to(query.header, 0) },
        questions: query.questions,
        answers: Seq::empty(),
        authority: Seq::empty(),
        additional: seq![opt],
    }
}

/// Whether `query` carries an OPT record of an EDNS version other than 0.
pub open spec fn bad_edns_version(query: SpecMessage) -> bool {
    match first_opt(query.additional) {
        Some(rr) => ttl_version(rr.ttl) != 0,
        None => false,
    }
}

/// Whether `query` carries an OPT record.
pub open spec fn has_opt(query: SpecMessage) -> bool {
    first_opt(query.additional) is Some
}

/// The reply to `query` from the cached response `cached`: the query's ID,
/// the query's RD bit, fitted to the query's EDNS(0) use.
pub open spec fn cache_reply(query: SpecMessage, cached: SpecMessage) -> SpecMessage {
    let m = SpecMessage {
        header: Header {
            id: query.header.id,
            flags: (cached.header.flags & !Header::RD) | (query.header.flags & Header::RD),
            ..cached.header
        },
        ..cached
    };
    edns_fitted(query, m)
}

/// What [`answer_locally`] gives for `query`, asking one question of a
/// good EDNS version, from the cache entries `m` at `now`: the cached
/// reply on a hit, nothing on a miss.
pub open spec fn cached_answer(m: Map<KeyView, EntryView>, query: SpecMessage, now: u64) -> Option<SpecMessage> {
    match lookup(m, query.questions[0], now) {
        None => None,
        Some(c) => Some(cache_reply(query, c)),
    }
}

/// The reply to `query` relaying the upstream answer `answer`, fitted to
/// the query's EDNS(0) use.
pub open spec fn upstream_reply(query: SpecMessage, answer: SpecMessage) -> SpecMessage {
    edns_fitted(query, answer)
}

/// The reply to `query` when upstream resolution failed: SERVFAIL, with the
/// server's OPT record when the query has one.
pub open spec fn failure_reply(query: SpecMessage) -> SpecMessage {
    edns_fitted(query, servfail_reply(query))
}

// ---------------------------------------------------------------------------
// Replies
// ---------------------------------------------------------------------------

/// The first OPT record of `m`'s additional section, if any.
fn query_opt(m: &Message) -> (r: Option<&ResourceRecord>)
    ensures
        first_opt(m@.additional) is Some ==> (r matches Some(x) && x@ == first_opt(m@.additional)->Some_0),
        first_opt(m@.additional) is None ==> r is None,
        first_opt(m@.additional) is Some ==> spec_is_opt(first_opt(m@.additional)->Some_0.rdata),
{
    let r = m.opt();
    proof {
        lemma_first_opt_index(m@.additional);
    }
    r
}

/// The UDP payload limit of a reply to `query`.
pub fn query_udp_limit(query: &Message) -> (r: usize)
    ensures
        r == udp_limit(query@),
{
    match query_opt(query) {
        None => MAX_UDP_PAYLOAD,
        Some(rr) => match rr.edns_udp_size() {
            None => MAX_UDP_PAYLOAD,
            Some(advertised) => {
                let a = advertised as usize;
                if a < MAX_UDP_PAYLOAD {
                    MAX_UDP_PAYLOAD
                } else if a > MAX_UDP_SIZE {
                    MAX_UDP_SIZE
                } else {
                    a
                }
            },
        },
    }
}

/// The records of `rs` that are not OPT records, in order.
fn non_opt_records(rs: &Vec<ResourceRecord>) -> (r: Vec<ResourceRecord>)
    ensures
        records_view(r@) == without_opt(records_view(rs@)),
{
    let ghost all = records_view(rs@);
    let mut kept: Vec<ResourceRecord> = Vec::new();
    let n = rs.len();
    let mut i: usize = 0;
    while i < n
        invariant
            i <= n,
            n == rs@.len(),
            all == records_view(rs@),
            records_view(kept@) == without_opt(all.subrange(0, i as int)),
        decreases n - i,
    {
        assert(all.subrange(0, i + 1).drop_last() =~= all.subrange(0, i as int));
        assert(all.subrange(0, i + 1).last() == rs@[i as int]@);
        if !rs[i].is_opt() {
            let ghost prev = kept@;
            let rr = rs[i].duplicate();
            kept.push(rr);
            assert(records_view(kept@) =~= records_view(prev).push(rr@));
        }
        i = i + 1;
    }
    assert(all.subrange(0, n as int) =~= all);
    kept
}

/// Removes every OPT record from `response` and appends the server's own,
/// setting ARCOUNT to the new length of the additional section.
pub fn add_edns_opt(response: &mut Message)
    ensures
        final(response)@ == with_server_opt(old(response)@),
{
    let mut kept = non_opt_records(&response.additional);
    let ghost prev = kept@;
    let opt = ResourceRecord::edns_opt(SERVER_UDP_PAYLOAD);
    kept.push(opt);
    assert(records_view(kept@) =~= records_view(prev).push(server_opt()));
    let count = kept.len() as u16;
    response.additional = kept;
    response.header.ar_count = count;
}

/// Removes every OPT record from `response`, setting ARCOUNT to the new
/// length of the additional section; leaves a response without one as it is.
pub fn strip_edns_opt(response: &mut Message)
    ensures
        final(response)@ == without_any_opt(old(response)@),
{
    if query_opt(response).is_some() {
        let kept = non_opt_records(&response.additional);
        let count = kept.len() as u16;
        response.additional = kept;
        response.header.ar_count = count;
    }
}

/// Fits `response` to the EDNS(0) use of `query`: the server's OPT record
/// when the query has one, no OPT record when it has none.
pub fn fit_edns(query: &Message, response: &mut Message)
    ensures
        final(response)@ == edns_fitted(query@, old(response)@),
{
    if query_opt(query).is_some() {
        add_edns_opt(response);
    } else {
        strip_edns_opt(response);
    }
}

/// The SERVFAIL reply to `query`.
pub fn build_servfail(query: &Message) -> (r: Message)
    ensures
        r@ == servfail_reply(query@),
{
    let mut m = Message::empty();
    m.header = Header::reply_to(&query.header, 2);
    m.questions = copy_questions(&query.questions);
    m
}

/// The reply telling the client to retry over TCP: TC set, no records.
pub fn build_truncated(query: &Message) -> (r: Message)
    ensures
        r@ == truncated_reply(query@),
{
    let mut m = Message::empty();
    m.header = Header::reply_to(&query.header, Header::TC);
    m.questions = copy_questions(&query.questions);
    m
}

/// The BADVERS reply to `query` (RFC 6891 §6.1.3).
pub fn build_badvers(query: &Message) -> (r: Message)
    ensures
        r@ == badvers_reply(query@),
{
    let mut header = Header::reply_to(&query.header, 0);
    header.ar_count = 1;
    let mut opt = ResourceRecord::edns_opt(SERVER_UDP_PAYLOAD);
    opt.set_edns_extended_rcode(1);
    assert((0u32 & 0x00FF_FFFFu32) | ((1u8 as u32) << 24u32) == 0x0100_0000u32) by (bit_vector);
    let mut m = Message::empty();
    m.header = header;
    m.questions = copy_questions(&query.questions);
    let ghost o = opt@;
    m.additional.push(opt);
    assert(records_view(m.additional@) =~= seq![o]);
    m
}

/// The reply to `query` from the cached response `cached`.
pub fn reply_from_cache(query: &Message, cached: Message) -> (r: Message)
    ensures
        r@ == cache_reply(query@, cached@),
{
    let mut m = cached;
    m.header.id = query.header.id;
    m.header.flags = (m.header.flags & !Header::RD) | (query.header.flags & Header::RD);
    fit_edns(query, &mut m);
    m
}

/// The reply to `query` made without asking upstream, if there is one: the
/// BADVERS reply when its EDNS version is not 0, else the cached answer to
/// its single question when the cache holds a live one.
pub fn answer_locally(cache: &mut Cache, query: &Message) -> (r: Option<Message>)
    ensures
        bad_edns_version(query@) ==> opt_view(r) == Some(badvers_reply(query@)) && *final(cache)
            == *old(cache),
        !bad_edns_version(query@) && query@.questions.len() != 1 ==> r is None && *final(cache)
            == *old(cache),
        !bad_edns_version(query@) && query@.questions.len() == 1 ==> exists|now: u64|
            #![trigger lookup(old(cache).entries(), query@.questions[0], now)]
            {
                &&& now >= old(cache).spec_clock_floor()
                &&& final(cache).spec_clock_floor() == now
                &&& final(cache).entries() == touched(
                    old(cache).entries(),
                    query@.questions[0],
                    now,
                    old(cache).spec_tick(),
                )
                &&& final(cache).spec_tick() == bump(old(cache).spec_tick())
                &&& opt_view(r) == cached_answer(old(cache).entries(), query@, now)
            },
        final(cache).spec_capacity() == old(cache).spec_capacity(),
        final(cache).spec_max_negative_ttl() == old(cache).spec_max_negative_ttl(),
        old(cache).entries().dom().finite() ==> final(cache).entries().dom().finite(),
{
    if let Some(opt) = query_opt(query) {
        match opt.edns_version() {
            Some(0) => {},
            _ => {
                return Some(build_badvers(query));
            },
        }
    }
    if query.questions.len() != 1 {
        return None;
    }
    let ghost q0 = query@.questions[0];
    assert(query.questions@[0]@ == q0);
    let ghost before = *cache;
    let found = cache.get(&query.questions[0]);
    let ghost now = choose|now: u64|
        #![trigger lookup(before.entries(), q0, now)]
        {
            &&& now >= before.spec_clock_floor()
            &&& cache.spec_clock_floor() == now
            &&& opt_view(found) == lookup(before.entries(), q0, now)
            &&& cache.entries() == touched(before.entries(), q0, now, before.spec_tick())
        };
    assert(opt_view(found) == lookup(before.entries(), q0, now));
    match found {
        Some(cached) => Some(reply_from_cache(query, cached)),
        None => None,
    }
}

/// The reply to `query` once upstream has been asked: the answer, stored
/// in the cache when cacheable, or SERVFAIL when resolution failed; either
/// fitted to the query's EDNS(0) use.
pub fn answer_from_upstream(cache: &mut Cache, query: &Message, result: Result<Message, ResolveError>) -> (r: Message)
    ensures
        match result {
            Ok(answer) => {
                &&& r@ == upstream_reply(query@, answer@)
                &&& exists|now: u64|
                    #![trigger insert_outcome(old(cache).entries(), final(cache).entries(), answer@, now, old(cache).spec_tick(), old(cache).spec_capacity(), old(cache).spec_max_negative_ttl())]
                    {
                        &&& now >= old(cache).spec_clock_floor()
                        &&& final(cache).spec_clock_floor() == now
                        &&& insert_outcome(
                            old(cache).entries(),
                            final(cache).entries(),
                            answer@,
                            now,
                            old(cache).spec_tick(),
                            old(cache).spec_capacity(),
                            old(cache).spec_max_negative_ttl(),
                        )
                    }
                &&& final(cache).spec_tick() == bump(old(cache).spec_tick())
            },
            Err(_) => {
                &&& r@ == failure_reply(query@)
                &&& *final(cache) == *old(cache)
            },
        },
        final(cache).spec_capacity() == old(cache).spec_capacity(),
        final(cache).spec_max_negative_ttl() == old(cache).spec_max_negative_ttl(),
        old(cache).entries().dom().finite() ==> final(cache).entries().dom().finite(),
{
    match result {
        Ok(answer) => {
            cache.insert(&answer);
            let mut msg = answer;
            fit_edns(query, &mut msg);
            msg
        },
        Err(_) => {
            let mut msg = build_servfail(query);
            fit_edns(query, &mut msg);
            msg
        },
    }
}

/// The bytes sent back over UDP for `response` to `query`: the response
/// itself when it fits the query's UDP limit, else the truncated reply.
pub fn udp_reply_bytes(query: &Message, response: &Message) -> (r: Result<Vec<u8>, WriteError>)
    ensures
        match spec_message_bytes(response@) {
            Err(e) => r == Err::<Vec<u8>, WriteError>(e),
            Ok(bytes) => if bytes.len() <= udp_limit(query@) {
                r matches Ok(v) && v@ == bytes
            } else {
                match spec_message_bytes(truncated_reply(query@)) {
                    Err(e) => r == Err::<Vec<u8>, WriteError>(e),
                    Ok(tb) => r matches Ok(v) && v@ == tb,
                }
            },
        },
{
    let limit = query_udp_limit(query);
    let bytes = response.to_bytes()?;
    if bytes.len() > limit {
        build_truncated(query).to_bytes()
    } else {
        Ok(bytes)
    }
}

// ---------------------------------------------------------------------------
// Laws
// ---------------------------------------------------------------------------

/// No OPT record is left by [`without_opt`], and none other is dropped.
proof fn lemma_without_opt(rs: Seq<SpecRecord>)
    ensures
        forall|i: int| 0 <= i < without_opt(rs).len() ==> !spec_is_opt(#[trigger] without_opt(rs)[i].rdata),
        without_opt(rs).len() <= rs.len(),
    decreases rs.len(),
{
    if rs.len() > 0 {
        lemma_without_opt(rs.drop_last());
    }
}

/// A reply given the server's OPT record holds exactly one OPT record: the
/// server's own, with no options, last in the additional section, which
/// ARCOUNT counts.
pub proof fn lemma_single_server_opt(m: SpecMessage)
    requires
        m.additional.len() < 0xFFFF,
    ensures
        first_opt(with_server_opt(m).additional) == Some(server_opt()),
        forall|i: int|
            0 <= i < with_server_opt(m).additional.len() - 1 ==> !spec_is_opt(
                #[trigger] with_server_opt(m).additional[i].rdata,
            ),
        with_server_opt(m).header.ar_count == with_server_opt(m).additional.len(),
{
    let a = with_server_opt(m).additional;
    lemma_without_opt(m.additional);
    lemma_first_opt_index(a);
    let idx = first_opt_index(a);
    assert(a[a.len() - 1] == server_opt());
    if idx < a.len() - 1 {
        assert(a[idx] == without_opt(m.additional)[idx]);
    }
    if idx == a.len() {
        assert(!spec_is_opt(a[a.len() - 1].rdata));
    }
}

/// The BADVERS reply carries extended RCODE 1 and EDNS version 0.
pub proof fn lemma_badvers_extended_rcode(query: SpecMessage)
    ensures
        first_opt(badvers_reply(query).additional) is Some,
        crate::proto::resource_record::ttl_ext_rcode(first_opt(badvers_reply(query).additional)->Some_0.ttl)
            == 1,
        ttl_version(first_opt(badvers_reply(query).additional)->Some_0.ttl) == 0,
{
    let a = badvers_reply(query).additional;
    lemma_first_opt_index(a);
    assert(first_opt_index(a) == 0);
    assert(((0x0100_0000u32 >> 24u32) & 0xFFu32) as u8 == 1u8) by (bit_vector);
    assert(((0x0100_0000u32 >> 16u32) & 0xFFu32) as u8 == 0u8) by (bit_vector);
}

/// A reply fitted to a query's EDNS(0) use holds an OPT record exactly when
/// the query does: then the server's own, once and last; otherwise none.
pub proof fn lemma_edns_fitted(query: SpecMessage, m: SpecMessage)
    requires
        m.additional.len() < 0xFFFF,
    ensures
        has_opt(query) ==> first_opt(edns_fitted(query, m).additional) == Some(server_opt()),
        has_opt(query) ==> forall|i: int|
            0 <= i < edns_fitted(query, m).additional.len() - 1 ==> !spec_is_opt(
                #[trigger] edns_fitted(query, m).additional[i].rdata,
            ),
        !has_opt(query) ==> first_opt(edns_fitted(query, m).additional) is None,
        !has_opt(query) ==> forall|i: int|
            0 <= i < edns_fitted(query, m).additional.len() ==> !spec_is_opt(
                #[trigger] edns_fitted(query, m).additional[i].rdata,
            ),
{
    if has_opt(query) {
        lemma_single_server_opt(m);
    } else {
        let a = edns_fitted(query, m).additional;
        lemma_without_opt(m.additional);
        lemma_first_opt_index(m.additional);
        lemma_first_opt_index(a);
        if first_opt_index(a) < a.len() {
            assert(!spec_is_opt(a[first_opt_index(a)].rdata));
        }
    }
}

/// A query answered from upstream with a cacheable answer for the same
/// question is, when asked again before the answer expires, answered from
/// the cache without asking upstream: the stored answer with its TTLs
/// lowered by the whole seconds since it was stored, the new query's ID
/// and RD bit, fitted to the new query's EDNS(0) use.
pub proof fn lemma_repeat_query_hits_cache(
    before: Map<KeyView, EntryView>,
    after: Map<KeyView, EntryView>,
    answer: SpecMessage,
    now: u64,
    stamp: u64,
    capacity: usize,
    max_negative_ttl: u32,
    query: SpecMessage,
    later: u64,
)
    requires
        insert_outcome(before, after, answer, now, stamp, capacity, max_negative_ttl),
        cacheable_ttl(answer, max_negative_ttl) is Some,
        query.questions.len() == 1,
        !bad_edns_version(query),
        spec_key(query.questions[0]) == spec_key(answer.questions[0]),
        now <= later < expiry(now, cacheable_ttl(answer, max_negative_ttl)->Some_0),
    ensures
        cached_answer(after, query, later) == Some(
            cache_reply(query, aged_message(answer, elapsed_secs(now, later))),
        ),
{
    lemma_lookup_after_insert(
        before,
        after,
        answer,
        now,
        stamp,
        capacity,
        max_negative_ttl,
        query.questions[0],
        later,
    );
}

} // verus!
