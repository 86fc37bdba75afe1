use dnser::server::{
    add_edns_opt, answer_from_upstream, answer_locally, build_badvers, build_servfail, build_truncated,
    query_udp_limit, reply_from_cache, udp_reply_bytes, MAX_UDP_PAYLOAD,
};
use dnser::{Cache, ResolveError};
use dnser::testing::fixtures;
use dnser::{Class, Header, Message, Question, Rcode, RecordType, ResourceRecord, MAX_UDP_SIZE};

fn query(id: u16, rd: bool) -> Message {
    let mut m = Message::empty();
    m.header = Header {
        id,
        flags: if rd { Header::RD } else { 0 },
        qd_count: 1,
        an_count: 0,
        ns_count: 0,
        ar_count: 0,
    };
    m.questions = vec![Question {
        name: "example.com".to_string(),
        qtype: RecordType::A,
        qclass: Class::IN(),
    }];
    m
}

fn query_with_opt(id: u16, udp_size: u16) -> Message {
    let mut q = query(id, true);
    q.additional.push(ResourceRecord::edns_opt(udp_size));
    q.header.ar_count = 1;
    q
}

#[test]
fn servfail_is_a_response_with_servfail_rcode() {
    let resp = build_servfail(&query(0, false));
    assert!(resp.header.is_response());
    assert_eq!(resp.header.rcode(), Ok(Rcode::ServFail));
}

#[test]
fn servfail_echoes_id_and_questions() {
    let q = query(42, false);
    let resp = build_servfail(&q);
    assert_eq!(resp.header.id, 42);
    assert_eq!(resp.questions, q.questions);
}

#[test]
fn servfail_copies_rd_bit() {
    assert!(build_servfail(&query(0, true)).header.recursion_desired());
    assert!(!build_servfail(&query(0, false)).header.recursion_desired());
}

#[test]
fn truncated_sets_tc_and_qr_bits() {
    let resp = build_truncated(&query(7, true));
    assert!(resp.header.is_response());
    assert!(resp.header.is_truncated());
    assert_eq!(resp.header.id, 7);
    assert!(resp.header.recursion_desired());
    assert!(resp.answers.is_empty());
    assert!(resp.authority.is_empty());
    assert!(resp.additional.is_empty());
    assert_eq!(resp.questions, query(7, true).questions);
}

#[test]
fn truncated_does_not_set_servfail() {
    let resp = build_truncated(&query(0, false));
    assert_eq!(resp.header.rcode(), Ok(Rcode::NoError));
}

#[test]
fn query_udp_limit_no_opt_returns_512() {
    assert_eq!(query_udp_limit(&query(1, true)), 512);
}

#[test]
fn query_udp_limit_opt_clamped_below_512() {
    assert_eq!(query_udp_limit(&query_with_opt(1, 256)), 512);
}

#[test]
fn query_udp_limit_opt_above_max_clamped() {
    assert_eq!(query_udp_limit(&query_with_opt(1, 65535)), MAX_UDP_SIZE);
}

#[test]
fn query_udp_limit_opt_1280_roundtrips() {
    assert_eq!(query_udp_limit(&query_with_opt(1, 1280)), 1280);
}

#[test]
fn badvers_has_opt_with_extended_rcode_1() {
    let resp = build_badvers(&query(9, true));
    assert!(resp.header.is_response());
    let opt = resp.opt().expect("OPT record must be present in BADVERS");
    assert_eq!(opt.edns_extended_rcode(), Some(1));
}

#[test]
fn add_edns_opt_replaces_upstream_opt() {
    let mut resp = fixtures::noerror(
        fixtures::question("example.com", RecordType::A),
        vec![fixtures::a_record("example.com", [1, 2, 3, 4], 60)],
    );
    let mut upstream_opt = ResourceRecord::edns_opt(1232);
    upstream_opt.set_edns_version(0);
    resp.additional.push(fixtures::a_record("glue.example.com", [5, 6, 7, 8], 60));
    resp.additional.push(upstream_opt);
    resp.header.ar_count = 2;
    add_edns_opt(&mut resp);
    assert_eq!(resp.additional.len(), 2);
    assert_eq!(resp.header.ar_count, 2);
    assert!(!resp.additional[0].is_opt());
    assert_eq!(resp.additional[1], ResourceRecord::edns_opt(4096));
}

#[test]
fn cache_reply_takes_query_id_and_rd() {
    let cached = fixtures::noerror(
        fixtures::question("example.com", RecordType::A),
        vec![fixtures::a_record("example.com", [1, 2, 3, 4], 60)],
    );
    let reply = reply_from_cache(&query(99, false), cached.clone());
    assert_eq!(reply.header.id, 99);
    assert!(!reply.header.recursion_desired());
    assert!(reply.header.recursion_available());
    assert_eq!(reply.answers, cached.answers);
    let with_opt = reply_from_cache(&query_with_opt(5, 1232), cached);
    assert_eq!(with_opt.opt().unwrap().edns_udp_size(), Some(4096));
}

#[test]
fn udp_reply_truncated_when_over_limit() {
    let q = query(3, true);
    let mut big = fixtures::noerror(fixtures::question("example.com", RecordType::A), Vec::new());
    for i in 0..40u8 {
        big.answers.push(fixtures::a_record("example.com", [10, 0, 0, i], 300));
    }
    big.header.an_count = 40;
    let bytes = udp_reply_bytes(&q, &big).unwrap();
    assert!(big.to_bytes().unwrap().len() > MAX_UDP_PAYLOAD);
    assert_eq!(bytes, build_truncated(&q).to_bytes().unwrap());
    let small = build_servfail(&q);
    assert_eq!(udp_reply_bytes(&q, &small).unwrap(), small.to_bytes().unwrap());
}

#[test]
fn servfail_to_edns_query_carries_opt() {
    let mut cache = Cache::new(10, 3600);
    let q = query_with_opt(11, 1232);
    let resp = answer_from_upstream(&mut cache, &q, Err(ResolveError::Timeout));
    assert_eq!(resp.header.rcode(), Ok(Rcode::ServFail));
    assert_eq!(resp.additional, vec![ResourceRecord::edns_opt(4096)]);
    assert_eq!(resp.header.ar_count, 1);
    let plain = answer_from_upstream(&mut cache, &query(12, true), Err(ResolveError::AllFailed));
    assert!(plain.additional.is_empty());
    assert!(cache.is_empty());
}

#[test]
fn upstream_answer_fits_the_query_edns_use() {
    let mut cache = Cache::new(10, 3600);
    let mut answer = fixtures::noerror(
        fixtures::question("example.com", RecordType::A),
        vec![fixtures::a_record("example.com", [1, 2, 3, 4], 60)],
    );
    answer.additional.push(ResourceRecord::edns_opt(1232));
    answer.header.ar_count = 1;
    let reply = answer_from_upstream(&mut cache, &query(1, true), Ok(answer.clone()));
    assert!(reply.opt().is_none());
    assert_eq!(reply.header.ar_count, 0);
    let cached = answer_locally(&mut cache, &query(2, true)).unwrap();
    assert!(cached.opt().is_none());
    let edns = answer_locally(&mut cache, &query_with_opt(3, 1232)).unwrap();
    assert_eq!(edns.opt().unwrap().edns_udp_size(), Some(4096));
    assert_eq!(edns.header.id, 3);
}

#[test]
fn bad_edns_version_gets_badvers_locally() {
    let mut cache = Cache::new(10, 3600);
    let mut q = query_with_opt(4, 1232);
    q.additional[0].set_edns_version(1);
    let resp = answer_locally(&mut cache, &q).unwrap();
    assert_eq!(resp.opt().unwrap().edns_extended_rcode(), Some(1));
}

#[test]
fn repeated_nxdomain_query_is_answered_from_cache() {
    let mut cache = Cache::new(10, 3600);
    assert!(answer_locally(&mut cache, &query(7, true)).is_none());
    let answer = fixtures::nxdomain(
        fixtures::question("example.com", RecordType::A),
        dnser::testing::soa_record("example.com", 300, 60),
    );
    let first = answer_from_upstream(&mut cache, &query(7, true), Ok(answer.clone()));
    assert_eq!(first.header.rcode(), Ok(Rcode::NXDomain));
    let again = answer_locally(&mut cache, &query(8, false)).unwrap();
    assert_eq!(again.header.id, 8);
    assert!(!again.header.recursion_desired());
    assert_eq!(again.header.rcode(), Ok(Rcode::NXDomain));
    assert_eq!(again.authority.len(), 1);
    assert!(again.authority[0].ttl <= 300);
    assert_eq!(again.questions, answer.questions);
}
