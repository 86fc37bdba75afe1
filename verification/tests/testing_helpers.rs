use dnser::testing::{fixtures, make_edns_query, make_query, mocks, soa_record};
use dnser::{Header, Message, RData, Rcode, RecordType};

#[test]
fn fixtures_set_counts_and_flags() {
    let q = fixtures::question("example.com", RecordType::A);
    let m = fixtures::noerror(q.clone(), vec![fixtures::a_record("example.com", [1, 1, 1, 1], 5)]);
    assert_eq!(m.header.an_count, 1);
    assert_eq!(m.header.flags, Header::QR | Header::RD | Header::RA);
    let s = fixtures::servfail(q.clone());
    assert_eq!(s.header.rcode(), Ok(Rcode::ServFail));
    assert!(!s.header.recursion_desired());
    let nx = fixtures::nxdomain(q.clone(), soa_record("example.com", 60, 60));
    assert_eq!(nx.header.rcode(), Ok(Rcode::NXDomain));
    assert_eq!(nx.header.ns_count, 1);
    let nd = fixtures::nodata(q, soa_record("example.com", 60, 60));
    assert!(nd.answers.is_empty());
    assert_eq!(nd.header.rcode(), Ok(Rcode::NoError));
}

#[test]
fn soa_record_names_the_zone() {
    let soa = soa_record("example.org", 120, 30);
    match soa.rdata {
        RData::SOA { mname, rname, minimum, serial, .. } => {
            assert_eq!(mname, "ns1.example.org");
            assert_eq!(rname, "admin.example.org");
            assert_eq!(minimum, 30);
            assert_eq!(serial, 1);
        }
        _ => panic!("not an SOA"),
    }
    assert_eq!(soa.ttl, 120);
}

#[test]
fn queries_have_id_1234_and_rd() {
    let q = make_query("example.com", RecordType::A);
    assert_eq!(q.header.id, 1234);
    assert!(q.header.recursion_desired());
    let e = make_edns_query("example.com", RecordType::A, 1232);
    assert_eq!(e.header.ar_count, 1);
    assert_eq!(e.opt().unwrap().edns_udp_size(), Some(1232));
}

#[test]
fn mock_replies_answer_the_query() {
    let query = make_query("example.com", RecordType::A).to_bytes().unwrap();
    let echo = Message::parse(mocks::echo(&query)).unwrap();
    assert_eq!(echo.header.id, 1234);
    assert!(echo.header.is_response() && echo.header.recursion_available());
    let tc = Message::parse(mocks::truncated(&query)).unwrap();
    assert!(tc.header.is_truncated());
    let nx = Message::parse(mocks::nxdomain(&query)).unwrap();
    assert_eq!(nx.header.rcode(), Ok(Rcode::NXDomain));
    assert_eq!(nx.authority.len(), 1);
    let nd = Message::parse(mocks::nodata(&query)).unwrap();
    assert_eq!(nd.header.rcode(), Ok(Rcode::NoError));
    assert_eq!(nd.authority[0].name, "example.com");
    let many = Message::parse(mocks::many_a_records(50, &query)).unwrap();
    assert_eq!(many.answers.len(), 50);
    assert_eq!(many.answers[49].rdata, RData::A([10, 0, 0, 49]));
    assert!(mocks::many_a_records(50, &query).len() > 512);
}
