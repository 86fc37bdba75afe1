use dnser::testing::{fixtures, make_edns_query, make_query, soa_record};
use dnser::{Class, EdnsOption, Header, Message, ParseError, RData, RecordType, ResourceRecord, WriteError};

fn roundtrip(m: &Message) -> Message {
    Message::parse(m.to_bytes().unwrap()).unwrap()
}

fn record(name: &str, rdata: RData) -> ResourceRecord {
    ResourceRecord { name: name.to_string(), class: Class::IN(), ttl: 3600, rdata }
}

#[test]
fn query_roundtrips() {
    let q = make_query("www.example.com", RecordType::AAAA);
    assert_eq!(roundtrip(&q), q);
    let e = make_edns_query("example.org", RecordType::MX, 1232);
    assert_eq!(roundtrip(&e), e);
}

#[test]
fn every_record_type_roundtrips_with_compression() {
    let mut m = fixtures::noerror(
        fixtures::question("example.com", RecordType::ANY),
        vec![
            fixtures::a_record("example.com", [192, 0, 2, 1], 300),
            record("example.com", RData::AAAA([0x20, 0x01, 0x0d, 0xb8, 0, 0, 0, 0, 0, 0, 0, 0, 0, 0, 0, 1])),
            record("www.example.com", RData::CNAME("example.com".to_string())),
            record("example.com", RData::NS("ns1.example.com".to_string())),
            record("example.com", RData::MX { preference: 10, exchange: "mail.example.com".to_string() }),
            record("example.com", RData::TXT(vec![b"v=spf1 -all".to_vec(), Vec::new()])),
            record(
                "_sip._tcp.example.com",
                RData::SRV { priority: 1, weight: 2, port: 5060, target: "sip.example.com".to_string() },
            ),
            record("1.2.0.192.in-addr.arpa", RData::PTR("example.com".to_string())),
            record("example.com", RData::Unknown { rtype: 99, data: vec![1, 2, 3] }),
        ],
    );
    m.authority.push(soa_record("example.com", 60, 30));
    m.header.ns_count = 1;
    m.additional.push(ResourceRecord {
        name: String::new(),
        class: Class(4096),
        ttl: 0,
        rdata: RData::OPT(vec![EdnsOption { code: 10, data: vec![1, 2, 3, 4, 5, 6, 7, 8] }]),
    });
    m.header.ar_count = 1;
    let bytes = m.to_bytes().unwrap();
    assert_eq!(Message::parse(bytes).unwrap(), m);
}

#[test]
fn reserved_bit_is_refused() {
    let mut m = make_query("example.com", RecordType::A);
    m.header.flags |= Header::Z;
    let bytes = m.to_bytes().unwrap();
    assert_eq!(Message::parse(bytes), Err(ParseError::ReservedBitSet));
}

#[test]
fn short_buffer_is_eof() {
    assert_eq!(Message::parse(vec![0, 1, 2]), Err(ParseError::UnexpectedEof));
}

#[test]
fn unknown_class_in_question_is_refused() {
    let mut m = make_query("example.com", RecordType::A);
    m.questions[0].qclass = Class(42);
    assert_eq!(Message::parse(m.to_bytes().unwrap()), Err(ParseError::UnknownClass(42)));
}

#[test]
fn unknown_qtype_is_refused() {
    let m = make_query("example.com", RecordType::A);
    let mut bytes = m.to_bytes().unwrap();
    let n = bytes.len();
    bytes[n - 4] = 0;
    bytes[n - 3] = 99;
    assert_eq!(Message::parse(bytes), Err(ParseError::UnknownRecordType(99)));
}

#[test]
fn long_label_cannot_be_written() {
    let label = "a".repeat(64);
    let m = make_query(&label, RecordType::A);
    assert_eq!(m.to_bytes(), Err(WriteError::LabelTooLong));
    let ok = make_query(&"b".repeat(63), RecordType::A);
    assert!(ok.to_bytes().is_ok());
}

#[test]
fn empty_label_cannot_be_written() {
    let m = make_query("a..b", RecordType::A);
    assert_eq!(m.to_bytes(), Err(WriteError::EmptyLabel));
}

#[test]
fn long_txt_chunk_cannot_be_written() {
    let mut m = make_query("example.com", RecordType::TXT);
    m.answers.push(record("example.com", RData::TXT(vec![vec![0u8; 256]])));
    m.header.an_count = 1;
    assert_eq!(m.to_bytes(), Err(WriteError::TxtChunkTooLong));
}

#[test]
fn pointer_loop_is_detected() {
    let mut bytes = vec![0, 1, 0, 0, 0, 1, 0, 0, 0, 0, 0, 0];
    bytes.extend_from_slice(&[0xC0, 12, 0, 1, 0, 1]);
    assert_eq!(Message::parse(bytes), Err(ParseError::PointerLoop));
}

#[test]
fn forward_pointer_is_invalid() {
    let mut bytes = vec![0, 1, 0, 0, 0, 1, 0, 0, 0, 0, 0, 0];
    bytes.extend_from_slice(&[0xC0, 40, 0, 1, 0, 1]);
    assert_eq!(Message::parse(bytes), Err(ParseError::InvalidPointer));
}

#[test]
fn rdata_length_must_match() {
    let mut m = fixtures::noerror(
        fixtures::question("example.com", RecordType::A),
        vec![fixtures::a_record("example.com", [1, 2, 3, 4], 60)],
    );
    m.header.an_count = 1;
    let mut bytes = m.to_bytes().unwrap();
    let n = bytes.len();
    bytes[n - 5] = 5;
    bytes.push(0);
    assert_eq!(Message::parse(bytes), Err(ParseError::RdataLengthMismatch));
}

#[test]
fn trailing_bytes_are_ignored() {
    let m = make_query("example.com", RecordType::A);
    let mut bytes = m.to_bytes().unwrap();
    bytes.extend_from_slice(&[1, 2, 3]);
    assert_eq!(Message::parse(bytes).unwrap(), m);
}

#[test]
fn try_from_slice_parses() {
    let m = make_query("example.com", RecordType::NS);
    let bytes = m.to_bytes().unwrap();
    assert_eq!(Message::try_from(&bytes[..]).unwrap(), m);
}

#[test]
fn case_is_kept_on_the_wire() {
    let m = make_query("ExAmPlE.CoM", RecordType::A);
    assert_eq!(roundtrip(&m).questions[0].name, "ExAmPlE.CoM");
}

#[test]
fn trailing_dots_are_not_written() {
    let dotted = make_query("example.com.", RecordType::A);
    let plain = make_query("example.com", RecordType::A);
    let bytes = dotted.to_bytes().unwrap();
    assert_eq!(bytes, plain.to_bytes().unwrap());
    let mut w = dnser::Writer::new();
    w.write_name("www.example.com..").unwrap();
    let b = w.finish();
    let mut r = dnser::Reader::new(b.clone());
    assert_eq!(r.read_name().unwrap(), "www.example.com");
    assert_eq!(r.pos(), b.len());
}

#[test]
fn a_record_with_wrong_length_reads_nothing() {
    let mut r = dnser::Reader::new(vec![1, 2, 3, 4]);
    assert_eq!(RData::parse(&mut r, 1, 3), Err(ParseError::RdataLengthMismatch));
    assert_eq!(r.pos(), 0);
    assert_eq!(RData::parse(&mut r, 1, 4), Ok(RData::A([1, 2, 3, 4])));
    assert_eq!(r.pos(), 4);
    let mut r6 = dnser::Reader::new(vec![0; 16]);
    assert_eq!(RData::parse(&mut r6, 28, 4), Err(ParseError::RdataLengthMismatch));
    assert_eq!(r6.pos(), 0);
}

#[test]
fn failed_name_read_stops_past_first_pointer() {
    let mut plain = dnser::Reader::new(vec![5, b'a']);
    assert_eq!(plain.read_name(), Err(ParseError::UnexpectedEof));
    assert_eq!(plain.pos(), 0);
    let mut bad_target = dnser::Reader::new(vec![0xC0, 0x09, 0]);
    assert_eq!(bad_target.read_name(), Err(ParseError::InvalidPointer));
    assert_eq!(bad_target.pos(), 0);
    let mut followed = dnser::Reader::new(vec![0xC0, 0x02, 5, b'a']);
    assert_eq!(followed.read_name(), Err(ParseError::UnexpectedEof));
    assert_eq!(followed.pos(), 2);
    let mut looped = dnser::Reader::new(vec![1, b'x', 0xC0, 0x02]);
    assert_eq!(looped.read_name(), Err(ParseError::PointerLoop));
    assert_eq!(looped.pos(), 4);
}
