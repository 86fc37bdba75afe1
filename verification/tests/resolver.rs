use dnser::resolver::{parse_validated_response, reply_id, udp_reply, upstream_query_bytes};
use dnser::testing::make_query as testing_make_query;
use dnser::{frame, read_frame, Class, Header, InFlight, Message, Question, Race, RData, RecordType, ResolveError, ResourceRecord, UdpReply};

fn make_query() -> Message {
    testing_make_query("example.com", RecordType::A)
}

fn echo_as_response(query_bytes: &[u8]) -> Vec<u8> {
    let id = u16::from_be_bytes([query_bytes[0], query_bytes[1]]);
    let incoming = Message::parse(query_bytes.to_vec()).unwrap();
    let mut m = Message::empty();
    m.header = Header {
        id,
        flags: Header::QR | Header::RD,
        qd_count: incoming.questions.len() as u16,
        an_count: 0,
        ns_count: 0,
        ar_count: 0,
    };
    m.questions = incoming.questions;
    m.to_bytes().unwrap()
}

fn echo_without_qr(query_bytes: &[u8]) -> Vec<u8> {
    let id = u16::from_be_bytes([query_bytes[0], query_bytes[1]]);
    let incoming = Message::parse(query_bytes.to_vec()).unwrap();
    let mut m = Message::empty();
    m.header = Header {
        id,
        flags: Header::RD,
        qd_count: incoming.questions.len() as u16,
        an_count: 0,
        ns_count: 0,
        ar_count: 0,
    };
    m.questions = incoming.questions;
    m.to_bytes().unwrap()
}

fn respond_with_wrong_question(query_bytes: &[u8]) -> Vec<u8> {
    let id = u16::from_be_bytes([query_bytes[0], query_bytes[1]]);
    let mut m = Message::empty();
    m.header = Header {
        id,
        flags: Header::QR | Header::RD,
        qd_count: 1,
        an_count: 0,
        ns_count: 0,
        ar_count: 0,
    };
    m.questions = vec![Question {
        name: "different.example.com".to_string(),
        qtype: RecordType::A,
        qclass: Class::IN(),
    }];
    m.to_bytes().unwrap()
}

/// Sends `query` to a responder the way the resolver does and checks the reply.
fn exchange(query: &Message, wire_id: u16, respond: fn(&[u8]) -> Vec<u8>) -> Result<Message, ResolveError> {
    let sent = upstream_query_bytes(query, wire_id).unwrap();
    let reply = respond(&sent);
    assert_eq!(reply_id(&reply), Some(wire_id));
    parse_validated_response(reply, query, query.header.id)
}

#[test]
fn valid_response_accepted() {
    assert!(exchange(&make_query(), 4242, echo_as_response).is_ok());
}

#[test]
fn qr_bit_not_set_is_rejected() {
    let mut race = Race::start(1).unwrap();
    let result = exchange(&make_query(), 7, echo_without_qr);
    assert!(matches!(result, Err(ResolveError::InvalidResponse)));
    assert!(matches!(race.record(result), Some(Err(ResolveError::AllFailed))));
}

#[test]
fn question_mismatch_is_rejected() {
    let mut race = Race::start(1).unwrap();
    let result = exchange(&make_query(), 7, respond_with_wrong_question);
    assert!(matches!(result, Err(ResolveError::InvalidResponse)));
    assert!(matches!(race.record(result), Some(Err(ResolveError::AllFailed))));
}

#[test]
fn second_upstream_used_when_first_fails() {
    let query = make_query();
    let mut race = Race::start(2).unwrap();
    assert!(race.record(exchange(&query, 1, echo_without_qr)).is_none());
    assert!(matches!(race.record(exchange(&query, 2, echo_as_response)), Some(Ok(_))));
}

#[test]
fn response_id_matches_query() {
    let query = make_query();
    let response = exchange(&query, 999, echo_as_response).unwrap();
    assert_eq!(response.header.id, query.header.id);
}

#[test]
fn no_upstreams_returns_error() {
    assert!(matches!(Race::start(0), Err(ResolveError::NoUpstreams)));
}

#[test]
fn tc_response_triggers_tcp_fallback() {
    let query = make_query();
    let mut reply = Message::parse(echo_as_response(&upstream_query_bytes(&query, 5).unwrap())).unwrap();
    reply.header.flags |= Header::TC;
    let bytes = reply.to_bytes().unwrap();
    assert!(matches!(udp_reply(bytes, &query, query.header.id), Ok(UdpReply::RetryOverTcp)));

    // The retry: the query framed over TCP, answered in full by the upstream.
    let stream_out = frame(&query.to_bytes().unwrap()).unwrap();
    let (received, _) = read_frame(&stream_out, 0).unwrap();
    let stream_in = frame(&full_response(&received)).unwrap();
    let (body, end) = read_frame(&stream_in, 0).unwrap();
    assert_eq!(end, stream_in.len());
    let mut race = Race::start(1).unwrap();
    let response = match race.record(parse_validated_response(body, &query, query.header.id)) {
        Some(Ok(m)) => m,
        _ => panic!("the answer over TCP must be accepted"),
    };
    assert!(!response.header.is_truncated());
    assert_eq!(response.answers.len(), 1);
    assert_eq!(response.answers[0].rdata, RData::A([1, 2, 3, 4]));
    assert_eq!(response.header.id, make_query().header.id);
}

fn full_response(query_bytes: &[u8]) -> Vec<u8> {
    let id = u16::from_be_bytes([query_bytes[0], query_bytes[1]]);
    let incoming = Message::parse(query_bytes.to_vec()).unwrap();
    let q = incoming.questions[0].clone();
    let mut m = Message::empty();
    m.header = Header { id, flags: Header::QR | Header::RD, qd_count: 1, an_count: 1, ns_count: 0, ar_count: 0 };
    m.answers = vec![ResourceRecord { name: q.name.clone(), class: Class::IN(), ttl: 60, rdata: RData::A([1, 2, 3, 4]) }];
    m.questions = vec![q];
    m.to_bytes().unwrap()
}

#[test]
fn tc_with_failing_tcp_propagates_as_upstream_failure() {
    let mut race = Race::start(1).unwrap();
    assert!(matches!(race.record(Err(ResolveError::Timeout)), Some(Err(ResolveError::AllFailed))));
}

#[test]
fn good_upstream_used_when_other_tc_then_tcp_fails() {
    let query = make_query();
    let mut race = Race::start(2).unwrap();
    assert!(race.record(Err(ResolveError::InvalidResponse)).is_none());
    let good = exchange(&query, 3, echo_as_response);
    match race.record(good) {
        Some(Ok(m)) => assert_eq!(m.header.id, query.header.id),
        _ => panic!("the good upstream's answer must win"),
    }
}

#[test]
fn upstream_bytes_carry_the_new_id_and_rd() {
    let mut query = make_query();
    query.header.flags = 0;
    let sent = upstream_query_bytes(&query, 0xBEEF).unwrap();
    assert_eq!(&sent[..2], &[0xBE, 0xEF]);
    assert_eq!(sent[2] & 1, 1);
    let plain = query.to_bytes().unwrap();
    assert_eq!(&sent[3..], &plain[3..]);
}

#[test]
fn short_reply_has_no_id() {
    assert_eq!(reply_id(&[1, 2, 3]), None);
    assert_eq!(reply_id(&[0x12, 0x34, 0, 0, 0, 0, 0, 0, 0, 0, 0, 0]), Some(0x1234));
}

#[test]
fn garbage_reply_is_a_parse_error() {
    let query = make_query();
    assert!(matches!(parse_validated_response(vec![1, 2, 3], &query, 1), Err(ResolveError::Parse(_))));
}

#[test]
fn ids_are_unique_until_exhausted() {
    let mut table: InFlight<u32> = InFlight::new();
    let mut seen = vec![false; 65536];
    for n in 0..65536u32 {
        let id = table.allocate_and_insert(n).unwrap();
        assert!(!seen[id as usize]);
        seen[id as usize] = true;
    }
    assert_eq!(table.len(), 65536);
    assert!(matches!(table.allocate_and_insert(0), Err(ResolveError::IdSpaceExhausted)));
    let removed = table.remove(17);
    assert!(removed.is_some());
    assert_eq!(table.allocate_and_insert(5).unwrap(), 17);
    assert_eq!(table.remove(17), Some(5));
    assert_eq!(table.remove(17), None);
}

#[test]
fn allocation_takes_the_first_free_draw_then_scans() {
    let mut table: InFlight<u32> = InFlight::new();
    assert_eq!(table.allocate_from(&vec![9, 4], 100, 1).unwrap(), 9);
    assert_eq!(table.allocate_from(&vec![9, 4], 100, 2).unwrap(), 4);
    assert_eq!(table.allocate_from(&vec![9, 4], 100, 3).unwrap(), 100);
    assert_eq!(table.allocate_from(&vec![9, 4, 100], 65535, 4).unwrap(), 65535);
    assert_eq!(table.allocate_from(&vec![], 65535, 5).unwrap(), 0);
    assert_eq!(table.len(), 5);
    assert_eq!(table.remove(100), Some(3));
}

#[test]
fn allocation_fails_only_when_every_id_is_taken() {
    let mut table: InFlight<u32> = InFlight::new();
    for n in 0..65536u32 {
        assert_eq!(table.allocate_from(&vec![], n as u16, n).unwrap(), n as u16);
    }
    assert!(matches!(table.allocate_from(&vec![1, 2], 7, 0), Err(ResolveError::IdSpaceExhausted)));
    assert_eq!(table.len(), 65536);
}
