use dnser::{Class, RData, RecordType, ResourceRecord};

fn record(rdata: RData) -> ResourceRecord {
    ResourceRecord {
        name: "example.com".to_string(),
        class: Class::IN(),
        ttl: 300,
        rdata,
    }
}

const LOCALHOST: [u8; 4] = [127, 0, 0, 1];

#[test]
fn record_type_from_rdata() {
    assert_eq!(record(RData::A(LOCALHOST)).record_type(), Ok(RecordType::A));
    assert_eq!(
        record(RData::CNAME("alias.example.com".to_string())).record_type(),
        Ok(RecordType::CNAME)
    );
    assert_eq!(
        record(RData::MX {
            preference: 10,
            exchange: "mail.example.com".to_string()
        })
        .record_type(),
        Ok(RecordType::MX)
    );
}

#[test]
fn edns_opt_has_expected_shape() {
    let opt = ResourceRecord::edns_opt(1232);
    assert!(opt.name.is_empty());
    assert_eq!(u16::from(opt.class), 1232);
    assert_eq!(opt.ttl, 0);
    assert_eq!(opt.rdata, RData::OPT(Vec::new()));
    assert_eq!(opt.record_type(), Ok(RecordType::OPT));
}

#[test]
fn edns_accessors_return_none_on_non_opt() {
    let rr = record(RData::A(LOCALHOST));
    assert!(!rr.is_opt());
    assert_eq!(rr.edns_udp_size(), None);
    assert_eq!(rr.edns_extended_rcode(), None);
    assert_eq!(rr.edns_version(), None);
}

#[test]
fn edns_accessors_decode_ttl_bytes() {
    let mut opt = ResourceRecord::edns_opt(4096);
    opt.ttl = 0x1234_5678;
    assert_eq!(opt.edns_udp_size(), Some(4096));
    assert_eq!(opt.edns_extended_rcode(), Some(0x12));
    assert_eq!(opt.edns_version(), Some(0x34));
}

#[test]
fn set_edns_extended_rcode_only_touches_top_byte() {
    let mut opt = ResourceRecord::edns_opt(4096);
    opt.ttl = 0x0034_5678;
    opt.set_edns_extended_rcode(0xAB);
    assert_eq!(opt.ttl, 0xAB34_5678);
}

#[test]
fn set_edns_version_only_touches_second_byte() {
    let mut opt = ResourceRecord::edns_opt(4096);
    opt.ttl = 0xAB00_5678;
    opt.set_edns_version(0x42);
    assert_eq!(opt.ttl, 0xAB42_5678);
}

#[test]
fn set_edns_setters_noop_on_non_opt() {
    let mut rr = record(RData::A(LOCALHOST));
    let before = rr.ttl;
    rr.set_edns_extended_rcode(1);
    rr.set_edns_version(2);
    assert_eq!(rr.ttl, before);
}

#[test]
fn unknown_rdata_returns_err() {
    assert_eq!(
        record(RData::Unknown {
            rtype: 99,
            data: Vec::new(),
        })
        .record_type(),
        Err(99)
    );
}

#[test]
fn set_then_get_extended_rcode_and_version() {
    let mut opt = ResourceRecord::edns_opt(512);
    opt.set_edns_extended_rcode(7);
    opt.set_edns_version(3);
    assert_eq!(opt.edns_extended_rcode(), Some(7));
    assert_eq!(opt.edns_version(), Some(3));
    assert_eq!(opt.ttl, 0x0703_0000);
}

#[test]
fn duplicate_is_equal() {
    let rr = record(RData::TXT(vec![b"a".to_vec(), b"bc".to_vec()]));
    assert_eq!(rr.duplicate(), rr);
}
