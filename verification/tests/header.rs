use dnser::{Header, Opcode, Rcode};

fn header(flags: u16) -> Header {
    Header {
        id: 0,
        flags,
        qd_count: 0,
        an_count: 0,
        ns_count: 0,
        ar_count: 0,
    }
}

#[test]
fn qr_flag() {
    let response = header(0b1000_0000_0000_0000);
    let query = header(0b0000_0000_0000_0000);
    assert!(response.is_response() && !response.is_query());
    assert!(query.is_query() && !query.is_response());
}

#[test]
fn opcode_flag() {
    let cases: &[(u16, Result<Opcode, u8>)] = &[
        (0b0000_0000_0000_0000, Ok(Opcode::Query)),
        (0b0000_1000_0000_0000, Ok(Opcode::IQuery)),
        (0b0010_0000_0000_0000, Ok(Opcode::Notify)),
        (0b0001_1000_0000_0000, Err(3)),
    ];
    for &(flags, expected) in cases {
        assert_eq!(header(flags).opcode(), expected);
    }
}

#[test]
fn single_bit_flags() {
    let cases: &[(u16, fn(&Header) -> bool)] = &[
        (0b0000_0100_0000_0000, Header::is_authoritative),
        (0b0000_0010_0000_0000, Header::is_truncated),
        (0b0000_0001_0000_0000, Header::recursion_desired),
        (0b0000_0000_1000_0000, Header::recursion_available),
        (0b0000_0000_0010_0000, Header::authentic_data),
        (0b0000_0000_0001_0000, Header::checking_disabled),
    ];
    for &(flags, accessor) in cases {
        assert!(accessor(&header(flags)));
    }
}

#[test]
fn rcode_flag() {
    let cases: &[(u16, Result<Rcode, u8>)] = &[
        (0b0000_0000_0000_0000, Ok(Rcode::NoError)),
        (0b0000_0000_0000_0011, Ok(Rcode::NXDomain)),
        (0b0000_0000_0000_0101, Ok(Rcode::Refused)),
        (0b0000_0000_0000_0110, Err(6)),
    ];
    for &(flags, expected) in cases {
        assert_eq!(header(flags).rcode(), expected);
    }
}

#[test]
fn reply_to_echoes_id_sets_qr_ra_and_copies_rd() {
    let mut q = header(Header::RD | Header::CD);
    q.id = 77;
    q.qd_count = 1;
    q.an_count = 5;
    let r = Header::reply_to(&q, Header::TC);
    assert_eq!(r.id, 77);
    assert_eq!(r.flags, Header::QR | Header::RA | Header::RD | Header::TC);
    assert_eq!(r.qd_count, 1);
    assert_eq!(r.an_count, 0);
    let plain = Header::reply_to(&header(0), 0);
    assert!(!plain.recursion_desired());
    assert!(plain.is_response());
}

#[test]
fn opcode_and_rcode_numbers() {
    assert_eq!(header(0b0010_1000_0000_0000).opcode(), Ok(Opcode::Update));
    assert_eq!(header(0b0001_0000_0000_0000).opcode(), Ok(Opcode::Status));
    assert_eq!(header(0b0000_0000_0000_0010).rcode(), Ok(Rcode::ServFail));
    assert_eq!(Rcode::ServFail.to_u16(), 2);
}
