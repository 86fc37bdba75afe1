//! Record data (RDATA) of the modelled record types.

use vstd::prelude::*;
use vstd::slice::slice_to_vec;
use vstd::utf8::{decode_utf8, encode_utf8};

use crate::proto::error::{ParseError, ParseFailure, WriteError};
use crate::proto::reader::{spec_read_name, Reader};
use crate::proto::record_type::RecordType;
use crate::proto::wire::{be_u16_at, be_u32_at, u16_bytes, u32_bytes};
use crate::proto::writer::{spec_write_name, Offsets, Writer};

verus! {

/// A single EDNS(0) option (RFC 6891 §6.1.2).
#[derive(Debug, Clone, PartialEq, Eq)]
pub struct EdnsOption {
    pub code: u16,
    pub data: Vec<u8>,
}

/// The mathematical value of an [`EdnsOption`].
pub struct SpecEdnsOption {
    pub code: u16,
    pub data: Seq<u8>,
}

impl View for EdnsOption {
    type V = SpecEdnsOption;

    open spec fn view(&self) -> SpecEdnsOption {
        SpecEdnsOption { code: self.code, data: self.data@ }
    }
}

/// The data of a resource record. Addresses are held as their network-order
/// bytes.
#[derive(Debug, Clone, PartialEq, Eq)]
pub enum RData {
    A([u8; 4]),
    AAAA([u8; 16]),
    NS(String),
    CNAME(String),
    SOA {
        mname: String,
        rname: String,
        serial: u32,
        refresh: u32,
        retry: u32,
        expire: u32,
        minimum: u32,
    },
    PTR(String),
    MX { preference: u16, exchange: String },
    TXT(Vec<Vec<u8>>),
    SRV { priority: u16, weight: u16, port: u16, target: String },
    /// OPT pseudo-RR for EDNS(0) (RFC 6891). CLASS = UDP payload size; TTL = ext RCODE + version + flags.
    OPT(Vec<EdnsOption>),
    Unknown { rtype: u16, data: Vec<u8> },
}

/// The mathematical value of an [`RData`]; names are held as their text.
pub enum SpecRData {
    A(Seq<u8>),
    AAAA(Seq<u8>),
    NS(Seq<char>),
    CNAME(Seq<char>),
    SOA {
        mname: Seq<char>,
        rname: Seq<char>,
        serial: u32,
        refresh: u32,
        retry: u32,
        expire: u32,
        minimum: u32,
    },
    PTR(Seq<char>),
    MX { preference: u16, exchange: Seq<char> },
    TXT(Seq<Seq<u8>>),
    SRV { priority: u16, weight: u16, port: u16, target: Seq<char> },
    OPT(Seq<SpecEdnsOption>),
    Unknown { rtype: u16, data: Seq<u8> },
}

impl View for RData {
    type V = SpecRData;

    open spec fn view(&self) -> SpecRData {
        match self {
            RData::A(b) => SpecRData::A(b@),
            RData::AAAA(b) => SpecRData::AAAA(b@),
            RData::NS(n) => SpecRData::NS(n@),
            RData::CNAME(n) => SpecRData::CNAME(n@),
            RData::SOA { mname, rname, serial, refresh, retry, expire, minimum } => SpecRData::SOA {
                mname: mname@,
                rname: rname@,
                serial: *serial,
                refresh: *refresh,
                retry: *retry,
                expire: *expire,
                minimum: *minimum,
            },
            RData::PTR(n) => SpecRData::PTR(n@),
            RData::MX { preference, exchange } => SpecRData::MX {
                preference: *preference,
                exchange: exchange@,
            },
            RData::TXT(chunks) => SpecRData::TXT(chunks@.map_values(|c: Vec<u8>| c@)),
            RData::SRV { priority, weight, port, target } => SpecRData::SRV {
                priority: *priority,
                weight: *weight,
                port: *port,
                target: target@,
            },
            RData::OPT(options) => SpecRData::OPT(options@.map_values(|o: EdnsOption| o@)),
            RData::Unknown { rtype, data } => SpecRData::Unknown { rtype: *rtype, data: data@ },
        }
    }
}

/// Puts `first` in front of the items of a successful read.
pub open spec fn cons_ok<T>(first: T, r: Result<(Seq<T>, int), ParseFailure>) -> Result<
    (Seq<T>, int),
    ParseFailure,
> {
    match r {
        Ok((items, end)) => Ok((seq![first] + items, end)),
        Err(e) => Err(e),
    }
}

/// Puts `items` in front of the items of a successful read.
pub open spec fn prepend_ok<T>(items: Seq<T>, r: Result<(Seq<T>, int), ParseFailure>) -> Result<
    (Seq<T>, int),
    ParseFailure,
> {
    match r {
        Ok((rest, end)) => Ok((items + rest, end)),
        Err(e) => Err(e),
    }
}

pub proof fn lemma_prepend_cons<T>(items: Seq<T>, first: T, r: Result<(Seq<T>, int), ParseFailure>)
    ensures
        prepend_ok(items, cons_ok(first, r)) == prepend_ok(items.push(first), r),
{
    if let Ok((rest, end)) = r {
        assert(items + (seq![first] + rest) =~= items.push(first) + rest);
    }
}

/// The character-strings of a TXT record: `remaining` bytes from `pos`.
pub open spec fn spec_parse_txt(buf: Seq<u8>, pos: int, remaining: int) -> Result<
    (Seq<Seq<u8>>, int),
    ParseFailure,
>
    decreases remaining,
{
    if remaining <= 0 {
        Ok((seq![], pos))
    } else if pos + 1 > buf.len() {
        Err(ParseFailure::UnexpectedEof)
    } else {
        let len = buf[pos] as int;
        if remaining < 1 + len {
            Err(ParseFailure::RdataLengthMismatch)
        } else if pos + 1 + len > buf.len() {
            Err(ParseFailure::UnexpectedEof)
        } else {
            cons_ok(
                buf.subrange(pos + 1, pos + 1 + len),
                spec_parse_txt(buf, pos + 1 + len, remaining - 1 - len),
            )
        }
    }
}

/// The options of an OPT record: `remaining` bytes from `pos`.
pub open spec fn spec_parse_options(buf: Seq<u8>, pos: int, remaining: int) -> Result<
    (Seq<SpecEdnsOption>, int),
    ParseFailure,
>
    decreases remaining,
{
    if remaining <= 0 {
        Ok((seq![], pos))
    } else if pos + 2 > buf.len() {
        Err(ParseFailure::UnexpectedEof)
    } else if pos + 4 > buf.len() {
        Err(ParseFailure::UnexpectedEof)
    } else {
        let code = be_u16_at(buf, pos);
        let len = be_u16_at(buf, pos + 2) as int;
        if remaining < 4 + len {
            Err(ParseFailure::RdataLengthMismatch)
        } else if pos + 4 + len > buf.len() {
            Err(ParseFailure::UnexpectedEof)
        } else {
            cons_ok(
                SpecEdnsOption { code, data: buf.subrange(pos + 4, pos + 4 + len) },
                spec_parse_options(buf, pos + 4 + len, remaining - 4 - len),
            )
        }
    }
}

/// Wraps the name read at `pos` with `f`.
pub open spec fn name_then(
    buf: Seq<u8>,
    pos: int,
    f: spec_fn(Seq<char>, int) -> Result<(SpecRData, int), ParseFailure>,
) -> Result<(SpecRData, int), ParseFailure> {
    match spec_read_name(buf, pos) {
        Err(e) => Err(e),
        Ok((name, end)) => f(decode_utf8(name), end),
    }
}

/// Reads the RDATA of a record of type `rtype` at `pos`, before the length check.
pub open spec fn spec_parse_rdata_inner(buf: Seq<u8>, pos: int, rtype: u16, rdlen: u16) -> Result<
    (SpecRData, int),
    ParseFailure,
> {
    match RecordType::spec_from_u16(rtype) {
        Ok(RecordType::A) => {
            if rdlen != 4 {
                Err(ParseFailure::RdataLengthMismatch)
            } else if pos + 4 > buf.len() {
                Err(ParseFailure::UnexpectedEof)
            } else {
                Ok((SpecRData::A(buf.subrange(pos, pos + 4)), pos + 4))
            }
        },
        Ok(RecordType::AAAA) => {
            if rdlen != 16 {
                Err(ParseFailure::RdataLengthMismatch)
            } else if pos + 16 > buf.len() {
                Err(ParseFailure::UnexpectedEof)
            } else {
                Ok((SpecRData::AAAA(buf.subrange(pos, pos + 16)), pos + 16))
            }
        },
        Ok(RecordType::NS) => name_then(buf, pos, |n: Seq<char>, e: int| Ok((SpecRData::NS(n), e))),
        Ok(RecordType::CNAME) => name_then(
            buf,
            pos,
            |n: Seq<char>, e: int| Ok((SpecRData::CNAME(n), e)),
        ),
        Ok(RecordType::PTR) => name_then(buf, pos, |n: Seq<char>, e: int| Ok((SpecRData::PTR(n), e))),
        Ok(RecordType::MX) => {
            if pos + 2 > buf.len() {
                Err(ParseFailure::UnexpectedEof)
            } else {
                let preference = be_u16_at(buf, pos);
                name_then(
                    buf,
                    pos + 2,
                    |n: Seq<char>, e: int| Ok((SpecRData::MX { preference, exchange: n }, e)),
                )
            }
        },
        Ok(RecordType::TXT) => match spec_parse_txt(buf, pos, rdlen as int) {
            Err(e) => Err(e),
            Ok((chunks, end)) => Ok((SpecRData::TXT(chunks), end)),
        },
        Ok(RecordType::SOA) => name_then(
            buf,
            pos,
            |mname: Seq<char>, p: int|
                name_then(
                    buf,
                    p,
                    |rname: Seq<char>, q: int|
                        if q + 20 > buf.len() {
                            Err(ParseFailure::UnexpectedEof)
                        } else {
                            Ok(
                                (
                                    SpecRData::SOA {
                                        mname,
                                        rname,
                                        serial: be_u32_at(buf, q),
                                        refresh: be_u32_at(buf, q + 4),
                                        retry: be_u32_at(buf, q + 8),
                                        expire: be_u32_at(buf, q + 12),
                                        minimum: be_u32_at(buf, q + 16),
                                    },
                                    q + 20,
                                ),
                            )
                        },
                ),
        ),
        Ok(RecordType::SRV) => {
            if pos + 6 > buf.len() {
                Err(ParseFailure::UnexpectedEof)
            } else {
                let priority = be_u16_at(buf, pos);
                let weight = be_u16_at(buf, pos + 2);
                let port = be_u16_at(buf, pos + 4);
                name_then(
                    buf,
                    pos + 6,
                    |n: Seq<char>, e: int|
                        Ok((SpecRData::SRV { priority, weight, port, target: n }, e)),
                )
            }
        },
        Ok(RecordType::OPT) => match spec_parse_options(buf, pos, rdlen as int) {
            Err(e) => Err(e),
            Ok((options, end)) => Ok((SpecRData::OPT(options), end)),
        },
        _ => {
            if pos + rdlen > buf.len() {
                Err(ParseFailure::UnexpectedEof)
            } else {
                Ok((SpecRData::Unknown { rtype, data: buf.subrange(pos, pos + rdlen) }, pos + rdlen))
            }
        },
    }
}

/// Reads the RDATA of a record of type `rtype` whose RDLENGTH is `rdlen`.
pub open spec fn spec_parse_rdata(buf: Seq<u8>, pos: int, rtype: u16, rdlen: u16) -> Result<
    (SpecRData, int),
    ParseFailure,
> {
    match spec_parse_rdata_inner(buf, pos, rtype, rdlen) {
        Err(e) => Err(e),
        Ok((rd, end)) => if end - pos != rdlen {
            Err(ParseFailure::RdataLengthMismatch)
        } else {
            Ok((rd, end))
        },
    }
}

/// Writes the character-strings of a TXT record.
pub open spec fn spec_write_txt(chunks: Seq<Seq<u8>>) -> Result<Seq<u8>, WriteError>
    decreases chunks.len(),
{
    if chunks.len() == 0 {
        Ok(seq![])
    } else if chunks[0].len() > 255 {
        Err(WriteError::TxtChunkTooLong)
    } else {
        match spec_write_txt(chunks.drop_first()) {
            Err(e) => Err(e),
            Ok(rest) => Ok(seq![chunks[0].len() as u8] + chunks[0] + rest),
        }
    }
}

/// Writes the options of an OPT record. A length that does not fit in 16
/// bits is written truncated, as the field holds.
pub open spec fn spec_write_options(options: Seq<SpecEdnsOption>) -> Seq<u8>
    decreases options.len(),
{
    if options.len() == 0 {
        seq![]
    } else {
        u16_bytes(options[0].code) + u16_bytes(options[0].data.len() as u16) + options[0].data
            + spec_write_options(options.drop_first())
    }
}

/// Writes a name and then `tail`.
pub open spec fn name_and(pos: int, offs: Offsets, name: Seq<char>, tail: Seq<u8>) -> Result<
    (Seq<u8>, Offsets),
    WriteError,
> {
    match spec_write_name(pos, offs, encode_utf8(name)) {
        Err(e) => Err(e),
        Ok((nb, offs1)) => Ok((nb + tail, offs1)),
    }
}

/// The bytes of `rd` written at offset `pos` with compression table `offs`.
#[verifier::opaque]
pub open spec fn spec_write_rdata(pos: int, offs: Offsets, rd: SpecRData) -> Result<
    (Seq<u8>, Offsets),
    WriteError,
> {
    match rd {
        SpecRData::A(b) => Ok((b, offs)),
        SpecRData::AAAA(b) => Ok((b, offs)),
        SpecRData::NS(n) => name_and(pos, offs, n, seq![]),
        SpecRData::CNAME(n) => name_and(pos, offs, n, seq![]),
        SpecRData::PTR(n) => name_and(pos, offs, n, seq![]),
        SpecRData::MX { preference, exchange } => match name_and(pos + 2, offs, exchange, seq![]) {
            Err(e) => Err(e),
            Ok((nb, offs1)) => Ok((u16_bytes(preference) + nb, offs1)),
        },
        SpecRData::TXT(chunks) => match spec_write_txt(chunks) {
            Err(e) => Err(e),
            Ok(b) => Ok((b, offs)),
        },
        SpecRData::SOA { mname, rname, serial, refresh, retry, expire, minimum } => match spec_write_name(
            pos,
            offs,
            encode_utf8(mname),
        ) {
            Err(e) => Err(e),
            Ok((mb, offs1)) => match name_and(
                pos + mb.len(),
                offs1,
                rname,
                u32_bytes(serial) + u32_bytes(refresh) + u32_bytes(retry) + u32_bytes(expire)
                    + u32_bytes(minimum),
            ) {
                Err(e) => Err(e),
                Ok((rb, offs2)) => Ok((mb + rb, offs2)),
            },
        },
        SpecRData::SRV { priority, weight, port, target } => match name_and(
            pos + 6,
            offs,
            target,
            seq![],
        ) {
            Err(e) => Err(e),
            Ok((nb, offs1)) => Ok(
                (u16_bytes(priority) + u16_bytes(weight) + u16_bytes(port) + nb, offs1),
            ),
        },
        SpecRData::OPT(options) => Ok((spec_write_options(options), offs)),
        SpecRData::Unknown { rtype, data } => Ok((data, offs)),
    }
}

/// Whether `rdlen` is refused outright for the fixed-size type `rtype`: an
/// A record's data is 4 bytes and an AAAA record's 16. Nothing is read then.
pub open spec fn rdlen_refused(rtype: u16, rdlen: u16) -> bool {
    ||| RecordType::spec_from_u16(rtype) == Ok::<RecordType, u16>(RecordType::A) && rdlen != 4
    ||| RecordType::spec_from_u16(rtype) == Ok::<RecordType, u16>(RecordType::AAAA) && rdlen != 16
}

impl EdnsOption {
    /// A copy of this option.
    pub fn duplicate(&self) -> (r: EdnsOption)
        ensures
            r@ == self@,
    {
        EdnsOption { code: self.code, data: slice_to_vec(self.data.as_slice()) }
    }
}

/// A copy of the character-strings of a TXT record.
fn copy_chunks(chunks: &Vec<Vec<u8>>) -> (r: Vec<Vec<u8>>)
    ensures
        r@.map_values(|c: Vec<u8>| c@) == chunks@.map_values(|c: Vec<u8>| c@),
{
    let mut out: Vec<Vec<u8>> = Vec::new();
    let mut i: usize = 0;
    while i < chunks.len()
        invariant
            i <= chunks@.len(),
            out@.map_values(|c: Vec<u8>| c@) == chunks@.subrange(0, i as int).map_values(
                |c: Vec<u8>| c@,
            ),
        decreases chunks.len() - i,
    {
        let ghost prev = out@;
        let c = slice_to_vec(chunks[i].as_slice());
        out.push(c);
        assert(out@.map_values(|c: Vec<u8>| c@) =~= prev.map_values(|c: Vec<u8>| c@).push(
            chunks@[i as int]@,
        ));
        assert(chunks@.subrange(0, i + 1).map_values(|c: Vec<u8>| c@) =~= chunks@.subrange(
            0,
            i as int,
        ).map_values(|c: Vec<u8>| c@).push(chunks@[i as int]@));
        i = i + 1;
    }
    assert(chunks@.subrange(0, i as int) =~= chunks@);
    out
}

/// A copy of the options of an OPT record.
fn copy_options(options: &Vec<EdnsOption>) -> (r: Vec<EdnsOption>)
    ensures
        r@.map_values(|o: EdnsOption| o@) == options@.map_values(|o: EdnsOption| o@),
{
    let mut out: Vec<EdnsOption> = Vec::new();
    let mut i: usize = 0;
    while i < options.len()
        invariant
            i <= options@.len(),
            out@.map_values(|o: EdnsOption| o@) == options@.subrange(0, i as int).map_values(
                |o: EdnsOption| o@,
            ),
        decreases options.len() - i,
    {
        let ghost prev = out@;
        let o = options[i].duplicate();
        out.push(o);
        assert(out@.map_values(|o: EdnsOption| o@) =~= prev.map_values(|o: EdnsOption| o@).push(
            options@[i as int]@,
        ));
        assert(options@.subrange(0, i + 1).map_values(|o: EdnsOption| o@) =~= options@.subrange(
            0,
            i as int,
        ).map_values(|o: EdnsOption| o@).push(options@[i as int]@));
        i = i + 1;
    }
    assert(options@.subrange(0, i as int) =~= options@);
    out
}

impl RData {
    /// A copy of this record data.
    pub fn duplicate(&self) -> (r: RData)
        ensures
            r@ == self@,
    {
        match self {
            RData::A(b) => RData::A(*b),
            RData::AAAA(b) => RData::AAAA(*b),
            RData::NS(n) => RData::NS(n.clone()),
            RData::CNAME(n) => RData::CNAME(n.clone()),
            RData::SOA { mname, rname, serial, refresh, retry, expire, minimum } => RData::SOA {
                mname: mname.clone(),
                rname: rname.clone(),
                serial: *serial,
                refresh: *refresh,
                retry: *retry,
                expire: *expire,
                minimum: *minimum,
            },
            RData::PTR(n) => RData::PTR(n.clone()),
            RData::MX { preference, exchange } => RData::MX {
                preference: *preference,
                exchange: exchange.clone(),
            },
            RData::TXT(chunks) => RData::TXT(copy_chunks(chunks)),
            RData::SRV { priority, weight, port, target } => RData::SRV {
                priority: *priority,
                weight: *weight,
                port: *port,
                target: target.clone(),
            },
            RData::OPT(options) => RData::OPT(copy_options(options)),
            RData::Unknown { rtype, data } => RData::Unknown {
                rtype: *rtype,
                data: slice_to_vec(data.as_slice()),
            },
        }
    }

    pub fn parse(r: &mut Reader, rtype: u16, rdlen: u16) -> (res: Result<Self, ParseError>)
        ensures
            final(r).spec_buf() == old(r).spec_buf(),
            rdlen_refused(rtype, rdlen) ==> final(r).spec_pos() == old(r).spec_pos(),
            match spec_parse_rdata(old(r).spec_buf(), old(r).spec_pos() as int, rtype, rdlen) {
                Ok((rd, end)) => {
                    &&& res matches Ok(v) && v@ == rd
                    &&& final(r).spec_pos() as int == end
                },
                Err(e) => res matches Err(err) && err.kind() == e,
            },
    {
        let start = r.pos();
        let rdata = Self::parse_inner(r, rtype, rdlen)?;
        let end = r.pos();
        if end < start || end - start != rdlen as usize {
            return Err(ParseError::RdataLengthMismatch);
        }
        Ok(rdata)
    }

    fn parse_inner(r: &mut Reader, rtype: u16, rdlen: u16) -> (res: Result<Self, ParseError>)
        ensures
            final(r).spec_buf() == old(r).spec_buf(),
            rdlen_refused(rtype, rdlen) ==> final(r).spec_pos() == old(r).spec_pos(),
            match spec_parse_rdata_inner(old(r).spec_buf(), old(r).spec_pos() as int, rtype, rdlen) {
                Ok((rd, end)) => {
                    &&& res matches Ok(v) && v@ == rd
                    &&& final(r).spec_pos() as int == end
                },
                Err(e) => res matches Err(err) && err.kind() == e,
            },
    {
        match RecordType::from_u16(rtype) {
            Ok(RecordType::A) => {
                if rdlen != 4 {
                    return Err(ParseError::RdataLengthMismatch);
                }
                let b = r.read_bytes(4)?;
                assert(b@.len() == 4);
                let a = [b[0], b[1], b[2], b[3]];
                assert(a@ =~= b@);
                Ok(RData::A(a))
            },
            Ok(RecordType::AAAA) => {
                if rdlen != 16 {
                    return Err(ParseError::RdataLengthMismatch);
                }
                let b = r.read_bytes(16)?;
                assert(b@.len() == 16);
                let a = [
                    b[0],
                    b[1],
                    b[2],
                    b[3],
                    b[4],
                    b[5],
                    b[6],
                    b[7],
                    b[8],
                    b[9],
                    b[10],
                    b[11],
                    b[12],
                    b[13],
                    b[14],
                    b[15],
                ];
                assert(a@ =~= b@);
                Ok(RData::AAAA(a))
            },
            Ok(RecordType::NS) => Ok(RData::NS(r.read_name()?)),
            Ok(RecordType::CNAME) => Ok(RData::CNAME(r.read_name()?)),
            Ok(RecordType::PTR) => Ok(RData::PTR(r.read_name()?)),
            Ok(RecordType::MX) => {
                let preference = r.read_u16()?;
                let exchange = r.read_name()?;
                Ok(RData::MX { preference, exchange })
            },
            Ok(RecordType::TXT) => {
                let chunks = parse_txt(r, rdlen)?;
                Ok(RData::TXT(chunks))
            },
            Ok(RecordType::SOA) => {
                let mname = r.read_name()?;
                let rname = r.read_name()?;
                let serial = r.read_u32()?;
                let refresh = r.read_u32()?;
                let retry = r.read_u32()?;
                let expire = r.read_u32()?;
                let minimum = r.read_u32()?;
                Ok(RData::SOA { mname, rname, serial, refresh, retry, expire, minimum })
            },
            Ok(RecordType::SRV) => {
                let priority = r.read_u16()?;
                let weight = r.read_u16()?;
                let port = r.read_u16()?;
                let target = r.read_name()?;
                Ok(RData::SRV { priority, weight, port, target })
            },
            Ok(RecordType::OPT) => {
                let options = parse_options(r, rdlen)?;
                Ok(RData::OPT(options))
            },
            _ => {
                let data = r.read_bytes(rdlen as usize)?;
                Ok(RData::Unknown { rtype, data })
            },
        }
    }

    #[verifier::rlimit(50)]
    pub fn write(&self, w: &mut Writer) -> (res: Result<(), WriteError>)
        ensures
            match spec_write_rdata(old(w).spec_buf().len() as int, old(w).spec_offsets(), self@) {
                Ok((bytes, offs)) => {
                    &&& res is Ok
                    &&& final(w).spec_buf() == old(w).spec_buf() + bytes
                    &&& final(w).spec_offsets() == offs
                },
                Err(e) => res == Err::<(), WriteError>(e),
            },
    {
        reveal(spec_write_rdata);
        match self {
            RData::A(addr) => {
                w.write_bytes(addr);
            },
            RData::AAAA(addr) => {
                w.write_bytes(addr);
            },
            RData::NS(name) | RData::CNAME(name) | RData::PTR(name) => {
                w.write_name(name.as_str())?;
                assert(w.spec_buf() =~= old(w).spec_buf() + (spec_write_rdata(
                    old(w).spec_buf().len() as int,
                    old(w).spec_offsets(),
                    self@,
                ).unwrap().0));
            },
            RData::MX { preference, exchange } => {
                w.write_u16(*preference);
                w.write_name(exchange.as_str())?;
                assert(w.spec_buf() =~= old(w).spec_buf() + (spec_write_rdata(
                    old(w).spec_buf().len() as int,
                    old(w).spec_offsets(),
                    self@,
                ).unwrap().0));
            },
            RData::TXT(chunks) => {
                write_txt(chunks, w)?;
            },
            RData::SOA { mname, rname, serial, refresh, retry, expire, minimum } => {
                w.write_name(mname.as_str())?;
                w.write_name(rname.as_str())?;
                w.write_u32(*serial);
                w.write_u32(*refresh);
                w.write_u32(*retry);
                w.write_u32(*expire);
                w.write_u32(*minimum);
                assert(w.spec_buf() =~= old(w).spec_buf() + (spec_write_rdata(
                    old(w).spec_buf().len() as int,
                    old(w).spec_offsets(),
                    self@,
                ).unwrap().0));
            },
            RData::SRV { priority, weight, port, target } => {
                w.write_u16(*priority);
                w.write_u16(*weight);
                w.write_u16(*port);
                w.write_name(target.as_str())?;
                assert(w.spec_buf() =~= old(w).spec_buf() + (spec_write_rdata(
                    old(w).spec_buf().len() as int,
                    old(w).spec_offsets(),
                    self@,
                ).unwrap().0));
            },
            RData::OPT(options) => {
                write_options(options, w);
            },
            RData::Unknown { data, .. } => {
                w.write_bytes(data.as_slice());
            },
        }
        Ok(())
    }
}

/// Reads the character-strings of a TXT record of `rdlen` bytes.
fn parse_txt(r: &mut Reader, rdlen: u16) -> (res: Result<Vec<Vec<u8>>, ParseError>)
    ensures
        final(r).spec_buf() == old(r).spec_buf(),
        match spec_parse_txt(old(r).spec_buf(), old(r).spec_pos() as int, rdlen as int) {
            Ok((chunks, end)) => {
                &&& res matches Ok(v) && v@.map_values(|c: Vec<u8>| c@) == chunks
                &&& final(r).spec_pos() as int == end
            },
            Err(e) => res matches Err(err) && err.kind() == e,
        },
{
    let ghost buf = r.spec_buf();
    let ghost start: int = r.spec_pos() as int;
    let mut chunks: Vec<Vec<u8>> = Vec::new();
    let mut remaining = rdlen as usize;
    assert(chunks@.map_values(|c: Vec<u8>| c@) =~= Seq::<Seq<u8>>::empty());
    proof {
        if let Ok((cs, end)) = spec_parse_txt(buf, start, rdlen as int) {
            assert(Seq::<Seq<u8>>::empty() + cs =~= cs);
        }
    }
    while remaining > 0
        invariant
            r.spec_buf() == buf,
            buf == old(r).spec_buf(),
            start == old(r).spec_pos() as int,
            spec_parse_txt(buf, start, rdlen as int) == prepend_ok(
                chunks@.map_values(|c: Vec<u8>| c@),
                spec_parse_txt(buf, r.spec_pos() as int, remaining as int),
            ),
        decreases remaining,
    {
        let ghost before = chunks@.map_values(|c: Vec<u8>| c@);
        let ghost here: int = r.spec_pos() as int;
        let len = r.read_u8()? as usize;
        if remaining < 1 + len {
            return Err(ParseError::RdataLengthMismatch);
        }
        remaining = remaining - (1 + len);
        let chunk = r.read_bytes(len)?;
        let ghost c = chunk@;
        chunks.push(chunk);
        proof {
            assert(c == buf.subrange(here + 1, here + 1 + len));
            assert(chunks@.map_values(|c: Vec<u8>| c@) =~= before.push(c));
            lemma_prepend_cons(before, c, spec_parse_txt(buf, r.spec_pos() as int, remaining as int));
        }
    }
    assert(chunks@.map_values(|c: Vec<u8>| c@) + Seq::<Seq<u8>>::empty() =~= chunks@.map_values(
        |c: Vec<u8>| c@,
    ));
    Ok(chunks)
}

/// Reads the options of an OPT record of `rdlen` bytes.
fn parse_options(r: &mut Reader, rdlen: u16) -> (res: Result<Vec<EdnsOption>, ParseError>)
    ensures
        final(r).spec_buf() == old(r).spec_buf(),
        match spec_parse_options(old(r).spec_buf(), old(r).spec_pos() as int, rdlen as int) {
            Ok((options, end)) => {
                &&& res matches Ok(v) && v@.map_values(|o: EdnsOption| o@) == options
                &&& final(r).spec_pos() as int == end
            },
            Err(e) => res matches Err(err) && err.kind() == e,
        },
{
    let ghost buf = r.spec_buf();
    let ghost start: int = r.spec_pos() as int;
    let mut options: Vec<EdnsOption> = Vec::new();
    let mut remaining = rdlen as usize;
    assert(options@.map_values(|o: EdnsOption| o@) =~= Seq::<SpecEdnsOption>::empty());
    proof {
        if let Ok((os, end)) = spec_parse_options(buf, start, rdlen as int) {
            assert(Seq::<SpecEdnsOption>::empty() + os =~= os);
        }
    }
    while remaining > 0
        invariant
            r.spec_buf() == buf,
            buf == old(r).spec_buf(),
            start == old(r).spec_pos() as int,
            spec_parse_options(buf, start, rdlen as int) == prepend_ok(
                options@.map_values(|o: EdnsOption| o@),
                spec_parse_options(buf, r.spec_pos() as int, remaining as int),
            ),
        decreases remaining,
    {
        let ghost before = options@.map_values(|o: EdnsOption| o@);
        let ghost here: int = r.spec_pos() as int;
        let code = r.read_u16()?;
        let len = r.read_u16()? as usize;
        if remaining < 4 + len {
            return Err(ParseError::RdataLengthMismatch);
        }
        remaining = remaining - (4 + len);
        let data = r.read_bytes(len)?;
        let opt = EdnsOption { code, data };
        let ghost o = opt@;
        options.push(opt);
        proof {
            assert(o == SpecEdnsOption { code: be_u16_at(buf, here), data: buf.subrange(here + 4, here + 4 + len) });
            assert(options@.map_values(|o: EdnsOption| o@) =~= before.push(o));
            lemma_prepend_cons(before, o, spec_parse_options(buf, r.spec_pos() as int, remaining as int));
        }
    }
    assert(options@.map_values(|o: EdnsOption| o@) + Seq::<SpecEdnsOption>::empty() =~= options@.map_values(
        |o: EdnsOption| o@,
    ));
    Ok(options)
}

/// Writes the character-strings of a TXT record.
fn write_txt(chunks: &Vec<Vec<u8>>, w: &mut Writer) -> (res: Result<(), WriteError>)
    ensures
        final(w).spec_offsets() == old(w).spec_offsets(),
        match spec_write_txt(chunks@.map_values(|c: Vec<u8>| c@)) {
            Ok(bytes) => res is Ok && final(w).spec_buf() == old(w).spec_buf() + bytes,
            Err(e) => res == Err::<(), WriteError>(e),
        },
{
    let ghost all = chunks@.map_values(|c: Vec<u8>| c@);
    let ghost buf0 = w.spec_buf();
    let mut i: usize = 0;
    assert(all.subrange(0, all.len() as int) =~= all);
    assert(w.spec_buf().subrange(buf0.len() as int, w.spec_buf().len() as int) =~= Seq::<u8>::empty());
    assert(w.spec_buf().subrange(0, buf0.len() as int) =~= buf0);
    proof {
        match spec_write_txt(all) {
            Ok(rest) => {
                assert(Seq::<u8>::empty() + rest =~= rest);
            },
            Err(e) => {},
        }
    }
    while i < chunks.len()
        invariant
            0 <= i <= chunks@.len(),
            all == chunks@.map_values(|c: Vec<u8>| c@),
            w.spec_offsets() == old(w).spec_offsets(),
            buf0 == old(w).spec_buf(),
            spec_write_txt(all) == match spec_write_txt(all.subrange(i as int, all.len() as int)) {
                Ok(rest) => Ok(
                    w.spec_buf().subrange(buf0.len() as int, w.spec_buf().len() as int) + rest,
                ),
                Err(e) => Err(e),
            },
            w.spec_buf().len() >= buf0.len(),
            w.spec_buf().subrange(0, buf0.len() as int) == buf0,
        decreases chunks.len() - i,
    {
        let chunk = &chunks[i];
        assert(all.subrange(i as int, all.len() as int).drop_first() =~= all.subrange(
            i + 1,
            all.len() as int,
        ));
        assert(all.subrange(i as int, all.len() as int)[0] == chunk@);
        if chunk.len() > 255 {
            return Err(WriteError::TxtChunkTooLong);
        }
        let ghost cur = w.spec_buf();
        w.write_u8(chunk.len() as u8);
        w.write_bytes(chunk.as_slice());
        assert(w.spec_buf().subrange(buf0.len() as int, w.spec_buf().len() as int) =~= cur.subrange(
            buf0.len() as int,
            cur.len() as int,
        ) + (seq![chunk@.len() as u8] + chunk@));
        assert(w.spec_buf().subrange(0, buf0.len() as int) =~= buf0);
        proof {
            match spec_write_txt(all.subrange(i + 1, all.len() as int)) {
                Ok(rest) => {
                    assert(cur.subrange(buf0.len() as int, cur.len() as int) + (seq![
                        chunk@.len() as u8,
                    ] + chunk@ + rest) =~= w.spec_buf().subrange(
                        buf0.len() as int,
                        w.spec_buf().len() as int,
                    ) + rest);
                },
                Err(e) => {},
            }
        }
        i = i + 1;
    }
    assert(all.subrange(i as int, all.len() as int) =~= Seq::<Seq<u8>>::empty());
    assert(w.spec_buf() =~= buf0 + w.spec_buf().subrange(buf0.len() as int, w.spec_buf().len() as int));
    assert(w.spec_buf().subrange(buf0.len() as int, w.spec_buf().len() as int) + Seq::<u8>::empty()
        =~= w.spec_buf().subrange(buf0.len() as int, w.spec_buf().len() as int));
    Ok(())
}

/// Writes the options of an OPT record.
fn write_options(options: &Vec<EdnsOption>, w: &mut Writer)
    ensures
        final(w).spec_offsets() == old(w).spec_offsets(),
        final(w).spec_buf() == old(w).spec_buf() + spec_write_options(
            options@.map_values(|o: EdnsOption| o@),
        ),
{
    let ghost all = options@.map_values(|o: EdnsOption| o@);
    let ghost buf0 = w.spec_buf();
    let mut i: usize = 0;
    assert(all.subrange(0, 0) =~= Seq::<SpecEdnsOption>::empty());
    assert(w.spec_buf() =~= buf0 + spec_write_options(all.subrange(0, 0)));
    while i < options.len()
        invariant
            0 <= i <= options@.len(),
            all == options@.map_values(|o: EdnsOption| o@),
            w.spec_offsets() == old(w).spec_offsets(),
            buf0 == old(w).spec_buf(),
            w.spec_buf() == buf0 + spec_write_options(all.subrange(0, i as int)),
        decreases options.len() - i,
    {
        let opt = &options[i];
        w.write_u16(opt.code);
        w.write_u16(opt.data.len() as u16);
        w.write_bytes(opt.data.as_slice());
        proof {
            lemma_write_options_push(all.subrange(0, i as int), all[i as int]);
            assert(all.subrange(0, i + 1) =~= all.subrange(0, i as int).push(all[i as int]));
        }
        assert(w.spec_buf() =~= buf0 + spec_write_options(all.subrange(0, i + 1)));
        i = i + 1;
    }
    assert(all.subrange(0, i as int) =~= all);
}

/// Writing one more option appends its bytes.
pub proof fn lemma_write_options_push(options: Seq<SpecEdnsOption>, o: SpecEdnsOption)
    ensures
        spec_write_options(options.push(o)) == spec_write_options(options) + u16_bytes(o.code)
            + u16_bytes(o.data.len() as u16) + o.data,
    decreases options.len(),
{
    reveal_with_fuel(spec_write_options, 2);
    if options.len() == 0 {
        assert(options.push(o)[0] == o);
        assert(options.push(o).drop_first() =~= Seq::<SpecEdnsOption>::empty());
        assert(spec_write_options(options.push(o)) =~= u16_bytes(o.code) + u16_bytes(
            o.data.len() as u16,
        ) + o.data);
    } else {
        assert(options.push(o).drop_first() =~= options.drop_first().push(o));
        lemma_write_options_push(options.drop_first(), o);
        let h = options[0];
        assert(spec_write_options(options.push(o)) =~= spec_write_options(options) + u16_bytes(o.code)
            + u16_bytes(o.data.len() as u16) + o.data);
    }
}

// ---------------------------------------------------------------------------
// Laws
// ---------------------------------------------------------------------------

/// SRV record data (type 33, RFC 2782) is read as the priority, the weight
/// and the port, the 16-bit big-endian values at offsets 0, 2 and 4 of the
/// data, followed by the target name, where the record ends. It is read
/// exactly when those six bytes are there and the target name reads.
pub proof fn lemma_srv_read_layout(buf: Seq<u8>, pos: int, rdlen: u16)
    ensures
        spec_parse_rdata_inner(buf, pos, 33, rdlen) is Ok <==> (pos + 6 <= buf.len() && spec_read_name(
            buf,
            pos + 6,
        ) is Ok),
        spec_parse_rdata_inner(buf, pos, 33, rdlen) is Ok ==> spec_parse_rdata_inner(buf, pos, 33, rdlen)
            == Ok::<(SpecRData, int), ParseFailure>(
            (
                SpecRData::SRV {
                    priority: be_u16_at(buf, pos),
                    weight: be_u16_at(buf, pos + 2),
                    port: be_u16_at(buf, pos + 4),
                    target: decode_utf8(spec_read_name(buf, pos + 6)->Ok_0.0),
                },
                spec_read_name(buf, pos + 6)->Ok_0.1,
            ),
        ),
{
    assert(RecordType::spec_from_u16(33) == Ok::<RecordType, u16>(RecordType::SRV));
}

/// SRV record data is written as the priority, the weight and the port,
/// 16-bit big-endian at offsets 0, 2 and 4, then the target name.
pub proof fn lemma_srv_write_layout(pos: int, offs: Offsets, priority: u16, weight: u16, port: u16, target: Seq<char>)
    ensures
        spec_write_rdata(pos, offs, SpecRData::SRV { priority, weight, port, target }) matches Ok((b, o))
            ==> {
            &&& b.len() >= 6
            &&& be_u16_at(b, 0) == priority
            &&& be_u16_at(b, 2) == weight
            &&& be_u16_at(b, 4) == port
            &&& spec_write_name(pos + 6, offs, encode_utf8(target)) matches Ok((nb, no)) && b.subrange(6, b.len() as int) == nb && o == no
        },
{
    reveal(spec_write_rdata);
    let rd = SpecRData::SRV { priority, weight, port, target };
    if let Ok((b, o)) = spec_write_rdata(pos, offs, rd) {
        let (nb, no) = spec_write_name(pos + 6, offs, encode_utf8(target))->Ok_0;
        assert(b =~= u16_bytes(priority) + u16_bytes(weight) + u16_bytes(port) + nb);
        assert(b.subrange(0, 2) =~= u16_bytes(priority));
        assert(b.subrange(2, 4) =~= u16_bytes(weight));
        assert(b.subrange(4, 6) =~= u16_bytes(port));
        assert(b.subrange(6, b.len() as int) =~= nb);
        crate::proto::names::lemma_embedded_u16(b, 0, priority);
        crate::proto::names::lemma_embedded_u16(b, 2, weight);
        crate::proto::names::lemma_embedded_u16(b, 4, port);
    }
}

} // verus!
