use vstd::prelude::*;
use vstd::utf8::{decode_utf8, encode_utf8};

use crate::proto::class::Class;
use crate::proto::error::{ParseError, ParseFailure, WriteError};
use crate::proto::rdata::{spec_parse_rdata, spec_write_rdata, EdnsOption, RData, SpecEdnsOption, SpecRData};
use crate::proto::reader::{spec_read_name, Reader};
use crate::proto::record_type::RecordType;
use crate::proto::wire::{be_u16_at, be_u32_at, u16_bytes, u32_bytes};
use crate::proto::writer::{spec_write_name, Offsets, Writer};

verus! {

/// A resource record of the answer, authority or additional section.
#[derive(Debug, Clone, PartialEq, Eq)]
pub struct ResourceRecord {
    pub name: String,
    pub class: Class,
    pub ttl: u32,
    pub rdata: RData,
}

/// The mathematical value of a [`ResourceRecord`].
pub struct SpecRecord {
    pub name: Seq<char>,
    pub class: Class,
    pub ttl: u32,
    pub rdata: SpecRData,
}

impl View for ResourceRecord {
    type V = SpecRecord;

    open spec fn view(&self) -> SpecRecord {
        SpecRecord { name: self.name@, class: self.class, ttl: self.ttl, rdata: self.rdata@ }
    }
}

/// The record type that `rd` belongs to, or the raw type number of unknown data.
pub open spec fn spec_rdata_type(rd: SpecRData) -> Result<RecordType, u16> {
    match rd {
        SpecRData::A(_) => Ok(RecordType::A),
        SpecRData::AAAA(_) => Ok(RecordType::AAAA),
        SpecRData::NS(_) => Ok(RecordType::NS),
        SpecRData::CNAME(_) => Ok(RecordType::CNAME),
        SpecRData::SOA { .. } => Ok(RecordType::SOA),
        SpecRData::PTR(_) => Ok(RecordType::PTR),
        SpecRData::MX { .. } => Ok(RecordType::MX),
        SpecRData::TXT(_) => Ok(RecordType::TXT),
        SpecRData::SRV { .. } => Ok(RecordType::SRV),
        SpecRData::OPT(_) => Ok(RecordType::OPT),
        SpecRData::Unknown { rtype, .. } => Err(rtype),
    }
}

/// The TYPE number written for a record holding `rd`.
pub open spec fn spec_type_number(rd: SpecRData) -> u16 {
    match spec_rdata_type(rd) {
        Ok(t) => t.spec_to_u16(),
        Err(n) => n,
    }
}

/// Whether `rd` is the data of an EDNS(0) OPT pseudo-record.
pub open spec fn spec_is_opt(rd: SpecRData) -> bool {
    rd is OPT
}

/// The extended-RCODE byte of an OPT record's TTL.
pub open spec fn ttl_ext_rcode(ttl: u32) -> u8 {
    ((ttl >> 24u32) & 0xFFu32) as u8
}

/// The version byte of an OPT record's TTL.
pub open spec fn ttl_version(ttl: u32) -> u8 {
    ((ttl >> 16u32) & 0xFFu32) as u8
}

/// The record at `pos` in `buf` and the position just past it.
#[verifier::opaque]
pub open spec fn spec_parse_record(buf: Seq<u8>, pos: int) -> Result<(SpecRecord, int), ParseFailure> {
    match spec_read_name(buf, pos) {
        Err(e) => Err(e),
        Ok((name, p)) => {
            if p + 2 > buf.len() {
                Err(ParseFailure::UnexpectedEof)
            } else if p + 4 > buf.len() {
                Err(ParseFailure::UnexpectedEof)
            } else if p + 8 > buf.len() {
                Err(ParseFailure::UnexpectedEof)
            } else if p + 10 > buf.len() {
                Err(ParseFailure::UnexpectedEof)
            } else {
                let rtype = be_u16_at(buf, p);
                let class = Class(be_u16_at(buf, p + 2));
                let ttl = be_u32_at(buf, p + 4);
                let rdlen = be_u16_at(buf, p + 8);
                match spec_parse_rdata(buf, p + 10, rtype, rdlen) {
                    Err(e) => Err(e),
                    Ok((rdata, end)) => Ok(
                        (SpecRecord { name: decode_utf8(name), class, ttl, rdata }, end),
                    ),
                }
            }
        },
    }
}

/// The bytes of `rr` written at offset `pos` with compression table `offs`:
/// the RDLENGTH field holds the length of the RDATA written after it.
#[verifier::opaque]
pub open spec fn spec_write_record(pos: int, offs: Offsets, rr: SpecRecord) -> Result<
    (Seq<u8>, Offsets),
    WriteError,
> {
    match spec_write_name(pos, offs, encode_utf8(rr.name)) {
        Err(e) => Err(e),
        Ok((nb, offs1)) => {
            let head = nb + u16_bytes(spec_type_number(rr.rdata)) + u16_bytes(rr.class.0) + u32_bytes(
                rr.ttl,
            );
            match spec_write_rdata(pos + head.len() + 2, offs1, rr.rdata) {
                Err(e) => Err(e),
                Ok((rb, offs2)) => Ok((head + u16_bytes(rb.len() as u16) + rb, offs2)),
            }
        },
    }
}

impl ResourceRecord {
    /// A copy of this record.
    pub fn duplicate(&self) -> (r: ResourceRecord)
        ensures
            r@ == self@,
    {
        ResourceRecord {
            name: self.name.clone(),
            class: self.class,
            ttl: self.ttl,
            rdata: self.rdata.duplicate(),
        }
    }

    /// An EDNS(0) OPT pseudo-RR advertising `udp_size` (RFC 6891 §6.1.2):
    /// root name, the size in the CLASS field, TTL zero (extended RCODE 0,
    /// version 0, no flags) and no options.
    pub fn edns_opt(udp_size: u16) -> (r: Self)
        ensures
            r@.name == Seq::<char>::empty(),
            r@.class == Class(udp_size),
            r@.ttl == 0,
            r@.rdata == SpecRData::OPT(Seq::empty()),
    {
        let options: Vec<EdnsOption> = Vec::new();
        assert(options@.map_values(|o: EdnsOption| o@) =~= Seq::<SpecEdnsOption>::empty());
        ResourceRecord { name: String::new(), class: Class(udp_size), ttl: 0, rdata: RData::OPT(options) }
    }

    /// True if this is an EDNS(0) OPT pseudo-RR.
    pub fn is_opt(&self) -> (r: bool)
        ensures
            r == spec_is_opt(self@.rdata),
    {
        match self.rdata {
            RData::OPT(_) => true,
            _ => false,
        }
    }

    /// The requestor's advertised UDP payload size of an OPT record (its
    /// CLASS field); `None` if this is not an OPT record.
    pub fn edns_udp_size(&self) -> (r: Option<u16>)
        ensures
            r == (if spec_is_opt(self@.rdata) {
                Some(self.class.0)
            } else {
                None
            }),
    {
        if self.is_opt() {
            Some(u16::from(self.class))
        } else {
            None
        }
    }

    /// The EDNS extended RCODE (byte 0 of the OPT TTL); `None` if not OPT.
    pub fn edns_extended_rcode(&self) -> (r: Option<u8>)
        ensures
            r == (if spec_is_opt(self@.rdata) {
                Some(ttl_ext_rcode(self.ttl))
            } else {
                None
            }),
    {
        if self.is_opt() {
            let t = self.ttl;
            let b = (t >> 24u32) & 0xFFu32;
            assert(b < 256) by (bit_vector)
                requires
                    b == (t >> 24u32) & 0xFFu32,
            ;
            Some(b as u8)
        } else {
            None
        }
    }

    /// The EDNS version (byte 1 of the OPT TTL); `None` if not OPT.
    pub fn edns_version(&self) -> (r: Option<u8>)
        ensures
            r == (if spec_is_opt(self@.rdata) {
                Some(ttl_version(self.ttl))
            } else {
                None
            }),
    {
        if self.is_opt() {
            let t = self.ttl;
            let b = (t >> 16u32) & 0xFFu32;
            assert(b < 256) by (bit_vector)
                requires
                    b == (t >> 16u32) & 0xFFu32,
            ;
            Some(b as u8)
        } else {
            None
        }
    }

    /// Sets the extended-RCODE byte of an OPT record's TTL, leaving the other
    /// three bytes as they were. No-op on non-OPT records.
    pub fn set_edns_extended_rcode(&mut self, ext_rcode: u8)
        ensures
            final(self).name == old(self).name,
            final(self).class == old(self).class,
            final(self).rdata == old(self).rdata,
            final(self).ttl == (if spec_is_opt(old(self)@.rdata) {
                (old(self).ttl & 0x00FF_FFFFu32) | ((ext_rcode as u32) << 24u32)
            } else {
                old(self).ttl
            }),
    {
        if self.is_opt() {
            self.ttl = (self.ttl & 0x00FF_FFFF) | ((ext_rcode as u32) << 24u32);
        }
    }

    /// Sets the version byte of an OPT record's TTL, leaving the other three
    /// bytes as they were. No-op on non-OPT records.
    pub fn set_edns_version(&mut self, version: u8)
        ensures
            final(self).name == old(self).name,
            final(self).class == old(self).class,
            final(self).rdata == old(self).rdata,
            final(self).ttl == (if spec_is_opt(old(self)@.rdata) {
                (old(self).ttl & 0xFF00_FFFFu32) | ((version as u32) << 16u32)
            } else {
                old(self).ttl
            }),
    {
        if self.is_opt() {
            self.ttl = (self.ttl & 0xFF00_FFFF) | ((version as u32) << 16u32);
        }
    }

    /// The record type of this record's data, or the raw type number of
    /// unknown data.
    pub fn record_type(&self) -> (r: Result<RecordType, u16>)
        ensures
            r == spec_rdata_type(self@.rdata),
    {
        match &self.rdata {
            RData::A(_) => Ok(RecordType::A),
            RData::AAAA(_) => Ok(RecordType::AAAA),
            RData::NS(_) => Ok(RecordType::NS),
            RData::CNAME(_) => Ok(RecordType::CNAME),
            RData::SOA { .. } => Ok(RecordType::SOA),
            RData::PTR(_) => Ok(RecordType::PTR),
            RData::MX { .. } => Ok(RecordType::MX),
            RData::TXT(_) => Ok(RecordType::TXT),
            RData::SRV { .. } => Ok(RecordType::SRV),
            RData::OPT(_) => Ok(RecordType::OPT),
            RData::Unknown { rtype, .. } => Err(*rtype),
        }
    }

    pub fn parse(r: &mut Reader) -> (res: Result<Self, ParseError>)
        ensures
            final(r).spec_buf() == old(r).spec_buf(),
            match spec_parse_record(old(r).spec_buf(), old(r).spec_pos() as int) {
                Ok((rr, end)) => {
                    &&& res matches Ok(v) && v@ == rr
                    &&& final(r).spec_pos() as int == end
                },
                Err(e) => res matches Err(err) && err.kind() == e,
            },
    {
        reveal(spec_parse_record);
        let name = r.read_name()?;
        let rtype = r.read_u16()?;
        let class = Class(r.read_u16()?);
        let ttl = r.read_u32()?;
        let rdlen = r.read_u16()?;
        let rdata = RData::parse(r, rtype, rdlen)?;
        Ok(ResourceRecord { name, class, ttl, rdata })
    }

    pub fn write(&self, w: &mut Writer) -> (res: Result<(), WriteError>)
        ensures
            match spec_write_record(old(w).spec_buf().len() as int, old(w).spec_offsets(), self@) {
                Ok((bytes, offs)) => {
                    &&& res is Ok
                    &&& final(w).spec_buf() == old(w).spec_buf() + bytes
                    &&& final(w).spec_offsets() == offs
                },
                Err(e) => res == Err::<(), WriteError>(e),
            },
    {
        reveal(spec_write_record);
        w.write_name(self.name.as_str())?;
        let type_number = match self.record_type() {
            Ok(rt) => rt.to_u16(),
            Err(n) => n,
        };
        w.write_u16(type_number);
        w.write_u16(u16::from(self.class));
        w.write_u32(self.ttl);
        let ghost before = w.spec_buf();
        let rdlen_pos = w.reserve_u16();
        let rdata_start = w.pos();
        self.rdata.write(w)?;
        let ghost rb = w.spec_buf().subrange(rdata_start as int, w.spec_buf().len() as int);
        assert(w.spec_buf() =~= before + seq![0u8, 0u8] + rb);
        let rdlen = (w.pos() - rdata_start) as u16;
        w.backfill_u16(rdlen_pos, rdlen);
        assert(w.spec_buf() =~= before + u16_bytes(rdlen) + rb);
        assert(w.spec_buf() =~= old(w).spec_buf() + (spec_write_record(
            old(w).spec_buf().len() as int,
            old(w).spec_offsets(),
            self@,
        ).unwrap().0));
        Ok(())
    }
}

/// Setting the extended RCODE and then reading it back gives the value set,
/// and leaves the version and the flags of the TTL as they were.
pub proof fn lemma_ext_rcode_set_get(ttl: u32, ext_rcode: u8)
    ensures
        ttl_ext_rcode((ttl & 0x00FF_FFFFu32) | ((ext_rcode as u32) << 24u32)) == ext_rcode,
        ttl_version((ttl & 0x00FF_FFFFu32) | ((ext_rcode as u32) << 24u32)) == ttl_version(ttl),
        ((ttl & 0x00FF_FFFFu32) | ((ext_rcode as u32) << 24u32)) & 0xFFFFu32 == ttl & 0xFFFFu32,
{
    assert(((((ttl & 0x00FF_FFFFu32) | ((ext_rcode as u32) << 24u32)) >> 24u32) & 0xFFu32) as u8
        == ext_rcode) by (bit_vector);
    assert(((((ttl & 0x00FF_FFFFu32) | ((ext_rcode as u32) << 24u32)) >> 16u32) & 0xFFu32) as u8
        == ((ttl >> 16u32) & 0xFFu32) as u8) by (bit_vector);
    assert(((ttl & 0x00FF_FFFFu32) | ((ext_rcode as u32) << 24u32)) & 0xFFFFu32 == ttl & 0xFFFFu32)
        by (bit_vector);
}

/// Setting the version and then reading it back gives the value set, and
/// leaves the extended RCODE and the flags of the TTL as they were.
pub proof fn lemma_version_set_get(ttl: u32, version: u8)
    ensures
        ttl_version((ttl & 0xFF00_FFFFu32) | ((version as u32) << 16u32)) == version,
        ttl_ext_rcode((ttl & 0xFF00_FFFFu32) | ((version as u32) << 16u32)) == ttl_ext_rcode(ttl),
        ((ttl & 0xFF00_FFFFu32) | ((version as u32) << 16u32)) & 0xFFFFu32 == ttl & 0xFFFFu32,
{
    assert(((((ttl & 0xFF00_FFFFu32) | ((version as u32) << 16u32)) >> 16u32) & 0xFFu32) as u8
        == version) by (bit_vector);
    assert(((((ttl & 0xFF00_FFFFu32) | ((version as u32) << 16u32)) >> 24u32) & 0xFFu32) as u8
        == ((ttl >> 24u32) & 0xFFu32) as u8) by (bit_vector);
    assert(((ttl & 0xFF00_FFFFu32) | ((version as u32) << 16u32)) & 0xFFFFu32 == ttl & 0xFFFFu32)
        by (bit_vector);
}

} // verus!
