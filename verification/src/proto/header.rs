use vstd::prelude::*;

use crate::proto::error::{ParseError, ParseFailure};
use crate::proto::opcode::Opcode;
use crate::proto::rcode::Rcode;
use crate::proto::reader::Reader;
use crate::proto::wire::{be_u16_at, u16_bytes};
use crate::proto::writer::Writer;

verus! {

/// The fixed 12-byte message header.
#[derive(Debug, Clone, Copy, PartialEq, Eq, Structural)]
pub struct Header {
    pub id: u16,
    pub flags: u16,
    pub qd_count: u16,
    pub an_count: u16,
    pub ns_count: u16,
    pub ar_count: u16,
}

/// The header at `pos` in `buf` and the position just past it. A header
/// with the reserved Z bit set is refused.
pub open spec fn spec_parse_header(buf: Seq<u8>, pos: int) -> Result<(Header, int), ParseFailure> {
    if pos + 4 > buf.len() {
        Err(ParseFailure::UnexpectedEof)
    } else if be_u16_at(buf, pos + 2) & Header::Z != 0 {
        Err(ParseFailure::ReservedBitSet)
    } else if pos + 12 > buf.len() {
        Err(ParseFailure::UnexpectedEof)
    } else {
        Ok(
            (
                Header {
                    id: be_u16_at(buf, pos),
                    flags: be_u16_at(buf, pos + 2),
                    qd_count: be_u16_at(buf, pos + 4),
                    an_count: be_u16_at(buf, pos + 6),
                    ns_count: be_u16_at(buf, pos + 8),
                    ar_count: be_u16_at(buf, pos + 10),
                },
                pos + 12,
            ),
        )
    }
}

/// The 12 bytes of `h` on the wire.
pub open spec fn header_bytes(h: Header) -> Seq<u8> {
    u16_bytes(h.id) + u16_bytes(h.flags) + u16_bytes(h.qd_count) + u16_bytes(h.an_count) + u16_bytes(
        h.ns_count,
    ) + u16_bytes(h.ar_count)
}

impl Default for Header {
    fn default() -> (r: Header)
        ensures
            r == Header::empty(),
    {
        Header { id: 0, flags: 0, qd_count: 0, an_count: 0, ns_count: 0, ar_count: 0 }
    }
}

impl Header {
    pub const QR: u16 = 0b1000_0000_0000_0000;
    pub const OPCODE: u16 = 0b0111_1000_0000_0000;
    pub const AA: u16 = 0b0000_0100_0000_0000;
    pub const TC: u16 = 0b0000_0010_0000_0000;
    pub const RD: u16 = 0b0000_0001_0000_0000;
    pub const RA: u16 = 0b0000_0000_1000_0000;
    pub const Z: u16 = 0b0000_0000_0100_0000;
    pub const AD: u16 = 0b0000_0000_0010_0000;
    pub const CD: u16 = 0b0000_0000_0001_0000;
    pub const RCODE: u16 = 0b0000_0000_0000_1111;

    /// The all-zero header.
    pub open spec fn empty() -> Header {
        Header { id: 0, flags: 0, qd_count: 0, an_count: 0, ns_count: 0, ar_count: 0 }
    }

    /// Whether the bits of `mask` that are set are all clear in the flags.
    pub open spec fn flag(self, mask: u16) -> bool {
        self.flags & mask != 0
    }

    pub fn is_response(&self) -> (r: bool)
        ensures
            r == self.flag(Header::QR),
    {
        self.flags & Self::QR != 0
    }

    pub fn is_query(&self) -> (r: bool)
        ensures
            r == !self.flag(Header::QR),
    {
        self.flags & Self::QR == 0
    }

    /// The OPCODE field, as an [`Opcode`] or as its raw number when undefined.
    pub open spec fn spec_opcode(self) -> Result<Opcode, u8> {
        Opcode::spec_from_u8(((self.flags & Header::OPCODE) >> 11u16) as u8)
    }

    pub fn opcode(&self) -> (r: Result<Opcode, u8>)
        ensures
            r == self.spec_opcode(),
    {
        let f: u16 = self.flags;
        let bits: u16 = (f & Self::OPCODE) >> 11u16;
        assert(bits < 256) by (bit_vector)
            requires
                bits == (f & 0b0111_1000_0000_0000u16) >> 11u16,
        ;
        Opcode::from_u8(bits as u8)
    }

    pub fn is_authoritative(&self) -> (r: bool)
        ensures
            r == self.flag(Header::AA),
    {
        self.flags & Self::AA != 0
    }

    pub fn is_truncated(&self) -> (r: bool)
        ensures
            r == self.flag(Header::TC),
    {
        self.flags & Self::TC != 0
    }

    pub fn recursion_desired(&self) -> (r: bool)
        ensures
            r == self.flag(Header::RD),
    {
        self.flags & Self::RD != 0
    }

    pub fn recursion_available(&self) -> (r: bool)
        ensures
            r == self.flag(Header::RA),
    {
        self.flags & Self::RA != 0
    }

    pub fn authentic_data(&self) -> (r: bool)
        ensures
            r == self.flag(Header::AD),
    {
        self.flags & Self::AD != 0
    }

    pub fn checking_disabled(&self) -> (r: bool)
        ensures
            r == self.flag(Header::CD),
    {
        self.flags & Self::CD != 0
    }

    /// The RCODE field, as an [`Rcode`] or as its raw number when undefined.
    pub open spec fn spec_rcode(self) -> Result<Rcode, u8> {
        Rcode::spec_from_u8((self.flags & Header::RCODE) as u8)
    }

    pub fn rcode(&self) -> (r: Result<Rcode, u8>)
        ensures
            r == self.spec_rcode(),
    {
        let f: u16 = self.flags;
        let bits: u16 = f & Self::RCODE;
        assert(bits < 256) by (bit_vector)
            requires
                bits == f & 0b1111u16,
        ;
        Rcode::from_u8(bits as u8)
    }

    pub fn parse(r: &mut Reader) -> (res: Result<Self, ParseError>)
        ensures
            final(r).spec_buf() == old(r).spec_buf(),
            match spec_parse_header(old(r).spec_buf(), old(r).spec_pos() as int) {
                Ok((h, end)) => {
                    &&& res == Ok::<Header, ParseError>(h)
                    &&& final(r).spec_pos() as int == end
                },
                Err(e) => res matches Err(err) && err.kind() == e,
            },
    {
        let id = r.read_u16()?;
        let flags = r.read_u16()?;
        if flags & Self::Z != 0 {
            return Err(ParseError::ReservedBitSet);
        }
        let qd_count = r.read_u16()?;
        let an_count = r.read_u16()?;
        let ns_count = r.read_u16()?;
        let ar_count = r.read_u16()?;
        Ok(Header { id, flags, qd_count, an_count, ns_count, ar_count })
    }

    pub fn write(&self, w: &mut Writer)
        ensures
            final(w).spec_buf() == old(w).spec_buf() + header_bytes(*self),
            final(w).spec_offsets() == old(w).spec_offsets(),
    {
        w.write_u16(self.id);
        w.write_u16(self.flags);
        w.write_u16(self.qd_count);
        w.write_u16(self.an_count);
        w.write_u16(self.ns_count);
        w.write_u16(self.ar_count);
        assert(w.spec_buf() =~= old(w).spec_buf() + header_bytes(*self));
    }

    /// The header of a reply to a query with header `query`: the query's ID
    /// and question count, QR and RA set, RD copied from the query, and the
    /// bits of `extra_flags` (such as TC or an RCODE) added.
    pub open spec fn spec_reply_to(query: Header, extra_flags: u16) -> Header {
        Header {
            id: query.id,
            flags: Header::QR | Header::RA | (query.flags & Header::RD) | extra_flags,
            qd_count: query.qd_count,
            an_count: 0,
            ns_count: 0,
            ar_count: 0,
        }
    }

    pub fn reply_to(query: &Header, extra_flags: u16) -> (r: Header)
        ensures
            r == Header::spec_reply_to(*query, extra_flags),
    {
        Header {
            id: query.id,
            flags: Self::QR | Self::RA | (query.flags & Self::RD) | extra_flags,
            qd_count: query.qd_count,
            an_count: 0,
            ns_count: 0,
            ar_count: 0,
        }
    }
}

} // verus!
