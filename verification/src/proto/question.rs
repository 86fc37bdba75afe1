use vstd::prelude::*;
use vstd::utf8::{decode_utf8, encode_utf8};

use crate::proto::class::Class;
use crate::proto::error::{ParseError, ParseFailure, WriteError};
use crate::proto::reader::{spec_read_name, Reader};
use crate::proto::record_type::RecordType;
use crate::proto::wire::{be_u16_at, u16_bytes};
use crate::proto::writer::{spec_write_name, Offsets, Writer};

verus! {

/// An entry of the question section.
#[derive(Debug, Clone, PartialEq, Eq)]
pub struct Question {
    pub name: String,
    pub qtype: RecordType,
    pub qclass: Class,
}

/// The mathematical value of a [`Question`].
pub struct SpecQuestion {
    pub name: Seq<char>,
    pub qtype: RecordType,
    pub qclass: Class,
}

impl View for Question {
    type V = SpecQuestion;

    open spec fn view(&self) -> SpecQuestion {
        SpecQuestion { name: self.name@, qtype: self.qtype, qclass: self.qclass }
    }
}

/// The question at `pos` in `buf` and the position just past it.
#[verifier::opaque]
pub open spec fn spec_parse_question(buf: Seq<u8>, pos: int) -> Result<(SpecQuestion, int), ParseFailure> {
    match spec_read_name(buf, pos) {
        Err(e) => Err(e),
        Ok((name, p)) => {
            if p + 2 > buf.len() {
                Err(ParseFailure::UnexpectedEof)
            } else {
                let t = be_u16_at(buf, p);
                match RecordType::spec_from_u16(t) {
                    Err(n) => Err(ParseFailure::UnknownRecordType(n)),
                    Ok(qtype) => {
                        if p + 4 > buf.len() {
                            Err(ParseFailure::UnexpectedEof)
                        } else {
                            let c = Class(be_u16_at(buf, p + 2));
                            if !c.spec_is_known() {
                                Err(ParseFailure::UnknownClass(c.0))
                            } else {
                                Ok(
                                    (
                                        SpecQuestion { name: decode_utf8(name), qtype, qclass: c },
                                        p + 4,
                                    ),
                                )
                            }
                        }
                    },
                }
            }
        },
    }
}

/// The bytes of `q` written at offset `pos` with compression table `offs`.
#[verifier::opaque]
pub open spec fn spec_write_question(pos: int, offs: Offsets, q: SpecQuestion) -> Result<
    (Seq<u8>, Offsets),
    WriteError,
> {
    match spec_write_name(pos, offs, encode_utf8(q.name)) {
        Err(e) => Err(e),
        Ok((nb, offs1)) => Ok(
            (nb + u16_bytes(q.qtype.spec_to_u16()) + u16_bytes(q.qclass.0), offs1),
        ),
    }
}

impl Question {
    pub fn parse(r: &mut Reader) -> (res: Result<Self, ParseError>)
        ensures
            final(r).spec_buf() == old(r).spec_buf(),
            match spec_parse_question(old(r).spec_buf(), old(r).spec_pos() as int) {
                Ok((q, end)) => {
                    &&& res matches Ok(v) && v@ == q
                    &&& final(r).spec_pos() as int == end
                },
                Err(e) => res matches Err(err) && err.kind() == e,
            },
    {
        reveal(spec_parse_question);
        let name = r.read_name()?;
        let t = r.read_u16()?;
        let qtype = match RecordType::from_u16(t) {
            Ok(q) => q,
            Err(n) => {
                return Err(ParseError::UnknownRecordType(n));
            },
        };
        let qclass = Class(r.read_u16()?);
        if !qclass.is_known() {
            return Err(ParseError::UnknownClass(qclass.0));
        }
        Ok(Question { name, qtype, qclass })
    }

    pub fn write(&self, w: &mut Writer) -> (res: Result<(), WriteError>)
        ensures
            match spec_write_question(old(w).spec_buf().len() as int, old(w).spec_offsets(), self@) {
                Ok((bytes, offs)) => {
                    &&& res is Ok
                    &&& final(w).spec_buf() == old(w).spec_buf() + bytes
                    &&& final(w).spec_offsets() == offs
                },
                Err(e) => res == Err::<(), WriteError>(e),
            },
    {
        reveal(spec_write_question);
        w.write_name(self.name.as_str())?;
        w.write_u16(self.qtype.to_u16());
        w.write_u16(u16::from(self.qclass));
        assert(w.spec_buf() =~= old(w).spec_buf() + (spec_write_question(
            old(w).spec_buf().len() as int,
            old(w).spec_offsets(),
            self@,
        ).unwrap().0));
        Ok(())
    }

    /// A copy of this question.
    pub fn duplicate(&self) -> (r: Question)
        ensures
            r@ == self@,
    {
        Question { name: self.name.clone(), qtype: self.qtype, qclass: self.qclass }
    }
}

} // verus!
