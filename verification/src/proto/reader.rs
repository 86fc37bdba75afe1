//! Reading the wire format: integers, byte strings and (possibly compressed)
//! domain names.

use vstd::prelude::*;
use vstd::utf8::*;

use crate::proto::error::{ParseError, ParseFailure};
use crate::proto::wire::{be_u16_at, be_u32_at};

verus! {

/// The most compression pointers followed while reading one name.
pub const MAX_JUMPS: usize = 128;

/// The longest name, in bytes of its dotted text form, that a read accepts.
pub const MAX_NAME_LEN: usize = 253;

/// `std::str::from_utf8`: succeeds exactly on valid UTF-8 and then views
/// the same bytes as text.
#[verifier::external_body]
fn str_from_utf8(v: &[u8]) -> (r: Result<&str, std::str::Utf8Error>)
    ensures
        r is Ok <==> valid_utf8(v@),
        r matches Ok(s) ==> s@ == decode_utf8(v@),
{
    std::str::from_utf8(v)
}

/// The byte that separates labels in the text form of a name.
pub open spec fn dot() -> Seq<u8> {
    seq![0x2Eu8]
}

/// The text bytes of a name after appending `label` to the text `acc`.
pub open spec fn append_label(acc: Seq<u8>, label: Seq<u8>) -> Seq<u8> {
    if acc.len() == 0 {
        label
    } else {
        acc + dot() + label
    }
}

/// The name-reading walk over `buf`, resumed at `pos` after `jumps`
/// compression pointers, with `acc` read so far. `resume` is where reading
/// continues after the name once a pointer has been followed. Gives the
/// name's text bytes and the position just past the name.
pub open spec fn read_name_from(
    buf: Seq<u8>,
    pos: int,
    jumped: bool,
    jumps: int,
    acc: Seq<u8>,
    resume: int,
) -> Result<(Seq<u8>, int), ParseFailure>
    decreases 128 - jumps, buf.len() - pos,
{
    if jumps >= 128 || jumps < 0 || pos < 0 {
        Err(ParseFailure::PointerLoop)
    } else if pos >= buf.len() {
        Err(ParseFailure::UnexpectedEof)
    } else {
        let byte = buf[pos];
        if byte == 0 {
            Ok((acc, if jumped { resume } else { pos + 1 }))
        } else if byte >= 0xC0 {
            if pos + 1 >= buf.len() {
                Err(ParseFailure::UnexpectedEof)
            } else {
                let offset = (byte - 0xC0) * 256 + buf[pos + 1];
                if offset >= buf.len() {
                    Err(ParseFailure::InvalidPointer)
                } else {
                    read_name_from(
                        buf,
                        offset,
                        true,
                        jumps + 1,
                        acc,
                        if jumped { resume } else { pos + 2 },
                    )
                }
            }
        } else if byte > 63 {
            Err(ParseFailure::LabelTooLong)
        } else if pos + 1 + byte > buf.len() {
            Err(ParseFailure::UnexpectedEof)
        } else {
            let label = buf.subrange(pos + 1, pos + 1 + byte);
            if !valid_utf8(label) {
                Err(ParseFailure::InvalidUtf8)
            } else if append_label(acc, label).len() > 253 {
                Err(ParseFailure::NameTooLong)
            } else {
                read_name_from(buf, pos + 1 + byte, jumped, jumps, append_label(acc, label), resume)
            }
        }
    }
}

/// The name at `pos` in `buf`: its text bytes and the position just past it.
pub open spec fn spec_read_name(buf: Seq<u8>, pos: int) -> Result<(Seq<u8>, int), ParseFailure> {
    read_name_from(buf, pos, false, 0, seq![], pos)
}

/// Where the walk of `read_name_from` leaves the reader when it fails:
/// `resume`, which is just past the first compression pointer once one has
/// been followed and the starting position before that.
pub open spec fn read_name_stop_from(
    buf: Seq<u8>,
    pos: int,
    jumped: bool,
    jumps: int,
    acc: Seq<u8>,
    resume: int,
) -> int
    decreases 128 - jumps, buf.len() - pos,
{
    if jumps >= 128 || jumps < 0 || pos < 0 || pos >= buf.len() {
        resume
    } else {
        let byte = buf[pos];
        if byte == 0 {
            if jumped { resume } else { pos + 1 }
        } else if byte >= 0xC0 {
            if pos + 1 >= buf.len() {
                resume
            } else {
                let offset = (byte - 0xC0) * 256 + buf[pos + 1];
                if offset >= buf.len() {
                    resume
                } else {
                    read_name_stop_from(
                        buf,
                        offset,
                        true,
                        jumps + 1,
                        acc,
                        if jumped { resume } else { pos + 2 },
                    )
                }
            }
        } else if byte > 63 || pos + 1 + byte > buf.len() {
            resume
        } else {
            let label = buf.subrange(pos + 1, pos + 1 + byte);
            if !valid_utf8(label) || append_label(acc, label).len() > 253 {
                resume
            } else {
                read_name_stop_from(
                    buf,
                    pos + 1 + byte,
                    jumped,
                    jumps,
                    append_label(acc, label),
                    resume,
                )
            }
        }
    }
}

/// Where reading the name at `pos` in `buf` leaves the reader when it
/// fails: just past the first compression pointer if one was followed
/// before the failure, else at `pos`.
pub open spec fn spec_read_name_stop(buf: Seq<u8>, pos: int) -> int {
    read_name_stop_from(buf, pos, false, 0, seq![], pos)
}

/// The dot byte is valid UTF-8.
pub proof fn lemma_dot_valid()
    ensures
        valid_utf8(dot()),
{
    reveal_with_fuel(valid_utf8, 2);
    assert(pop_first_scalar(dot()) =~= Seq::<u8>::empty());
}

/// Appending a valid label keeps the text valid UTF-8.
pub proof fn lemma_append_label_valid(acc: Seq<u8>, label: Seq<u8>)
    requires
        valid_utf8(acc),
        valid_utf8(label),
    ensures
        valid_utf8(append_label(acc, label)),
{
    if acc.len() != 0 {
        lemma_dot_valid();
        valid_utf8_concat(acc, dot());
        valid_utf8_concat(acc + dot(), label);
    }
}

/// A cursor over a received message.
pub struct Reader {
    buf: Vec<u8>,
    pos: usize,
}

impl Reader {
    /// The bytes being read.
    pub closed spec fn spec_buf(&self) -> Seq<u8> {
        self.buf@
    }

    /// The position of the next byte to read.
    pub closed spec fn spec_pos(&self) -> nat {
        self.pos as nat
    }

    #[verifier::type_invariant]
    closed spec fn inv(&self) -> bool {
        self.pos <= self.buf@.len()
    }

    pub fn new(buf: Vec<u8>) -> (r: Self)
        ensures
            r.spec_buf() == buf@,
            r.spec_pos() == 0,
    {
        Reader { buf, pos: 0 }
    }

    pub fn pos(&self) -> (r: usize)
        ensures
            r == self.spec_pos(),
            r <= self.spec_buf().len(),
    {
        proof {
            use_type_invariant(self);
        }
        self.pos
    }

    pub fn read_u8(&mut self) -> (r: Result<u8, ParseError>)
        ensures
            final(self).spec_buf() == old(self).spec_buf(),
            old(self).spec_pos() + 1 <= old(self).spec_buf().len() ==> r == Ok::<u8, ParseError>(
                old(self).spec_buf()[old(self).spec_pos() as int],
            ) && final(self).spec_pos() == old(self).spec_pos() + 1,
            old(self).spec_pos() + 1 > old(self).spec_buf().len() ==> (r matches Err(
                ParseError::UnexpectedEof,
            )) && final(self).spec_pos() == old(self).spec_pos(),
    {
        proof {
            use_type_invariant(&*self);
        }
        if self.pos < self.buf.len() {
            let v = self.buf[self.pos];
            self.pos = self.pos + 1;
            Ok(v)
        } else {
            Err(ParseError::UnexpectedEof)
        }
    }

    pub fn read_u16(&mut self) -> (r: Result<u16, ParseError>)
        ensures
            final(self).spec_buf() == old(self).spec_buf(),
            old(self).spec_pos() + 2 <= old(self).spec_buf().len() ==> r == Ok::<u16, ParseError>(
                be_u16_at(old(self).spec_buf(), old(self).spec_pos() as int),
            ) && final(self).spec_pos() == old(self).spec_pos() + 2,
            old(self).spec_pos() + 2 > old(self).spec_buf().len() ==> (r matches Err(
                ParseError::UnexpectedEof,
            )) && final(self).spec_pos() == old(self).spec_pos(),
    {
        proof {
            use_type_invariant(&*self);
        }
        if self.buf.len() - self.pos >= 2 {
            let hi = self.buf[self.pos] as u16;
            let lo = self.buf[self.pos + 1] as u16;
            self.pos = self.pos + 2;
            Ok(hi * 256 + lo)
        } else {
            Err(ParseError::UnexpectedEof)
        }
    }

    pub fn read_u32(&mut self) -> (r: Result<u32, ParseError>)
        ensures
            final(self).spec_buf() == old(self).spec_buf(),
            old(self).spec_pos() + 4 <= old(self).spec_buf().len() ==> r == Ok::<u32, ParseError>(
                be_u32_at(old(self).spec_buf(), old(self).spec_pos() as int),
            ) && final(self).spec_pos() == old(self).spec_pos() + 4,
            old(self).spec_pos() + 4 > old(self).spec_buf().len() ==> (r matches Err(
                ParseError::UnexpectedEof,
            )) && final(self).spec_pos() == old(self).spec_pos(),
    {
        proof {
            use_type_invariant(&*self);
        }
        if self.buf.len() - self.pos >= 4 {
            let b0 = self.buf[self.pos] as u32;
            let b1 = self.buf[self.pos + 1] as u32;
            let b2 = self.buf[self.pos + 2] as u32;
            let b3 = self.buf[self.pos + 3] as u32;
            self.pos = self.pos + 4;
            Ok(b0 * 0x100_0000 + b1 * 0x1_0000 + b2 * 0x100 + b3)
        } else {
            Err(ParseError::UnexpectedEof)
        }
    }

    pub fn read_bytes(&mut self, n: usize) -> (r: Result<Vec<u8>, ParseError>)
        ensures
            final(self).spec_buf() == old(self).spec_buf(),
            old(self).spec_pos() + n <= old(self).spec_buf().len() ==> (r matches Ok(v) && v@
                == old(self).spec_buf().subrange(
                old(self).spec_pos() as int,
                old(self).spec_pos() + n,
            )) && final(self).spec_pos() == old(self).spec_pos() + n,
            old(self).spec_pos() + n > old(self).spec_buf().len() ==> (r matches Err(
                ParseError::UnexpectedEof,
            )) && final(self).spec_pos() == old(self).spec_pos(),
    {
        proof {
            use_type_invariant(&*self);
        }
        if n > self.buf.len() - self.pos {
            return Err(ParseError::UnexpectedEof);
        }
        let v = copy_range(&self.buf, self.pos, self.pos + n);
        self.pos = self.pos + n;
        Ok(v)
    }

    /// Reads a domain name, following compression pointers (RFC 1035
    /// §4.1.4). On failure the reader is left where it was, or just past the
    /// first compression pointer if one was followed before the failure.
    pub fn read_name(&mut self) -> (r: Result<String, ParseError>)
        ensures
            final(self).spec_buf() == old(self).spec_buf(),
            match spec_read_name(old(self).spec_buf(), old(self).spec_pos() as int) {
                Ok((name, end)) => {
                    &&& r matches Ok(s) && s@ == decode_utf8(name)
                    &&& final(self).spec_pos() == end
                },
                Err(e) => {
                    &&& r matches Err(err) && err.kind() == e
                    &&& final(self).spec_pos() == spec_read_name_stop(
                        old(self).spec_buf(),
                        old(self).spec_pos() as int,
                    )
                },
            },
    {
        proof {
            use_type_invariant(&*self);
        }
        let ghost buf = self.buf@;
        let ghost start = self.pos as int;
        let len = self.buf.len();
        let mut acc: Vec<u8> = Vec::new();
        let mut pos = self.pos;
        let mut jumped = false;
        let mut jumps: usize = 0;
        let mut resume: usize = self.pos;
        proof {
            reveal_with_fuel(valid_utf8, 1);
        }
        loop
            invariant
                buf == self.buf@,
                buf == old(self).spec_buf(),
                start == old(self).spec_pos(),
                len == buf.len(),
                start == self.pos,
                self.pos <= len,
                jumps <= MAX_JUMPS,
                valid_utf8(acc@),
                acc@.len() <= MAX_NAME_LEN,
                resume <= len,
                spec_read_name(buf, start) == read_name_from(
                    buf,
                    pos as int,
                    jumped,
                    jumps as int,
                    acc@,
                    resume as int,
                ),
                spec_read_name_stop(buf, start) == read_name_stop_from(
                    buf,
                    pos as int,
                    jumped,
                    jumps as int,
                    acc@,
                    resume as int,
                ),
            ensures
                spec_read_name(buf, start) == Ok::<(Seq<u8>, int), ParseFailure>(
                    (acc@, resume as int),
                ),
            decreases MAX_JUMPS - jumps, len - pos,
        {
            if jumps >= MAX_JUMPS {
                self.pos = resume;
                return Err(ParseError::PointerLoop);
            }
            if pos >= len {
                self.pos = resume;
                return Err(ParseError::UnexpectedEof);
            }
            let byte = self.buf[pos];
            assert((byte & 0b1100_0000u8 == 0b1100_0000u8) <==> byte >= 0xC0u8) by (bit_vector);
            if byte == 0 {
                if !jumped {
                    resume = pos + 1;
                }
                break;
            } else if byte & 0b1100_0000 == 0b1100_0000 {
                if pos + 1 >= len {
                    self.pos = resume;
                    return Err(ParseError::UnexpectedEof);
                }
                let next = self.buf[pos + 1];
                let offset: usize = (((byte & 0b0011_1111) as usize) << 8) | next as usize;
                assert(byte >= 0xC0u8 ==> ((((byte & 0b0011_1111u8) as usize) << 8usize)
                    | next as usize) == (byte - 0xC0u8) as usize * 256 + next as usize)
                    by (bit_vector);
                if offset >= len {
                    self.pos = resume;
                    return Err(ParseError::InvalidPointer);
                }
                if !jumped {
                    resume = pos + 2;
                }
                pos = offset;
                jumped = true;
                jumps = jumps + 1;
            } else {
                let label_len = byte as usize;
                if label_len > 63 {
                    self.pos = resume;
                    return Err(ParseError::LabelTooLong);
                }
                if label_len > len - (pos + 1) {
                    self.pos = resume;
                    return Err(ParseError::UnexpectedEof);
                }
                let label = &self.buf.as_slice()[pos + 1..pos + 1 + label_len];
                assert(label@ == buf.subrange(pos + 1, pos + 1 + label_len));
                match str_from_utf8(label) {
                    Err(e) => {
                        self.pos = resume;
                        return Err(ParseError::InvalidUtf8(e));
                    },
                    Ok(_) => {},
                }
                let ghost old_acc = acc@;
                if acc.len() != 0 {
                    acc.push(0x2E);
                }
                acc.extend_from_slice(label);
                proof {
                    assert(acc@ =~= append_label(old_acc, label@));
                    lemma_append_label_valid(old_acc, label@);
                }
                if acc.len() > MAX_NAME_LEN {
                    self.pos = resume;
                    return Err(ParseError::NameTooLong);
                }
                pos = pos + 1 + label_len;
            }
        }
        let name = match str_from_utf8(acc.as_slice()) {
            Ok(s) => s.to_owned(),
            Err(e) => {
                self.pos = resume;
                return Err(ParseError::InvalidUtf8(e));
            },
        };
        self.pos = resume;
        Ok(name)
    }
}

/// A copy of `buf[start..end]`.
fn copy_range(buf: &Vec<u8>, start: usize, end: usize) -> (r: Vec<u8>)
    requires
        start <= end <= buf.len(),
    ensures
        r@ == buf@.subrange(start as int, end as int),
{
    let mut v: Vec<u8> = Vec::new();
    let mut i = start;
    while i < end
        invariant
            start <= i <= end <= buf.len(),
            v@ == buf@.subrange(start as int, i as int),
        decreases end - i,
    {
        v.push(buf[i]);
        i = i + 1;
        assert(v@ =~= buf@.subrange(start as int, i as int));
    }
    v
}

} // verus!
