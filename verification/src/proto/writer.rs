//! Writing the wire format, with domain-name compression (RFC 1035 §4.1.4).

use vstd::prelude::*;
use vstd::utf8::encode_utf8;

use crate::proto::error::WriteError;
use crate::proto::wire::{u16_bytes, u32_bytes};

verus! {

/// The compression table: each name suffix already written, with the
/// offset at which it starts.
pub type Offsets = Seq<(Seq<u8>, u16)>;

/// The offset recorded for `key`, if any.
pub open spec fn lookup_offset(offs: Offsets, key: Seq<u8>) -> Option<u16>
    decreases offs.len(),
{
    if offs.len() == 0 {
        None
    } else if offs[0].0 == key {
        Some(offs[0].1)
    } else {
        lookup_offset(offs.drop_first(), key)
    }
}

/// `s` without its trailing dots.
pub open spec fn trim_dots(s: Seq<u8>) -> Seq<u8>
    decreases s.len(),
{
    if s.len() > 0 && s.last() == 0x2Eu8 {
        trim_dots(s.drop_last())
    } else {
        s
    }
}

/// The end of the label that starts at `i`: the first dot at or after `i`,
/// or the end of `s`.
pub open spec fn label_end(s: Seq<u8>, i: int) -> int
    decreases s.len() - i,
{
    if i >= s.len() {
        s.len() as int
    } else if s[i] == 0x2Eu8 {
        i
    } else {
        label_end(s, i + 1)
    }
}

/// Prefixes the bytes of a successful write with `prefix`.
pub open spec fn after(prefix: Seq<u8>, r: Result<(Seq<u8>, Offsets), WriteError>) -> Result<
    (Seq<u8>, Offsets),
    WriteError,
> {
    match r {
        Ok((bytes, offs)) => Ok((prefix + bytes, offs)),
        Err(e) => Err(e),
    }
}

/// Writes the labels of `s` from the label starting at `i`, the first of
/// them at offset `pos`: each suffix already in the table becomes a pointer
/// to it, and each new suffix at an offset that a pointer can reach is
/// added to the table. Gives the bytes written and the new table.
pub open spec fn write_labels(pos: int, offs: Offsets, s: Seq<u8>, i: int) -> Result<
    (Seq<u8>, Offsets),
    WriteError,
>
    decreases s.len() - i,
{
    let suffix = s.subrange(i, s.len() as int);
    if i < 0 || i > s.len() {
        Err(WriteError::EmptyLabel)
    } else {
    match lookup_offset(offs, suffix) {
        Some(ptr) => Ok((u16_bytes(0xC000u16 | ptr), offs)),
        None => {
            let offs1 = if pos <= 0x3FFF {
                offs.push((suffix, pos as u16))
            } else {
                offs
            };
            let e = label_end(s, i);
            let label = s.subrange(i, e);
            if label.len() == 0 {
                Err(WriteError::EmptyLabel)
            } else if label.len() > 63 {
                Err(WriteError::LabelTooLong)
            } else {
                let here = seq![label.len() as u8] + label;
                if e >= s.len() {
                    Ok((here + seq![0u8], offs1))
                } else {
                    proof {
                        lemma_label_end_bounds(s, i);
                    }
                    after(here, write_labels(pos + here.len(), offs1, s, e + 1))
                }
            }
        },
    }
    }
}

/// Writes the name whose text bytes are `name` at offset `pos`.
pub open spec fn spec_write_name(pos: int, offs: Offsets, name: Seq<u8>) -> Result<
    (Seq<u8>, Offsets),
    WriteError,
> {
    let s = trim_dots(name);
    if s.len() == 0 {
        Ok((seq![0u8], offs))
    } else {
        write_labels(pos, offs, s, 0)
    }
}

/// Prefixing twice is prefixing with both.
pub proof fn lemma_after_after(a: Seq<u8>, b: Seq<u8>, r: Result<(Seq<u8>, Offsets), WriteError>)
    ensures
        after(a, after(b, r)) == after(a + b, r),
{
    if let Ok((bytes, offs)) = r {
        assert(a + (b + bytes) =~= (a + b) + bytes);
    }
}

pub proof fn lemma_label_end_bounds(s: Seq<u8>, i: int)
    requires
        0 <= i <= s.len(),
    ensures
        i <= label_end(s, i) <= s.len(),
        label_end(s, i) < s.len() ==> s[label_end(s, i)] == 0x2Eu8,
        forall|j: int| i <= j < label_end(s, i) ==> s[j] != 0x2Eu8,
    decreases s.len() - i,
{
    if i < s.len() && s[i] != 0x2Eu8 {
        lemma_label_end_bounds(s, i + 1);
    }
}

/// A growing buffer for an outgoing message, with the name compression table.
pub struct Writer {
    buf: Vec<u8>,
    /// Each name suffix written so far with the offset it was written at,
    /// searched in order. A list keeps the table's contents exact in proofs:
    /// vstd's specification of std's `HashMap` proves nothing of lookups with
    /// `String` keys.
    name_offsets: Vec<(Vec<u8>, u16)>,
}

impl Writer {
    /// The bytes written so far.
    pub closed spec fn spec_buf(&self) -> Seq<u8> {
        self.buf@
    }

    /// The compression table.
    pub closed spec fn spec_offsets(&self) -> Offsets {
        self.name_offsets@.map_values(|e: (Vec<u8>, u16)| (e.0@, e.1))
    }

    pub fn new() -> (r: Self)
        ensures
            r.spec_buf() == Seq::<u8>::empty(),
            r.spec_offsets() == Seq::<(Seq<u8>, u16)>::empty(),
    {
        let w = Writer { buf: Vec::with_capacity(512), name_offsets: Vec::new() };
        assert(w.spec_offsets() =~= Seq::<(Seq<u8>, u16)>::empty());
        w
    }

    pub fn pos(&self) -> (r: usize)
        ensures
            r == self.spec_buf().len(),
    {
        self.buf.len()
    }

    pub fn write_u8(&mut self, v: u8)
        ensures
            final(self).spec_buf() == old(self).spec_buf().push(v),
            final(self).spec_offsets() == old(self).spec_offsets(),
    {
        self.buf.push(v);
    }

    pub fn write_u16(&mut self, v: u16)
        ensures
            final(self).spec_buf() == old(self).spec_buf() + u16_bytes(v),
            final(self).spec_offsets() == old(self).spec_offsets(),
    {
        self.buf.push((v / 256) as u8);
        self.buf.push((v % 256) as u8);
        assert(self.spec_buf() =~= old(self).spec_buf() + u16_bytes(v));
    }

    pub fn write_u32(&mut self, v: u32)
        ensures
            final(self).spec_buf() == old(self).spec_buf() + u32_bytes(v),
            final(self).spec_offsets() == old(self).spec_offsets(),
    {
        self.buf.push((v / 0x100_0000) as u8);
        self.buf.push(((v / 0x1_0000) % 256) as u8);
        self.buf.push(((v / 0x100) % 256) as u8);
        self.buf.push((v % 256) as u8);
        assert(self.spec_buf() =~= old(self).spec_buf() + u32_bytes(v));
    }

    pub fn write_bytes(&mut self, b: &[u8])
        ensures
            final(self).spec_buf() == old(self).spec_buf() + b@,
            final(self).spec_offsets() == old(self).spec_offsets(),
    {
        self.buf.extend_from_slice(b);
        assert(self.spec_buf() =~= old(self).spec_buf() + b@);
    }

    /// Writes two zero bytes to be filled in later, and gives their offset.
    pub fn reserve_u16(&mut self) -> (r: usize)
        ensures
            r == old(self).spec_buf().len(),
            final(self).spec_buf() == old(self).spec_buf() + seq![0u8, 0u8],
            final(self).spec_offsets() == old(self).spec_offsets(),
    {
        let pos = self.buf.len();
        self.write_u16(0);
        assert(u16_bytes(0) =~= seq![0u8, 0u8]);
        pos
    }

    /// Overwrites the two bytes at `pos` with `v`.
    pub fn backfill_u16(&mut self, pos: usize, v: u16)
        requires
            pos + 2 <= old(self).spec_buf().len(),
        ensures
            final(self).spec_buf() == old(self).spec_buf().update(pos as int, (v / 256) as u8).update(
                pos + 1,
                (v % 256) as u8,
            ),
            final(self).spec_offsets() == old(self).spec_offsets(),
    {
        let _len = self.buf.len();
        let next = pos + 1;
        self.buf.set(pos, (v / 256) as u8);
        self.buf.set(next, (v % 256) as u8);
    }

    /// The offset recorded for the suffix `key`, if any.
    fn find_offset(&self, key: &[u8]) -> (r: Option<u16>)
        ensures
            r == lookup_offset(self.spec_offsets(), key@),
    {
        let n = self.name_offsets.len();
        let mut i: usize = 0;
        assert(self.spec_offsets().subrange(0, n as int) =~= self.spec_offsets());
        while i < n
            invariant
                n == self.name_offsets@.len(),
                0 <= i <= n,
                lookup_offset(self.spec_offsets(), key@) == lookup_offset(
                    self.spec_offsets().subrange(i as int, n as int),
                    key@,
                ),
            decreases n - i,
        {
            let ghost rest = self.spec_offsets().subrange(i as int, n as int);
            assert(rest.drop_first() =~= self.spec_offsets().subrange(i + 1, n as int));
            if bytes_eq(self.name_offsets[i].0.as_slice(), key) {
                return Some(self.name_offsets[i].1);
            }
            i = i + 1;
        }
        None
    }

    /// Writes a domain name, compressing any suffix already written.
    pub fn write_name(&mut self, name: &str) -> (r: Result<(), WriteError>)
        ensures
            match spec_write_name(
                old(self).spec_buf().len() as int,
                old(self).spec_offsets(),
                encode_utf8(name@),
            ) {
                Ok((bytes, offs)) => {
                    &&& r is Ok
                    &&& final(self).spec_buf() == old(self).spec_buf() + bytes
                    &&& final(self).spec_offsets() == offs
                },
                Err(e) => r == Err::<(), WriteError>(e),
            },
    {
        let all = name.as_bytes();
        let mut n = all.len();
        assert(all@.subrange(0, n as int) =~= all@);
        while n > 0 && all[n - 1] == 0x2E
            invariant
                n <= all@.len(),
                trim_dots(all@) == trim_dots(all@.subrange(0, n as int)),
            decreases n,
        {
            assert(all@.subrange(0, n as int).drop_last() =~= all@.subrange(0, n - 1));
            n = n - 1;
        }
        assert(trim_dots(all@.subrange(0, n as int)) == all@.subrange(0, n as int));
        let s = &all[0..n];
        if n == 0 {
            self.write_u8(0);
            assert(s@ =~= Seq::<u8>::empty());
            return Ok(());
        }
        assert(s@[n - 1] != 0x2Eu8);
        let ghost pos0 = self.spec_buf().len() as int;
        let ghost buf0 = self.spec_buf();
        let mut i: usize = 0;
        loop
            invariant
                n == s@.len(),
                0 < n,
                0 <= i < n,
                buf0.len() == pos0,
                self.spec_buf().len() >= pos0,
                self.spec_buf().subrange(0, pos0) == buf0,
                write_labels(pos0, old(self).spec_offsets(), s@, 0) == after(
                    self.spec_buf().subrange(pos0, self.spec_buf().len() as int),
                    write_labels(self.spec_buf().len() as int, self.spec_offsets(), s@, i as int),
                ),
                buf0 == old(self).spec_buf(),
                trim_dots(encode_utf8(name@)) == s@,
                s@[n - 1] != 0x2Eu8,
            decreases n - i,
        {
            let suffix = &s[i..n];
            let found = self.find_offset(suffix);
            let ghost cur = self.spec_buf();
            let ghost cur_offs = self.spec_offsets();
            if let Some(ptr) = found {
                self.write_u16(0b1100_0000_0000_0000u16 | ptr);
                assert(self.spec_buf().subrange(pos0, self.spec_buf().len() as int) =~= cur.subrange(
                    pos0,
                    cur.len() as int,
                ) + u16_bytes(0xC000u16 | ptr));
                assert(self.spec_buf().subrange(0, pos0) =~= buf0);
                return Ok(());
            }
            let current_pos = self.buf.len();
            if current_pos <= 0b0011_1111_1111_1111 {
                let mut key: Vec<u8> = Vec::new();
                key.extend_from_slice(suffix);
                assert(key@ =~= suffix@);
                self.name_offsets.push((key, current_pos as u16));
                assert(self.spec_offsets() =~= cur_offs.push((suffix@, current_pos as u16)));
            }
            let mut e = i;
            while e < n && s[e] != 0x2E
                invariant
                    i <= e <= n,
                    n == s@.len(),
                    label_end(s@, i as int) == label_end(s@, e as int),
                decreases n - e,
            {
                e = e + 1;
            }
            proof {
                lemma_label_end_bounds(s@, i as int);
            }
            let label_len = e - i;
            if label_len == 0 {
                return Err(WriteError::EmptyLabel);
            }
            if label_len > 63 {
                return Err(WriteError::LabelTooLong);
            }
            self.write_u8(label_len as u8);
            self.write_bytes(&s[i..e]);
            let ghost here = seq![label_len as u8] + s@.subrange(i as int, e as int);
            assert(self.spec_buf() =~= cur + here);
            assert(self.spec_buf().subrange(0, pos0) =~= buf0);
            if e >= n {
                self.write_u8(0);
                assert(self.spec_buf().subrange(pos0, self.spec_buf().len() as int) =~= cur.subrange(
                    pos0,
                    cur.len() as int,
                ) + (here + seq![0u8]));
                assert(self.spec_buf().subrange(0, pos0) =~= buf0);
                return Ok(());
            }
            assert(self.spec_buf().subrange(pos0, self.spec_buf().len() as int) =~= cur.subrange(
                pos0,
                cur.len() as int,
            ) + here);
            assert(write_labels(cur.len() as int, cur_offs, s@, i as int) == after(
                here,
                write_labels(self.spec_buf().len() as int, self.spec_offsets(), s@, (e + 1) as int),
            ));
            proof {
                lemma_after_after(
                    cur.subrange(pos0, cur.len() as int),
                    here,
                    write_labels(self.spec_buf().len() as int, self.spec_offsets(), s@, (e + 1) as int),
                );
            }
            i = e + 1;
        }
    }

    pub fn finish(self) -> (r: Vec<u8>)
        ensures
            r@ == self.spec_buf(),
    {
        self.buf
    }

    pub fn into_inner(self) -> (r: Vec<u8>)
        ensures
            r@ == self.spec_buf(),
    {
        self.buf
    }
}

impl Default for Writer {
    fn default() -> (r: Self)
        ensures
            r.spec_buf() == Seq::<u8>::empty(),
            r.spec_offsets() == Seq::<(Seq<u8>, u16)>::empty(),
    {
        Writer::new()
    }
}

/// Whether two byte strings are equal.
pub fn bytes_eq(a: &[u8], b: &[u8]) -> (r: bool)
    ensures
        r == (a@ == b@),
{
    if a.len() != b.len() {
        return false;
    }
    let mut i: usize = 0;
    while i < a.len()
        invariant
            a@.len() == b@.len(),
            0 <= i <= a@.len(),
            forall|j: int| 0 <= j < i ==> a@[j] == b@[j],
        decreases a.len() - i,
    {
        if a[i] != b[i] {
            return false;
        }
        i = i + 1;
    }
    assert(a@ =~= b@);
    true
}

} // verus!
