//! DNS-over-TCP message framing (RFC 1035 §4.2.2): every message is
//! preceded by its length as a 2-byte big-endian integer.

use vstd::prelude::*;

use crate::proto::wire::{be_u16_at, lemma_u16_roundtrip, u16_bytes};

verus! {

/// A message longer than the 16-bit length prefix can state.
#[derive(Debug, Clone, Copy, PartialEq, Eq)]
pub struct FrameTooLong;

/// The framed form of `msg`: its length in two bytes, then the message.
pub open spec fn framed(msg: Seq<u8>) -> Seq<u8> {
    u16_bytes(msg.len() as u16) + msg
}

/// The bytes to write for `msg`, or an error when it exceeds 65535 bytes.
pub fn frame(msg: &[u8]) -> (r: Result<Vec<u8>, FrameTooLong>)
    ensures
        msg@.len() <= 0xFFFF ==> (r matches Ok(v) && v@ == framed(msg@)),
        msg@.len() > 0xFFFF ==> r is Err,
{
    let n = msg.len();
    if n > 0xFFFF {
        return Err(FrameTooLong);
    }
    let len = n as u16;
    let mut out: Vec<u8> = Vec::new();
    out.push((len / 256) as u8);
    out.push((len % 256) as u8);
    let mut i: usize = 0;
    while i < n
        invariant
            n == msg@.len(),
            i <= n,
            out@ == u16_bytes(len) + msg@.subrange(0, i as int),
        decreases n - i,
    {
        out.push(msg[i]);
        i = i + 1;
        assert(out@ =~= u16_bytes(len) + msg@.subrange(0, i as int));
    }
    assert(msg@.subrange(0, n as int) =~= msg@);
    Ok(out)
}

/// The body length announced by a length prefix, or `None` for a zero
/// length, which ends the conversation.
pub fn frame_body_len(prefix: [u8; 2]) -> (r: Option<usize>)
    ensures
        be_u16_at(prefix@, 0) == 0 ==> r is None,
        be_u16_at(prefix@, 0) != 0 ==> r == Some(be_u16_at(prefix@, 0) as usize),
{
    let len: u16 = (prefix[0] as u16) * 256 + (prefix[1] as u16);
    if len == 0 {
        None
    } else {
        Some(len as usize)
    }
}

/// The next message of a stream whose remaining bytes are `buf` from `pos`,
/// followed by the end of the stream, with the position after it. `None`
/// when the stream ends first (also within a length prefix or a body), or
/// at a zero-length frame.
pub open spec fn spec_read_frame(buf: Seq<u8>, pos: int) -> Option<(Seq<u8>, int)> {
    if pos < 0 || pos + 2 > buf.len() {
        None
    } else {
        let len = be_u16_at(buf, pos) as int;
        if len == 0 {
            None
        } else if pos + 2 + len > buf.len() {
            None
        } else {
            Some((buf.subrange(pos + 2, pos + 2 + len), pos + 2 + len))
        }
    }
}

/// Reads the next message from `buf` at `pos`, as [`spec_read_frame`] says.
pub fn read_frame(buf: &[u8], pos: usize) -> (r: Option<(Vec<u8>, usize)>)
    ensures
        match spec_read_frame(buf@, pos as int) {
            None => r is None,
            Some((body, next)) => r matches Some((v, n)) && v@ == body && n == next,
        },
{
    if pos > buf.len() || buf.len() - pos < 2 {
        return None;
    }
    let len: usize = (buf[pos] as usize) * 256 + (buf[pos + 1] as usize);
    if len == 0 {
        return None;
    }
    if buf.len() - pos - 2 < len {
        return None;
    }
    let start = pos + 2;
    let end = start + len;
    let mut body: Vec<u8> = Vec::new();
    let mut i: usize = start;
    while i < end
        invariant
            start <= i <= end,
            end <= buf@.len(),
            body@ == buf@.subrange(start as int, i as int),
        decreases end - i,
    {
        body.push(buf[i]);
        i = i + 1;
        assert(body@ =~= buf@.subrange(start as int, i as int));
    }
    Some((body, end))
}

/// A framed message written after `before` and followed by anything is
/// read back whole, ending where the frame ends; so consecutive frames are
/// read back one after another.
pub proof fn lemma_frame_roundtrip(before: Seq<u8>, msg: Seq<u8>, after: Seq<u8>)
    requires
        1 <= msg.len() <= 0xFFFF,
    ensures
        spec_read_frame(before + framed(msg) + after, before.len() as int) == Some(
            (msg, before.len() + 2 + msg.len() as int),
        ),
{
    let b = before + framed(msg) + after;
    let p = before.len() as int;
    lemma_u16_roundtrip(msg.len() as u16);
    assert(b[p] == u16_bytes(msg.len() as u16)[0]);
    assert(b[p + 1] == u16_bytes(msg.len() as u16)[1]);
    assert(b.subrange(p + 2, p + 2 + msg.len()) =~= msg);
}

} // verus!
