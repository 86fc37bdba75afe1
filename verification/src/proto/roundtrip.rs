//! Writing a well-formed message and parsing the bytes gives the message back.

use vstd::prelude::*;
use vstd::utf8::*;

use crate::proto::error::{ParseFailure, WriteError};
use crate::proto::header::{header_bytes, spec_parse_header, Header};
use crate::proto::message::{
    spec_message_bytes, spec_parse_message, spec_parse_questions, spec_parse_records,
    spec_write_questions, spec_write_records, Message, SpecMessage,
};
use crate::proto::names::{
    lemma_embed_split, lemma_embedded_u16, lemma_empty_table_ok, lemma_name_read_back, lemma_write_name_ok, table_ok,
    wf_name,
};
use crate::proto::question::{spec_parse_question, spec_write_question, SpecQuestion};
use crate::proto::rdata::{
    cons_ok, spec_parse_options, spec_parse_rdata, spec_parse_rdata_inner, spec_parse_txt,
    spec_write_options, spec_write_rdata, spec_write_txt, SpecEdnsOption, SpecRData,
};
use crate::proto::reader::spec_read_name;
use crate::proto::record_type::RecordType;
use crate::proto::resource_record::{
    spec_parse_record, spec_type_number, spec_write_record, SpecRecord,
};
use crate::proto::wire::{be_u16_at, be_u32_at, u16_bytes, u32_bytes, lemma_u32_roundtrip};
use crate::proto::writer::{after, spec_write_name, Offsets};

verus! {

/// Whether `rtype` is a type number that this crate reads as unknown data.
pub open spec fn rtype_unmodelled(rtype: u16) -> bool {
    match RecordType::spec_from_u16(rtype) {
        Err(_) => true,
        Ok(RecordType::IXFR) => true,
        Ok(RecordType::AXFR) => true,
        Ok(RecordType::ANY) => true,
        _ => false,
    }
}

/// The bytes taken by the character-strings `chunks`.
pub open spec fn txt_size(chunks: Seq<Seq<u8>>) -> int
    decreases chunks.len(),
{
    if chunks.len() == 0 {
        0
    } else {
        1 + chunks[0].len() + txt_size(chunks.drop_first())
    }
}

/// Record data that can be written and read back.
pub open spec fn wf_rdata(rd: SpecRData) -> bool {
    match rd {
        SpecRData::A(b) => b.len() == 4,
        SpecRData::AAAA(b) => b.len() == 16,
        SpecRData::NS(n) => wf_name(n),
        SpecRData::CNAME(n) => wf_name(n),
        SpecRData::PTR(n) => wf_name(n),
        SpecRData::SOA { mname, rname, .. } => wf_name(mname) && wf_name(rname),
        SpecRData::MX { exchange, .. } => wf_name(exchange),
        SpecRData::TXT(chunks) => (forall|i: int| 0 <= i < chunks.len() ==> #[trigger] chunks[i].len()
            <= 255) && txt_size(chunks) <= 65535,
        SpecRData::SRV { target, .. } => wf_name(target),
        SpecRData::OPT(options) => spec_write_options(options).len() <= 65535,
        SpecRData::Unknown { rtype, data } => rtype_unmodelled(rtype) && data.len() <= 65535,
    }
}

/// A resource record that can be written and read back.
pub open spec fn wf_record(rr: SpecRecord) -> bool {
    wf_name(rr.name) && wf_rdata(rr.rdata)
}

/// A question that can be written and read back: the parser refuses
/// classes other than those of RFC 1035.
pub open spec fn wf_question(q: SpecQuestion) -> bool {
    wf_name(q.name) && q.qclass.spec_is_known()
}

/// A message that can be written and read back: the reserved Z bit clear,
/// each count equal to the length of its section, and every entry well
/// formed.
pub open spec fn wf_message(m: SpecMessage) -> bool {
    &&& m.header.flags & Header::Z == 0
    &&& m.header.qd_count == m.questions.len()
    &&& m.header.an_count == m.answers.len()
    &&& m.header.ns_count == m.authority.len()
    &&& m.header.ar_count == m.additional.len()
    &&& forall|i: int| 0 <= i < m.questions.len() ==> wf_question(#[trigger] m.questions[i])
    &&& forall|i: int| 0 <= i < m.answers.len() ==> wf_record(#[trigger] m.answers[i])
    &&& forall|i: int| 0 <= i < m.authority.len() ==> wf_record(#[trigger] m.authority[i])
    &&& forall|i: int| 0 <= i < m.additional.len() ==> wf_record(#[trigger] m.additional[i])
}

/// `x` sits in `b` at `pos`.
pub open spec fn embedded(b: Seq<u8>, pos: int, x: Seq<u8>) -> bool {
    0 <= pos && pos + x.len() <= b.len() && b.subrange(pos, pos + x.len()) == x
}

proof fn lemma_embedded_u32(b: Seq<u8>, p: int, v: u32)
    requires
        embedded(b, p, u32_bytes(v)),
    ensures
        be_u32_at(b, p) == v,
{
    lemma_u32_roundtrip(v);
    let x = u32_bytes(v);
    assert(b[p] == b.subrange(p, p + 4)[0]);
    assert(b[p + 1] == b.subrange(p, p + 4)[1]);
    assert(b[p + 2] == b.subrange(p, p + 4)[2]);
    assert(b[p + 3] == b.subrange(p, p + 4)[3]);
}

proof fn lemma_split(b: Seq<u8>, pos: int, x: Seq<u8>, y: Seq<u8>)
    requires
        embedded(b, pos, x + y),
    ensures
        embedded(b, pos, x),
        embedded(b, pos + x.len(), y),
{
    lemma_embed_split(b, pos, x, y);
}

proof fn lemma_write_txt_ok(chunks: Seq<Seq<u8>>)
    requires
        forall|i: int| 0 <= i < chunks.len() ==> #[trigger] chunks[i].len() <= 255,
    ensures
        spec_write_txt(chunks) is Ok,
        spec_write_txt(chunks)->Ok_0.len() == txt_size(chunks),
    decreases chunks.len(),
{
    if chunks.len() > 0 {
        assert(chunks[0].len() <= 255);
        assert forall|i: int| 0 <= i < chunks.drop_first().len() implies #[trigger] chunks.drop_first()[i].len() <= 255 by {
            assert(chunks.drop_first()[i] == chunks[i + 1]);
        }
        lemma_write_txt_ok(chunks.drop_first());
    }
}

proof fn lemma_txt_read_back(b: Seq<u8>, pos: int, chunks: Seq<Seq<u8>>)
    requires
        spec_write_txt(chunks) is Ok,
        embedded(b, pos, spec_write_txt(chunks)->Ok_0),
    ensures
        spec_parse_txt(b, pos, spec_write_txt(chunks)->Ok_0.len() as int) == Ok::<
            (Seq<Seq<u8>>, int),
            ParseFailure,
        >((chunks, pos + spec_write_txt(chunks)->Ok_0.len())),
    decreases chunks.len(),
{
    let bytes = spec_write_txt(chunks)->Ok_0;
    if chunks.len() == 0 {
        assert(bytes.len() == 0);
        assert(chunks =~= Seq::<Seq<u8>>::empty());
    } else {
        let c = chunks[0];
        let rest = spec_write_txt(chunks.drop_first())->Ok_0;
        assert(bytes == seq![c.len() as u8] + c + rest);
        lemma_split(b, pos, seq![c.len() as u8] + c, rest);
        lemma_split(b, pos, seq![c.len() as u8], c);
        assert(b[pos] == c.len()) by {
            assert(b.subrange(pos, pos + 1)[0] == c.len() as u8);
        }
        lemma_txt_read_back(b, pos + 1 + c.len(), chunks.drop_first());
        assert(seq![c] + chunks.drop_first() =~= chunks);
        assert(spec_parse_txt(b, pos, bytes.len() as int) == cons_ok(
            c,
            spec_parse_txt(b, pos + 1 + c.len(), bytes.len() - 1 - c.len()),
        ));
    }
}

proof fn lemma_options_read_back(b: Seq<u8>, pos: int, options: Seq<SpecEdnsOption>)
    requires
        spec_write_options(options).len() <= 65535,
        embedded(b, pos, spec_write_options(options)),
    ensures
        spec_parse_options(b, pos, spec_write_options(options).len() as int) == Ok::<
            (Seq<SpecEdnsOption>, int),
            ParseFailure,
        >((options, pos + spec_write_options(options).len())),
    decreases options.len(),
{
    let bytes = spec_write_options(options);
    if options.len() == 0 {
        assert(options =~= Seq::<SpecEdnsOption>::empty());
    } else {
        let o = options[0];
        let rest = spec_write_options(options.drop_first());
        let h1 = u16_bytes(o.code);
        let h2 = u16_bytes(o.data.len() as u16);
        assert(bytes == h1 + h2 + o.data + rest);
        lemma_split(b, pos, h1 + h2 + o.data, rest);
        lemma_split(b, pos, h1 + h2, o.data);
        lemma_split(b, pos, h1, h2);
        lemma_embedded_u16(b, pos, o.code);
        lemma_embedded_u16(b, pos + 2, o.data.len() as u16);
        lemma_options_read_back(b, pos + 4 + o.data.len(), options.drop_first());
        assert(seq![o] + options.drop_first() =~= options);
        assert(spec_parse_options(b, pos, bytes.len() as int) == cons_ok(
            SpecEdnsOption { code: o.code, data: b.subrange(pos + 4, pos + 4 + o.data.len()) },
            spec_parse_options(b, pos + 4 + o.data.len(), bytes.len() - 4 - o.data.len()),
        ));
    }
}

/// Well-formed record data is written without error, into at most 65535 bytes.
pub proof fn lemma_write_rdata_ok(pos: int, offs: Offsets, rd: SpecRData)
    requires
        wf_rdata(rd),
    ensures
        spec_write_rdata(pos, offs, rd) is Ok,
        spec_write_rdata(pos, offs, rd)->Ok_0.0.len() <= 65535,
{
    reveal(spec_write_rdata);
    match rd {
        SpecRData::NS(n) => lemma_write_name_ok(pos, offs, n),
        SpecRData::CNAME(n) => lemma_write_name_ok(pos, offs, n),
        SpecRData::PTR(n) => lemma_write_name_ok(pos, offs, n),
        SpecRData::MX { exchange, .. } => lemma_write_name_ok(pos + 2, offs, exchange),
        SpecRData::SRV { target, .. } => lemma_write_name_ok(pos + 6, offs, target),
        SpecRData::SOA { mname, rname, .. } => {
            lemma_write_name_ok(pos, offs, mname);
            let (mb, offs1) = spec_write_name(pos, offs, encode_utf8(mname))->Ok_0;
            lemma_write_name_ok(pos + mb.len(), offs1, rname);
        },
        SpecRData::TXT(chunks) => lemma_write_txt_ok(chunks),
        _ => {},
    }
}

/// The conditions under which record data written at `pos` is read back.
pub open spec fn rdata_written_at(b: Seq<u8>, pos: int, offs: Offsets, rd: SpecRData) -> bool {
    &&& wf_rdata(rd)
    &&& table_ok(b, offs)
    &&& spec_write_rdata(pos, offs, rd) is Ok
    &&& spec_write_rdata(pos, offs, rd)->Ok_0.0.len() <= 65535
    &&& embedded(b, pos, spec_write_rdata(pos, offs, rd)->Ok_0.0)
}

/// What reading back record data written at `pos` gives.
pub open spec fn rdata_reads_back(b: Seq<u8>, pos: int, offs: Offsets, rd: SpecRData) -> bool {
    &&& spec_parse_rdata(
        b,
        pos,
        spec_type_number(rd),
        spec_write_rdata(pos, offs, rd)->Ok_0.0.len() as u16,
    ) == Ok::<(SpecRData, int), ParseFailure>(
        (rd, pos + spec_write_rdata(pos, offs, rd)->Ok_0.0.len()),
    )
    &&& table_ok(b, spec_write_rdata(pos, offs, rd)->Ok_0.1)
}

proof fn lemma_fixed_read_back(b: Seq<u8>, pos: int, offs: Offsets, rd: SpecRData)
    requires
        rdata_written_at(b, pos, offs, rd),
        rd is A || rd is AAAA || rd is TXT || rd is OPT || rd is Unknown,
    ensures
        rdata_reads_back(b, pos, offs, rd),
{
    reveal(spec_write_rdata);
    let (rb, offs2) = spec_write_rdata(pos, offs, rd)->Ok_0;
    let rdlen = rb.len() as u16;
    match rd {
        SpecRData::A(a) => {
            assert(b.subrange(pos, pos + 4) == a);
            assert(spec_parse_rdata_inner(b, pos, spec_type_number(rd), rdlen) == Ok::<
                (SpecRData, int),
                ParseFailure,
            >((rd, pos + 4)));
        },
        SpecRData::AAAA(a) => {
            assert(b.subrange(pos, pos + 16) == a);
            assert(spec_parse_rdata_inner(b, pos, spec_type_number(rd), rdlen) == Ok::<
                (SpecRData, int),
                ParseFailure,
            >((rd, pos + 16)));
        },
        SpecRData::TXT(chunks) => {
            lemma_write_txt_ok(chunks);
            lemma_txt_read_back(b, pos, chunks);
        },
        SpecRData::OPT(options) => {
            lemma_options_read_back(b, pos, options);
        },
        SpecRData::Unknown { rtype, data } => {
            assert(b.subrange(pos, pos + data.len()) == data);
        },
        _ => {},
    }
}

proof fn lemma_single_name_read_back(b: Seq<u8>, pos: int, offs: Offsets, rd: SpecRData)
    requires
        rdata_written_at(b, pos, offs, rd),
        rd is NS || rd is CNAME || rd is PTR,
    ensures
        rdata_reads_back(b, pos, offs, rd),
{
    reveal(spec_write_rdata);
    let (rb, offs2) = spec_write_rdata(pos, offs, rd)->Ok_0;
    match rd {
        SpecRData::NS(n) => {
            assert(rb =~= spec_write_name(pos, offs, encode_utf8(n))->Ok_0.0);
            lemma_name_read_back(b, pos, offs, n);
            encode_utf8_decode_utf8(n);
        },
        SpecRData::CNAME(n) => {
            assert(rb =~= spec_write_name(pos, offs, encode_utf8(n))->Ok_0.0);
            lemma_name_read_back(b, pos, offs, n);
            encode_utf8_decode_utf8(n);
        },
        SpecRData::PTR(n) => {
            assert(rb =~= spec_write_name(pos, offs, encode_utf8(n))->Ok_0.0);
            lemma_name_read_back(b, pos, offs, n);
            encode_utf8_decode_utf8(n);
        },
        _ => {},
    }
}

proof fn lemma_mx_read_back(b: Seq<u8>, pos: int, offs: Offsets, rd: SpecRData)
    requires
        rdata_written_at(b, pos, offs, rd),
        rd is MX,
    ensures
        rdata_reads_back(b, pos, offs, rd),
{
    reveal(spec_write_rdata);
    let (rb, offs2) = spec_write_rdata(pos, offs, rd)->Ok_0;
    if let SpecRData::MX { preference, exchange } = rd {
        let nb = spec_write_name(pos + 2, offs, encode_utf8(exchange))->Ok_0.0;
        assert(rb =~= u16_bytes(preference) + nb);
        lemma_split(b, pos, u16_bytes(preference), nb);
        lemma_embedded_u16(b, pos, preference);
        lemma_name_read_back(b, pos + 2, offs, exchange);
        encode_utf8_decode_utf8(exchange);
    }
}

proof fn lemma_srv_read_back(b: Seq<u8>, pos: int, offs: Offsets, rd: SpecRData)
    requires
        rdata_written_at(b, pos, offs, rd),
        rd is SRV,
    ensures
        rdata_reads_back(b, pos, offs, rd),
{
    reveal(spec_write_rdata);
    let (rb, offs2) = spec_write_rdata(pos, offs, rd)->Ok_0;
    if let SpecRData::SRV { priority, weight, port, target } = rd {
        let nb = spec_write_name(pos + 6, offs, encode_utf8(target))->Ok_0.0;
        let h = u16_bytes(priority) + u16_bytes(weight) + u16_bytes(port);
        assert(rb =~= h + nb);
        lemma_split(b, pos, h, nb);
        lemma_split(b, pos, u16_bytes(priority) + u16_bytes(weight), u16_bytes(port));
        lemma_split(b, pos, u16_bytes(priority), u16_bytes(weight));
        lemma_embedded_u16(b, pos, priority);
        lemma_embedded_u16(b, pos + 2, weight);
        lemma_embedded_u16(b, pos + 4, port);
        lemma_name_read_back(b, pos + 6, offs, target);
        encode_utf8_decode_utf8(target);
    }
}

proof fn lemma_soa_tail(b: Seq<u8>, q: int, serial: u32, refresh: u32, retry: u32, expire: u32, minimum: u32)
    requires
        embedded(
            b,
            q,
            u32_bytes(serial) + u32_bytes(refresh) + u32_bytes(retry) + u32_bytes(expire)
                + u32_bytes(minimum),
        ),
    ensures
        q + 20 <= b.len(),
        be_u32_at(b, q) == serial,
        be_u32_at(b, q + 4) == refresh,
        be_u32_at(b, q + 8) == retry,
        be_u32_at(b, q + 12) == expire,
        be_u32_at(b, q + 16) == minimum,
{
    lemma_split(b, q, u32_bytes(serial) + u32_bytes(refresh) + u32_bytes(retry) + u32_bytes(expire), u32_bytes(minimum));
    lemma_split(b, q, u32_bytes(serial) + u32_bytes(refresh) + u32_bytes(retry), u32_bytes(expire));
    lemma_split(b, q, u32_bytes(serial) + u32_bytes(refresh), u32_bytes(retry));
    lemma_split(b, q, u32_bytes(serial), u32_bytes(refresh));
    lemma_embedded_u32(b, q, serial);
    lemma_embedded_u32(b, q + 4, refresh);
    lemma_embedded_u32(b, q + 8, retry);
    lemma_embedded_u32(b, q + 12, expire);
    lemma_embedded_u32(b, q + 16, minimum);
}

#[verifier::rlimit(40)]
proof fn lemma_soa_read_back(b: Seq<u8>, pos: int, offs: Offsets, rd: SpecRData)
    requires
        rdata_written_at(b, pos, offs, rd),
        rd is SOA,
    ensures
        rdata_reads_back(b, pos, offs, rd),
{
    reveal(spec_write_rdata);
    let (rb, offs2) = spec_write_rdata(pos, offs, rd)->Ok_0;
    if let SpecRData::SOA { mname, rname, serial, refresh, retry, expire, minimum } = rd {
        let (mb, offs1) = spec_write_name(pos, offs, encode_utf8(mname))->Ok_0;
        let tail = u32_bytes(serial) + u32_bytes(refresh) + u32_bytes(retry) + u32_bytes(expire)
            + u32_bytes(minimum);
        let rnb = spec_write_name(pos + mb.len(), offs1, encode_utf8(rname))->Ok_0.0;
        assert(rb =~= mb + (rnb + tail));
        lemma_split(b, pos, mb, rnb + tail);
        lemma_split(b, pos + mb.len(), rnb, tail);
        lemma_name_read_back(b, pos, offs, mname);
        lemma_name_read_back(b, pos + mb.len(), offs1, rname);
        encode_utf8_decode_utf8(mname);
        encode_utf8_decode_utf8(rname);
        let q = pos + mb.len() + rnb.len();
        lemma_soa_tail(b, q, serial, refresh, retry, expire, minimum);
    }
}

/// Well-formed record data written at `pos` of `b` reads back as the same
/// data, ending just after the bytes written.
pub proof fn lemma_rdata_read_back(b: Seq<u8>, pos: int, offs: Offsets, rd: SpecRData)
    requires
        rdata_written_at(b, pos, offs, rd),
    ensures
        rdata_reads_back(b, pos, offs, rd),
{
    match rd {
        SpecRData::NS(_) => lemma_single_name_read_back(b, pos, offs, rd),
        SpecRData::CNAME(_) => lemma_single_name_read_back(b, pos, offs, rd),
        SpecRData::PTR(_) => lemma_single_name_read_back(b, pos, offs, rd),
        SpecRData::MX { .. } => lemma_mx_read_back(b, pos, offs, rd),
        SpecRData::SRV { .. } => lemma_srv_read_back(b, pos, offs, rd),
        SpecRData::SOA { .. } => lemma_soa_read_back(b, pos, offs, rd),
        _ => lemma_fixed_read_back(b, pos, offs, rd),
    }
}

proof fn lemma_embedded_u16_at(b: Seq<u8>, p: int, v: u16)
    requires
        embedded(b, p, u16_bytes(v)),
    ensures
        be_u16_at(b, p) == v,
{
    lemma_embedded_u16(b, p, v);
}

/// A well-formed question is written without error.
proof fn lemma_write_question_ok(pos: int, offs: Offsets, q: SpecQuestion)
    requires
        wf_question(q),
    ensures
        spec_write_question(pos, offs, q) is Ok,
{
    reveal(spec_write_question);
    lemma_write_name_ok(pos, offs, q.name);
}

/// A well-formed question written at `pos` reads back as itself.
proof fn lemma_question_read_back(b: Seq<u8>, pos: int, offs: Offsets, q: SpecQuestion)
    requires
        wf_question(q),
        table_ok(b, offs),
        spec_write_question(pos, offs, q) is Ok,
        embedded(b, pos, spec_write_question(pos, offs, q)->Ok_0.0),
    ensures
        spec_parse_question(b, pos) == Ok::<(SpecQuestion, int), ParseFailure>(
            (q, pos + spec_write_question(pos, offs, q)->Ok_0.0.len()),
        ),
        table_ok(b, spec_write_question(pos, offs, q)->Ok_0.1),
{
    reveal(spec_write_question);
    reveal(spec_parse_question);
    let (nb, offs1) = spec_write_name(pos, offs, encode_utf8(q.name))->Ok_0;
    let t = u16_bytes(q.qtype.spec_to_u16());
    let c = u16_bytes(q.qclass.0);
    lemma_split(b, pos, nb + t, c);
    lemma_split(b, pos, nb, t);
    lemma_name_read_back(b, pos, offs, q.name);
    encode_utf8_decode_utf8(q.name);
    let p = pos + nb.len();
    lemma_embedded_u16_at(b, p, q.qtype.spec_to_u16());
    lemma_embedded_u16_at(b, p + 2, q.qclass.0);
    q.qtype.lemma_roundtrip();
}

/// A well-formed record is written without error, its data in at most
/// 65535 bytes.
proof fn lemma_write_record_ok(pos: int, offs: Offsets, rr: SpecRecord)
    requires
        wf_record(rr),
    ensures
        spec_write_record(pos, offs, rr) is Ok,
{
    reveal(spec_write_record);
    lemma_write_name_ok(pos, offs, rr.name);
    let (nb, offs1) = spec_write_name(pos, offs, encode_utf8(rr.name))->Ok_0;
    lemma_write_rdata_ok(pos + nb.len() + 10, offs1, rr.rdata);
}

/// A well-formed record written at `pos` reads back as itself.
#[verifier::rlimit(30)]
proof fn lemma_record_read_back(b: Seq<u8>, pos: int, offs: Offsets, rr: SpecRecord)
    requires
        wf_record(rr),
        table_ok(b, offs),
        spec_write_record(pos, offs, rr) is Ok,
        embedded(b, pos, spec_write_record(pos, offs, rr)->Ok_0.0),
    ensures
        spec_parse_record(b, pos) == Ok::<(SpecRecord, int), ParseFailure>(
            (rr, pos + spec_write_record(pos, offs, rr)->Ok_0.0.len()),
        ),
        table_ok(b, spec_write_record(pos, offs, rr)->Ok_0.1),
{
    reveal(spec_write_record);
    reveal(spec_parse_record);
    let (nb, offs1) = spec_write_name(pos, offs, encode_utf8(rr.name))->Ok_0;
    let p = pos + nb.len();
    lemma_write_rdata_ok(p + 10, offs1, rr.rdata);
    let (rb, offs2) = spec_write_rdata(p + 10, offs1, rr.rdata)->Ok_0;
    let t = u16_bytes(spec_type_number(rr.rdata));
    let c = u16_bytes(rr.class.0);
    let ttl = u32_bytes(rr.ttl);
    let l = u16_bytes(rb.len() as u16);
    assert(spec_write_record(pos, offs, rr)->Ok_0.0 == nb + t + c + ttl + l + rb);
    lemma_split(b, pos, nb + t + c + ttl + l, rb);
    lemma_split(b, pos, nb + t + c + ttl, l);
    lemma_split(b, pos, nb + t + c, ttl);
    lemma_split(b, pos, nb + t, c);
    lemma_split(b, pos, nb, t);
    lemma_name_read_back(b, pos, offs, rr.name);
    encode_utf8_decode_utf8(rr.name);
    lemma_embedded_u16_at(b, p, spec_type_number(rr.rdata));
    lemma_embedded_u16_at(b, p + 2, rr.class.0);
    lemma_embedded_u32(b, p + 4, rr.ttl);
    lemma_embedded_u16_at(b, p + 8, rb.len() as u16);
    assert(rdata_written_at(b, p + 10, offs1, rr.rdata));
    lemma_rdata_read_back(b, p + 10, offs1, rr.rdata);
}

/// Well-formed questions are written without error.
proof fn lemma_write_questions_ok(pos: int, offs: Offsets, qs: Seq<SpecQuestion>)
    requires
        forall|i: int| 0 <= i < qs.len() ==> wf_question(#[trigger] qs[i]),
    ensures
        spec_write_questions(pos, offs, qs) is Ok,
    decreases qs.len(),
{
    if qs.len() > 0 {
        lemma_write_question_ok(pos, offs, qs[0]);
        let (b0, o) = spec_write_question(pos, offs, qs[0])->Ok_0;
        assert forall|i: int| 0 <= i < qs.drop_first().len() implies wf_question(
            #[trigger] qs.drop_first()[i],
        ) by {
            assert(qs.drop_first()[i] == qs[i + 1]);
        }
        lemma_write_questions_ok(pos + b0.len(), o, qs.drop_first());
    }
}

/// Well-formed questions written at `pos` read back as themselves.
proof fn lemma_questions_read_back(b: Seq<u8>, pos: int, offs: Offsets, qs: Seq<SpecQuestion>)
    requires
        forall|i: int| 0 <= i < qs.len() ==> wf_question(#[trigger] qs[i]),
        table_ok(b, offs),
        spec_write_questions(pos, offs, qs) is Ok,
        embedded(b, pos, spec_write_questions(pos, offs, qs)->Ok_0.0),
    ensures
        spec_parse_questions(b, pos, qs.len() as int) == Ok::<(Seq<SpecQuestion>, int), ParseFailure>(
            (qs, pos + spec_write_questions(pos, offs, qs)->Ok_0.0.len()),
        ),
        table_ok(b, spec_write_questions(pos, offs, qs)->Ok_0.1),
    decreases qs.len(),
{
    if qs.len() == 0 {
        assert(qs =~= Seq::<SpecQuestion>::empty());
    } else {
        let (b0, o) = spec_write_question(pos, offs, qs[0])->Ok_0;
        let rest = spec_write_questions(pos + b0.len(), o, qs.drop_first())->Ok_0.0;
        lemma_split(b, pos, b0, rest);
        lemma_question_read_back(b, pos, offs, qs[0]);
        assert forall|i: int| 0 <= i < qs.drop_first().len() implies wf_question(
            #[trigger] qs.drop_first()[i],
        ) by {
            assert(qs.drop_first()[i] == qs[i + 1]);
        }
        lemma_questions_read_back(b, pos + b0.len(), o, qs.drop_first());
        assert(seq![qs[0]] + qs.drop_first() =~= qs);
    }
}

/// Well-formed records are written without error.
proof fn lemma_write_records_ok(pos: int, offs: Offsets, rs: Seq<SpecRecord>)
    requires
        forall|i: int| 0 <= i < rs.len() ==> wf_record(#[trigger] rs[i]),
    ensures
        spec_write_records(pos, offs, rs) is Ok,
    decreases rs.len(),
{
    if rs.len() > 0 {
        lemma_write_record_ok(pos, offs, rs[0]);
        let (b0, o) = spec_write_record(pos, offs, rs[0])->Ok_0;
        assert forall|i: int| 0 <= i < rs.drop_first().len() implies wf_record(
            #[trigger] rs.drop_first()[i],
        ) by {
            assert(rs.drop_first()[i] == rs[i + 1]);
        }
        lemma_write_records_ok(pos + b0.len(), o, rs.drop_first());
    }
}

/// Well-formed records written at `pos` read back as themselves.
proof fn lemma_records_read_back(b: Seq<u8>, pos: int, offs: Offsets, rs: Seq<SpecRecord>)
    requires
        forall|i: int| 0 <= i < rs.len() ==> wf_record(#[trigger] rs[i]),
        table_ok(b, offs),
        spec_write_records(pos, offs, rs) is Ok,
        embedded(b, pos, spec_write_records(pos, offs, rs)->Ok_0.0),
    ensures
        spec_parse_records(b, pos, rs.len() as int) == Ok::<(Seq<SpecRecord>, int), ParseFailure>(
            (rs, pos + spec_write_records(pos, offs, rs)->Ok_0.0.len()),
        ),
        table_ok(b, spec_write_records(pos, offs, rs)->Ok_0.1),
    decreases rs.len(),
{
    if rs.len() == 0 {
        assert(rs =~= Seq::<SpecRecord>::empty());
    } else {
        let (b0, o) = spec_write_record(pos, offs, rs[0])->Ok_0;
        let rest = spec_write_records(pos + b0.len(), o, rs.drop_first())->Ok_0.0;
        lemma_split(b, pos, b0, rest);
        lemma_record_read_back(b, pos, offs, rs[0]);
        assert forall|i: int| 0 <= i < rs.drop_first().len() implies wf_record(
            #[trigger] rs.drop_first()[i],
        ) by {
            assert(rs.drop_first()[i] == rs[i + 1]);
        }
        lemma_records_read_back(b, pos + b0.len(), o, rs.drop_first());
        assert(seq![rs[0]] + rs.drop_first() =~= rs);
    }
}

/// A header written at the start of `b` reads back as itself when its
/// reserved bit is clear.
proof fn lemma_header_read_back(b: Seq<u8>, h: Header)
    requires
        h.flags & Header::Z == 0,
        embedded(b, 0, header_bytes(h)),
    ensures
        spec_parse_header(b, 0) == Ok::<(Header, int), ParseFailure>((h, 12)),
{
    let u = |v: u16| u16_bytes(v);
    lemma_split(b, 0, u(h.id) + u(h.flags) + u(h.qd_count) + u(h.an_count) + u(h.ns_count), u(h.ar_count));
    lemma_split(b, 0, u(h.id) + u(h.flags) + u(h.qd_count) + u(h.an_count), u(h.ns_count));
    lemma_split(b, 0, u(h.id) + u(h.flags) + u(h.qd_count), u(h.an_count));
    lemma_split(b, 0, u(h.id) + u(h.flags), u(h.qd_count));
    lemma_split(b, 0, u(h.id), u(h.flags));
    lemma_embedded_u16_at(b, 0, h.id);
    lemma_embedded_u16_at(b, 2, h.flags);
    lemma_embedded_u16_at(b, 4, h.qd_count);
    lemma_embedded_u16_at(b, 6, h.an_count);
    lemma_embedded_u16_at(b, 8, h.ns_count);
    lemma_embedded_u16_at(b, 10, h.ar_count);
}

/// Writing a well-formed message and parsing the bytes gives the same
/// message back: `Message::to_bytes` succeeds on it, and `Message::parse` of
/// what it returns is equal to it.
#[verifier::rlimit(80)]
pub proof fn lemma_message_roundtrip(m: SpecMessage)
    requires
        wf_message(m),
    ensures
        spec_message_bytes(m) is Ok,
        spec_parse_message(spec_message_bytes(m)->Ok_0) == Ok::<SpecMessage, ParseFailure>(m),
{
    let o0: Offsets = seq![];
    lemma_write_questions_ok(12, o0, m.questions);
    let (qb, o1) = spec_write_questions(12, o0, m.questions)->Ok_0;
    let p1: int = 12 + qb.len() as int;
    lemma_write_records_ok(p1, o1, m.answers);
    let (ab, o2) = spec_write_records(p1, o1, m.answers)->Ok_0;
    let p2: int = p1 + ab.len();
    lemma_write_records_ok(p2, o2, m.authority);
    let (nb, o3) = spec_write_records(p2, o2, m.authority)->Ok_0;
    let p3: int = p2 + nb.len();
    lemma_write_records_ok(p3, o3, m.additional);
    let (xb, o4) = spec_write_records(p3, o3, m.additional)->Ok_0;
    let hb = header_bytes(m.header);
    let b = hb + qb + ab + nb + xb;
    assert(spec_message_bytes(m) == Ok::<Seq<u8>, WriteError>(b));
    lemma_five_parts(hb, qb, ab, nb, xb);
    assert(spec_parse_header(b, 0) == Ok::<(Header, int), ParseFailure>((m.header, 12))) by {
        lemma_header_read_back(b, m.header);
    }
    assert(spec_parse_questions(b, 12, m.questions.len() as int) == Ok::<
        (Seq<SpecQuestion>, int),
        ParseFailure,
    >((m.questions, p1)) && table_ok(b, o1)) by {
        lemma_empty_table_ok(b);
        lemma_questions_read_back(b, 12, o0, m.questions);
    }
    assert(spec_parse_records(b, p1, m.answers.len() as int) == Ok::<
        (Seq<SpecRecord>, int),
        ParseFailure,
    >((m.answers, p2)) && table_ok(b, o2)) by {
        lemma_records_read_back(b, p1, o1, m.answers);
    }
    assert(spec_parse_records(b, p2, m.authority.len() as int) == Ok::<
        (Seq<SpecRecord>, int),
        ParseFailure,
    >((m.authority, p3)) && table_ok(b, o3)) by {
        lemma_records_read_back(b, p2, o2, m.authority);
    }
    assert(spec_parse_records(b, p3, m.additional.len() as int) == Ok::<
        (Seq<SpecRecord>, int),
        ParseFailure,
    >((m.additional, p3 + xb.len()))) by {
        lemma_records_read_back(b, p3, o3, m.additional);
    }
}

/// Each of five concatenated parts sits at its offset in the whole.
proof fn lemma_five_parts(h: Seq<u8>, q: Seq<u8>, a: Seq<u8>, n: Seq<u8>, x: Seq<u8>)
    ensures
        embedded(h + q + a + n + x, 0, h),
        embedded(h + q + a + n + x, h.len() as int, q),
        embedded(h + q + a + n + x, (h.len() + q.len()) as int, a),
        embedded(h + q + a + n + x, (h.len() + q.len() + a.len()) as int, n),
        embedded(h + q + a + n + x, (h.len() + q.len() + a.len() + n.len()) as int, x),
{
    let b = h + q + a + n + x;
    assert(b.subrange(0, b.len() as int) =~= b);
    lemma_split(b, 0, h + q + a + n, x);
    lemma_split(b, 0, h + q + a, n);
    lemma_split(b, 0, h + q, a);
    lemma_split(b, 0, h, q);
}

} // verus!
