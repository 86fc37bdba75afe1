use vstd::prelude::*;

use crate::proto::error::{ParseError, ParseFailure, WriteError};
use crate::proto::header::{header_bytes, spec_parse_header, Header};
use crate::proto::question::{spec_parse_question, spec_write_question, Question, SpecQuestion};
use crate::proto::rdata::{cons_ok, lemma_prepend_cons, prepend_ok};
use crate::proto::reader::Reader;
use crate::proto::resource_record::{
    spec_is_opt, spec_parse_record, spec_write_record, ResourceRecord, SpecRecord,
};
use crate::proto::writer::{after, lemma_after_after, Offsets, Writer};

verus! {

/// A DNS message: header and the four sections.
#[derive(Debug, Clone, PartialEq, Eq)]
pub struct Message {
    pub header: Header,
    pub questions: Vec<Question>,
    pub answers: Vec<ResourceRecord>,
    pub authority: Vec<ResourceRecord>,
    pub additional: Vec<ResourceRecord>,
}

/// The mathematical value of a [`Message`].
pub struct SpecMessage {
    pub header: Header,
    pub questions: Seq<SpecQuestion>,
    pub answers: Seq<SpecRecord>,
    pub authority: Seq<SpecRecord>,
    pub additional: Seq<SpecRecord>,
}

/// The values of a sequence of records.
pub open spec fn records_view(rs: Seq<ResourceRecord>) -> Seq<SpecRecord> {
    rs.map_values(|r: ResourceRecord| r@)
}

/// The values of a sequence of questions.
pub open spec fn questions_view(qs: Seq<Question>) -> Seq<SpecQuestion> {
    qs.map_values(|q: Question| q@)
}

impl View for Message {
    type V = SpecMessage;

    open spec fn view(&self) -> SpecMessage {
        SpecMessage {
            header: self.header,
            questions: questions_view(self.questions@),
            answers: records_view(self.answers@),
            authority: records_view(self.authority@),
            additional: records_view(self.additional@),
        }
    }
}

/// `count` questions from `pos`.
pub open spec fn spec_parse_questions(buf: Seq<u8>, pos: int, count: int) -> Result<
    (Seq<SpecQuestion>, int),
    ParseFailure,
>
    decreases count,
{
    if count <= 0 {
        Ok((seq![], pos))
    } else {
        match spec_parse_question(buf, pos) {
            Err(e) => Err(e),
            Ok((q, p)) => cons_ok(q, spec_parse_questions(buf, p, count - 1)),
        }
    }
}

/// `count` resource records from `pos`.
pub open spec fn spec_parse_records(buf: Seq<u8>, pos: int, count: int) -> Result<
    (Seq<SpecRecord>, int),
    ParseFailure,
>
    decreases count,
{
    if count <= 0 {
        Ok((seq![], pos))
    } else {
        match spec_parse_record(buf, pos) {
            Err(e) => Err(e),
            Ok((rr, p)) => cons_ok(rr, spec_parse_records(buf, p, count - 1)),
        }
    }
}

/// The message in `buf`: a header, then as many entries in each section as
/// the header counts. Bytes after the last record are ignored.
pub open spec fn spec_parse_message(buf: Seq<u8>) -> Result<SpecMessage, ParseFailure> {
    match spec_parse_header(buf, 0) {
        Err(e) => Err(e),
        Ok((header, p0)) => match spec_parse_questions(buf, p0, header.qd_count as int) {
            Err(e) => Err(e),
            Ok((questions, p1)) => match spec_parse_records(buf, p1, header.an_count as int) {
                Err(e) => Err(e),
                Ok((answers, p2)) => match spec_parse_records(buf, p2, header.ns_count as int) {
                    Err(e) => Err(e),
                    Ok((authority, p3)) => match spec_parse_records(
                        buf,
                        p3,
                        header.ar_count as int,
                    ) {
                        Err(e) => Err(e),
                        Ok((additional, _)) => Ok(
                            SpecMessage { header, questions, answers, authority, additional },
                        ),
                    },
                },
            },
        },
    }
}

/// Writes the questions `qs` in order from offset `pos`.
pub open spec fn spec_write_questions(pos: int, offs: Offsets, qs: Seq<SpecQuestion>) -> Result<
    (Seq<u8>, Offsets),
    WriteError,
>
    decreases qs.len(),
{
    if qs.len() == 0 {
        Ok((seq![], offs))
    } else {
        match spec_write_question(pos, offs, qs[0]) {
            Err(e) => Err(e),
            Ok((b, o)) => after(b, spec_write_questions(pos + b.len(), o, qs.drop_first())),
        }
    }
}

/// Writes the records `rs` in order from offset `pos`.
pub open spec fn spec_write_records(pos: int, offs: Offsets, rs: Seq<SpecRecord>) -> Result<
    (Seq<u8>, Offsets),
    WriteError,
>
    decreases rs.len(),
{
    if rs.len() == 0 {
        Ok((seq![], offs))
    } else {
        match spec_write_record(pos, offs, rs[0]) {
            Err(e) => Err(e),
            Ok((b, o)) => after(b, spec_write_records(pos + b.len(), o, rs.drop_first())),
        }
    }
}

/// The wire bytes of `m`: its header as it stands, then the four sections
/// in order, names compressed against everything written before them.
pub open spec fn spec_message_bytes(m: SpecMessage) -> Result<Seq<u8>, WriteError> {
    let hb = header_bytes(m.header);
    match spec_write_questions(12, seq![], m.questions) {
        Err(e) => Err(e),
        Ok((qb, o1)) => match spec_write_records(12 + qb.len() as int, o1, m.answers) {
            Err(e) => Err(e),
            Ok((ab, o2)) => match spec_write_records(12 + qb.len() + ab.len() as int, o2, m.authority) {
                Err(e) => Err(e),
                Ok((nb, o3)) => match spec_write_records(
                    12 + qb.len() + ab.len() + nb.len() as int,
                    o3,
                    m.additional,
                ) {
                    Err(e) => Err(e),
                    Ok((xb, _)) => Ok(hb + qb + ab + nb + xb),
                },
            },
        },
    }
}

/// The wire bytes of a message begin with its 12-byte header.
pub proof fn lemma_message_bytes_len(m: SpecMessage)
    ensures
        spec_message_bytes(m) matches Ok(b) ==> b.len() >= 12,
{
}

/// The index of the first OPT record in `rs`, or `rs.len()` if there is none.
pub open spec fn first_opt_index(rs: Seq<SpecRecord>) -> int
    decreases rs.len(),
{
    if rs.len() == 0 {
        0
    } else if spec_is_opt(rs[0].rdata) {
        0
    } else {
        1 + first_opt_index(rs.drop_first())
    }
}

pub proof fn lemma_first_opt_index(rs: Seq<SpecRecord>)
    ensures
        0 <= first_opt_index(rs) <= rs.len(),
        first_opt_index(rs) < rs.len() ==> spec_is_opt(rs[first_opt_index(rs)].rdata),
        forall|i: int| 0 <= i < first_opt_index(rs) ==> !spec_is_opt(#[trigger] rs[i].rdata),
    decreases rs.len(),
{
    if rs.len() > 0 && !spec_is_opt(rs[0].rdata) {
        lemma_first_opt_index(rs.drop_first());
        assert forall|i: int| 0 <= i < first_opt_index(rs) implies !spec_is_opt(
            #[trigger] rs[i].rdata,
        ) by {
            if i > 0 {
                assert(rs[i] == rs.drop_first()[i - 1]);
            }
        }
    }
}

/// Reads `count` questions.
fn parse_questions(r: &mut Reader, count: u16) -> (res: Result<Vec<Question>, ParseError>)
    ensures
        final(r).spec_buf() == old(r).spec_buf(),
        match spec_parse_questions(old(r).spec_buf(), old(r).spec_pos() as int, count as int) {
            Ok((qs, end)) => {
                &&& res matches Ok(v) && questions_view(v@) == qs
                &&& final(r).spec_pos() as int == end
            },
            Err(e) => res matches Err(err) && err.kind() == e,
        },
{
    let ghost buf = r.spec_buf();
    let ghost start: int = r.spec_pos() as int;
    let mut v: Vec<Question> = Vec::new();
    let mut i: u16 = 0;
    assert(questions_view(v@) =~= Seq::<SpecQuestion>::empty());
    proof {
        if let Ok((qs, end)) = spec_parse_questions(buf, start, count as int) {
            assert(Seq::<SpecQuestion>::empty() + qs =~= qs);
        }
    }
    while i < count
        invariant
            0 <= i <= count,
            r.spec_buf() == buf,
            buf == old(r).spec_buf(),
            start == old(r).spec_pos() as int,
            spec_parse_questions(buf, start, count as int) == prepend_ok(
                questions_view(v@),
                spec_parse_questions(buf, r.spec_pos() as int, (count - i) as int),
            ),
        decreases count - i,
    {
        let ghost before = questions_view(v@);
        let q = Question::parse(r)?;
        let ghost qv = q@;
        v.push(q);
        proof {
            assert(questions_view(v@) =~= before.push(qv));
            lemma_prepend_cons(
                before,
                qv,
                spec_parse_questions(buf, r.spec_pos() as int, (count - i - 1) as int),
            );
        }
        i = i + 1;
    }
    assert(questions_view(v@) + Seq::<SpecQuestion>::empty() =~= questions_view(v@));
    Ok(v)
}

/// Reads `count` resource records.
fn parse_records(r: &mut Reader, count: u16) -> (res: Result<Vec<ResourceRecord>, ParseError>)
    ensures
        final(r).spec_buf() == old(r).spec_buf(),
        match spec_parse_records(old(r).spec_buf(), old(r).spec_pos() as int, count as int) {
            Ok((rs, end)) => {
                &&& res matches Ok(v) && records_view(v@) == rs
                &&& final(r).spec_pos() as int == end
            },
            Err(e) => res matches Err(err) && err.kind() == e,
        },
{
    let ghost buf = r.spec_buf();
    let ghost start: int = r.spec_pos() as int;
    let mut v: Vec<ResourceRecord> = Vec::new();
    let mut i: u16 = 0;
    assert(records_view(v@) =~= Seq::<SpecRecord>::empty());
    proof {
        if let Ok((rs, end)) = spec_parse_records(buf, start, count as int) {
            assert(Seq::<SpecRecord>::empty() + rs =~= rs);
        }
    }
    while i < count
        invariant
            0 <= i <= count,
            r.spec_buf() == buf,
            buf == old(r).spec_buf(),
            start == old(r).spec_pos() as int,
            spec_parse_records(buf, start, count as int) == prepend_ok(
                records_view(v@),
                spec_parse_records(buf, r.spec_pos() as int, (count - i) as int),
            ),
        decreases count - i,
    {
        let ghost before = records_view(v@);
        let rr = ResourceRecord::parse(r)?;
        let ghost rv = rr@;
        v.push(rr);
        proof {
            assert(records_view(v@) =~= before.push(rv));
            lemma_prepend_cons(
                before,
                rv,
                spec_parse_records(buf, r.spec_pos() as int, (count - i - 1) as int),
            );
        }
        i = i + 1;
    }
    assert(records_view(v@) + Seq::<SpecRecord>::empty() =~= records_view(v@));
    Ok(v)
}

/// Writes the questions `qs` in order.
fn write_questions(w: &mut Writer, qs: &Vec<Question>) -> (res: Result<(), WriteError>)
    ensures
        match spec_write_questions(
            old(w).spec_buf().len() as int,
            old(w).spec_offsets(),
            questions_view(qs@),
        ) {
            Ok((bytes, offs)) => {
                &&& res is Ok
                &&& final(w).spec_buf() == old(w).spec_buf() + bytes
                &&& final(w).spec_offsets() == offs
            },
            Err(e) => res == Err::<(), WriteError>(e),
        },
{
    let ghost all = questions_view(qs@);
    let ghost buf0 = w.spec_buf();
    let mut i: usize = 0;
    assert(all.subrange(0, all.len() as int) =~= all);
    assert(w.spec_buf().subrange(buf0.len() as int, w.spec_buf().len() as int) =~= Seq::<u8>::empty());
    assert(w.spec_buf().subrange(0, buf0.len() as int) =~= buf0);
    proof {
        if let Ok((b, o)) = spec_write_questions(buf0.len() as int, old(w).spec_offsets(), all) {
            assert(Seq::<u8>::empty() + b =~= b);
        }
    }
    while i < qs.len()
        invariant
            0 <= i <= qs@.len(),
            all == questions_view(qs@),
            buf0 == old(w).spec_buf(),
            w.spec_buf().len() >= buf0.len(),
            w.spec_buf().subrange(0, buf0.len() as int) == buf0,
            spec_write_questions(buf0.len() as int, old(w).spec_offsets(), all) == after(
                w.spec_buf().subrange(buf0.len() as int, w.spec_buf().len() as int),
                spec_write_questions(
                    w.spec_buf().len() as int,
                    w.spec_offsets(),
                    all.subrange(i as int, all.len() as int),
                ),
            ),
        decreases qs.len() - i,
    {
        let ghost cur = w.spec_buf();
        let ghost cur_offs = w.spec_offsets();
        let ghost rest = all.subrange(i as int, all.len() as int);
        assert(rest[0] == qs@[i as int]@);
        assert(rest.drop_first() =~= all.subrange(i + 1, all.len() as int));
        qs[i].write(w)?;
        let ghost b = w.spec_buf().subrange(cur.len() as int, w.spec_buf().len() as int);
        assert(w.spec_buf() =~= cur + b);
        proof {
            let r1 = spec_write_question(cur.len() as int, cur_offs, rest[0]);
            assert(r1 is Ok);
            let bytes = r1->Ok_0.0;
            assert(w.spec_buf() == cur + bytes);
            assert(bytes =~= b);
        }
        assert(spec_write_question(cur.len() as int, cur_offs, rest[0]) == Ok::<(Seq<u8>, Offsets), WriteError>(
            (b, w.spec_offsets()),
        ));
        assert(spec_write_questions(cur.len() as int, cur_offs, rest) == after(
            b,
            spec_write_questions(
                w.spec_buf().len() as int,
                w.spec_offsets(),
                all.subrange(i + 1, all.len() as int),
            ),
        ));
        assert(w.spec_buf().subrange(buf0.len() as int, w.spec_buf().len() as int) =~= cur.subrange(
            buf0.len() as int,
            cur.len() as int,
        ) + b);
        assert(w.spec_buf().subrange(0, buf0.len() as int) =~= buf0);
        proof {
            lemma_after_after(
                cur.subrange(buf0.len() as int, cur.len() as int),
                b,
                spec_write_questions(
                    w.spec_buf().len() as int,
                    w.spec_offsets(),
                    all.subrange(i + 1, all.len() as int),
                ),
            );
        }
        i = i + 1;
    }
    assert(all.subrange(i as int, all.len() as int) =~= Seq::<SpecQuestion>::empty());
    assert(w.spec_buf() =~= buf0 + w.spec_buf().subrange(buf0.len() as int, w.spec_buf().len() as int));
    assert(w.spec_buf().subrange(buf0.len() as int, w.spec_buf().len() as int) + Seq::<u8>::empty()
        =~= w.spec_buf().subrange(buf0.len() as int, w.spec_buf().len() as int));
    Ok(())
}

/// Writes the records `rs` in order.
fn write_records(w: &mut Writer, rs: &Vec<ResourceRecord>) -> (res: Result<(), WriteError>)
    ensures
        match spec_write_records(
            old(w).spec_buf().len() as int,
            old(w).spec_offsets(),
            records_view(rs@),
        ) {
            Ok((bytes, offs)) => {
                &&& res is Ok
                &&& final(w).spec_buf() == old(w).spec_buf() + bytes
                &&& final(w).spec_offsets() == offs
            },
            Err(e) => res == Err::<(), WriteError>(e),
        },
{
    let ghost all = records_view(rs@);
    let ghost buf0 = w.spec_buf();
    let mut i: usize = 0;
    assert(all.subrange(0, all.len() as int) =~= all);
    assert(w.spec_buf().subrange(buf0.len() as int, w.spec_buf().len() as int) =~= Seq::<u8>::empty());
    assert(w.spec_buf().subrange(0, buf0.len() as int) =~= buf0);
    proof {
        if let Ok((b, o)) = spec_write_records(buf0.len() as int, old(w).spec_offsets(), all) {
            assert(Seq::<u8>::empty() + b =~= b);
        }
    }
    while i < rs.len()
        invariant
            0 <= i <= rs@.len(),
            all == records_view(rs@),
            buf0 == old(w).spec_buf(),
            w.spec_buf().len() >= buf0.len(),
            w.spec_buf().subrange(0, buf0.len() as int) == buf0,
            spec_write_records(buf0.len() as int, old(w).spec_offsets(), all) == after(
                w.spec_buf().subrange(buf0.len() as int, w.spec_buf().len() as int),
                spec_write_records(
                    w.spec_buf().len() as int,
                    w.spec_offsets(),
                    all.subrange(i as int, all.len() as int),
                ),
            ),
        decreases rs.len() - i,
    {
        let ghost cur = w.spec_buf();
        let ghost cur_offs = w.spec_offsets();
        let ghost rest = all.subrange(i as int, all.len() as int);
        assert(rest[0] == rs@[i as int]@);
        assert(rest.drop_first() =~= all.subrange(i + 1, all.len() as int));
        rs[i].write(w)?;
        let ghost b = w.spec_buf().subrange(cur.len() as int, w.spec_buf().len() as int);
        assert(w.spec_buf() =~= cur + b);
        proof {
            let r1 = spec_write_record(cur.len() as int, cur_offs, rest[0]);
            assert(r1 is Ok);
            let bytes = r1->Ok_0.0;
            assert(w.spec_buf() == cur + bytes);
            assert(bytes =~= b);
        }
        assert(spec_write_record(cur.len() as int, cur_offs, rest[0]) == Ok::<(Seq<u8>, Offsets), WriteError>(
            (b, w.spec_offsets()),
        ));
        assert(spec_write_records(cur.len() as int, cur_offs, rest) == after(
            b,
            spec_write_records(
                w.spec_buf().len() as int,
                w.spec_offsets(),
                all.subrange(i + 1, all.len() as int),
            ),
        ));
        assert(w.spec_buf().subrange(buf0.len() as int, w.spec_buf().len() as int) =~= cur.subrange(
            buf0.len() as int,
            cur.len() as int,
        ) + b);
        assert(w.spec_buf().subrange(0, buf0.len() as int) =~= buf0);
        proof {
            lemma_after_after(
                cur.subrange(buf0.len() as int, cur.len() as int),
                b,
                spec_write_records(
                    w.spec_buf().len() as int,
                    w.spec_offsets(),
                    all.subrange(i + 1, all.len() as int),
                ),
            );
        }
        i = i + 1;
    }
    assert(all.subrange(i as int, all.len() as int) =~= Seq::<SpecRecord>::empty());
    assert(w.spec_buf() =~= buf0 + w.spec_buf().subrange(buf0.len() as int, w.spec_buf().len() as int));
    assert(w.spec_buf().subrange(buf0.len() as int, w.spec_buf().len() as int) + Seq::<u8>::empty()
        =~= w.spec_buf().subrange(buf0.len() as int, w.spec_buf().len() as int));
    Ok(())
}

/// A copy of a sequence of questions.
pub fn copy_questions(qs: &Vec<Question>) -> (r: Vec<Question>)
    ensures
        questions_view(r@) == questions_view(qs@),
{
    let mut out: Vec<Question> = Vec::new();
    let mut i: usize = 0;
    while i < qs.len()
        invariant
            i <= qs@.len(),
            questions_view(out@) == questions_view(qs@.subrange(0, i as int)),
        decreases qs.len() - i,
    {
        let ghost prev = out@;
        let q = qs[i].duplicate();
        out.push(q);
        assert(questions_view(out@) =~= questions_view(prev).push(qs@[i as int]@));
        assert(questions_view(qs@.subrange(0, i + 1)) =~= questions_view(qs@.subrange(0, i as int)).push(
            qs@[i as int]@,
        ));
        i = i + 1;
    }
    assert(qs@.subrange(0, i as int) =~= qs@);
    out
}

/// A copy of a sequence of records.
pub fn copy_records(rs: &Vec<ResourceRecord>) -> (r: Vec<ResourceRecord>)
    ensures
        records_view(r@) == records_view(rs@),
{
    let mut out: Vec<ResourceRecord> = Vec::new();
    let mut i: usize = 0;
    while i < rs.len()
        invariant
            i <= rs@.len(),
            records_view(out@) == records_view(rs@.subrange(0, i as int)),
        decreases rs.len() - i,
    {
        let ghost prev = out@;
        let r = rs[i].duplicate();
        out.push(r);
        assert(records_view(out@) =~= records_view(prev).push(rs@[i as int]@));
        assert(records_view(rs@.subrange(0, i + 1)) =~= records_view(rs@.subrange(0, i as int)).push(
            rs@[i as int]@,
        ));
        i = i + 1;
    }
    assert(rs@.subrange(0, i as int) =~= rs@);
    out
}

impl Default for Message {
    fn default() -> (r: Message)
        ensures
            r@.header == Header::empty(),
            r@.questions == Seq::<SpecQuestion>::empty(),
            r@.answers == Seq::<SpecRecord>::empty(),
            r@.authority == Seq::<SpecRecord>::empty(),
            r@.additional == Seq::<SpecRecord>::empty(),
    {
        Message::empty()
    }
}

impl Message {
    /// A copy of this message.
    pub fn duplicate(&self) -> (r: Message)
        ensures
            r@ == self@,
    {
        Message {
            header: self.header,
            questions: copy_questions(&self.questions),
            answers: copy_records(&self.answers),
            authority: copy_records(&self.authority),
            additional: copy_records(&self.additional),
        }
    }

    /// The message with an all-zero header and empty sections.
    pub fn empty() -> (r: Message)
        ensures
            r@.header == Header::empty(),
            r@.questions == Seq::<SpecQuestion>::empty(),
            r@.answers == Seq::<SpecRecord>::empty(),
            r@.authority == Seq::<SpecRecord>::empty(),
            r@.additional == Seq::<SpecRecord>::empty(),
    {
        let m = Message {
            header: Header::default(),
            questions: Vec::new(),
            answers: Vec::new(),
            authority: Vec::new(),
            additional: Vec::new(),
        };
        assert(m@.questions =~= Seq::<SpecQuestion>::empty());
        assert(m@.answers =~= Seq::<SpecRecord>::empty());
        assert(m@.authority =~= Seq::<SpecRecord>::empty());
        assert(m@.additional =~= Seq::<SpecRecord>::empty());
        m
    }

    /// Parses a complete message.
    pub fn parse(buf: Vec<u8>) -> (res: Result<Self, ParseError>)
        ensures
            match spec_parse_message(buf@) {
                Ok(m) => res matches Ok(v) && v@ == m,
                Err(e) => res matches Err(err) && err.kind() == e,
            },
    {
        let mut r = Reader::new(buf);
        let header = Header::parse(&mut r)?;
        let questions = parse_questions(&mut r, header.qd_count)?;
        let answers = parse_records(&mut r, header.an_count)?;
        let authority = parse_records(&mut r, header.ns_count)?;
        let additional = parse_records(&mut r, header.ar_count)?;
        Ok(Message { header, questions, answers, authority, additional })
    }

    fn build_writer(&self) -> (res: Result<Writer, WriteError>)
        ensures
            match spec_message_bytes(self@) {
                Ok(bytes) => res matches Ok(w) && w.spec_buf() == bytes,
                Err(e) => res matches Err(err) && err == e,
            },
    {
        let mut w = Writer::new();
        self.header.write(&mut w);
        assert(w.spec_buf() =~= header_bytes(self.header));
        write_questions(&mut w, &self.questions)?;
        write_records(&mut w, &self.answers)?;
        write_records(&mut w, &self.authority)?;
        write_records(&mut w, &self.additional)?;
        Ok(w)
    }

    /// Serializes the message.
    pub fn to_bytes(&self) -> (res: Result<Vec<u8>, WriteError>)
        ensures
            match spec_message_bytes(self@) {
                Ok(bytes) => res matches Ok(v) && v@ == bytes,
                Err(e) => res == Err::<Vec<u8>, WriteError>(e),
            },
    {
        Ok(self.build_writer()?.finish())
    }

    /// Serializes the message into a buffer that the caller may patch in
    /// place (e.g. rewriting the query ID) before sending.
    pub fn to_bytes_mut(&self) -> (res: Result<Vec<u8>, WriteError>)
        ensures
            match spec_message_bytes(self@) {
                Ok(bytes) => res matches Ok(v) && v@ == bytes,
                Err(e) => res == Err::<Vec<u8>, WriteError>(e),
            },
    {
        Ok(self.build_writer()?.into_inner())
    }

    /// The first EDNS(0) OPT record of the additional section, if any.
    pub fn opt(&self) -> (r: Option<&ResourceRecord>)
        ensures
            first_opt_index(self@.additional) < self@.additional.len() ==> (r matches Some(rr) && rr@
                == self@.additional[first_opt_index(self@.additional)]),
            first_opt_index(self@.additional) == self@.additional.len() ==> r is None,
    {
        proof {
            lemma_first_opt_index(self@.additional);
        }
        let n = self.additional.len();
        let mut i: usize = 0;
        while i < n
            invariant
                n == self.additional@.len(),
                0 <= i <= n,
                i <= first_opt_index(self@.additional),
                0 <= first_opt_index(self@.additional) <= n,
                first_opt_index(self@.additional) < n ==> spec_is_opt(
                    self@.additional[first_opt_index(self@.additional)].rdata,
                ),
                forall|j: int|
                    0 <= j < first_opt_index(self@.additional) ==> !spec_is_opt(
                        #[trigger] self@.additional[j].rdata,
                    ),
            decreases n - i,
        {
            assert(self@.additional[i as int] == self.additional@[i as int]@);
            if self.additional[i].is_opt() {
                return Some(&self.additional[i]);
            }
            i = i + 1;
        }
        None
    }
}

impl TryFrom<&[u8]> for Message {
    type Error = ParseError;

    fn try_from(buf: &[u8]) -> (r: Result<Self, Self::Error>)
        ensures
            match spec_parse_message(buf@) {
                Ok(m) => r matches Ok(v) && v@ == m,
                Err(e) => r matches Err(err) && err.kind() == e,
            },
    {
        Message::parse(vstd::slice::slice_to_vec(buf))
    }
}

impl vstd::std_specs::convert::TryFromSpecImpl<&[u8]> for Message {
    open spec fn obeys_try_from_spec() -> bool {
        false
    }

    open spec fn try_from_spec(v: &[u8]) -> Result<Self, ParseError> {
        arbitrary()
    }
}

} // verus!
