//! Names written with compression read back as the names written.

use vstd::prelude::*;
use vstd::utf8::*;

use crate::proto::error::ParseFailure;
use crate::proto::reader::{append_label, dot, read_name_from, spec_read_name};
use crate::proto::wire::u16_bytes;
use crate::proto::writer::{
    after, label_end, lemma_label_end_bounds, lookup_offset, spec_write_name, trim_dots,
    write_labels, Offsets,
};

verus! {

/// Every label of `t` from the one starting at `i` is 1 to 63 bytes long.
pub open spec fn labels_ok(t: Seq<u8>, i: int) -> bool
    decreases t.len() - i,
{
    if i < 0 || i >= t.len() {
        false
    } else {
        let e = label_end(t, i);
        &&& 1 <= e - i <= 63
        &&& (e >= t.len() || {
            proof {
                lemma_label_end_bounds(t, i);
            }
            labels_ok(t, e + 1)
        })
    }
}

/// The text of a name that can be written and read back: at most 253
/// bytes, and either the root (empty) or labels of 1 to 63 bytes separated
/// by single dots.
pub open spec fn wf_name_text(t: Seq<u8>) -> bool {
    t.len() <= 253 && (t.len() == 0 || labels_ok(t, 0))
}

/// A name that can be written and read back.
pub open spec fn wf_name(n: Seq<char>) -> bool {
    wf_name_text(encode_utf8(n))
}

/// Reading at `p` after a pointer gives the suffix `t` appended to whatever
/// was read before, with the resume position unchanged, as long as the
/// pointer budget and the length limit allow.
pub open spec fn readable_at(b: Seq<u8>, p: int, t: Seq<u8>) -> bool {
    &&& 0 <= p < b.len()
    &&& p <= 0x3FFF
    &&& forall|j: int, acc: Seq<u8>, r: int|
        0 <= j && 2 * j + t.len() + 1 <= 256 && append_label(acc, t).len() <= 253 ==> #[trigger] read_name_from(
            b,
            p,
            true,
            j,
            acc,
            r,
        ) == Ok::<(Seq<u8>, int), ParseFailure>((append_label(acc, t), r))
}

/// Reading at `p`, after a pointer or not, gives the name `t`; without a
/// pointer it ends at `end`.
pub open spec fn reads_as(b: Seq<u8>, p: int, t: Seq<u8>, end: int) -> bool {
    forall|jd: bool, j: int, acc: Seq<u8>, r: int|
        0 <= j && 2 * j + t.len() + 3 <= 256 && append_label(acc, t).len() <= 253 ==> #[trigger] read_name_from(
            b,
            p,
            jd,
            j,
            acc,
            r,
        ) == Ok::<(Seq<u8>, int), ParseFailure>(
            (append_label(acc, t), if jd {
                r
            } else {
                end
            }),
        )
}

/// Every entry of the compression table points at its suffix in `b`.
#[verifier::opaque]
pub open spec fn table_ok(b: Seq<u8>, offs: Offsets) -> bool {
    forall|k: int| 0 <= k < offs.len() ==> readable_at(b, offs[k].1 as int, #[trigger] offs[k].0)
}

/// An entry of the table found by lookup is one of its entries.
proof fn lemma_lookup_found(offs: Offsets, key: Seq<u8>)
    ensures
        lookup_offset(offs, key) matches Some(p) ==> exists|k: int|
            0 <= k < offs.len() && #[trigger] offs[k] == (key, p),
    decreases offs.len(),
{
    if offs.len() > 0 && offs[0].0 != key {
        lemma_lookup_found(offs.drop_first(), key);
        if let Some(p) = lookup_offset(offs, key) {
            let k = choose|k: int| 0 <= k < offs.drop_first().len() && #[trigger] offs.drop_first()[k] == (key, p);
            assert(offs[k + 1] == (key, p));
        }
    } else if offs.len() > 0 {
        assert(offs[0] == (key, offs[0].1));
    }
}

/// Appending a label and then more labels appends them joined by a dot.
proof fn lemma_append_label_assoc(acc: Seq<u8>, label: Seq<u8>, rest: Seq<u8>)
    requires
        label.len() > 0,
        rest.len() > 0,
    ensures
        append_label(append_label(acc, label), rest) == append_label(acc, label + dot() + rest),
        append_label(acc, label).len() <= append_label(acc, label + dot() + rest).len(),
{
    if acc.len() == 0 {
    } else {
        assert(acc + dot() + label + dot() + rest =~= acc + dot() + (label + dot() + rest));
    }
}

/// A pointer to `ptr` is read as a jump to `ptr`.
proof fn lemma_pointer_bytes(ptr: u16)
    requires
        ptr <= 0x3FFF,
    ensures
        u16_bytes(0xC000u16 | ptr)[0] >= 0xC0,
        (u16_bytes(0xC000u16 | ptr)[0] - 0xC0) * 256 + u16_bytes(0xC000u16 | ptr)[1] == ptr,
        u16_bytes(0xC000u16 | ptr).len() == 2,
{
    assert((0xC000u16 | ptr) == 0xC000u16 + ptr) by (bit_vector)
        requires
            ptr <= 0x3FFFu16,
    ;
}

/// A label between dots (or the ends) of valid UTF-8 text is valid UTF-8.
proof fn lemma_label_valid(t: Seq<u8>, i: int, e: int)
    requires
        valid_utf8(t),
        0 <= i <= e <= t.len(),
        i == 0 || t[i - 1] == 0x2Eu8,
        e == t.len() || t[e] == 0x2Eu8,
    ensures
        valid_utf8(t.subrange(i, e)),
{
    let tail = t.subrange(i, t.len() as int);
    if i == 0 {
        assert(tail =~= t);
    } else {
        is_char_boundary_iff_not_is_continuation_byte(t, i - 1);
        valid_utf8_split(t, i - 1);
        let u = t.subrange(i - 1, t.len() as int);
        assert(u[0] == 0x2Eu8);
        reveal_with_fuel(valid_utf8, 2);
        assert(pop_first_scalar(u) =~= tail);
    }
    assert(valid_utf8(tail));
    if e == t.len() {
        assert(tail.subrange(0, e - i) =~= t.subrange(i, e));
        is_char_boundary_start_end_of_seq(tail);
        assert(tail.subrange(0, tail.len() as int) =~= tail);
    } else {
        is_char_boundary_iff_not_is_continuation_byte(tail, e - i);
        valid_utf8_split(tail, e - i);
        assert(tail.subrange(0, e - i) =~= t.subrange(i, e));
    }
}

/// Well-formed labels are written without error, into at most two bytes
/// more than their text.
pub proof fn lemma_write_labels_ok(pos: int, offs: Offsets, s: Seq<u8>, i: int)
    requires
        labels_ok(s, i),
        i == 0 || s[i - 1] == 0x2Eu8,
    ensures
        write_labels(pos, offs, s, i) is Ok,
        write_labels(pos, offs, s, i)->Ok_0.0.len() <= s.len() - i + 2,
        write_labels(pos, offs, s, i)->Ok_0.0.len() >= 2,
    decreases s.len() - i,
{
    lemma_label_end_bounds(s, i);
    let suffix = s.subrange(i, s.len() as int);
    if let None = lookup_offset(offs, suffix) {
        let offs1 = if pos <= 0x3FFF {
            offs.push((suffix, pos as u16))
        } else {
            offs
        };
        let e = label_end(s, i);
        if e < s.len() {
            let here_len = 1 + (e - i);
            lemma_write_labels_ok(pos + here_len, offs1, s, e + 1);
        }
    }
}

/// The text of a well-formed name has no trailing dot.
proof fn lemma_labels_no_trailing_dot(t: Seq<u8>, i: int)
    requires
        labels_ok(t, i),
    ensures
        t[t.len() - 1] != 0x2Eu8,
    decreases t.len() - i,
{
    lemma_label_end_bounds(t, i);
    let e = label_end(t, i);
    if e < t.len() {
        lemma_labels_no_trailing_dot(t, e + 1);
    }
}

/// A pointer to an entry of the table reads as the entry's suffix.
proof fn lemma_read_pointer(b: Seq<u8>, pos: int, ptr: u16, suffix: Seq<u8>)
    requires
        0 <= pos,
        pos + 2 <= b.len(),
        readable_at(b, ptr as int, suffix),
        b.subrange(pos, pos + 2) == u16_bytes(0xC000u16 | ptr),
    ensures
        reads_as(b, pos, suffix, pos + 2),
{
    lemma_pointer_bytes(ptr);
    assert(b[pos] == b.subrange(pos, pos + 2)[0]);
    assert(b[pos + 1] == b.subrange(pos, pos + 2)[1]);
    assert forall|jd: bool, j: int, acc: Seq<u8>, r: int|
        0 <= j && 2 * j + suffix.len() + 3 <= 256 && append_label(acc, suffix).len()
            <= 253 implies #[trigger] read_name_from(b, pos, jd, j, acc, r) == Ok::<
        (Seq<u8>, int),
        ParseFailure,
    >((append_label(acc, suffix), if jd {
        r
    } else {
        pos + 2
    })) by {
        assert(read_name_from(b, pos, jd, j, acc, r) == read_name_from(
            b,
            ptr as int,
            true,
            j + 1,
            acc,
            if jd {
                r
            } else {
                pos + 2
            },
        ));
    }
}

/// A last label followed by the root reads as that label.
proof fn lemma_read_last_label(b: Seq<u8>, pos: int, label: Seq<u8>)
    requires
        0 <= pos,
        1 <= label.len() <= 63,
        valid_utf8(label),
        pos + label.len() + 2 <= b.len(),
        b.subrange(pos, pos + label.len() + 2) == seq![label.len() as u8] + label + seq![0u8],
    ensures
        reads_as(b, pos, label, pos + label.len() + 2),
        pos <= 0x3FFF ==> readable_at(b, pos, label),
{
    let bytes = seq![label.len() as u8] + label + seq![0u8];
    assert(b[pos] == label.len()) by {
        assert(b.subrange(pos, pos + bytes.len())[0] == bytes[0]);
    }
    assert(b.subrange(pos + 1, pos + 1 + label.len()) =~= label) by {
        assert forall|x: int| 0 <= x < label.len() implies b.subrange(
            pos + 1,
            pos + 1 + label.len(),
        )[x] == label[x] by {
            assert(b.subrange(pos, pos + bytes.len())[1 + x] == bytes[1 + x]);
        }
    }
    assert(b[pos + 1 + label.len()] == 0) by {
        assert(b.subrange(pos, pos + bytes.len())[1 + label.len() as int] == bytes[1
            + label.len() as int]);
    }
    assert forall|jd: bool, j: int, acc: Seq<u8>, r: int|
        0 <= j && 2 * j + label.len() + 1 <= 256 && append_label(acc, label).len()
            <= 253 implies #[trigger] read_name_from(b, pos, jd, j, acc, r) == Ok::<
        (Seq<u8>, int),
        ParseFailure,
    >((append_label(acc, label), if jd {
        r
    } else {
        pos + bytes.len()
    })) by {
        assert(read_name_from(b, pos, jd, j, acc, r) == read_name_from(
            b,
            pos + 1 + label.len(),
            jd,
            j,
            append_label(acc, label),
            r,
        ));
    }
}

/// A label followed by names that read as `rest` reads as the label, a dot
/// and `rest`.
proof fn lemma_read_label_then(b: Seq<u8>, pos: int, label: Seq<u8>, rest: Seq<u8>, end: int)
    requires
        0 <= pos,
        1 <= label.len() <= 63,
        rest.len() > 0,
        valid_utf8(label),
        pos + label.len() + 1 <= b.len(),
        b.subrange(pos, pos + label.len() + 1) == seq![label.len() as u8] + label,
        reads_as(b, pos + label.len() + 1, rest, end),
    ensures
        reads_as(b, pos, label + dot() + rest, end),
        pos <= 0x3FFF ==> readable_at(b, pos, label + dot() + rest),
{
    let here = seq![label.len() as u8] + label;
    let t = label + dot() + rest;
    let next = pos + label.len() + 1;
    assert(b[pos] == label.len()) by {
        assert(b.subrange(pos, pos + here.len())[0] == here[0]);
    }
    assert(b.subrange(pos + 1, pos + 1 + label.len()) =~= label) by {
        assert forall|x: int| 0 <= x < label.len() implies b.subrange(
            pos + 1,
            pos + 1 + label.len(),
        )[x] == label[x] by {
            assert(b.subrange(pos, pos + here.len())[1 + x] == here[1 + x]);
        }
    }
    assert forall|jd: bool, j: int, acc: Seq<u8>, r: int|
        0 <= j && 2 * j + t.len() + 1 <= 256 && append_label(acc, t).len()
            <= 253 implies #[trigger] read_name_from(b, pos, jd, j, acc, r) == Ok::<
        (Seq<u8>, int),
        ParseFailure,
    >((append_label(acc, t), if jd {
        r
    } else {
        end
    })) by {
        lemma_append_label_assoc(acc, label, rest);
        assert(read_name_from(b, pos, jd, j, acc, r) == read_name_from(
            b,
            next,
            jd,
            j,
            append_label(acc, label),
            r,
        ));
    }
}

/// Labels written with compression read back as their text, and every
/// suffix they add to the table points at its text.
pub proof fn lemma_labels_read_back(b: Seq<u8>, pos: int, offs: Offsets, s: Seq<u8>, i: int)
    requires
        0 <= pos,
        s.len() <= 253,
        valid_utf8(s),
        labels_ok(s, i),
        i == 0 || s[i - 1] == 0x2Eu8,
        forall|k: int|
            0 <= k < offs.len() && (#[trigger] offs[k]).0.len() <= s.len() - i ==> readable_at(
                b,
                offs[k].1 as int,
                offs[k].0,
            ),
        write_labels(pos, offs, s, i) is Ok,
        pos + write_labels(pos, offs, s, i)->Ok_0.0.len() <= b.len(),
        b.subrange(pos, pos + write_labels(pos, offs, s, i)->Ok_0.0.len())
            == write_labels(pos, offs, s, i)->Ok_0.0,
    ensures
        ({
            let (bytes, offs2) = write_labels(pos, offs, s, i)->Ok_0;
            &&& offs2.len() >= offs.len()
            &&& offs2.subrange(0, offs.len() as int) == offs
            &&& forall|k: int|
                offs.len() <= k < offs2.len() ==> readable_at(
                    b,
                    offs2[k].1 as int,
                    #[trigger] offs2[k].0,
                )
            &&& reads_as(b, pos, s.subrange(i, s.len() as int), pos + bytes.len())
        }),
    decreases s.len() - i,
{
    lemma_label_end_bounds(s, i);
    let suffix = s.subrange(i, s.len() as int);
    let (bytes, offs2) = write_labels(pos, offs, s, i)->Ok_0;
    match lookup_offset(offs, suffix) {
        Some(ptr) => {
            lemma_lookup_found(offs, suffix);
            let k = choose|k: int| 0 <= k < offs.len() && #[trigger] offs[k] == (suffix, ptr);
            assert(readable_at(b, ptr as int, suffix));
            assert(offs2.subrange(0, offs.len() as int) =~= offs);
            lemma_read_pointer(b, pos, ptr, suffix);
        },
        None => {
            let offs1 = if pos <= 0x3FFF {
                offs.push((suffix, pos as u16))
            } else {
                offs
            };
            let e = label_end(s, i);
            let label = s.subrange(i, e);
            let here = seq![label.len() as u8] + label;
            lemma_label_valid(s, i, e);
            if e >= s.len() {
                assert(bytes == here + seq![0u8]);
                assert(label =~= suffix);
                assert(offs2 == offs1);
                assert(offs2.subrange(0, offs.len() as int) =~= offs);
                lemma_read_last_label(b, pos, label);
                if pos <= 0x3FFF {
                    assert(offs2[offs.len() as int] == (suffix, pos as u16));
                }
            } else {
                assert(labels_ok(s, e + 1));
                let rest = s.subrange(e + 1, s.len() as int);
                let next = pos + here.len();
                assert(suffix =~= label + dot() + rest);
                assert forall|k: int|
                    0 <= k < offs1.len() && (#[trigger] offs1[k]).0.len() <= s.len() - (e
                        + 1) implies readable_at(b, offs1[k].1 as int, offs1[k].0) by {
                    if k < offs.len() {
                        assert(offs1[k] == offs[k]);
                    }
                }
                let inner = write_labels(next, offs1, s, e + 1);
                assert(write_labels(pos, offs, s, i) == after(here, inner));
                let (rb, o2) = inner->Ok_0;
                assert(bytes == here + rb);
                assert(o2 == offs2);
                assert(b.subrange(next, next + rb.len()) =~= rb) by {
                    assert forall|x: int| 0 <= x < rb.len() implies b.subrange(next, next + rb.len())[x]
                        == rb[x] by {
                        assert(b.subrange(pos, pos + bytes.len())[here.len() + x] == bytes[here.len() + x]);
                    }
                }
                assert(b.subrange(pos, pos + here.len()) =~= here) by {
                    assert forall|x: int| 0 <= x < here.len() implies b.subrange(pos, pos + here.len())[x]
                        == here[x] by {
                        assert(b.subrange(pos, pos + bytes.len())[x] == bytes[x]);
                    }
                }
                lemma_labels_read_back(b, next, offs1, s, e + 1);
                lemma_read_label_then(b, pos, label, rest, next + rb.len());
                assert(offs2.subrange(0, offs.len() as int) =~= offs) by {
                    assert(offs2.subrange(0, offs1.len() as int) == offs1);
                    assert forall|x: int| 0 <= x < offs.len() implies offs2[x] == offs[x] by {
                        assert(offs2.subrange(0, offs1.len() as int)[x] == offs1[x]);
                    }
                }
                assert forall|k: int| offs.len() <= k < offs2.len() implies readable_at(
                    b,
                    offs2[k].1 as int,
                    #[trigger] offs2[k].0,
                ) by {
                    if k < offs1.len() {
                        assert(offs2[k] == (suffix, pos as u16)) by {
                            assert(offs2.subrange(0, offs1.len() as int)[k] == offs1[k]);
                        }
                    }
                }
            }
        },
    }
}

/// Reading back two big-endian bytes gives the integer they encode.
pub proof fn lemma_embedded_u16(b: Seq<u8>, p: int, v: u16)
    requires
        0 <= p,
        p + 2 <= b.len(),
        b.subrange(p, p + 2) == u16_bytes(v),
    ensures
        crate::proto::wire::be_u16_at(b, p) == v,
{
    assert(b[p] == b.subrange(p, p + 2)[0]);
    assert(b[p + 1] == b.subrange(p, p + 2)[1]);
}

/// Bytes embedded in `b` at `pos` split into their two parts.
pub proof fn lemma_embed_split(b: Seq<u8>, pos: int, x: Seq<u8>, y: Seq<u8>)
    requires
        0 <= pos,
        pos + x.len() + y.len() <= b.len(),
        b.subrange(pos, pos + x.len() + y.len()) == x + y,
    ensures
        b.subrange(pos, pos + x.len()) == x,
        b.subrange(pos + x.len(), pos + x.len() + y.len()) == y,
{
    assert forall|i: int| 0 <= i < x.len() implies b.subrange(pos, pos + x.len())[i] == x[i] by {
        assert(b.subrange(pos, pos + x.len() + y.len())[i] == (x + y)[i]);
    }
    assert forall|i: int| 0 <= i < y.len() implies b.subrange(
        pos + x.len(),
        pos + x.len() + y.len(),
    )[i] == y[i] by {
        let k = x.len() + i;
        assert(b.subrange(pos, pos + x.len() + y.len())[k] == (x + y)[k]);
        assert(b.subrange(pos, pos + x.len() + y.len())[k] == b[pos + k]);
        assert((x + y)[k] == y[i]);
    }
    assert(b.subrange(pos, pos + x.len()) =~= x);
    assert(b.subrange(pos + x.len(), pos + x.len() + y.len()) =~= y);
}

/// A well-formed name is written without error, into 1 to 255 bytes.
pub proof fn lemma_write_name_ok(pos: int, offs: Offsets, n: Seq<char>)
    requires
        wf_name(n),
    ensures
        spec_write_name(pos, offs, encode_utf8(n)) is Ok,
        1 <= spec_write_name(pos, offs, encode_utf8(n))->Ok_0.0.len() <= 255,
{
    let t = encode_utf8(n);
    if t.len() > 0 {
        lemma_labels_no_trailing_dot(t, 0);
        assert(trim_dots(t) == t);
        lemma_write_labels_ok(pos, offs, t, 0);
    } else {
        assert(trim_dots(t) == t);
    }
}

/// An empty table is sound in any buffer.
pub proof fn lemma_empty_table_ok(b: Seq<u8>)
    ensures
        table_ok(b, Seq::empty()),
{
    reveal(table_ok);
}

/// The table after writing a name keeps its old entries and is still sound.
proof fn lemma_table_extends(b: Seq<u8>, offs: Offsets, offs2: Offsets)
    requires
        table_ok(b, offs),
        offs2.len() >= offs.len(),
        offs2.subrange(0, offs.len() as int) == offs,
        forall|k: int|
            offs.len() <= k < offs2.len() ==> readable_at(b, offs2[k].1 as int, #[trigger] offs2[k].0),
    ensures
        table_ok(b, offs2),
{
    reveal(table_ok);
    assert forall|k: int| 0 <= k < offs2.len() implies readable_at(
        b,
        offs2[k].1 as int,
        #[trigger] offs2[k].0,
    ) by {
        if k < offs.len() {
            assert(offs2.subrange(0, offs.len() as int)[k] == offs[k]);
        }
    }
}

/// A well-formed name written with compression at `pos` of `b` reads back
/// as the same text, ending just after the bytes written, and the table
/// stays sound.
pub proof fn lemma_name_read_back(b: Seq<u8>, pos: int, offs: Offsets, n: Seq<char>)
    requires
        wf_name(n),
        table_ok(b, offs),
        0 <= pos,
        spec_write_name(pos, offs, encode_utf8(n)) is Ok,
        pos + spec_write_name(pos, offs, encode_utf8(n))->Ok_0.0.len() <= b.len(),
        b.subrange(pos, pos + spec_write_name(pos, offs, encode_utf8(n))->Ok_0.0.len())
            == spec_write_name(pos, offs, encode_utf8(n))->Ok_0.0,
    ensures
        spec_read_name(b, pos) == Ok::<(Seq<u8>, int), ParseFailure>(
            (encode_utf8(n), pos + spec_write_name(pos, offs, encode_utf8(n))->Ok_0.0.len()),
        ),
        table_ok(b, spec_write_name(pos, offs, encode_utf8(n))->Ok_0.1),
{
    reveal(table_ok);
    let t = encode_utf8(n);
    let (bytes, offs2) = spec_write_name(pos, offs, t)->Ok_0;
    encode_utf8_valid_utf8(n);
    if t.len() == 0 {
        assert(trim_dots(t) == t);
        assert(bytes == seq![0u8]);
        assert(b[pos] == 0) by {
            assert(b.subrange(pos, pos + 1)[0] == bytes[0]);
        }
        assert(t =~= Seq::<u8>::empty());
        assert(offs2 == offs);
    } else {
        lemma_labels_no_trailing_dot(t, 0);
        assert(trim_dots(t) == t);
        lemma_labels_read_back(b, pos, offs, t, 0);
        assert(t.subrange(0, t.len() as int) =~= t);
        assert(read_name_from(b, pos, false, 0, seq![], pos) == Ok::<(Seq<u8>, int), ParseFailure>(
            (append_label(seq![], t), pos + bytes.len()),
        ));
        lemma_table_extends(b, offs, offs2);
    }
}

/// `n` without its trailing '.' characters.
pub open spec fn trim_dot_chars(n: Seq<char>) -> Seq<char>
    decreases n.len(),
{
    if n.len() > 0 && n.last() == '.' {
        trim_dot_chars(n.drop_last())
    } else {
        n
    }
}

/// Trimming twice is trimming once.
proof fn lemma_trim_dots_idempotent(s: Seq<u8>)
    ensures
        trim_dots(trim_dots(s)) == trim_dots(s),
    decreases s.len(),
{
    if s.len() > 0 && s.last() == 0x2Eu8 {
        lemma_trim_dots_idempotent(s.drop_last());
    }
}

/// The encoding of one more character is the encoding so far followed by
/// that character's bytes.
proof fn lemma_encode_push(s: Seq<char>, c: char)
    ensures
        encode_utf8(s.push(c)) == encode_utf8(s) + encode_scalar(c as u32),
    decreases s.len(),
{
    if s.len() == 0 {
        assert(s.push(c).drop_first() =~= Seq::<char>::empty());
        assert(encode_utf8(s.push(c).drop_first()) =~= Seq::<u8>::empty());
        assert(s.push(c)[0] == c);
        assert(encode_utf8(s) =~= Seq::<u8>::empty());
        assert(encode_utf8(s.push(c)) =~= encode_utf8(s) + encode_scalar(c as u32));
    } else {
        assert(s.push(c).drop_first() =~= s.drop_first().push(c));
        assert(s.push(c)[0] == s[0]);
        lemma_encode_push(s.drop_first(), c);
        assert(encode_utf8(s.push(c)) =~= encode_scalar(s[0] as u32) + (encode_utf8(s.drop_first())
            + encode_scalar(c as u32)));
        assert(encode_utf8(s.push(c)) =~= encode_utf8(s) + encode_scalar(c as u32));
    }
}

/// The last byte of a character's encoding is a dot only for the dot.
proof fn lemma_last_byte_dot(c: char)
    ensures
        encode_scalar(c as u32).len() > 0,
        (encode_scalar(c as u32).last() == 0x2Eu8) <==> c == '.',
{
    let v = c as u32;
    char_is_scalar(c);
    char_u32_cast(c, v);
    assert(('.' as u32) == 0x2Eu32);
    char_u32_cast('.', 0x2Eu32);
    if has_width_1_encoding(v) {
        assert((v & 0x7F) as u8 == 0x2Eu8 <==> v == 0x2E) by (bit_vector)
            requires
                v <= 0x7F,
        ;
    } else {
        assert((0x80u8 | ((v & 0x3F) as u8)) != 0x2Eu8) by (bit_vector);
        assert(encode_scalar(v).last() == last_continuation_byte(v));
        assert(c != '.');
    }
}

/// Trimming trailing dots commutes with encoding.
proof fn lemma_encode_trim(n: Seq<char>)
    ensures
        encode_utf8(trim_dot_chars(n)) == trim_dots(encode_utf8(n)),
    decreases n.len(),
{
    if n.len() > 0 {
        let p = n.drop_last();
        let c = n.last();
        assert(p.push(c) =~= n);
        lemma_encode_push(p, c);
        lemma_last_byte_dot(c);
        let e = encode_utf8(n);
        if c == '.' {
            lemma_encode_trim(p);
            assert(encode_scalar(c as u32) =~= seq![0x2Eu8]);
            assert(e.drop_last() =~= encode_utf8(p));
        } else {
            assert(e.last() == encode_scalar(c as u32).last());
        }
    }
}

/// A name written with trailing dots is written as the name without them,
/// and reads back without them: written with compression at `pos` of `b`,
/// it reads back as the text of `trim_dot_chars(n)`, ending just after the
/// bytes written, and the table stays sound.
pub proof fn lemma_dotted_name_read_back(b: Seq<u8>, pos: int, offs: Offsets, n: Seq<char>)
    requires
        wf_name(trim_dot_chars(n)),
        table_ok(b, offs),
        0 <= pos,
        spec_write_name(pos, offs, encode_utf8(n)) is Ok,
        pos + spec_write_name(pos, offs, encode_utf8(n))->Ok_0.0.len() <= b.len(),
        b.subrange(pos, pos + spec_write_name(pos, offs, encode_utf8(n))->Ok_0.0.len())
            == spec_write_name(pos, offs, encode_utf8(n))->Ok_0.0,
    ensures
        spec_write_name(pos, offs, encode_utf8(n)) == spec_write_name(
            pos,
            offs,
            encode_utf8(trim_dot_chars(n)),
        ),
        spec_read_name(b, pos) == Ok::<(Seq<u8>, int), ParseFailure>(
            (
                encode_utf8(trim_dot_chars(n)),
                pos + spec_write_name(pos, offs, encode_utf8(n))->Ok_0.0.len(),
            ),
        ),
        table_ok(b, spec_write_name(pos, offs, encode_utf8(n))->Ok_0.1),
{
    lemma_encode_trim(n);
    lemma_trim_dots_idempotent(encode_utf8(n));
    lemma_name_read_back(b, pos, offs, trim_dot_chars(n));
}

} // verus!
