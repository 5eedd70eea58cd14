//! What holds of the codec as a whole: every value that can be written is
//! read back as itself, and no proper prefix of an encoding is read as a
//! value.

use crate::decimal::{decimal, digits_value, lemma_decimal_value, spec_parse_i32, spec_parse_usize};
use crate::resp::grammar::{
    crlf, crlf_at, encoding, encoding_from, find_crlf, header_line, parse_items, parse_value,
    spec_decode,
};
use crate::resp::value::{well_formed, DecodeError, RespModel};
use crate::text::{lemma_line_text_bytes, no_line_break};
use vstd::prelude::*;
use vstd::utf8::{encode_utf8, encode_utf8_decode_utf8, encode_utf8_valid_utf8};

verus! {

/// Where no line terminator stands at or after `from`, none is found.
pub proof fn lemma_find_crlf_none(b: Seq<u8>, from: nat)
    requires
        forall|i: int| from <= i ==> !crlf_at(b, i),
    ensures
        find_crlf(b, from) is None,
    decreases b.len() - from,
{
    if from + 1 < b.len() {
        assert(!crlf_at(b, from as int));
        lemma_find_crlf_none(b, from + 1);
    }
}

/// The first line terminator at or after `from` is the one that is found.
pub proof fn lemma_find_crlf_some(b: Seq<u8>, from: nat, at: nat)
    requires
        from <= at,
        crlf_at(b, at as int),
        forall|i: int| from <= i < at ==> !crlf_at(b, i),
    ensures
        find_crlf(b, from) == Some(at),
    decreases at - from,
{
    if from < at {
        assert(!crlf_at(b, from as int));
        lemma_find_crlf_some(b, from + 1, at);
    }
}

/// What is found is the first line terminator at or after `from`; where
/// nothing is found there is none.
pub proof fn lemma_find_crlf_first(b: Seq<u8>, from: nat)
    ensures
        match find_crlf(b, from) {
            Some(at) => from <= at && crlf_at(b, at as int) && forall|i: int|
                from <= i < at ==> !crlf_at(b, i),
            None => forall|i: int| from <= i ==> !crlf_at(b, i),
        },
    decreases b.len() - from,
{
    if from + 1 < b.len() && !(b[from as int] == 13 && b[from as int + 1] == 10) {
        lemma_find_crlf_first(b, from + 1);
    }
}

/// A line without line breaks, written after a marker and closed by a
/// terminator, is read back whatever follows it.
pub proof fn lemma_header_line(marker: u8, content: Seq<u8>, tail: Seq<u8>)
    requires
        no_line_break(content),
    ensures
        header_line(seq![marker] + content + crlf() + tail) == Some(
            (content, content.len() as int + 3),
        ),
{
    let b = seq![marker] + content + crlf() + tail;
    let t = b.skip(1);
    assert(t =~= content + crlf() + tail);
    assert forall|i: int| 0 <= i < content.len() implies !crlf_at(t, i) by {
        assert(t[i] == content[i]);
    }
    lemma_find_crlf_some(t, 0, content.len());
    assert(b.subrange(1, 1 + content.len() as int) =~= content);
}

/// A proper prefix of a line without line breaks, marker and terminator
/// included, holds no complete line.
pub proof fn lemma_header_line_cut(marker: u8, content: Seq<u8>, k: int)
    requires
        no_line_break(content),
        0 <= k < content.len() + 3,
    ensures
        header_line((seq![marker] + content + crlf()).take(k)) is None,
{
    let b = (seq![marker] + content + crlf()).take(k);
    if k > 0 {
        let t = b.skip(1);
        assert forall|i: int| 0 <= i implies !crlf_at(t, i) by {
            if i + 1 < t.len() {
                if i < content.len() {
                    assert(t[i] == content[i]);
                }
            }
        }
        lemma_find_crlf_none(t, 0);
    }
}

/// Reading the encoding of a well-formed value gives the value back and
/// takes exactly the bytes of the encoding, whatever follows them.
pub proof fn lemma_parse_encoding(v: RespModel, tail: Seq<u8>)
    requires
        well_formed(v),
    ensures
        parse_value(encoding(v) + tail) == Ok::<(RespModel, int), DecodeError>(
            (v, encoding(v).len() as int),
        ),
        encoding(v).len() > 0,
    decreases v, 0nat,
{
    let b = encoding(v) + tail;
    match v {
        RespModel::SimpleStrings(s) => {
            let c = encode_utf8(s);
            lemma_line_text_bytes(s);
            lemma_header_line(43u8, c, tail);
            assert(b =~= seq![43u8] + c + crlf() + tail);
            encode_utf8_valid_utf8(s);
            encode_utf8_decode_utf8(s);
            assert(b[0] == 43);
        },
        RespModel::Error(s) => {
            let c = encode_utf8(s);
            lemma_line_text_bytes(s);
            lemma_header_line(45u8, c, tail);
            assert(b =~= seq![45u8] + c + crlf() + tail);
            encode_utf8_valid_utf8(s);
            encode_utf8_decode_utf8(s);
            assert(b[0] == 45);
        },
        RespModel::Integer(i) => {
            let d = decimal(i as int);
            lemma_decimal_value(i as int);
            lemma_header_line(58u8, d, tail);
            assert(b =~= seq![58u8] + d + crlf() + tail);
            assert(b[0] == 58);
        },
        RespModel::BulkStrings(None) => {
            let d = seq![45u8, 49u8];
            lemma_header_line(36u8, d, tail);
            assert(b =~= seq![36u8] + d + crlf() + tail);
            assert(b[0] == 36);
            lemma_minus_one();
        },
        RespModel::BulkStrings(Some(p)) => {
            let d = decimal(p.len() as int);
            lemma_decimal_value(p.len() as int);
            lemma_header_line(36u8, d, p + crlf() + tail);
            assert(b =~= seq![36u8] + d + crlf() + (p + crlf() + tail));
            assert(b[0] == 36);
            let n = d.len() as int + 3;
            assert(b.subrange(n, n + p.len()) =~= p);
            assert(crlf_at(b, n + p.len()));
        },
        RespModel::Array(items) => {
            let d = decimal(items.len() as int);
            let body = encoding_from(items, 0);
            lemma_decimal_value(items.len() as int);
            lemma_header_line(42u8, d, body + tail);
            assert(b =~= seq![42u8] + d + crlf() + (body + tail));
            assert(b[0] == 42);
            let n = d.len() as int + 3;
            assert(b.subrange(n, b.len() as int) =~= body + tail);
            lemma_parse_items_encoding(items, 0, tail);
            assert(items.skip(0) =~= items);
        },
    }
}

/// The text `-1` reads as the number -1.
proof fn lemma_minus_one()
    ensures
        spec_parse_i32(seq![45u8, 49u8]) == Some(-1i32),
{
    let d = seq![45u8, 49u8];
    let t = d.skip(1);
    assert(t =~= seq![49u8]);
    assert(t.drop_last() =~= Seq::<u8>::empty());
    assert(digits_value(t.drop_last()) == 0);
    assert(digits_value(t) == 1);
}

/// Reading the encodings of well-formed values, written one after the
/// other, gives the values back in order.
pub proof fn lemma_parse_items_encoding(items: Seq<RespModel>, k: nat, tail: Seq<u8>)
    requires
        k <= items.len(),
        forall|i: int| 0 <= i < items.len() ==> well_formed(#[trigger] items[i]),
    ensures
        parse_items(encoding_from(items, k) + tail, (items.len() - k) as nat) == Ok::<
            (Seq<RespModel>, int),
            DecodeError,
        >((items.skip(k as int), encoding_from(items, k).len() as int)),
    decreases items, items.len() - k,
{
    if k < items.len() {
        let e = encoding(items[k as int]);
        let rest = encoding_from(items, k + 1);
        let b = encoding_from(items, k) + tail;
        lemma_parse_encoding(items[k as int], rest + tail);
        assert(b =~= e + (rest + tail));
        assert(b.subrange(e.len() as int, b.len() as int) =~= rest + tail);
        lemma_parse_items_encoding(items, k + 1, tail);
        assert(seq![items[k as int]] + items.skip(k as int + 1) =~= items.skip(k as int));
    } else {
        assert(items.skip(k as int) =~= Seq::<RespModel>::empty());
    }
}

/// Round trip: decoding the encoding of a well-formed value gives the value.
pub proof fn lemma_round_trip(v: RespModel)
    requires
        well_formed(v),
    ensures
        spec_decode(encoding(v)) == Ok::<RespModel, DecodeError>(v),
{
    lemma_parse_encoding(v, Seq::empty());
    assert(encoding(v) + Seq::<u8>::empty() =~= encoding(v));
}

/// No proper prefix of the encoding of a well-formed value reads as a
/// value.
pub proof fn lemma_parse_prefix(v: RespModel, k: int)
    requires
        well_formed(v),
        0 <= k < encoding(v).len(),
    ensures
        parse_value(encoding(v).take(k)) is Err,
    decreases v, 0nat,
{
    let e = encoding(v);
    let b = e.take(k);
    if k > 0 {
        assert(b[0] == e[0]);
        match v {
            RespModel::SimpleStrings(s) => {
                lemma_line_text_bytes(s);
                lemma_header_line_cut(43u8, encode_utf8(s), k);
            },
            RespModel::Error(s) => {
                lemma_line_text_bytes(s);
                lemma_header_line_cut(45u8, encode_utf8(s), k);
            },
            RespModel::Integer(i) => {
                lemma_decimal_value(i as int);
                lemma_header_line_cut(58u8, decimal(i as int), k);
            },
            RespModel::BulkStrings(None) => {
                let d = seq![45u8, 49u8];
                assert(e =~= seq![36u8] + d + crlf());
                lemma_header_line_cut(36u8, d, k);
            },
            RespModel::BulkStrings(Some(p)) => {
                let d = decimal(p.len() as int);
                let n = d.len() as int + 3;
                lemma_decimal_value(p.len() as int);
                if k < n {
                    assert(b =~= (seq![36u8] + d + crlf()).take(k));
                    lemma_header_line_cut(36u8, d, k);
                } else {
                    let tail = (p + crlf()).take(k - n);
                    assert(b =~= seq![36u8] + d + crlf() + tail);
                    lemma_header_line(36u8, d, tail);
                }
            },
            RespModel::Array(items) => {
                let d = decimal(items.len() as int);
                let n = d.len() as int + 3;
                let body = encoding_from(items, 0);
                lemma_decimal_value(items.len() as int);
                if k < n {
                    assert(b =~= (seq![42u8] + d + crlf()).take(k));
                    lemma_header_line_cut(42u8, d, k);
                } else {
                    let tail = body.take(k - n);
                    assert(b =~= seq![42u8] + d + crlf() + tail);
                    lemma_header_line(42u8, d, tail);
                    assert(b.subrange(n, b.len() as int) =~= tail);
                    lemma_parse_items_prefix(items, 0, k - n);
                }
            },
        }
    }
}

/// No proper prefix of the encodings of well-formed values, written one
/// after the other, reads as all of them.
pub proof fn lemma_parse_items_prefix(items: Seq<RespModel>, j: nat, k: int)
    requires
        j <= items.len(),
        forall|i: int| 0 <= i < items.len() ==> well_formed(#[trigger] items[i]),
        0 <= k < encoding_from(items, j).len(),
    ensures
        parse_items(encoding_from(items, j).take(k), (items.len() - j) as nat) is Err,
    decreases items, items.len() - j,
{
    let e = encoding(items[j as int]);
    let rest = encoding_from(items, j + 1);
    let b = encoding_from(items, j).take(k);
    if k < e.len() {
        assert(b =~= e.take(k));
        lemma_parse_prefix(items[j as int], k);
    } else {
        let tail = rest.take(k - e.len());
        assert(b =~= e + tail);
        lemma_parse_encoding(items[j as int], tail);
        assert(b.subrange(e.len() as int, b.len() as int) =~= tail);
        lemma_parse_items_prefix(items, j + 1, k - e.len());
    }
}

/// Truncation safety: decoding a proper prefix of the encoding of a
/// well-formed value fails.
pub proof fn lemma_truncation(v: RespModel, k: int)
    requires
        well_formed(v),
        0 <= k < encoding(v).len(),
    ensures
        spec_decode(encoding(v).take(k)) is Err,
{
    lemma_parse_prefix(v, k);
}

/// The null bulk string is written as the five bytes `$-1` and a line
/// terminator, and reading it takes those five bytes and none after them.
pub proof fn lemma_null_bulk_string(tail: Seq<u8>)
    ensures
        encoding(RespModel::BulkStrings(None)) == seq![36u8, 45u8, 49u8, 13u8, 10u8],
        encoding(RespModel::BulkStrings(None)).len() == 5,
        parse_value(encoding(RespModel::BulkStrings(None)) + tail) == Ok::<
            (RespModel, int),
            DecodeError,
        >((RespModel::BulkStrings(None), 5)),
{
    lemma_parse_encoding(RespModel::BulkStrings(None), tail);
}

/// A message that holds a well-formed array and then anything more does
/// not decode.
pub proof fn lemma_array_trailing(items: Seq<RespModel>, extra: Seq<u8>)
    requires
        well_formed(RespModel::Array(items)),
        extra.len() > 0,
    ensures
        spec_decode(encoding(RespModel::Array(items)) + extra) == Err::<RespModel, DecodeError>(
            DecodeError::Format,
        ),
{
    lemma_parse_encoding(RespModel::Array(items), extra);
}

/// A value that is read takes at least one byte and no more bytes than
/// there are.
pub proof fn lemma_parse_bounds(b: Seq<u8>)
    ensures
        parse_value(b) matches Ok((_, n)) ==> 0 < n <= b.len(),
    decreases b.len(), 1nat,
{
    if b.len() > 0 && b[0] == 42 {
        if let Some((line, n)) = header_line(b) {
            if let Some(count) = spec_parse_usize(line) {
                lemma_items_bounds(b.subrange(n, b.len() as int), count as nat);
            }
        }
    }
}

/// The values that are read one after the other are as many as were asked
/// for, and take no more bytes than there are.
pub proof fn lemma_items_bounds(b: Seq<u8>, count: nat)
    ensures
        parse_items(b, count) matches Ok((items, m)) ==> 0 <= m <= b.len() && items.len()
            == count,
    decreases b.len(), count + 2,
{
    if count > 0 {
        lemma_parse_bounds(b);
        if let Ok((first, n)) = parse_value(b) {
            if 0 < n <= b.len() {
                lemma_items_bounds(b.subrange(n, b.len() as int), (count - 1) as nat);
            }
        }
    }
}

} // verus!
