//! The grammar of the wire format, as functions on byte sequences.
//!
//! [`encoding`] gives the bytes of a value. [`parse_value`] reads one value
//! from the front of a byte sequence and says how many bytes it took;
//! [`spec_decode`] is what a whole message decodes to.

use crate::decimal::{decimal, spec_parse_i32, spec_parse_i64, spec_parse_usize};
use crate::resp::value::{DecodeError, RespModel};
use vstd::prelude::*;
use vstd::utf8::{decode_utf8, encode_utf8, valid_utf8};

verus! {

/// The line terminator: a carriage return and a line feed.
pub open spec fn crlf() -> Seq<u8> {
    seq![13u8, 10u8]
}

/// A line terminator stands at index `i` of `b`.
pub open spec fn crlf_at(b: Seq<u8>, i: int) -> bool {
    0 <= i && i + 1 < b.len() && b[i] == 13 && b[i + 1] == 10
}

/// The index of the first line terminator of `b` at or after `from`.
pub open spec fn find_crlf(b: Seq<u8>, from: nat) -> Option<nat>
    decreases b.len() - from,
{
    if from + 1 >= b.len() {
        None
    } else if b[from as int] == 13 && b[from as int + 1] == 10 {
        Some(from)
    } else {
        find_crlf(b, from + 1)
    }
}

/// The index of the first line terminator of `b`.
pub open spec fn first_crlf(b: Seq<u8>) -> Option<nat> {
    find_crlf(b, 0)
}

/// The line that follows the marker byte of `b`: what stands between the
/// marker and the first line terminator, and the number of bytes that
/// marker, content and terminator take up together. A terminator that is
/// found lies within `b`, so the test on the length always holds.
pub open spec fn header_line(b: Seq<u8>) -> Option<(Seq<u8>, int)> {
    if b.len() == 0 {
        None
    } else {
        match first_crlf(b.skip(1)) {
            Some(i) => if i + 3 <= b.len() {
                Some((b.subrange(1, 1 + i as int), i as int + 3))
            } else {
                None
            },
            None => None,
        }
    }
}

/// The bytes of `v` on the wire.
pub open spec fn encoding(v: RespModel) -> Seq<u8>
    decreases v, 0nat,
{
    match v {
        RespModel::SimpleStrings(s) => seq![43u8] + encode_utf8(s) + crlf(),
        RespModel::Error(s) => seq![45u8] + encode_utf8(s) + crlf(),
        RespModel::Integer(i) => seq![58u8] + decimal(i as int) + crlf(),
        RespModel::BulkStrings(None) => seq![36u8, 45u8, 49u8, 13u8, 10u8],
        RespModel::BulkStrings(Some(p)) => seq![36u8] + decimal(p.len() as int) + crlf() + p
            + crlf(),
        RespModel::Array(items) => seq![42u8] + decimal(items.len() as int) + crlf()
            + encoding_from(items, 0),
    }
}

/// The encodings of the elements of `items` from index `k` on, one after
/// the other.
pub open spec fn encoding_from(items: Seq<RespModel>, k: nat) -> Seq<u8>
    decreases items, items.len() - k,
{
    if k >= items.len() {
        Seq::empty()
    } else {
        encoding(items[k as int]) + encoding_from(items, k + 1)
    }
}

/// What the result of reading one value and the bytes it took looks like.
pub type Parsed = Result<(RespModel, int), DecodeError>;

/// Reads a simple string: the line after the marker, as UTF-8 text.
pub open spec fn spec_simple_string(b: Seq<u8>) -> Parsed {
    match header_line(b) {
        None => Err(DecodeError::Incomplete),
        Some((line, n)) => if valid_utf8(line) {
            Ok((RespModel::SimpleStrings(decode_utf8(line)), n))
        } else {
            Err(DecodeError::InvalidUtf8)
        },
    }
}

/// Reads an error: the line after the marker, as UTF-8 text.
pub open spec fn spec_error(b: Seq<u8>) -> Parsed {
    match header_line(b) {
        None => Err(DecodeError::Incomplete),
        Some((line, n)) => if valid_utf8(line) {
            Ok((RespModel::Error(decode_utf8(line)), n))
        } else {
            Err(DecodeError::InvalidUtf8)
        },
    }
}

/// Reads an integer: the line after the marker, as a signed decimal number.
pub open spec fn spec_integer(b: Seq<u8>) -> Parsed {
    match header_line(b) {
        None => Err(DecodeError::Incomplete),
        Some((line, n)) => match spec_parse_i64(line) {
            Some(i) => Ok((RespModel::Integer(i), n)),
            None => Err(DecodeError::Format),
        },
    }
}

/// Reads a bulk string: a length line, then, unless the length is `-1`,
/// exactly that many payload bytes and a line terminator.
pub open spec fn spec_bulk_string(b: Seq<u8>) -> Parsed {
    match header_line(b) {
        None => Err(DecodeError::Incomplete),
        Some((line, n)) => match spec_parse_i32(line) {
            None => Err(DecodeError::Format),
            Some(len) => if len == -1 {
                Ok((RespModel::BulkStrings(None), n))
            } else if len < 0 {
                Err(DecodeError::Format)
            } else if b.len() - n < len + 2 {
                Err(DecodeError::Incomplete)
            } else if !crlf_at(b, n + len) {
                Err(DecodeError::MalformedTerminator)
            } else {
                Ok((RespModel::BulkStrings(Some(b.subrange(n, n + len))), n + len + 2))
            },
        },
    }
}

/// Reads an array: a count line, then that many values one after the other.
pub open spec fn spec_array(b: Seq<u8>) -> Parsed
    decreases b.len(), 0nat,
{
    match header_line(b) {
        None => Err(DecodeError::Incomplete),
        Some((line, n)) => match spec_parse_usize(line) {
            None => Err(DecodeError::Format),
            Some(count) => match parse_items(b.subrange(n, b.len() as int), count as nat) {
                Err(e) => Err(e),
                Ok((items, m)) => Ok((RespModel::Array(items), n + m)),
            },
        },
    }
}

/// Reads `count` values from the front of `b`, each from where the one
/// before it ended, and says how many bytes they took together.
///
/// A value that is read takes at least one byte and no more than there
/// are (`lemma_parse_bounds`), so the test on `n` always holds; it stands
/// here to show that the reading ends.
pub open spec fn parse_items(b: Seq<u8>, count: nat) -> Result<(Seq<RespModel>, int), DecodeError>
    decreases b.len(), count + 2,
{
    if count == 0 {
        Ok((Seq::empty(), 0))
    } else {
        match parse_value(b) {
            Err(e) => Err(e),
            Ok((first, n)) => if 0 < n <= b.len() {
                match parse_items(b.subrange(n, b.len() as int), (count - 1) as nat) {
                    Err(e) => Err(e),
                    Ok((rest, m)) => Ok((seq![first] + rest, n + m)),
                }
            } else {
                Err(DecodeError::Incomplete)
            },
        }
    }
}

/// Reads one value from the front of `b`, chosen by the first byte, and says
/// how many bytes it took.
pub open spec fn parse_value(b: Seq<u8>) -> Parsed
    decreases b.len(), 1nat,
{
    if b.len() == 0 {
        Err(DecodeError::UnrecognizedType)
    } else if b[0] == 43 {
        spec_simple_string(b)
    } else if b[0] == 45 {
        spec_error(b)
    } else if b[0] == 58 {
        spec_integer(b)
    } else if b[0] == 36 {
        spec_bulk_string(b)
    } else if b[0] == 42 {
        spec_array(b)
    } else {
        Err(DecodeError::UnrecognizedType)
    }
}

/// What a whole message decodes to: the value at its front. Bytes after the
/// last element of an array are refused; after a value of another type
/// they are not looked at.
pub open spec fn spec_decode(b: Seq<u8>) -> Result<RespModel, DecodeError> {
    match parse_value(b) {
        Err(e) => Err(e),
        Ok((v, n)) => if v is Array && n < b.len() {
            Err(DecodeError::Format)
        } else {
            Ok(v)
        },
    }
}

} // verus!
