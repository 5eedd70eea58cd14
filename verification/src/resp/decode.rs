//! Reading values from bytes.
//!
//! Every function here returns either a value together with the number of
//! bytes it took, or an error; none of them panics, whatever the input.

use crate::decimal::{parse_i32, parse_i64, parse_usize, spec_parse_usize};
use crate::resp::grammar::{
    find_crlf, first_crlf, header_line, parse_items, parse_value, spec_array, spec_bulk_string,
    spec_decode, spec_error, spec_integer, spec_simple_string, Parsed,
};
use crate::resp::value::{lemma_array_view, models, DecodeError, RespModel, RespValue};
use crate::text::str_from_utf8;
use vstd::prelude::*;
use vstd::slice::{slice_subrange, slice_to_vec};
use vstd::utf8::encode_utf8_decode_utf8;

verus! {

/// The outcome `out` of reading a value is the outcome `model` of the
/// grammar, and a value that was read took at least one byte and at most
/// `len`.
pub open spec fn parsed_as(
    out: Result<(RespValue, usize), DecodeError>,
    model: Parsed,
    len: nat,
) -> bool {
    match out {
        Ok((v, n)) => model == Ok::<(RespModel, int), DecodeError>((v@, n as int)) && 0 < n
            <= len,
        Err(e) => model == Err::<(RespModel, int), DecodeError>(e),
    }
}

/// Splits `data` at its first line terminator: what stands before it and
/// what stands after it.
pub fn split_at_crlf(data: &[u8]) -> (out: Option<(&[u8], &[u8])>)
    ensures
        match first_crlf(data@) {
            Some(i) => {
                &&& i + 2 <= data@.len()
                &&& out matches Some((line, rest))
                &&& line@ == data@.take(i as int)
                &&& rest@ == data@.skip(i as int + 2)
            },
            None => out is None,
        },
{
    if data.len() < 2 {
        return None;
    }
    let last: usize = data.len() - 1;
    let mut i: usize = 0;
    while i < last
        invariant
            last + 1 == data@.len(),
            first_crlf(data@) == find_crlf(data@, i as nat),
        decreases last - i,
    {
        if data[i] == 13 && data[i + 1] == 10 {
            let line = slice_subrange(data, 0, i);
            let rest = slice_subrange(data, i + 2, data.len());
            return Some((line, rest));
        }
        i += 1;
    }
    None
}

/// The line after the marker byte of `v`, and the number of bytes that
/// marker, line and terminator take up.
fn read_line(v: &[u8]) -> (out: Option<(&[u8], usize)>)
    ensures
        match header_line(v@) {
            Some((line, n)) => {
                &&& out matches Some((l, m))
                &&& l@ == line
                &&& m == n
                &&& 3 <= n <= v@.len()
            },
            None => out is None,
        },
{
    if v.len() == 0 {
        return None;
    }
    let tail = slice_subrange(v, 1, v.len());
    match split_at_crlf(tail) {
        Some((line, _)) => {
            proof {
                assert(tail@.take(line@.len() as int) =~= v@.subrange(1, 1 + line@.len() as int));
            }
            Some((line, line.len() + 3))
        },
        None => None,
    }
}

/// Reads a simple string from the front of `v`.
pub fn parse_simple_string(v: &[u8]) -> (out: Result<(RespValue, usize), DecodeError>)
    ensures
        parsed_as(out, spec_simple_string(v@), v@.len()),
{
    match read_line(v) {
        None => Err(DecodeError::Incomplete),
        Some((line, n)) => match str_from_utf8(line) {
            None => Err(DecodeError::InvalidUtf8),
            Some(s) => {
                proof {
                    encode_utf8_decode_utf8(s@);
                }
                Ok((RespValue::SimpleStrings(s.to_owned()), n))
            },
        },
    }
}

/// Reads an error from the front of `v`.
pub fn parse_error(v: &[u8]) -> (out: Result<(RespValue, usize), DecodeError>)
    ensures
        parsed_as(out, spec_error(v@), v@.len()),
{
    match read_line(v) {
        None => Err(DecodeError::Incomplete),
        Some((line, n)) => match str_from_utf8(line) {
            None => Err(DecodeError::InvalidUtf8),
            Some(s) => {
                proof {
                    encode_utf8_decode_utf8(s@);
                }
                Ok((RespValue::Error(s.to_owned()), n))
            },
        },
    }
}

/// Reads an integer from the front of `v`.
pub fn parse_integer(v: &[u8]) -> (out: Result<(RespValue, usize), DecodeError>)
    ensures
        parsed_as(out, spec_integer(v@), v@.len()),
{
    match read_line(v) {
        None => Err(DecodeError::Incomplete),
        Some((line, n)) => match parse_i64(line) {
            None => Err(DecodeError::Format),
            Some(i) => Ok((RespValue::Integer(i), n)),
        },
    }
}

/// Reads a bulk string from the front of `v`.
pub fn parse_bulk_string(v: &[u8]) -> (out: Result<(RespValue, usize), DecodeError>)
    ensures
        parsed_as(out, spec_bulk_string(v@), v@.len()),
{
    match read_line(v) {
        None => Err(DecodeError::Incomplete),
        Some((line, n)) => match parse_i32(line) {
            None => Err(DecodeError::Format),
            Some(len) => {
                if len == -1 {
                    Ok((RespValue::BulkStrings(None), n))
                } else if len < 0 {
                    Err(DecodeError::Format)
                } else {
                    let data_len: usize = len as usize;
                    let left: usize = v.len() - n;
                    if left < 2 || left - 2 < data_len {
                        Err(DecodeError::Incomplete)
                    } else if v[n + data_len] != 13 || v[n + data_len + 1] != 10 {
                        Err(DecodeError::MalformedTerminator)
                    } else {
                        let data = slice_to_vec(slice_subrange(v, n, n + data_len));
                        Ok((RespValue::BulkStrings(Some(data)), n + data_len + 2))
                    }
                }
            },
        },
    }
}

/// Reads an array from the front of `v`.
pub fn parse_array(v: &[u8]) -> (out: Result<(RespValue, usize), DecodeError>)
    ensures
        parsed_as(out, spec_array(v@), v@.len()),
    decreases v@.len(), 0nat,
{
    match read_line(v) {
        None => Err(DecodeError::Incomplete),
        Some((line, n)) => match parse_usize(line) {
            None => Err(DecodeError::Format),
            Some(count) => {
                let ghost end = v@.len() as int;
                let mut items: Vec<RespValue> = Vec::new();
                let mut pos: usize = n;
                let mut i: usize = 0;
                proof {
                    assert(models(items@) + Seq::<RespModel>::empty() =~= Seq::<RespModel>::empty());
                }
                while i < count
                    invariant
                        3 <= n <= pos <= v@.len(),
                        end == v@.len(),
                        header_line(v@) == Some((line@, n as int)),
                        spec_parse_usize(line@) == Some(count),
                        i <= count,
                        parse_items(v@.subrange(n as int, end), count as nat) == (match parse_items(
                            v@.subrange(pos as int, end),
                            (count - i) as nat,
                        ) {
                            Err(e) => Err::<(Seq<RespModel>, int), DecodeError>(e),
                            Ok((rest, m)) => Ok((models(items@) + rest, pos - n + m)),
                        }),
                    decreases count - i,
                {
                    let rest = slice_subrange(v, pos, v.len());
                    match parse_resp_sequence(rest) {
                        Err(e) => {
                            proof {
                                assert(parse_items(
                                    v@.subrange(pos as int, end),
                                    (count - i) as nat,
                                ) == Err::<(Seq<RespModel>, int), DecodeError>(e));
                            }
                            return Err(e);
                        },
                        Ok((value, used)) => {
                            proof {
                                let tail = v@.subrange(pos as int, end);
                                assert(tail.subrange(used as int, tail.len() as int) =~= v@.subrange(
                                    pos + used,
                                    end,
                                ));
                                let after = parse_items(
                                    v@.subrange(pos + used, end),
                                    (count - i - 1) as nat,
                                );
                                if let Ok((rest_items, m)) = after {
                                    assert(models(items@.push(value)) + rest_items =~= models(
                                        items@,
                                    ) + (seq![value@] + rest_items));
                                }
                            }
                            items.push(value);
                            pos = pos + used;
                            i = i + 1;
                        },
                    }
                }
                proof {
                    assert(models(items@) + Seq::<RespModel>::empty() =~= models(items@));
                    lemma_array_view(items);
                }
                Ok((RespValue::Array(items), pos))
            },
        },
    }
}

/// Reads one value from the front of `v`, chosen by its first byte, and
/// says how many bytes it took.
pub fn parse_resp_sequence(v: &[u8]) -> (out: Result<(RespValue, usize), DecodeError>)
    ensures
        parsed_as(out, parse_value(v@), v@.len()),
    decreases v@.len(), 1nat,
{
    if v.len() == 0 {
        return Err(DecodeError::UnrecognizedType);
    }
    let marker: u8 = v[0];
    if marker == 43 {
        parse_simple_string(v)
    } else if marker == 45 {
        parse_error(v)
    } else if marker == 58 {
        parse_integer(v)
    } else if marker == 36 {
        parse_bulk_string(v)
    } else if marker == 42 {
        parse_array(v)
    } else {
        Err(DecodeError::UnrecognizedType)
    }
}

impl RespValue {
    /// Decodes a whole message: the value at the front of `bytes`. Bytes
    /// after the last element of an array are an error.
    pub fn decode(bytes: &[u8]) -> (out: Result<RespValue, DecodeError>)
        ensures
            match out {
                Ok(v) => spec_decode(bytes@) == Ok::<RespModel, DecodeError>(v@),
                Err(e) => spec_decode(bytes@) == Err::<RespModel, DecodeError>(e),
            },
    {
        match parse_resp_sequence(bytes) {
            Err(e) => Err(e),
            Ok((value, used)) => {
                let is_array = match &value {
                    RespValue::Array(_) => true,
                    _ => false,
                };
                if is_array && used < bytes.len() {
                    Err(DecodeError::Format)
                } else {
                    Ok(value)
                }
            },
        }
    }
}

} // verus!
