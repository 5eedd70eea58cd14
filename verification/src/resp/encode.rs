//! Writing values as bytes.

use crate::decimal::{decimal, format_i64, format_usize, push_decimal, push_digits};
use crate::resp::grammar::{crlf, encoding, encoding_from};
use crate::resp::value::{lemma_array_view, models, RespValue};
use vstd::prelude::*;
use vstd::string::StringSliceAdditionalSpecFns;

verus! {

/// Appends `bytes` to `out`.
pub fn append_bytes(out: &mut Vec<u8>, bytes: &[u8])
    ensures
        final(out)@ == old(out)@ + bytes@,
{
    let ghost before = out@;
    let mut i: usize = 0;
    while i < bytes.len()
        invariant
            i <= bytes@.len(),
            out@ == before + bytes@.take(i as int),
        decreases bytes.len() - i,
    {
        out.push(bytes[i]);
        proof {
            assert(before + bytes@.take(i as int + 1) =~= (before + bytes@.take(i as int)).push(
                bytes@[i as int],
            ));
        }
        i += 1;
    }
    proof {
        assert(bytes@.take(i as int) =~= bytes@);
    }
}

/// Appends a line terminator to `out`.
fn push_crlf(out: &mut Vec<u8>)
    ensures
        final(out)@ == old(out)@ + crlf(),
{
    let ghost before = out@;
    out.push(13u8);
    out.push(10u8);
    proof {
        assert(out@ =~= before + crlf());
    }
}

/// Appends a marker byte, the UTF-8 bytes of `text` and a line terminator.
fn push_text_line(out: &mut Vec<u8>, marker: u8, text: &str)
    ensures
        final(out)@ == old(out)@ + (seq![marker] + text.spec_bytes() + crlf()),
{
    let ghost before = out@;
    out.push(marker);
    append_bytes(out, text.as_bytes());
    push_crlf(out);
    proof {
        assert(out@ =~= before + (seq![marker] + text.spec_bytes() + crlf()));
    }
}

impl RespValue {
    /// Appends the bytes of this value on the wire to `out`.
    pub fn encode_into(&self, out: &mut Vec<u8>)
        ensures
            final(out)@ == old(out)@ + encoding(self@),
        decreases self,
    {
        let ghost before = out@;
        match self {
            RespValue::SimpleStrings(s) => {
                push_text_line(out, 43u8, s.as_str());
            },
            RespValue::Error(s) => {
                push_text_line(out, 45u8, s.as_str());
            },
            RespValue::Integer(i) => {
                out.push(58u8);
                push_decimal(out, *i);
                push_crlf(out);
                proof {
                    assert(out@ =~= before + (seq![58u8] + decimal(*i as int) + crlf()));
                }
            },
            RespValue::BulkStrings(None) => {
                out.push(36u8);
                out.push(45u8);
                out.push(49u8);
                out.push(13u8);
                out.push(10u8);
                proof {
                    assert(out@ =~= before + seq![36u8, 45u8, 49u8, 13u8, 10u8]);
                }
            },
            RespValue::BulkStrings(Some(data)) => {
                out.push(36u8);
                push_digits(out, data.len() as u64);
                push_crlf(out);
                append_bytes(out, data.as_slice());
                push_crlf(out);
                proof {
                    assert(out@ =~= before + (seq![36u8] + decimal(data@.len() as int) + crlf()
                        + data@ + crlf()));
                }
            },
            RespValue::Array(items) => {
                let ghost ms = models(items@);
                out.push(42u8);
                push_digits(out, items.len() as u64);
                push_crlf(out);
                let ghost head = seq![42u8] + decimal(items@.len() as int) + crlf();
                proof {
                    lemma_array_view(*items);
                    assert(out@ =~= before + head);
                    assert(before + head + encoding_from(ms, 0) =~= before + (head
                        + encoding_from(ms, 0)));
                }
                let mut i: usize = 0;
                while i < items.len()
                    invariant
                        i <= items@.len(),
                        ms == models(items@),
                        self == RespValue::Array(*items),
                        out@ + encoding_from(ms, i as nat) == before + encoding(self@),
                    decreases items.len() - i,
                {
                    let ghost prev = out@;
                    items[i].encode_into(out);
                    proof {
                        assert(ms[i as int] == items@[i as int]@);
                        assert(prev + encoding(ms[i as int]) + encoding_from(ms, i as nat + 1)
                            =~= prev + (encoding(ms[i as int]) + encoding_from(
                            ms,
                            i as nat + 1,
                        )));
                    }
                    i += 1;
                }
                proof {
                    assert(out@ + Seq::<u8>::empty() =~= out@);
                }
            },
        }
    }

    /// The bytes of this value on the wire.
    pub fn encode(&self) -> (out: Vec<u8>)
        ensures
            out@ == encoding(self@),
    {
        let mut out: Vec<u8> = Vec::new();
        self.encode_into(&mut out);
        proof {
            assert(Seq::<u8>::empty() + encoding(self@) =~= encoding(self@));
        }
        out
    }
}

/// `a + b` where it fits a `usize`.
fn add_len(a: usize, b: usize) -> (out: Option<usize>)
    ensures
        out is Some <==> a + b <= usize::MAX,
        out matches Some(n) ==> n == a + b,
{
    if a > usize::MAX - b {
        None
    } else {
        Some(a + b)
    }
}

impl RespValue {
    /// The number of bytes that this value takes on the wire, where that
    /// number fits a `usize`.
    pub fn resp_value_len(&self) -> (out: Option<usize>)
        ensures
            out is Some <==> encoding(self@).len() <= usize::MAX,
            out matches Some(n) ==> n == encoding(self@).len(),
        decreases self,
    {
        match self {
            RespValue::SimpleStrings(s) => add_len(s.as_str().as_bytes().len(), 3),
            RespValue::Error(s) => add_len(s.as_str().as_bytes().len(), 3),
            RespValue::Integer(i) => add_len(format_i64(*i).len(), 3),
            RespValue::BulkStrings(None) => Some(5),
            RespValue::BulkStrings(Some(data)) => {
                match add_len(format_usize(data.len()).len(), 5) {
                    None => None,
                    Some(head) => add_len(head, data.len()),
                }
            },
            RespValue::Array(items) => {
                let ghost ms = models(items@);
                proof {
                    lemma_array_view(*items);
                }
                let mut total: usize = match add_len(format_usize(items.len()).len(), 3) {
                    None => {
                        return None;
                    },
                    Some(head) => head,
                };
                let mut i: usize = 0;
                while i < items.len()
                    invariant
                        i <= items@.len(),
                        ms == models(items@),
                        self == RespValue::Array(*items),
                        total + encoding_from(ms, i as nat).len() == encoding(self@).len(),
                    decreases items.len() - i,
                {
                    proof {
                        assert(ms[i as int] == items@[i as int]@);
                    }
                    let next = match items[i].resp_value_len() {
                        None => None,
                        Some(n) => add_len(total, n),
                    };
                    match next {
                        None => {
                            return None;
                        },
                        Some(sum) => {
                            total = sum;
                        },
                    }
                    i += 1;
                }
                Some(total)
            },
        }
    }
}

} // verus!
