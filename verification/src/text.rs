//! Text and its UTF-8 bytes.

use vstd::prelude::*;
use vstd::string::StringSliceAdditionalSpecFns;
use vstd::utf8::{
    char_is_scalar, char_u32_cast, encode_scalar, encode_utf8, encode_utf8_decode_utf8,
    has_width_1_encoding, last_continuation_byte, leading_byte_width_1, leading_byte_width_2,
    leading_byte_width_3, leading_byte_width_4, second_last_continuation_byte,
    third_last_continuation_byte, valid_utf8,
};

verus! {

/// The text holds no carriage return and no line feed, so it can stand on
/// one line.
pub open spec fn line_text(s: Seq<char>) -> bool {
    forall|i: int| 0 <= i < s.len() ==> (#[trigger] s[i]) != '\r' && s[i] != '\n'
}

/// No byte of `b` is a carriage return or a line feed.
pub open spec fn no_line_break(b: Seq<u8>) -> bool {
    forall|i: int| 0 <= i < b.len() ==> (#[trigger] b[i]) != 13 && b[i] != 10
}

/// The one byte of an ASCII character that is no line break is no line
/// break.
proof fn lemma_scalar_width_1(c: u32)
    by (bit_vector)
    requires
        has_width_1_encoding(c),
        c != 13,
        c != 10,
    ensures
        leading_byte_width_1(c) != 13,
        leading_byte_width_1(c) != 10,
{
}

/// Every byte of a character that takes more than one byte is 128 or more.
proof fn lemma_scalar_wide(c: u32)
    by (bit_vector)
    ensures
        leading_byte_width_2(c) >= 128,
        leading_byte_width_3(c) >= 128,
        leading_byte_width_4(c) >= 128,
        last_continuation_byte(c) >= 128,
        second_last_continuation_byte(c) >= 128,
        third_last_continuation_byte(c) >= 128,
{
}

/// The UTF-8 bytes of text that stands on one line hold no line break.
pub proof fn lemma_line_text_bytes(s: Seq<char>)
    requires
        line_text(s),
    ensures
        no_line_break(encode_utf8(s)),
    decreases s.len(),
{
    if s.len() > 0 {
        let c = s[0] as u32;
        let head = encode_scalar(c);
        let rest = encode_utf8(s.drop_first());
        assert(s[0] != '\r' && s[0] != '\n');
        assert(c != 13 && c != 10) by {
            char_u32_cast(s[0], c);
            if c == 13 {
                char_u32_cast('\r', 13u32);
            }
            if c == 10 {
                char_u32_cast('\n', 10u32);
            }
        }
        char_is_scalar(s[0]);
        if has_width_1_encoding(c) {
            lemma_scalar_width_1(c);
        }
        lemma_scalar_wide(c);
        assert(no_line_break(head));
        assert forall|i: int| 0 <= i < s.drop_first().len() implies (#[trigger] s.drop_first()[i])
            != '\r' && s.drop_first()[i] != '\n' by {
            assert(s.drop_first()[i] == s[i + 1]);
        }
        lemma_line_text_bytes(s.drop_first());
        let b = encode_utf8(s);
        assert(b == head + rest);
        assert forall|i: int| 0 <= i < b.len() implies (#[trigger] b[i]) != 13 && b[i] != 10 by {
            if i < head.len() {
                assert(b[i] == head[i]);
            } else {
                assert(b[i] == rest[i - head.len()]);
            }
        }
    }
}

/// A carriage return and a line feed are written as themselves.
proof fn lemma_line_break_bytes()
    by (bit_vector)
    ensures
        leading_byte_width_1(13u32) == 13u8,
        leading_byte_width_1(10u32) == 10u8,
{
}

/// Text whose UTF-8 bytes hold no line break stands on one line.
pub proof fn lemma_bytes_line_text(s: Seq<char>)
    requires
        no_line_break(encode_utf8(s)),
    ensures
        line_text(s),
    decreases s.len(),
{
    if s.len() > 0 {
        let c = s[0] as u32;
        let head = encode_scalar(c);
        let rest = encode_utf8(s.drop_first());
        let b = encode_utf8(s);
        assert(b == head + rest);
        assert(head.len() > 0);
        assert(b[0] == head[0]);
        lemma_line_break_bytes();
        assert(s[0] != '\r' && s[0] != '\n');
        assert forall|i: int| 0 <= i < rest.len() implies (#[trigger] rest[i]) != 13 && rest[i]
            != 10 by {
            assert(rest[i] == b[i + head.len()]);
        }
        lemma_bytes_line_text(s.drop_first());
        assert forall|i: int| 0 <= i < s.len() implies (#[trigger] s[i]) != '\r' && s[i]
            != '\n' by {
            if i > 0 {
                assert(s[i] == s.drop_first()[i - 1]);
            }
        }
    }
}

/// Whether `text` stands on one line: it holds no carriage return and no
/// line feed.
pub fn is_line_text(text: &str) -> (out: bool)
    ensures
        out == line_text(text@),
{
    let bytes = text.as_bytes();
    let mut i: usize = 0;
    while i < bytes.len()
        invariant
            bytes@ == encode_utf8(text@),
            forall|j: int| 0 <= j < i ==> (#[trigger] bytes@[j]) != 13 && bytes@[j] != 10,
        decreases bytes.len() - i,
    {
        if bytes[i] == 13 || bytes[i] == 10 {
            proof {
                if line_text(text@) {
                    lemma_line_text_bytes(text@);
                }
            }
            return false;
        }
        i += 1;
    }
    proof {
        lemma_bytes_line_text(text@);
    }
    true
}

/// Whether `a` and `b` hold the same bytes.
pub fn bytes_eq(a: &[u8], b: &[u8]) -> (out: bool)
    ensures
        out == (a@ == b@),
{
    if a.len() != b.len() {
        return false;
    }
    let mut i: usize = 0;
    while i < a.len()
        invariant
            a@.len() == b@.len(),
            i <= a@.len(),
            forall|j: int| 0 <= j < i ==> a@[j] == b@[j],
        decreases a.len() - i,
    {
        if a[i] != b[i] {
            return false;
        }
        i += 1;
    }
    proof {
        assert(a@ =~= b@);
    }
    true
}

/// Whether `a` and `b` are the same text.
pub fn text_eq(a: &str, b: &str) -> (out: bool)
    ensures
        out == (a@ == b@),
{
    proof {
        encode_utf8_decode_utf8(a@);
        encode_utf8_decode_utf8(b@);
    }
    bytes_eq(a.as_bytes(), b.as_bytes())
}

/// `core::str::from_utf8`: the bytes as text where they are well-formed
/// UTF-8, and nothing where they are not. The text that comes back has
/// exactly the given bytes.
#[verifier::external_body]
pub(crate) fn str_from_utf8(v: &[u8]) -> (out: Option<&str>)
    ensures
        out is Some <==> valid_utf8(v@),
        out matches Some(s) ==> s.spec_bytes() == v@,
{
    match core::str::from_utf8(v) {
        Ok(s) => Some(s),
        Err(_) => None,
    }
}

} // verus!
