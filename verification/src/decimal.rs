//! Base-10 text of integers, as it stands in the headers of the wire format
//! and in a port number.
//!
//! The text of a number is an optional sign followed by at least one ASCII
//! digit. Leading zeros are read and never written.

use vstd::prelude::*;

verus! {

/// The byte `b` is one of the ASCII digits `0` to `9`.
pub open spec fn is_digit(b: u8) -> bool {
    48 <= b <= 57
}

/// The decimal digits of `n`, most significant first, without leading zeros.
pub open spec fn digits(n: nat) -> Seq<u8>
    decreases n,
{
    if n < 10 {
        seq![(48 + n) as u8]
    } else {
        digits(n / 10).push((48 + n % 10) as u8)
    }
}

/// The decimal text of `i`: a minus sign for a negative number, then its digits.
pub open spec fn decimal(i: int) -> Seq<u8> {
    if i < 0 {
        seq![45u8] + digits((-i) as nat)
    } else {
        digits(i as nat)
    }
}

/// `s` is a non-empty run of ASCII digits.
pub open spec fn all_digits(s: Seq<u8>) -> bool {
    s.len() > 0 && forall|i: int| 0 <= i < s.len() ==> is_digit(#[trigger] s[i])
}

/// The number that a run of digits denotes, read most significant first.
pub open spec fn digits_value(s: Seq<u8>) -> int
    decreases s.len(),
{
    if s.len() == 0 {
        0
    } else {
        digits_value(s.drop_last()) * 10 + (s.last() - 48)
    }
}

/// The number that `s` denotes when no minus sign is allowed: digits, or a
/// plus sign and digits.
pub open spec fn unsigned_value(s: Seq<u8>) -> Option<int> {
    if s.len() > 0 && s[0] == 43 {
        if all_digits(s.skip(1)) {
            Some(digits_value(s.skip(1)))
        } else {
            None
        }
    } else if all_digits(s) {
        Some(digits_value(s))
    } else {
        None
    }
}

/// The number that `s` denotes: digits with an optional sign in front.
pub open spec fn signed_value(s: Seq<u8>) -> Option<int> {
    if s.len() > 0 && s[0] == 45 {
        if all_digits(s.skip(1)) {
            Some(-digits_value(s.skip(1)))
        } else {
            None
        }
    } else {
        unsigned_value(s)
    }
}

/// What reading `s` as an `i64` gives: its value where it fits the type.
pub open spec fn spec_parse_i64(s: Seq<u8>) -> Option<i64> {
    match signed_value(s) {
        Some(v) => if i64::MIN <= v <= i64::MAX {
            Some(v as i64)
        } else {
            None
        },
        None => None,
    }
}

/// What reading `s` as an `i32` gives: its value where it fits the type.
pub open spec fn spec_parse_i32(s: Seq<u8>) -> Option<i32> {
    match signed_value(s) {
        Some(v) => if i32::MIN <= v <= i32::MAX {
            Some(v as i32)
        } else {
            None
        },
        None => None,
    }
}

/// What reading `s` as a `usize` gives: its value where it fits the type.
pub open spec fn spec_parse_usize(s: Seq<u8>) -> Option<usize> {
    match unsigned_value(s) {
        Some(v) => if v <= usize::MAX {
            Some(v as usize)
        } else {
            None
        },
        None => None,
    }
}

/// What reading `s` as a `u16` gives: its value where it fits the type.
pub open spec fn spec_parse_u16(s: Seq<u8>) -> Option<u16> {
    match unsigned_value(s) {
        Some(v) => if v <= u16::MAX {
            Some(v as u16)
        } else {
            None
        },
        None => None,
    }
}

/// A run of digits denotes at least what any of its prefixes denotes.
pub proof fn lemma_value_prefix(s: Seq<u8>, k: int)
    requires
        0 <= k <= s.len(),
        forall|i: int| 0 <= i < s.len() ==> is_digit(#[trigger] s[i]),
    ensures
        0 <= digits_value(s.take(k)) <= digits_value(s),
    decreases s.len(),
{
    if k == s.len() {
        assert(s.take(k) =~= s);
        if s.len() > 0 {
            lemma_value_prefix(s.drop_last(), k - 1);
            assert(s.drop_last().take(k - 1) =~= s.drop_last());
        }
    } else {
        lemma_value_prefix(s.drop_last(), k);
        assert(s.drop_last().take(k) =~= s.take(k));
    }
}

/// The digits of `n` are digits, at least one of them, and denote `n`.
pub proof fn lemma_digits_value(n: nat)
    ensures
        all_digits(digits(n)),
        digits_value(digits(n)) == n,
    decreases n,
{
    if n >= 10 {
        lemma_digits_value(n / 10);
        let d = digits(n);
        assert(d.drop_last() =~= digits(n / 10));
        assert(d.last() == 48 + n % 10);
        assert(digits_value(d) == digits_value(d.drop_last()) * 10 + (d.last() - 48));
        assert forall|i: int| 0 <= i < d.len() implies is_digit(#[trigger] d[i]) by {
            if i < d.len() - 1 {
                assert(d[i] == digits(n / 10)[i]);
            }
        }
    } else {
        let d = digits(n);
        assert(d.drop_last() =~= Seq::<u8>::empty());
        assert(digits_value(Seq::<u8>::empty()) == 0);
        assert(d.last() == 48 + n);
    }
}

/// Reading the decimal text of `i` gives `i` back, and no byte of that text
/// is a carriage return or a line feed.
pub proof fn lemma_decimal_value(i: int)
    ensures
        signed_value(decimal(i)) == Some(i),
        i >= 0 ==> unsigned_value(decimal(i)) == Some(i),
        decimal(i).len() >= 1,
        forall|k: int|
            0 <= k < decimal(i).len() ==> (#[trigger] decimal(i)[k]) != 13 && decimal(i)[k] != 10,
{
    if i < 0 {
        let n = (-i) as nat;
        lemma_digits_value(n);
        assert(decimal(i).skip(1) =~= digits(n));
        assert(decimal(i)[0] == 45);
        assert(signed_value(decimal(i)) == Some(i));
        assert forall|k: int| 0 <= k < decimal(i).len() implies (#[trigger] decimal(i)[k]) != 13
            && decimal(i)[k] != 10 by {
            if k > 0 {
                assert(is_digit(digits(n)[k - 1]));
            }
        }
    } else {
        lemma_digits_value(i as nat);
        assert(is_digit(digits(i as nat)[0]));
        assert(unsigned_value(decimal(i)) == Some(i));
        assert forall|k: int| 0 <= k < decimal(i).len() implies (#[trigger] decimal(i)[k]) != 13
            && decimal(i)[k] != 10 by {
            assert(is_digit(digits(i as nat)[k]));
        }
    }
}

/// Reads the digits of `s` from `start` to its end as a number of at most
/// `limit`.
pub fn parse_magnitude(s: &[u8], start: usize, limit: u64) -> (out: Option<u64>)
    requires
        start <= s.len(),
    ensures
        out is Some <==> all_digits(s@.skip(start as int)) && digits_value(s@.skip(start as int))
            <= limit,
        out matches Some(m) ==> m == digits_value(s@.skip(start as int)),
{
    let ghost tail = s@.skip(start as int);
    if start == s.len() {
        return None;
    }
    let mut acc: u64 = 0;
    let mut i: usize = start;
    while i < s.len()
        invariant
            start <= i <= s.len(),
            tail == s@.skip(start as int),
            forall|j: int| 0 <= j < i - start ==> is_digit(#[trigger] tail[j]),
            acc == digits_value(tail.take(i - start)),
            acc <= limit,
        decreases s.len() - i,
    {
        let b: u8 = s[i];
        if b < 48 || b > 57 {
            proof {
                assert(tail[i - start] == b);
            }
            return None;
        }
        let next: u128 = (acc as u128) * 10 + ((b - 48) as u128);
        proof {
            let p = tail.take(i - start + 1);
            assert(p.drop_last() =~= tail.take(i - start));
            assert(p.last() == b);
            assert(digits_value(p) == next);
        }
        if next > limit as u128 {
            proof {
                if all_digits(tail) {
                    lemma_value_prefix(tail, i - start + 1);
                }
            }
            return None;
        }
        acc = next as u64;
        i = i + 1;
    }
    proof {
        assert(tail.take(i - start) =~= tail);
    }
    Some(acc)
}

/// Reads `s` as an `i64`: an optional sign, then digits.
pub fn parse_i64(s: &[u8]) -> (out: Option<i64>)
    ensures
        out == spec_parse_i64(s@),
{
    if s.len() == 0 {
        return None;
    }
    let first: u8 = s[0];
    if first == 45 {
        match parse_magnitude(s, 1, 9223372036854775808u64) {
            Some(m) => if m == 9223372036854775808u64 {
                Some(i64::MIN)
            } else {
                Some(-(m as i64))
            },
            None => None,
        }
    } else {
        let start: usize = if first == 43 {
            1
        } else {
            0
        };
        proof {
            assert(s@.skip(0) =~= s@);
        }
        match parse_magnitude(s, start, 9223372036854775807u64) {
            Some(m) => Some(m as i64),
            None => None,
        }
    }
}

/// Reads `s` as an `i32`: an optional sign, then digits.
pub fn parse_i32(s: &[u8]) -> (out: Option<i32>)
    ensures
        out == spec_parse_i32(s@),
{
    if s.len() == 0 {
        return None;
    }
    let first: u8 = s[0];
    if first == 45 {
        match parse_magnitude(s, 1, 2147483648u64) {
            Some(m) => if m == 2147483648u64 {
                Some(i32::MIN)
            } else {
                Some(-(m as i32))
            },
            None => None,
        }
    } else {
        let start: usize = if first == 43 {
            1
        } else {
            0
        };
        proof {
            assert(s@.skip(0) =~= s@);
        }
        match parse_magnitude(s, start, 2147483647u64) {
            Some(m) => Some(m as i32),
            None => None,
        }
    }
}

/// Reads `s` as a `usize`: an optional plus sign, then digits.
pub fn parse_usize(s: &[u8]) -> (out: Option<usize>)
    ensures
        out == spec_parse_usize(s@),
{
    if s.len() == 0 {
        return None;
    }
    let start: usize = if s[0] == 43 {
        1
    } else {
        0
    };
    proof {
        assert(s@.skip(0) =~= s@);
    }
    match parse_magnitude(s, start, usize::MAX as u64) {
        Some(m) => Some(m as usize),
        None => None,
    }
}

/// Reads `s` as a `u16`: an optional plus sign, then digits.
pub fn parse_u16(s: &[u8]) -> (out: Option<u16>)
    ensures
        out == spec_parse_u16(s@),
{
    if s.len() == 0 {
        return None;
    }
    let start: usize = if s[0] == 43 {
        1
    } else {
        0
    };
    proof {
        assert(s@.skip(0) =~= s@);
    }
    match parse_magnitude(s, start, 65535u64) {
        Some(m) => Some(m as u16),
        None => None,
    }
}

/// Appends the decimal digits of `n` to `out`.
pub fn push_digits(out: &mut Vec<u8>, n: u64)
    ensures
        final(out)@ == old(out)@ + digits(n as nat),
{
    let ghost before = out@;
    let at: usize = out.len();
    let mut rest: u64 = n;
    while rest >= 10
        invariant
            at == before.len(),
            out@.len() >= at,
            out@.take(at as int) == before,
            digits(n as nat) == digits(rest as nat) + out@.skip(at as int),
        decreases rest,
    {
        let d: u8 = 48 + (rest % 10) as u8;
        let ghost prev = out@;
        out.insert(at, d);
        proof {
            assert(out@.take(at as int) =~= prev.take(at as int));
            assert(out@.skip(at as int) =~= seq![d] + prev.skip(at as int));
            assert(digits(rest as nat) == digits((rest / 10) as nat).push(d));
            assert(digits((rest / 10) as nat).push(d) + prev.skip(at as int) =~= digits(
                (rest / 10) as nat,
            ) + (seq![d] + prev.skip(at as int)));
        }
        rest = rest / 10;
    }
    let d: u8 = 48 + rest as u8;
    let ghost prev = out@;
    out.insert(at, d);
    proof {
        assert(digits(rest as nat) =~= seq![d]);
        assert(out@ =~= prev.take(at as int) + (seq![d] + prev.skip(at as int)));
    }
}

/// Appends the decimal text of `i` to `out`.
pub fn push_decimal(out: &mut Vec<u8>, i: i64)
    ensures
        final(out)@ == old(out)@ + decimal(i as int),
{
    let ghost before = out@;
    if i < 0 {
        out.push(45u8);
        let m: u64 = if i == i64::MIN {
            9223372036854775808u64
        } else {
            (-i) as u64
        };
        push_digits(out, m);
        proof {
            assert(out@ =~= before + (seq![45u8] + digits((-i) as nat)));
        }
    } else {
        push_digits(out, i as u64);
    }
}

/// The decimal text of `i`.
pub fn format_i64(i: i64) -> (out: Vec<u8>)
    ensures
        out@ == decimal(i as int),
{
    let mut out: Vec<u8> = Vec::new();
    push_decimal(&mut out, i);
    proof {
        assert(Seq::<u8>::empty() + decimal(i as int) =~= decimal(i as int));
    }
    out
}

/// The decimal text of the length `n`.
pub fn format_usize(n: usize) -> (out: Vec<u8>)
    ensures
        out@ == decimal(n as int),
{
    let mut out: Vec<u8> = Vec::new();
    push_digits(&mut out, n as u64);
    proof {
        assert(Seq::<u8>::empty() + digits(n as nat) =~= digits(n as nat));
    }
    out
}

} // verus!
