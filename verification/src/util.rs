//! Addresses of the form `IP:PORT`.
//!
//! The library takes an address apart and checks its port. Whether the part
//! before the colon is an IP address is for the caller to find out; the
//! answer comes in as a `bool`, so that the errors keep their order: the
//! form of the address first, then the IP, then the port.

use crate::decimal::{parse_u16, spec_parse_u16};
use vstd::prelude::*;
use vstd::string::StringSliceAdditionalSpecFns;
use vstd::utf8::{
    encode_utf8_valid_utf8, is_char_boundary, is_char_boundary_iff_not_is_continuation_byte,
    is_char_boundary_start_end_of_seq, valid_utf8,
};

verus! {

/// The address that is used where none is given.
pub const DEFAULT_ADDR: &'static str = "127.0.0.1:4000";

/// Why a text is not an address.
#[derive(Debug, Clone, Copy, PartialEq, Eq, Structural)]
pub enum AddrError {
    /// The text does not hold exactly one colon.
    Format,
    /// The part before the colon is no IP address.
    Ip,
    /// The part after the colon is no number from 0 to 65535.
    Port,
    /// The port is 0.
    PortZero,
}

impl AddrError {
    /// The text of this error.
    pub open spec fn text(self) -> Seq<char> {
        match self {
            AddrError::Format => "Invalid address format. Use IP:PORT"@,
            AddrError::Ip => "Invalid IP address"@,
            AddrError::Port => "Invalid port number"@,
            AddrError::PortZero => "Port number cannot be 0"@,
        }
    }

    /// The text of this error.
    pub fn message(&self) -> (out: String)
        ensures
            out@ == self.text(),
    {
        match self {
            AddrError::Format => "Invalid address format. Use IP:PORT".to_owned(),
            AddrError::Ip => "Invalid IP address".to_owned(),
            AddrError::Port => "Invalid port number".to_owned(),
            AddrError::PortZero => "Port number cannot be 0".to_owned(),
        }
    }
}

/// A colon stands at index `i` of `b`.
pub open spec fn colon_at(b: Seq<u8>, i: int) -> bool {
    0 <= i < b.len() && b[i] == 58
}

/// The colon at index `i` is the only one in `b`.
pub open spec fn only_colon(b: Seq<u8>, i: int) -> bool {
    colon_at(b, i) && forall|j: int| colon_at(b, j) ==> j == i
}

/// Splits `addr` at its colon: the part before it and the part after it.
/// An address with no colon, or with more than one, is refused.
pub fn split_addr(addr: &str) -> (out: Result<(&str, &str), AddrError>)
    ensures
        match out {
            Ok((ip, port)) => exists|i: int|
                {
                    &&& #[trigger] only_colon(addr.spec_bytes(), i)
                    &&& ip.spec_bytes() == addr.spec_bytes().take(i)
                    &&& port.spec_bytes() == addr.spec_bytes().skip(i + 1)
                },
            Err(e) => e == AddrError::Format && forall|i: int| !only_colon(addr.spec_bytes(), i),
        },
{
    let bytes = addr.as_bytes();
    let mut found: Option<usize> = None;
    let mut i: usize = 0;
    while i < bytes.len()
        invariant
            i <= bytes@.len(),
            bytes@ == addr.spec_bytes(),
            match found {
                None => forall|j: int| 0 <= j < i ==> bytes@[j] != 58,
                Some(p) => p < i && bytes@[p as int] == 58 && forall|j: int|
                    0 <= j < i && j != p ==> bytes@[j] != 58,
            },
        decreases bytes.len() - i,
    {
        if bytes[i] == 58 {
            match found {
                Some(p) => {
                    proof {
                        assert(colon_at(bytes@, p as int));
                        assert(colon_at(bytes@, i as int));
                    }
                    return Err(AddrError::Format);
                },
                None => {
                    found = Some(i);
                },
            }
        }
        i += 1;
    }
    match found {
        None => Err(AddrError::Format),
        Some(p) => {
            proof {
                encode_utf8_valid_utf8(addr@);
                is_char_boundary_iff_not_is_continuation_byte(bytes@, p as int);
            }
            let (ip, rest) = addr.split_at(p);
            proof {
                let tail = rest.spec_bytes();
                encode_utf8_valid_utf8(rest@);
                assert(tail[0] == 58);
                if tail.len() == 1 {
                    is_char_boundary_start_end_of_seq(tail);
                } else {
                    is_char_boundary_iff_not_is_continuation_byte(tail, 0);
                    lemma_boundary_after_ascii(tail);
                }
            }
            let (_, port) = rest.split_at(1);
            proof {
                assert(only_colon(bytes@, p as int));
                assert(port.spec_bytes() =~= bytes@.skip(p + 1));
            }
            Ok((ip, port))
        },
    }
}

/// In UTF-8 text that begins with an ASCII byte, a character begins at
/// index 1.
proof fn lemma_boundary_after_ascii(b: Seq<u8>)
    requires
        valid_utf8(b),
        b.len() > 1,
        b[0] < 128,
    ensures
        is_char_boundary(b, 1),
{
    reveal_with_fuel(is_char_boundary, 2);
    reveal_with_fuel(valid_utf8, 2);
}

/// The port that `port` denotes: a decimal number from 1 to 65535.
pub fn validate_port(port: &str) -> (out: Result<u16, AddrError>)
    ensures
        match spec_parse_u16(port.spec_bytes()) {
            None => out == Err::<u16, AddrError>(AddrError::Port),
            Some(p) => if p == 0 {
                out == Err::<u16, AddrError>(AddrError::PortZero)
            } else {
                out == Ok::<u16, AddrError>(p)
            },
        },
{
    match parse_u16(port.as_bytes()) {
        None => Err(AddrError::Port),
        Some(p) => if p == 0 {
            Err(AddrError::PortZero)
        } else {
            Ok(p)
        },
    }
}

/// Checks the two parts of an address that was split: the IP, of which the
/// caller says whether it is one, then the port.
pub fn validate_parts(ip_is_valid: bool, port: &str) -> (out: Result<u16, AddrError>)
    ensures
        !ip_is_valid ==> out == Err::<u16, AddrError>(AddrError::Ip),
        ip_is_valid ==> match spec_parse_u16(port.spec_bytes()) {
            None => out == Err::<u16, AddrError>(AddrError::Port),
            Some(p) => if p == 0 {
                out == Err::<u16, AddrError>(AddrError::PortZero)
            } else {
                out == Ok::<u16, AddrError>(p)
            },
        },
{
    if !ip_is_valid {
        Err(AddrError::Ip)
    } else {
        validate_port(port)
    }
}

} // verus!
