//! The values that travel on the wire, and the errors of reading them.

use crate::text::{is_line_text, line_text};
use vstd::prelude::*;

verus! {

/// One value of the wire grammar.
#[derive(Debug, PartialEq)]
pub enum RespValue {
    /// Short status text. Written on one line, so it holds no carriage
    /// return and no line feed.
    SimpleStrings(String),
    /// Same shape as a simple string; marks a failure.
    Error(String),
    /// A signed 64-bit number.
    Integer(i64),
    /// A binary payload of known length, or the explicit null value.
    BulkStrings(Option<Vec<u8>>),
    /// A sequence of values, which may themselves be arrays.
    Array(Vec<RespValue>),
}

/// The mathematical content of a [`RespValue`].
pub ghost enum RespModel {
    SimpleStrings(Seq<char>),
    Error(Seq<char>),
    Integer(i64),
    BulkStrings(Option<Seq<u8>>),
    Array(Seq<RespModel>),
}

impl View for RespValue {
    type V = RespModel;

    open spec fn view(&self) -> RespModel
        decreases self, 0nat,
    {
        match self {
            RespValue::SimpleStrings(s) => RespModel::SimpleStrings(s@),
            RespValue::Error(s) => RespModel::Error(s@),
            RespValue::Integer(i) => RespModel::Integer(*i),
            RespValue::BulkStrings(None) => RespModel::BulkStrings(None),
            RespValue::BulkStrings(Some(b)) => RespModel::BulkStrings(Some(b@)),
            RespValue::Array(items) => RespModel::Array(models_from(*items, 0)),
        }
    }
}

/// The contents of the elements of `items` from index `k` on, in order.
pub open spec fn models_from(items: Vec<RespValue>, k: nat) -> Seq<RespModel>
    decreases items, items.len() - k,
{
    if k >= items.len() {
        Seq::empty()
    } else {
        seq![items[k as int]@] + models_from(items, k + 1)
    }
}

/// The contents of the values of `items`, in order.
pub open spec fn models(items: Seq<RespValue>) -> Seq<RespModel> {
    Seq::new(items.len(), |i: int| items[i]@)
}

/// From index `k` on, the contents of the elements of `items` are those of
/// its view.
pub proof fn lemma_models_from(items: Vec<RespValue>, k: nat)
    requires
        k <= items.len(),
    ensures
        models_from(items, k) == models(items@).skip(k as int),
    decreases items.len() - k,
{
    if k < items.len() {
        lemma_models_from(items, k + 1);
        assert(seq![items[k as int]@] + models(items@).skip(k as int + 1) =~= models(items@).skip(
            k as int,
        ));
    } else {
        assert(models(items@).skip(k as int) =~= Seq::<RespModel>::empty());
    }
}

/// The content of an array is the contents of its elements.
pub proof fn lemma_array_view(items: Vec<RespValue>)
    ensures
        RespValue::Array(items)@ == RespModel::Array(models(items@)),
{
    lemma_models_from(items, 0);
    assert(models(items@).skip(0) =~= models(items@));
}

impl Clone for RespValue {
    /// A value with the same content.
    fn clone(&self) -> (out: RespValue)
        ensures
            out@ == self@,
        decreases self,
    {
        match self {
            RespValue::SimpleStrings(s) => RespValue::SimpleStrings(s.clone()),
            RespValue::Error(s) => RespValue::Error(s.clone()),
            RespValue::Integer(i) => RespValue::Integer(*i),
            RespValue::BulkStrings(None) => RespValue::BulkStrings(None),
            RespValue::BulkStrings(Some(b)) => RespValue::BulkStrings(Some(b.clone())),
            RespValue::Array(items) => {
                let mut copy: Vec<RespValue> = Vec::new();
                let mut i: usize = 0;
                while i < items.len()
                    invariant
                        i <= items@.len(),
                        copy@.len() == i,
                        *self == RespValue::Array(*items),
                        forall|j: int| 0 <= j < i ==> (#[trigger] copy@[j])@ == items@[j]@,
                    decreases items.len() - i,
                {
                    proof {
                        assert(self->Array_0 == *items);
                        assert(decreases_to!(*items => items[i as int]));
                    }
                    copy.push(items[i].clone());
                    i += 1;
                }
                proof {
                    lemma_array_view(*items);
                    lemma_array_view(copy);
                    assert(models(copy@) =~= models(items@));
                }
                RespValue::Array(copy)
            },
        }
    }
}

/// The value can be written on the wire and read back: simple strings and
/// errors stand on one line, and the length of a bulk string fits the 32-bit
/// signed length field.
pub open spec fn well_formed(v: RespModel) -> bool
    decreases v,
{
    match v {
        RespModel::SimpleStrings(s) => line_text(s),
        RespModel::Error(s) => line_text(s),
        RespModel::Integer(_) => true,
        RespModel::BulkStrings(None) => true,
        RespModel::BulkStrings(Some(p)) => p.len() <= i32::MAX,
        RespModel::Array(items) => items.len() <= usize::MAX && forall|i: int|
            0 <= i < items.len() ==> well_formed(#[trigger] items[i]),
    }
}

impl RespValue {
    /// Whether this value can be written on the wire and read back.
    pub fn is_well_formed(&self) -> (out: bool)
        ensures
            out == well_formed(self@),
        decreases self,
    {
        match self {
            RespValue::SimpleStrings(s) => is_line_text(s.as_str()),
            RespValue::Error(s) => is_line_text(s.as_str()),
            RespValue::Integer(_) => true,
            RespValue::BulkStrings(None) => true,
            RespValue::BulkStrings(Some(b)) => b.len() <= 2147483647,
            RespValue::Array(items) => {
                proof {
                    lemma_array_view(*items);
                }
                let mut i: usize = 0;
                while i < items.len()
                    invariant
                        i <= items@.len(),
                        *self == RespValue::Array(*items),
                        forall|j: int| 0 <= j < i ==> well_formed(#[trigger] models(items@)[j]),
                    decreases items.len() - i,
                {
                    proof {
                        assert(self->Array_0 == *items);
                        assert(models(items@)[i as int] == items@[i as int]@);
                    }
                    if !items[i].is_well_formed() {
                        proof {
                            lemma_array_view(*items);
                        }
                        return false;
                    }
                    i += 1;
                }
                true
            },
        }
    }
}

/// Why a byte sequence is not the encoding of a value.
#[derive(Debug, Clone, Copy, PartialEq, Eq, Structural)]
pub enum DecodeError {
    /// The input is empty, or its first byte is none of `+ - : $ *`.
    UnrecognizedType,
    /// The input ends before a line terminator or before the end of a
    /// declared payload.
    Incomplete,
    /// A bulk payload is not followed by a carriage return and a line feed.
    MalformedTerminator,
    /// A number does not read as one, a length is negative, or bytes follow
    /// the last element of an array.
    Format,
    /// The text of a simple string or of an error is not UTF-8.
    InvalidUtf8,
}

impl DecodeError {
    /// The text of this error.
    pub open spec fn text(self) -> Seq<char> {
        match self {
            DecodeError::UnrecognizedType => "unrecognized value type"@,
            DecodeError::Incomplete => "incomplete data"@,
            DecodeError::MalformedTerminator => "malformed terminator"@,
            DecodeError::Format => "format error"@,
            DecodeError::InvalidUtf8 => "invalid UTF-8"@,
        }
    }

    /// The text of this error.
    pub fn message(&self) -> (out: String)
        ensures
            out@ == self.text(),
    {
        match self {
            DecodeError::UnrecognizedType => "unrecognized value type".to_owned(),
            DecodeError::Incomplete => "incomplete data".to_owned(),
            DecodeError::MalformedTerminator => "malformed terminator".to_owned(),
            DecodeError::Format => "format error".to_owned(),
            DecodeError::InvalidUtf8 => "invalid UTF-8".to_owned(),
        }
    }
}

} // verus!
