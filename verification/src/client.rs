//! The client's side of one exchange: the bytes of a request, and what the
//! bytes of the reply say.

use crate::command::{command_frame, command_of, lemma_command_frame, ClientCommand, CommandError, CommandModel};
use crate::resp::grammar::{encoding, spec_decode};
use crate::resp::laws::lemma_round_trip;
use crate::resp::value::{well_formed, DecodeError, RespModel, RespValue};
use crate::text::str_from_utf8;
use vstd::prelude::*;
use vstd::utf8::{decode_utf8, encode_utf8_decode_utf8, valid_utf8};

verus! {

/// What the server answered.
#[derive(Debug, Clone, PartialEq, Eq)]
pub enum ServerResponse {
    /// The command was carried out and gives no value, or the key has no
    /// value.
    Empty,
    /// The value of the key that was asked for.
    Value(String),
    /// The server could not carry the command out, and says why.
    Failure(String),
}

/// The mathematical content of a [`ServerResponse`].
pub ghost enum ResponseModel {
    Empty,
    Value(Seq<char>),
    Failure(Seq<char>),
}

impl View for ServerResponse {
    type V = ResponseModel;

    open spec fn view(&self) -> ResponseModel {
        match self {
            ServerResponse::Empty => ResponseModel::Empty,
            ServerResponse::Value(text) => ResponseModel::Value(text@),
            ServerResponse::Failure(text) => ResponseModel::Failure(text@),
        }
    }
}

/// Why the bytes of a reply say nothing.
#[derive(Debug, Clone, Copy, PartialEq, Eq, Structural)]
pub enum ReplyError {
    /// The bytes are not the encoding of a value.
    Decode(DecodeError),
    /// The value is an integer or an array, which no reply is.
    Unexpected,
    /// The value that was asked for is not UTF-8 text.
    InvalidUtf8,
}

/// What the value `reply` says.
pub open spec fn response_of(reply: RespModel) -> Result<ResponseModel, ReplyError> {
    match reply {
        RespModel::SimpleStrings(_) => Ok(ResponseModel::Empty),
        RespModel::Error(text) => Ok(ResponseModel::Failure(text)),
        RespModel::BulkStrings(None) => Ok(ResponseModel::Empty),
        RespModel::BulkStrings(Some(bytes)) => if valid_utf8(bytes) {
            Ok(ResponseModel::Value(decode_utf8(bytes)))
        } else {
            Err(ReplyError::InvalidUtf8)
        },
        _ => Err(ReplyError::Unexpected),
    }
}

/// What the bytes `bytes` of a reply say.
pub open spec fn reply_of(bytes: Seq<u8>) -> Result<ResponseModel, ReplyError> {
    match spec_decode(bytes) {
        Err(e) => Err(ReplyError::Decode(e)),
        Ok(reply) => response_of(reply),
    }
}

impl ServerResponse {
    /// What the value `reply` says.
    pub fn from_resp(reply: &RespValue) -> (out: Result<ServerResponse, ReplyError>)
        ensures
            match out {
                Ok(response) => response_of(reply@) == Ok::<ResponseModel, ReplyError>(
                    response@,
                ),
                Err(e) => response_of(reply@) == Err::<ResponseModel, ReplyError>(e),
            },
    {
        match reply {
            RespValue::SimpleStrings(_) => Ok(ServerResponse::Empty),
            RespValue::Error(text) => Ok(ServerResponse::Failure(text.clone())),
            RespValue::BulkStrings(None) => Ok(ServerResponse::Empty),
            RespValue::BulkStrings(Some(bytes)) => match str_from_utf8(bytes.as_slice()) {
                None => Err(ReplyError::InvalidUtf8),
                Some(text) => {
                    proof {
                        encode_utf8_decode_utf8(text@);
                    }
                    Ok(ServerResponse::Value(text.to_owned()))
                },
            },
            _ => Err(ReplyError::Unexpected),
        }
    }
}

/// The bytes that carry `command` to the server.
pub fn encode_command(command: &ClientCommand) -> (out: Vec<u8>)
    ensures
        out@ == encoding(command_frame(command@)),
{
    command.to_resp().encode()
}

/// What the bytes `bytes`, read from the server, say.
pub fn read_reply(bytes: &[u8]) -> (out: Result<ServerResponse, ReplyError>)
    ensures
        match out {
            Ok(response) => reply_of(bytes@) == Ok::<ResponseModel, ReplyError>(response@),
            Err(e) => reply_of(bytes@) == Err::<ResponseModel, ReplyError>(e),
        },
{
    match RespValue::decode(bytes) {
        Err(e) => Err(ReplyError::Decode(e)),
        Ok(reply) => ServerResponse::from_resp(&reply),
    }
}

/// A command whose frame can be written is read by the server, from the
/// bytes that the client sends, as the same command.
pub proof fn lemma_command_arrives(command: CommandModel)
    requires
        well_formed(command_frame(command)),
    ensures
        spec_decode(encoding(command_frame(command))) == Ok::<RespModel, DecodeError>(
            command_frame(command),
        ),
        command_of(command_frame(command)) == Ok::<CommandModel, CommandError>(command),
{
    lemma_round_trip(command_frame(command));
    lemma_command_frame(command);
}

} // verus!
