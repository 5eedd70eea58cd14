//! The server's side of one exchange: from the bytes of a request to the
//! bytes of the reply.
//!
//! A request is the frame of a command; the reply is one value. Whatever
//! the request holds, the reply is a well-formed value: a request that does
//! not decode, or that is no command, is answered with an error value.

use crate::command::{command_of, bulk_of_text, bulk_text, ClientCommand, CommandModel};
use crate::engine::{KvsEngine, KvsError};
use crate::resp::grammar::{encoding, spec_decode};
use crate::resp::value::{well_formed, RespModel, RespValue};
use crate::text::{is_line_text, line_text};
use vstd::prelude::*;
use vstd::utf8::encode_utf8;

verus! {

/// The reply to a command that was carried out and gives no value.
pub open spec fn ok_reply() -> RespModel {
    RespModel::SimpleStrings("OK"@)
}

/// The reply to a ping.
pub open spec fn pong_reply() -> RespModel {
    RespModel::SimpleStrings("PONG"@)
}

/// The error value that tells of a failure with the text `text`: the text
/// itself where it stands on one line.
pub open spec fn error_reply(text: Seq<char>) -> RespModel {
    if line_text(text) {
        RespModel::Error(text)
    } else {
        RespModel::Error("error"@)
    }
}

/// The reply that carries the value `value`: a bulk string, where the value
/// fits one.
pub open spec fn value_reply(value: Seq<char>) -> RespModel {
    if encode_utf8(value).len() <= i32::MAX {
        bulk_text(value)
    } else {
        RespModel::Error("value too large"@)
    }
}

/// The reply to a `set` or a `remove` that ended with `result`.
pub open spec fn ack_reply_of(result: Result<(), KvsError>) -> RespModel {
    match result {
        Ok(_) => ok_reply(),
        Err(e) => error_reply(e.text()),
    }
}

/// The reply to a `get` that ended with `result`.
pub open spec fn get_reply_of(result: Result<Option<String>, KvsError>) -> RespModel {
    match result {
        Ok(Some(value)) => value_reply(value@),
        Ok(None) => RespModel::BulkStrings(None),
        Err(e) => error_reply(e.text()),
    }
}

/// The fixed texts of the replies stand on one line.
pub proof fn lemma_reply_texts()
    ensures
        line_text("OK"@),
        line_text("PONG"@),
        line_text("error"@),
        line_text("value too large"@),
{
    reveal_strlit("OK");
    reveal_strlit("PONG");
    reveal_strlit("error");
    reveal_strlit("value too large");
}

/// The error value for a failure with the text `text`.
pub fn error_reply_for(text: String) -> (out: RespValue)
    ensures
        out@ == error_reply(text@),
        well_formed(out@),
{
    proof {
        lemma_reply_texts();
    }
    if is_line_text(text.as_str()) {
        RespValue::Error(text)
    } else {
        RespValue::Error("error".to_owned())
    }
}

/// The reply to a `set` or a `remove` that ended with `result`.
pub fn ack_reply(result: Result<(), KvsError>) -> (out: RespValue)
    ensures
        out@ == ack_reply_of(result),
        well_formed(out@),
{
    proof {
        lemma_reply_texts();
    }
    match result {
        Ok(_) => RespValue::SimpleStrings("OK".to_owned()),
        Err(e) => error_reply_for(e.message()),
    }
}

/// The reply to a `get` that ended with `result`.
pub fn get_reply(result: Result<Option<String>, KvsError>) -> (out: RespValue)
    ensures
        out@ == get_reply_of(result),
        well_formed(out@),
{
    proof {
        lemma_reply_texts();
    }
    match result {
        Ok(Some(value)) => {
            if value.as_str().as_bytes().len() <= 2147483647 {
                bulk_of_text(value.as_str())
            } else {
                RespValue::Error("value too large".to_owned())
            }
        },
        Ok(None) => RespValue::BulkStrings(None),
        Err(e) => error_reply_for(e.message()),
    }
}

/// The reply that tells of a failure of the engine on its persisted state.
pub open spec fn io_failure(reply: RespModel) -> bool {
    exists|e: KvsError| e is Io && reply == error_reply(#[trigger] e.text())
}

/// What carrying out `command` on a mapping `before` may leave: the
/// mapping `after` and the reply `reply`. Where the engine fails on its
/// persisted state, the mapping is as it was and the reply tells of the
/// failure.
pub open spec fn executed(
    before: Map<Seq<char>, Seq<char>>,
    after: Map<Seq<char>, Seq<char>>,
    command: CommandModel,
    reply: RespModel,
) -> bool {
    match command {
        CommandModel::Put { key, value } => {
            ||| after == before.insert(key, value) && reply == ok_reply()
            ||| after == before && io_failure(reply)
        },
        CommandModel::Get { key } => {
            &&& after == before
            &&& {
                ||| before.contains_key(key) && reply == value_reply(before[key])
                ||| !before.contains_key(key) && reply == RespModel::BulkStrings(None)
                ||| io_failure(reply)
            }
        },
        CommandModel::Remove { key } => if before.contains_key(key) {
            ||| after == before.remove(key) && reply == ok_reply()
            ||| after == before && io_failure(reply)
        } else {
            after == before && reply == RespModel::Error("Key not found"@)
        },
        CommandModel::Ping => after == before && reply == pong_reply(),
    }
}

/// Carries out `command` on `engine` and gives the reply.
pub fn execute<E: KvsEngine>(engine: &mut E, command: ClientCommand) -> (out: RespValue)
    requires
        old(engine).valid(),
    ensures
        final(engine).valid(),
        well_formed(out@),
        executed(old(engine).contents(), final(engine).contents(), command@, out@),
{
    proof {
        lemma_reply_texts();
        reveal_strlit("Key not found");
    }
    match command {
        ClientCommand::Put { key, value } => {
            let result = engine.set(key, value);
            ack_reply(result)
        },
        ClientCommand::Get { key } => {
            let result = engine.get(key);
            get_reply(result)
        },
        ClientCommand::Remove { key } => {
            let result = engine.remove(key);
            ack_reply(result)
        },
        ClientCommand::PING => RespValue::SimpleStrings("PONG".to_owned()),
    }
}

/// What answering the request `request` on a mapping `before` may leave:
/// a request that does not decode, or that holds no command, changes
/// nothing and is answered with the text of its error.
pub open spec fn responded(
    before: Map<Seq<char>, Seq<char>>,
    after: Map<Seq<char>, Seq<char>>,
    request: Seq<u8>,
    reply: RespModel,
) -> bool {
    match spec_decode(request) {
        Err(e) => after == before && reply == RespModel::Error(e.text()),
        Ok(frame) => match command_of(frame) {
            Err(e) => after == before && reply == RespModel::Error(e.text()),
            Ok(command) => executed(before, after, command, reply),
        },
    }
}

/// Answers one request: decodes it, carries the command out on `engine`,
/// and gives the reply.
pub fn respond<E: KvsEngine>(engine: &mut E, request: &[u8]) -> (out: RespValue)
    requires
        old(engine).valid(),
    ensures
        final(engine).valid(),
        well_formed(out@),
        responded(old(engine).contents(), final(engine).contents(), request@, out@),
{
    match RespValue::decode(request) {
        Err(e) => {
            proof {
                lemma_error_texts();
            }
            RespValue::Error(e.message())
        },
        Ok(frame) => match ClientCommand::from_resp(&frame) {
            Err(e) => {
                proof {
                    lemma_error_texts();
                }
                RespValue::Error(e.message())
            },
            Ok(command) => execute(engine, command),
        },
    }
}

/// The texts of the errors of decoding and of framing stand on one line.
pub proof fn lemma_error_texts()
    ensures
        forall|e: crate::resp::value::DecodeError| line_text(#[trigger] e.text()),
        forall|e: crate::command::CommandError| line_text(#[trigger] e.text()),
{
    reveal_strlit("unrecognized value type");
    reveal_strlit("incomplete data");
    reveal_strlit("malformed terminator");
    reveal_strlit("format error");
    reveal_strlit("invalid UTF-8");
    reveal_strlit("not a command");
    reveal_strlit("unknown command");
    reveal_strlit("wrong number of arguments");
    reveal_strlit("invalid UTF-8 in argument");
}

/// Answers one request with the bytes of one reply.
pub fn handle_request<E: KvsEngine>(engine: &mut E, request: &[u8]) -> (out: Vec<u8>)
    requires
        old(engine).valid(),
    ensures
        final(engine).valid(),
        exists|reply: RespModel|
            {
                &&& well_formed(reply)
                &&& out@ == #[trigger] encoding(reply)
                &&& responded(old(engine).contents(), final(engine).contents(), request@, reply)
            },
{
    let reply = respond(engine, request);
    reply.encode()
}

} // verus!
