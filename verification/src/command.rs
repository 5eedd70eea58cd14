//! The commands that a client can issue, and their framing on the wire.
//!
//! On the wire a command is an array of bulk strings: its name, then its
//! arguments as UTF-8 text. The names are `SET`, `GET`, `RM` and `PING`,
//! matched exactly.

use crate::resp::value::{lemma_array_view, models, RespModel, RespValue};
use crate::text::{bytes_eq, str_from_utf8};
use vstd::prelude::*;
use vstd::slice::slice_to_vec;
use vstd::utf8::{
    decode_utf8, encode_utf8, encode_utf8_decode_utf8, encode_utf8_valid_utf8, valid_utf8,
};

verus! {

/// One operation that a client asks of the server.
#[derive(Debug, Clone, PartialEq, Eq)]
pub enum ClientCommand {
    /// Sets the value of a key.
    Put { key: String, value: String },
    /// Asks for the value of a key.
    Get { key: String },
    /// Removes a key.
    Remove { key: String },
    /// Asks whether the server is there.
    PING,
}

/// The mathematical content of a [`ClientCommand`].
pub ghost enum CommandModel {
    Put { key: Seq<char>, value: Seq<char> },
    Get { key: Seq<char> },
    Remove { key: Seq<char> },
    Ping,
}

impl View for ClientCommand {
    type V = CommandModel;

    open spec fn view(&self) -> CommandModel {
        match self {
            ClientCommand::Put { key, value } => CommandModel::Put { key: key@, value: value@ },
            ClientCommand::Get { key } => CommandModel::Get { key: key@ },
            ClientCommand::Remove { key } => CommandModel::Remove { key: key@ },
            ClientCommand::PING => CommandModel::Ping,
        }
    }
}

/// Why a value is not a command.
#[derive(Debug, Clone, Copy, PartialEq, Eq, Structural)]
pub enum CommandError {
    /// The value is not an array of non-null bulk strings with a name in
    /// front.
    NotACommand,
    /// The name is none of the four that the server knows.
    UnknownCommand,
    /// The command has more or fewer arguments than it takes.
    WrongArity,
    /// An argument is not UTF-8 text.
    InvalidUtf8,
}

impl CommandError {
    /// The text of this error.
    pub open spec fn text(self) -> Seq<char> {
        match self {
            CommandError::NotACommand => "not a command"@,
            CommandError::UnknownCommand => "unknown command"@,
            CommandError::WrongArity => "wrong number of arguments"@,
            CommandError::InvalidUtf8 => "invalid UTF-8 in argument"@,
        }
    }

    /// The text of this error.
    pub fn message(&self) -> (out: String)
        ensures
            out@ == self.text(),
    {
        match self {
            CommandError::NotACommand => "not a command".to_owned(),
            CommandError::UnknownCommand => "unknown command".to_owned(),
            CommandError::WrongArity => "wrong number of arguments".to_owned(),
            CommandError::InvalidUtf8 => "invalid UTF-8 in argument".to_owned(),
        }
    }
}

/// The name `SET`.
pub open spec fn name_set() -> Seq<u8> {
    seq![83u8, 69u8, 84u8]
}

/// The name `GET`.
pub open spec fn name_get() -> Seq<u8> {
    seq![71u8, 69u8, 84u8]
}

/// The name `RM`.
pub open spec fn name_rm() -> Seq<u8> {
    seq![82u8, 77u8]
}

/// The name `PING`.
pub open spec fn name_ping() -> Seq<u8> {
    seq![80u8, 73u8, 78u8, 71u8]
}

/// A bulk string that holds `text` as UTF-8.
pub open spec fn bulk_text(text: Seq<char>) -> RespModel {
    RespModel::BulkStrings(Some(encode_utf8(text)))
}

/// A bulk string that holds `bytes`.
pub open spec fn bulk(bytes: Seq<u8>) -> RespModel {
    RespModel::BulkStrings(Some(bytes))
}

/// The value that frames `command` on the wire.
pub open spec fn command_frame(command: CommandModel) -> RespModel {
    match command {
        CommandModel::Put { key, value } => RespModel::Array(
            seq![bulk(name_set()), bulk_text(key), bulk_text(value)],
        ),
        CommandModel::Get { key } => RespModel::Array(seq![bulk(name_get()), bulk_text(key)]),
        CommandModel::Remove { key } => RespModel::Array(seq![bulk(name_rm()), bulk_text(key)]),
        CommandModel::Ping => RespModel::Array(seq![bulk(name_ping())]),
    }
}

/// Every element of `items` is a bulk string that is not null.
pub open spec fn all_bulk(items: Seq<RespModel>) -> bool {
    forall|i: int|
        0 <= i < items.len() ==> (#[trigger] items[i]) matches RespModel::BulkStrings(Some(_))
}

/// The bytes of the bulk string `v`.
pub open spec fn bulk_bytes(v: RespModel) -> Seq<u8> {
    match v {
        RespModel::BulkStrings(Some(b)) => b,
        _ => Seq::empty(),
    }
}

/// The number of arguments that the command named `name` takes, where
/// there is such a command.
pub open spec fn arity(name: Seq<u8>) -> Option<nat> {
    if name == name_set() {
        Some(2)
    } else if name == name_get() || name == name_rm() {
        Some(1)
    } else if name == name_ping() {
        Some(0)
    } else {
        None
    }
}

/// The command that `frame` holds, or why it holds none. The checks come in
/// this order: the shape of the frame, the name, the number of arguments,
/// the text of the arguments.
pub open spec fn command_of(frame: RespModel) -> Result<CommandModel, CommandError> {
    match frame {
        RespModel::Array(items) => {
            if items.len() == 0 || !all_bulk(items) {
                Err(CommandError::NotACommand)
            } else {
                let name = bulk_bytes(items[0]);
                match arity(name) {
                    None => Err(CommandError::UnknownCommand),
                    Some(n) => if items.len() != n + 1 {
                        Err(CommandError::WrongArity)
                    } else if exists|i: int|
                        1 <= i < items.len() && !valid_utf8(bulk_bytes(#[trigger] items[i])) {
                        Err(CommandError::InvalidUtf8)
                    } else if name == name_set() {
                        Ok(
                            CommandModel::Put {
                                key: decode_utf8(bulk_bytes(items[1])),
                                value: decode_utf8(bulk_bytes(items[2])),
                            },
                        )
                    } else if name == name_get() {
                        Ok(CommandModel::Get { key: decode_utf8(bulk_bytes(items[1])) })
                    } else if name == name_rm() {
                        Ok(CommandModel::Remove { key: decode_utf8(bulk_bytes(items[1])) })
                    } else {
                        Ok(CommandModel::Ping)
                    },
                }
            }
        },
        _ => Err(CommandError::NotACommand),
    }
}

/// A command is read back from its own frame.
pub proof fn lemma_command_frame(command: CommandModel)
    ensures
        command_of(command_frame(command)) == Ok::<CommandModel, CommandError>(command),
{
    let frame = command_frame(command);
    let items = frame->Array_0;
    assert(all_bulk(items));
    lemma_names_differ();
    assert forall|i: int| 1 <= i < items.len() implies valid_utf8(
        bulk_bytes(#[trigger] items[i]),
    ) by {
        match command {
            CommandModel::Put { key, value } => {
                encode_utf8_valid_utf8(key);
                encode_utf8_valid_utf8(value);
            },
            CommandModel::Get { key } => {
                encode_utf8_valid_utf8(key);
            },
            CommandModel::Remove { key } => {
                encode_utf8_valid_utf8(key);
            },
            CommandModel::Ping => {},
        }
    }
    match command {
        CommandModel::Put { key, value } => {
            encode_utf8_decode_utf8(key);
            encode_utf8_decode_utf8(value);
        },
        CommandModel::Get { key } => {
            encode_utf8_decode_utf8(key);
        },
        CommandModel::Remove { key } => {
            encode_utf8_decode_utf8(key);
        },
        CommandModel::Ping => {},
    }
}

/// The four names are four different byte sequences.
pub proof fn lemma_names_differ()
    ensures
        name_set() != name_get(),
        name_set() != name_rm(),
        name_set() != name_ping(),
        name_get() != name_rm(),
        name_get() != name_ping(),
        name_rm() != name_ping(),
{
    assert(name_set()[0] == 83 && name_get()[0] == 71 && name_rm()[0] == 82 && name_ping()[0]
        == 80);
}

/// A bulk string that holds the UTF-8 bytes of `text`.
pub fn bulk_of_text(text: &str) -> (out: RespValue)
    ensures
        out@ == bulk_text(text@),
{
    RespValue::BulkStrings(Some(slice_to_vec(text.as_bytes())))
}

/// The payload of `value` where it is a bulk string that is not null.
fn payload(value: &RespValue) -> (out: Option<&[u8]>)
    ensures
        match out {
            Some(bytes) => value@ == bulk(bytes@),
            None => !(value@ matches RespModel::BulkStrings(Some(_))),
        },
{
    match value {
        RespValue::BulkStrings(Some(bytes)) => Some(bytes.as_slice()),
        _ => None,
    }
}

/// The text of the bulk string `value`, where its payload is UTF-8.
fn argument(value: &RespValue) -> (out: Option<String>)
    requires
        value@ matches RespModel::BulkStrings(Some(_)),
    ensures
        out is Some <==> valid_utf8(bulk_bytes(value@)),
        out matches Some(text) ==> text@ == decode_utf8(bulk_bytes(value@)),
{
    match payload(value) {
        None => None,
        Some(bytes) => match str_from_utf8(bytes) {
            None => None,
            Some(text) => {
                proof {
                    encode_utf8_decode_utf8(text@);
                }
                Some(text.to_owned())
            },
        },
    }
}

impl ClientCommand {
    /// The value that frames this command on the wire.
    pub fn to_resp(&self) -> (out: RespValue)
        ensures
            out@ == command_frame(self@),
    {
        let mut items: Vec<RespValue> = Vec::new();
        match self {
            ClientCommand::Put { key, value } => {
                items.push(RespValue::BulkStrings(Some(vec![83u8, 69u8, 84u8])));
                items.push(bulk_of_text(key.as_str()));
                items.push(bulk_of_text(value.as_str()));
                proof {
                    assert(models(items@) =~= seq![
                        bulk(name_set()),
                        bulk_text(key@),
                        bulk_text(value@),
                    ]);
                }
            },
            ClientCommand::Get { key } => {
                items.push(RespValue::BulkStrings(Some(vec![71u8, 69u8, 84u8])));
                items.push(bulk_of_text(key.as_str()));
                proof {
                    assert(models(items@) =~= seq![bulk(name_get()), bulk_text(key@)]);
                }
            },
            ClientCommand::Remove { key } => {
                items.push(RespValue::BulkStrings(Some(vec![82u8, 77u8])));
                items.push(bulk_of_text(key.as_str()));
                proof {
                    assert(models(items@) =~= seq![bulk(name_rm()), bulk_text(key@)]);
                }
            },
            ClientCommand::PING => {
                items.push(RespValue::BulkStrings(Some(vec![80u8, 73u8, 78u8, 71u8])));
                proof {
                    assert(models(items@) =~= seq![bulk(name_ping())]);
                }
            },
        }
        proof {
            lemma_array_view(items);
        }
        RespValue::Array(items)
    }

    /// The command that `frame` holds, or why it holds none.
    pub fn from_resp(frame: &RespValue) -> (out: Result<ClientCommand, CommandError>)
        ensures
            match out {
                Ok(command) => command_of(frame@) == Ok::<CommandModel, CommandError>(command@),
                Err(e) => command_of(frame@) == Err::<CommandModel, CommandError>(e),
            },
    {
        let items = match frame {
            RespValue::Array(items) => items,
            _ => {
                return Err(CommandError::NotACommand);
            },
        };
        let ghost ms = models(items@);
        proof {
            lemma_array_view(*items);
            lemma_names_differ();
        }
        if items.len() == 0 {
            return Err(CommandError::NotACommand);
        }
        let mut i: usize = 0;
        while i < items.len()
            invariant
                i <= items@.len(),
                ms == models(items@),
                frame@ == RespModel::Array(ms),
                forall|j: int| 0 <= j < i ==> (#[trigger] ms[j]) matches RespModel::BulkStrings(
                    Some(_),
                ),
            decreases items.len() - i,
        {
            if payload(&items[i]).is_none() {
                proof {
                    assert(ms[i as int] == items@[i as int]@);
                }
                return Err(CommandError::NotACommand);
            }
            proof {
                assert(ms[i as int] == items@[i as int]@);
            }
            i += 1;
        }
        let name: &[u8] = match payload(&items[0]) {
            Some(bytes) => bytes,
            None => {
                return Err(CommandError::NotACommand);
            },
        };
        proof {
            assert(ms[0] == items@[0]@);
            assert(bulk_bytes(ms[0]) == name@);
        }
        let set = [83u8, 69u8, 84u8];
        let get = [71u8, 69u8, 84u8];
        let rm = [82u8, 77u8];
        let ping = [80u8, 73u8, 78u8, 71u8];
        proof {
            assert(set@ =~= name_set());
            assert(get@ =~= name_get());
            assert(rm@ =~= name_rm());
            assert(ping@ =~= name_ping());
        }
        let is_set = bytes_eq(name, set.as_slice());
        let is_get = bytes_eq(name, get.as_slice());
        let is_rm = bytes_eq(name, rm.as_slice());
        let is_ping = bytes_eq(name, ping.as_slice());
        if is_set {
            if items.len() != 3 {
                return Err(CommandError::WrongArity);
            }
            proof {
                assert(ms[1] == items@[1]@);
                assert(ms[2] == items@[2]@);
            }
            let key = argument(&items[1]);
            let value = argument(&items[2]);
            match (key, value) {
                (Some(key), Some(value)) => Ok(ClientCommand::Put { key, value }),
                _ => Err(CommandError::InvalidUtf8),
            }
        } else if is_get || is_rm {
            if items.len() != 2 {
                return Err(CommandError::WrongArity);
            }
            proof {
                assert(ms[1] == items@[1]@);
            }
            match argument(&items[1]) {
                Some(key) => if is_get {
                    Ok(ClientCommand::Get { key })
                } else {
                    Ok(ClientCommand::Remove { key })
                },
                None => Err(CommandError::InvalidUtf8),
            }
        } else if is_ping {
            if items.len() != 1 {
                return Err(CommandError::WrongArity);
            }
            Ok(ClientCommand::PING)
        } else {
            Err(CommandError::UnknownCommand)
        }
    }
}

} // verus!
