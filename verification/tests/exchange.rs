use kvs::client::{encode_command, read_reply, ReplyError, ServerResponse};
use kvs::command::{bulk_of_text, ClientCommand, CommandError};
use kvs::engine::{KvsEngine, KvsError, MemoryEngine};
use kvs::resp::{DecodeError, RespValue};
use kvs::service::{ack_reply, error_reply_for, execute, get_reply, handle_request, respond};
use kvs::text::{bytes_eq, is_line_text, text_eq};

fn bulk(bytes: &[u8]) -> RespValue {
    RespValue::BulkStrings(Some(bytes.to_vec()))
}

fn put(key: &str, value: &str) -> ClientCommand {
    ClientCommand::Put { key: key.to_string(), value: value.to_string() }
}

fn get(key: &str) -> ClientCommand {
    ClientCommand::Get { key: key.to_string() }
}

fn remove(key: &str) -> ClientCommand {
    ClientCommand::Remove { key: key.to_string() }
}

#[test]
fn frames_of_commands() {
    assert_eq!(
        put("a", "1").to_resp(),
        RespValue::Array(vec![bulk(b"SET"), bulk(b"a"), bulk(b"1")])
    );
    assert_eq!(get("a").to_resp(), RespValue::Array(vec![bulk(b"GET"), bulk(b"a")]));
    assert_eq!(remove("a").to_resp(), RespValue::Array(vec![bulk(b"RM"), bulk(b"a")]));
    assert_eq!(ClientCommand::PING.to_resp(), RespValue::Array(vec![bulk(b"PING")]));
}

#[test]
fn bytes_of_commands() {
    assert_eq!(
        encode_command(&put("a", "1")),
        b"*3\r\n$3\r\nSET\r\n$1\r\na\r\n$1\r\n1\r\n".to_vec()
    );
    assert_eq!(encode_command(&get("key")), b"*2\r\n$3\r\nGET\r\n$3\r\nkey\r\n".to_vec());
    assert_eq!(encode_command(&remove("key")), b"*2\r\n$2\r\nRM\r\n$3\r\nkey\r\n".to_vec());
    assert_eq!(encode_command(&ClientCommand::PING), b"*1\r\n$4\r\nPING\r\n".to_vec());
}

#[test]
fn commands_are_read_back() {
    let commands = vec![
        put("a", "1"),
        put("", ""),
        put("k\u{e9}y", "line\r\nbreak"),
        get("a"),
        remove("a"),
        ClientCommand::PING,
    ];
    for command in commands {
        assert_eq!(ClientCommand::from_resp(&command.to_resp()), Ok(command));
    }
    let commands = vec![put("a", "1"), get("a"), remove("a"), ClientCommand::PING];
    for command in commands {
        let frame = RespValue::decode(&encode_command(&command)).unwrap();
        assert_eq!(ClientCommand::from_resp(&frame), Ok(command));
    }
}

#[test]
fn values_that_are_no_command() {
    assert_eq!(
        ClientCommand::from_resp(&RespValue::SimpleStrings("GET".to_string())),
        Err(CommandError::NotACommand)
    );
    assert_eq!(
        ClientCommand::from_resp(&RespValue::Array(vec![])),
        Err(CommandError::NotACommand)
    );
    assert_eq!(
        ClientCommand::from_resp(&RespValue::Array(vec![bulk(b"GET"), RespValue::Integer(1)])),
        Err(CommandError::NotACommand)
    );
    assert_eq!(
        ClientCommand::from_resp(&RespValue::Array(vec![
            bulk(b"GET"),
            RespValue::BulkStrings(None)
        ])),
        Err(CommandError::NotACommand)
    );
    assert_eq!(
        ClientCommand::from_resp(&RespValue::Array(vec![RespValue::Integer(1), bulk(b"a")])),
        Err(CommandError::NotACommand)
    );
}

#[test]
fn unknown_names() {
    for name in [&b"get"[..], b"DEL", b"", b"SETX", b"PIN", b"GE"] {
        assert_eq!(
            ClientCommand::from_resp(&RespValue::Array(vec![bulk(name), bulk(b"a")])),
            Err(CommandError::UnknownCommand)
        );
    }
}

#[test]
fn wrong_number_of_arguments() {
    assert_eq!(
        ClientCommand::from_resp(&RespValue::Array(vec![bulk(b"SET"), bulk(b"a")])),
        Err(CommandError::WrongArity)
    );
    assert_eq!(
        ClientCommand::from_resp(&RespValue::Array(vec![bulk(b"GET")])),
        Err(CommandError::WrongArity)
    );
    assert_eq!(
        ClientCommand::from_resp(&RespValue::Array(vec![bulk(b"RM"), bulk(b"a"), bulk(b"b")])),
        Err(CommandError::WrongArity)
    );
    assert_eq!(
        ClientCommand::from_resp(&RespValue::Array(vec![bulk(b"PING"), bulk(b"a")])),
        Err(CommandError::WrongArity)
    );
}

#[test]
fn arguments_that_are_not_text() {
    assert_eq!(
        ClientCommand::from_resp(&RespValue::Array(vec![bulk(b"GET"), bulk(b"\xff")])),
        Err(CommandError::InvalidUtf8)
    );
    assert_eq!(
        ClientCommand::from_resp(&RespValue::Array(vec![bulk(b"SET"), bulk(b"a"), bulk(b"\xc3")])),
        Err(CommandError::InvalidUtf8)
    );
    assert_eq!(
        ClientCommand::from_resp(&RespValue::Array(vec![bulk(b"SET"), bulk(b"\x80"), bulk(b"b")])),
        Err(CommandError::InvalidUtf8)
    );
}

#[test]
fn command_error_messages() {
    assert_eq!(CommandError::NotACommand.message(), "not a command");
    assert_eq!(CommandError::UnknownCommand.message(), "unknown command");
    assert_eq!(CommandError::WrongArity.message(), "wrong number of arguments");
    assert_eq!(CommandError::InvalidUtf8.message(), "invalid UTF-8 in argument");
}

#[test]
fn replies_to_results() {
    assert_eq!(ack_reply(Ok(())), RespValue::SimpleStrings("OK".to_string()));
    assert_eq!(
        ack_reply(Err(KvsError::KeyNotFound)),
        RespValue::Error("Key not found".to_string())
    );
    assert_eq!(
        ack_reply(Err(KvsError::Io("disk full".to_string()))),
        RespValue::Error("disk full".to_string())
    );
    assert_eq!(get_reply(Ok(Some("v".to_string()))), bulk(b"v"));
    assert_eq!(get_reply(Ok(None)), RespValue::BulkStrings(None));
    assert_eq!(
        get_reply(Err(KvsError::Io("gone".to_string()))),
        RespValue::Error("gone".to_string())
    );
}

#[test]
fn error_reply_stays_on_one_line() {
    assert_eq!(
        error_reply_for("plain".to_string()),
        RespValue::Error("plain".to_string())
    );
    assert_eq!(
        error_reply_for("two\nlines".to_string()),
        RespValue::Error("error".to_string())
    );
    assert_eq!(
        ack_reply(Err(KvsError::Io("a\r\nb".to_string()))),
        RespValue::Error("error".to_string())
    );
}

#[test]
fn execute_on_an_engine() {
    let mut engine = MemoryEngine::new();
    assert_eq!(
        execute(&mut engine, ClientCommand::PING),
        RespValue::SimpleStrings("PONG".to_string())
    );
    assert_eq!(
        execute(&mut engine, put("a", "1")),
        RespValue::SimpleStrings("OK".to_string())
    );
    assert_eq!(execute(&mut engine, get("a")), bulk(b"1"));
    assert_eq!(
        execute(&mut engine, remove("a")),
        RespValue::SimpleStrings("OK".to_string())
    );
    assert_eq!(execute(&mut engine, get("a")), RespValue::BulkStrings(None));
    assert_eq!(
        execute(&mut engine, remove("a")),
        RespValue::Error("Key not found".to_string())
    );
    assert_eq!(engine.get("a".to_string()), Ok(None));
}

#[test]
fn one_request_one_reply() {
    let mut engine = MemoryEngine::new();
    assert_eq!(handle_request(&mut engine, &encode_command(&put("a", "1"))), b"+OK\r\n".to_vec());
    assert_eq!(
        handle_request(&mut engine, &encode_command(&get("a"))),
        b"$1\r\n1\r\n".to_vec()
    );
    assert_eq!(handle_request(&mut engine, &encode_command(&get("b"))), b"$-1\r\n".to_vec());
    assert_eq!(
        handle_request(&mut engine, &encode_command(&remove("b"))),
        b"-Key not found\r\n".to_vec()
    );
    assert_eq!(
        handle_request(&mut engine, &encode_command(&ClientCommand::PING)),
        b"+PONG\r\n".to_vec()
    );
}

#[test]
fn a_request_that_is_none_is_answered() {
    let mut engine = MemoryEngine::new();
    assert_eq!(handle_request(&mut engine, b""), b"-unrecognized value type\r\n".to_vec());
    assert_eq!(handle_request(&mut engine, b"*1\r\n$4\r\nPI"), b"-incomplete data\r\n".to_vec());
    assert_eq!(
        handle_request(&mut engine, b"*1\r\n$4\r\nPINGxx"),
        b"-malformed terminator\r\n".to_vec()
    );
    assert_eq!(
        handle_request(&mut engine, b"*1\r\n$4\r\nPING\r\n "),
        b"-format error\r\n".to_vec()
    );
    assert_eq!(handle_request(&mut engine, b"+\xff\r\n"), b"-invalid UTF-8\r\n".to_vec());
    assert_eq!(handle_request(&mut engine, b"+PING\r\n"), b"-not a command\r\n".to_vec());
    assert_eq!(
        handle_request(&mut engine, b"*1\r\n$4\r\nQUIT\r\n"),
        b"-unknown command\r\n".to_vec()
    );
    assert_eq!(
        handle_request(&mut engine, b"*1\r\n$3\r\nGET\r\n"),
        b"-wrong number of arguments\r\n".to_vec()
    );
    assert_eq!(
        handle_request(&mut engine, b"*2\r\n$3\r\nGET\r\n$1\r\n\xff\r\n"),
        b"-invalid UTF-8 in argument\r\n".to_vec()
    );
    assert_eq!(
        respond(&mut engine, b"{\"Get\":{\"key\":\"a\"}}"),
        RespValue::Error("unrecognized value type".to_string())
    );
}

#[test]
fn a_request_cut_short_changes_nothing() {
    let mut engine = MemoryEngine::new();
    let request = encode_command(&put("a", "1"));
    for cut in 0..request.len() {
        let reply = RespValue::decode(&handle_request(&mut engine, &request[..cut])).unwrap();
        assert!(matches!(reply, RespValue::Error(_)));
        assert_eq!(engine.get("a".to_string()), Ok(None));
    }
}

#[test]
fn replies_are_read() {
    assert_eq!(read_reply(b"+OK\r\n"), Ok(ServerResponse::Empty));
    assert_eq!(read_reply(b"$-1\r\n"), Ok(ServerResponse::Empty));
    assert_eq!(read_reply(b"$1\r\n1\r\n"), Ok(ServerResponse::Value("1".to_string())));
    assert_eq!(
        read_reply(b"-Key not found\r\n"),
        Ok(ServerResponse::Failure("Key not found".to_string()))
    );
    assert_eq!(read_reply(b":5\r\n"), Err(ReplyError::Unexpected));
    assert_eq!(read_reply(b"*0\r\n"), Err(ReplyError::Unexpected));
    assert_eq!(read_reply(b"$1\r\n\xff\r\n"), Err(ReplyError::InvalidUtf8));
    assert_eq!(read_reply(b""), Err(ReplyError::Decode(DecodeError::UnrecognizedType)));
    assert_eq!(read_reply(b"+OK"), Err(ReplyError::Decode(DecodeError::Incomplete)));
    assert_eq!(
        read_reply(b"Response from kvs-server"),
        Err(ReplyError::Decode(DecodeError::UnrecognizedType))
    );
}

#[test]
fn replies_from_values() {
    assert_eq!(
        ServerResponse::from_resp(&RespValue::SimpleStrings("PONG".to_string())),
        Ok(ServerResponse::Empty)
    );
    assert_eq!(
        ServerResponse::from_resp(&bulk("h\u{e9}".as_bytes())),
        Ok(ServerResponse::Value("h\u{e9}".to_string()))
    );
    assert_eq!(
        ServerResponse::from_resp(&RespValue::Integer(1)),
        Err(ReplyError::Unexpected)
    );
}

#[test]
fn a_whole_exchange() {
    let mut engine = MemoryEngine::new();
    let reply = handle_request(&mut engine, &encode_command(&put("k", "v")));
    assert_eq!(read_reply(&reply), Ok(ServerResponse::Empty));
    let reply = handle_request(&mut engine, &encode_command(&get("k")));
    assert_eq!(read_reply(&reply), Ok(ServerResponse::Value("v".to_string())));
    let reply = handle_request(&mut engine, &encode_command(&remove("k")));
    assert_eq!(read_reply(&reply), Ok(ServerResponse::Empty));
    let reply = handle_request(&mut engine, &encode_command(&remove("k")));
    assert_eq!(read_reply(&reply), Ok(ServerResponse::Failure("Key not found".to_string())));
}

#[test]
fn text_helpers() {
    assert!(is_line_text(""));
    assert!(is_line_text("one line"));
    assert!(is_line_text("\u{10d}\u{10a}"));
    assert!(!is_line_text("a\rb"));
    assert!(!is_line_text("a\nb"));
    assert!(!is_line_text("\r\n"));
    assert!(text_eq("kvs", "kvs"));
    assert!(!text_eq("kvs", "kv"));
    assert!(!text_eq("kvs", "kvx"));
    assert!(bytes_eq(b"", b""));
    assert!(bytes_eq(b"ab", b"ab"));
    assert!(!bytes_eq(b"ab", b"ac"));
    assert!(!bytes_eq(b"ab", b"abc"));
    assert_eq!(bulk_of_text("h\u{e9}"), bulk(&[104u8, 195u8, 169u8]));
}
