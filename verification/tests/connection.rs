use kvs::client::encode_command;
use kvs::command::ClientCommand;
use kvs::connection::{advance, open, Action, ConnectionState, Event, REQUEST_CAPACITY};
use kvs::engine::{KvsEngine, MemoryEngine};
use kvs::resp::RespValue;

#[test]
fn a_new_connection_reads_first() {
    assert_eq!(open(), (ConnectionState::Accepted, Action::Read));
    assert_eq!(REQUEST_CAPACITY, 512);
}

#[test]
fn get_is_answered_once_and_the_connection_closes() {
    let mut engine = MemoryEngine::new();
    assert_eq!(engine.set("a".to_string(), "1".to_string()), Ok(()));
    let request = encode_command(&ClientCommand::Get { key: "a".to_string() });

    let (state, action) = open();
    assert_eq!(action, Action::Read);
    let (state, action) = advance(state, Event::Received(request.clone()), &mut engine);
    assert_eq!(state, ConnectionState::RequestRead);
    assert_eq!(action, Action::Write(b"$1\r\n1\r\n".to_vec()));
    let (state, action) = advance(state, Event::Sent, &mut engine);
    assert_eq!(state, ConnectionState::Responded);
    assert_eq!(action, Action::Close);

    let (state, action) = advance(state, Event::Received(request), &mut engine);
    assert_eq!(state, ConnectionState::Responded);
    assert_eq!(action, Action::Close);
}

#[test]
fn a_second_request_is_not_answered() {
    let mut engine = MemoryEngine::new();
    let first = encode_command(&ClientCommand::PING);
    let second = encode_command(&ClientCommand::Put {
        key: "a".to_string(),
        value: "1".to_string(),
    });
    let (state, _) = open();
    let (state, action) = advance(state, Event::Received(first), &mut engine);
    assert_eq!(action, Action::Write(b"+PONG\r\n".to_vec()));
    let (state, action) = advance(state, Event::Received(second), &mut engine);
    assert_eq!(state, ConnectionState::Responded);
    assert_eq!(action, Action::Close);
    assert_eq!(engine.get("a".to_string()), Ok(None));
}

#[test]
fn a_request_that_does_not_decode_is_answered_with_an_error() {
    let mut engine = MemoryEngine::new();
    let (state, _) = open();
    let (state, action) = advance(state, Event::Received(b"*2\r\n$3\r\nGE".to_vec()), &mut engine);
    assert_eq!(state, ConnectionState::RequestRead);
    assert_eq!(action, Action::Write(b"-incomplete data\r\n".to_vec()));
    let (state, action) = advance(state, Event::Sent, &mut engine);
    assert_eq!((state, action), (ConnectionState::Responded, Action::Close));
}

#[test]
fn an_empty_read_is_answered_with_an_error() {
    let mut engine = MemoryEngine::new();
    let (state, _) = open();
    let (state, action) = advance(state, Event::Received(Vec::new()), &mut engine);
    assert_eq!(state, ConnectionState::RequestRead);
    match action {
        Action::Write(reply) => {
            assert!(matches!(RespValue::decode(&reply), Ok(RespValue::Error(_))));
        }
        _ => panic!("a reply is due"),
    }
}

#[test]
fn a_write_that_was_never_asked_for_closes() {
    let mut engine = MemoryEngine::new();
    let (state, _) = open();
    let (state, action) = advance(state, Event::Sent, &mut engine);
    assert_eq!((state, action), (ConnectionState::Responded, Action::Close));
}
