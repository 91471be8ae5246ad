use redis_starter_rust::cmd::get::Get;
use redis_starter_rust::cmd::ping::Ping;
use redis_starter_rust::cmd::set::SetCmd;
use redis_starter_rust::cmd::Command;
use redis_starter_rust::db::Db;
use redis_starter_rust::frame::{Frame, FrameError};
use redis_starter_rust::parse::ParseError;
use redis_starter_rust::server::{Action, Event, Fault, Handler, Shutdown, State};

fn bulk(s: &str) -> Frame {
    Frame::Bulk(s.as_bytes().to_vec())
}

fn simple(s: &str) -> Frame {
    Frame::Simple(s.to_string())
}

fn received(bytes: &[u8]) -> Event {
    Event::Received(bytes.to_vec())
}

/// Drives a handler as a server does: hands it the bytes, applies what it
/// asks to apply, and returns what it asks to write.
fn exchange(handler: &mut Handler, db: &mut Db, now: u64, bytes: &[u8]) -> Vec<u8> {
    let mut written = Vec::new();
    let mut action = handler.run(received(bytes));
    loop {
        match action {
            Action::Apply(cmd) => {
                let applied = cmd.apply(db, now);
                action = handler.run(Event::Applied(applied.reply));
            }
            Action::Write(bytes) => {
                written.extend_from_slice(&bytes);
                action = handler.run(Event::Flushed);
            }
            Action::Read => return written,
            other => panic!("the session ended: {:?}", other),
        }
    }
}

#[test]
fn latch_stays_set() {
    let mut shutdown = Shutdown::new();
    assert!(!shutdown.is_shutdown());
    shutdown.recv();
    assert!(shutdown.is_shutdown());
    shutdown.recv();
    assert!(shutdown.is_shutdown());
}

#[test]
fn new_session_is_reading() {
    let handler = Handler::new();
    assert_eq!(handler.state(), State::Reading);
}

#[test]
fn ping_is_answered_with_pong() {
    let mut handler = Handler::new();
    let mut db = Db::new();
    assert_eq!(exchange(&mut handler, &mut db, 0, b"*1\r\n$4\r\nPING\r\n"), b"+PONG\r\n".to_vec());
    assert_eq!(handler.state(), State::Reading);
}

#[test]
fn ping_with_a_message_is_answered_with_the_message() {
    let mut handler = Handler::new();
    let mut db = Db::new();
    assert_eq!(
        exchange(&mut handler, &mut db, 0, b"*2\r\n$4\r\nPING\r\n$5\r\nhello\r\n"),
        b"$5\r\nhello\r\n".to_vec()
    );
}

#[test]
fn set_then_get_on_one_connection() {
    let mut handler = Handler::new();
    let mut db = Db::new();
    assert_eq!(
        exchange(&mut handler, &mut db, 0, b"*3\r\n$3\r\nSET\r\n$1\r\na\r\n$1\r\n1\r\n"),
        b"+OK\r\n".to_vec()
    );
    assert_eq!(
        exchange(&mut handler, &mut db, 0, b"*2\r\n$3\r\nGET\r\n$1\r\na\r\n"),
        b"$1\r\n1\r\n".to_vec()
    );
}

#[test]
fn get_of_a_missing_key_is_answered_with_null() {
    let mut handler = Handler::new();
    let mut db = Db::new();
    assert_eq!(
        exchange(&mut handler, &mut db, 0, b"*2\r\n$3\r\nGET\r\n$7\r\nmissing\r\n"),
        b"$-1\r\n".to_vec()
    );
}

#[test]
fn value_set_with_px_is_gone_after_its_time() {
    let mut handler = Handler::new();
    let mut db = Db::new();
    assert_eq!(
        exchange(
            &mut handler,
            &mut db,
            0,
            b"*5\r\n$3\r\nSET\r\n$1\r\na\r\n$1\r\n1\r\n$2\r\nPX\r\n$2\r\n50\r\n"
        ),
        b"+OK\r\n".to_vec()
    );
    assert_eq!(db.purge_expired_keys(100), None);
    assert_eq!(
        exchange(&mut handler, &mut db, 100, b"*2\r\n$3\r\nGET\r\n$1\r\na\r\n"),
        b"$-1\r\n".to_vec()
    );
}

#[test]
fn two_connections_share_one_store() {
    let mut first = Handler::new();
    let mut second = Handler::new();
    let mut db = Db::new();
    assert_eq!(
        exchange(&mut first, &mut db, 0, b"*3\r\n$3\r\nSET\r\n$1\r\na\r\n$1\r\n1\r\n"),
        b"+OK\r\n".to_vec()
    );
    assert_eq!(
        exchange(&mut second, &mut db, 0, b"*2\r\n$3\r\nGET\r\n$1\r\na\r\n"),
        b"$1\r\n1\r\n".to_vec()
    );
}

#[test]
fn request_may_arrive_in_pieces() {
    let mut handler = Handler::new();
    assert_eq!(handler.run(received(b"*2\r\n$3\r\nGE")), Action::Read);
    assert_eq!(handler.state(), State::Reading);
    assert_eq!(handler.run(received(b"T\r\n$1\r")), Action::Read);
    assert_eq!(
        handler.run(received(b"\na\r\n")),
        Action::Apply(Command::Get(Get::new("a")))
    );
    assert_eq!(handler.state(), State::Dispatching);
}

#[test]
fn session_goes_through_its_states() {
    let mut handler = Handler::new();
    assert_eq!(handler.state(), State::Reading);
    assert_eq!(
        handler.run(received(b"*1\r\n$4\r\nPING\r\n")),
        Action::Apply(Command::Ping(Ping::new(None)))
    );
    assert_eq!(handler.state(), State::Dispatching);
    assert_eq!(
        handler.run(Event::Applied(simple("PONG"))),
        Action::Write(b"+PONG\r\n".to_vec())
    );
    assert_eq!(handler.state(), State::Writing);
    assert_eq!(handler.run(Event::Flushed), Action::Read);
    assert_eq!(handler.state(), State::Reading);
}

#[test]
fn second_request_waits_until_the_first_reply_is_flushed() {
    let mut handler = Handler::new();
    let both = b"*2\r\n$3\r\nGET\r\n$1\r\na\r\n*2\r\n$3\r\nGET\r\n$1\r\nb\r\n";
    assert_eq!(handler.run(received(both)), Action::Apply(Command::Get(Get::new("a"))));
    assert_eq!(handler.run(Event::Applied(Frame::Null)), Action::Write(b"$-1\r\n".to_vec()));
    assert_eq!(handler.state(), State::Writing);
    assert_eq!(handler.run(Event::Flushed), Action::Apply(Command::Get(Get::new("b"))));
    assert_eq!(handler.run(Event::Applied(bulk("x"))), Action::Write(b"$1\r\nx\r\n".to_vec()));
    assert_eq!(handler.run(Event::Flushed), Action::Read);
}

#[test]
fn early_bytes_of_a_second_request_are_kept() {
    let mut handler = Handler::new();
    assert_eq!(
        handler.run(received(b"*1\r\n$4\r\nPING\r\n*2\r\n$3\r\nGET")),
        Action::Apply(Command::Ping(Ping::new(None)))
    );
    assert_eq!(handler.run(Event::Applied(simple("PONG"))), Action::Write(b"+PONG\r\n".to_vec()));
    assert_eq!(handler.run(Event::Flushed), Action::Read);
    assert_eq!(
        handler.run(received(b"\r\n$1\r\nk\r\n")),
        Action::Apply(Command::Get(Get::new("k")))
    );
}

#[test]
fn peer_that_closes_ends_the_session_in_good_order() {
    let mut handler = Handler::new();
    assert_eq!(handler.run(received(b"")), Action::Close(None));
    assert_eq!(handler.state(), State::Closed);
}

#[test]
fn peer_that_closes_inside_a_request_ends_the_session_in_good_order() {
    let mut handler = Handler::new();
    assert_eq!(handler.run(received(b"*2\r\n$3\r\nGET")), Action::Read);
    assert_eq!(handler.run(received(b"")), Action::Close(None));
    assert_eq!(handler.state(), State::Closed);
}

#[test]
fn shutdown_ends_a_session_that_is_reading() {
    let mut handler = Handler::new();
    assert_eq!(handler.run(Event::Shutdown), Action::Close(None));
    assert_eq!(handler.state(), State::Closed);
}

#[test]
fn shutdown_lets_a_command_in_flight_finish() {
    let mut handler = Handler::new();
    let mut db = Db::new();
    let action = handler.run(received(b"*3\r\n$3\r\nSET\r\n$1\r\na\r\n$1\r\n1\r\n"));
    assert_eq!(action, Action::Apply(Command::SetCmd(SetCmd::new("a", b"1".to_vec(), None))));
    assert_eq!(handler.run(Event::Shutdown), Action::Continue);
    assert_eq!(handler.state(), State::Dispatching);
    let applied = match action {
        Action::Apply(cmd) => cmd.apply(&mut db, 0),
        other => panic!("no command: {:?}", other),
    };
    assert_eq!(handler.run(Event::Applied(applied.reply)), Action::Write(b"+OK\r\n".to_vec()));
    assert_eq!(handler.run(Event::Flushed), Action::Close(None));
    assert_eq!(handler.state(), State::Closed);
    assert_eq!(db.get("a"), Some(b"1".to_vec()));
}

#[test]
fn shutdown_while_writing_ends_the_session_once_flushed() {
    let mut handler = Handler::new();
    let both = b"*1\r\n$4\r\nPING\r\n*1\r\n$4\r\nPING\r\n";
    assert_eq!(handler.run(received(both)), Action::Apply(Command::Ping(Ping::new(None))));
    assert_eq!(handler.run(Event::Applied(simple("PONG"))), Action::Write(b"+PONG\r\n".to_vec()));
    assert_eq!(handler.run(Event::Shutdown), Action::Continue);
    assert_eq!(handler.state(), State::Writing);
    assert_eq!(handler.run(Event::Flushed), Action::Close(None));
}

#[test]
fn bytes_that_are_no_frame_end_the_session() {
    let mut handler = Handler::new();
    assert_eq!(
        handler.run(received(b"PING\r\n")),
        Action::Close(Some(Fault::Frame(FrameError::ProtocolError(
            "invalid frame format".to_string()
        ))))
    );
    assert_eq!(handler.state(), State::Closed);
}

#[test]
fn frame_that_is_no_command_ends_the_session() {
    let mut handler = Handler::new();
    assert_eq!(
        handler.run(received(b"$4\r\nPING\r\n")),
        Action::Close(Some(Fault::Command(ParseError::ProtocolError("expected array".to_string()))))
    );
    let mut handler = Handler::new();
    assert_eq!(
        handler.run(received(b"*1\r\n$3\r\nGET\r\n")),
        Action::Close(Some(Fault::Command(ParseError::EndOfStreamError)))
    );
    assert_eq!(handler.state(), State::Closed);
    let mut handler = Handler::new();
    assert_eq!(
        handler.run(received(b"*4\r\n$3\r\nSET\r\n$1\r\na\r\n$1\r\n1\r\n$2\r\nEX\r\n")),
        Action::Close(Some(Fault::Command(ParseError::ProtocolError(
            "currently `SET` only supports the expiration option `PX`".to_string()
        ))))
    );
}

#[test]
fn malformed_second_request_ends_the_session_once_the_first_is_answered() {
    let mut handler = Handler::new();
    assert_eq!(
        handler.run(received(b"*1\r\n$4\r\nPING\r\n+oops\r\n")),
        Action::Apply(Command::Ping(Ping::new(None)))
    );
    assert_eq!(handler.run(Event::Applied(simple("PONG"))), Action::Write(b"+PONG\r\n".to_vec()));
    assert_eq!(
        handler.run(Event::Flushed),
        Action::Close(Some(Fault::Frame(FrameError::ProtocolError(
            "invalid frame format".to_string()
        ))))
    );
}

#[test]
fn failure_ends_the_session_wherever_it_stands() {
    let mut handler = Handler::new();
    assert_eq!(handler.run(Event::Failed), Action::Close(Some(Fault::Io)));
    assert_eq!(handler.state(), State::Closed);
    let mut handler = Handler::new();
    handler.run(received(b"*1\r\n$4\r\nPING\r\n"));
    assert_eq!(handler.run(Event::Failed), Action::Close(Some(Fault::Io)));
    let mut handler = Handler::new();
    handler.run(received(b"*1\r\n$4\r\nPING\r\n"));
    handler.run(Event::Applied(simple("PONG")));
    assert_eq!(handler.run(Event::Failed), Action::Close(Some(Fault::Io)));
    assert_eq!(handler.state(), State::Closed);
}

#[test]
fn session_that_is_over_stays_over() {
    let mut handler = Handler::new();
    handler.run(received(b""));
    for event in [
        received(b"*1\r\n$4\r\nPING\r\n"),
        Event::Applied(Frame::Null),
        Event::Flushed,
        Event::Shutdown,
        Event::Failed,
    ] {
        assert_eq!(handler.run(event), Action::Close(None));
        assert_eq!(handler.state(), State::Closed);
    }
}

#[test]
fn event_out_of_turn_ends_the_session() {
    let mut handler = Handler::new();
    assert_eq!(handler.run(Event::Flushed), Action::Close(Some(Fault::Unexpected)));
    let mut handler = Handler::new();
    assert_eq!(handler.run(Event::Applied(Frame::Null)), Action::Close(Some(Fault::Unexpected)));
    let mut handler = Handler::new();
    handler.run(received(b"*1\r\n$4\r\nPING\r\n"));
    assert_eq!(handler.run(received(b"x")), Action::Close(Some(Fault::Unexpected)));
    let mut handler = Handler::new();
    handler.run(received(b"*1\r\n$4\r\nPING\r\n"));
    assert_eq!(handler.run(Event::Flushed), Action::Close(Some(Fault::Unexpected)));
    let mut handler = Handler::new();
    handler.run(received(b"*1\r\n$4\r\nPING\r\n"));
    handler.run(Event::Applied(simple("PONG")));
    assert_eq!(handler.run(Event::Applied(simple("PONG"))), Action::Close(Some(Fault::Unexpected)));
    assert_eq!(handler.state(), State::Closed);
}

#[test]
fn array_reply_is_written_whole() {
    let mut handler = Handler::new();
    handler.run(received(b"*1\r\n$4\r\nPING\r\n"));
    let reply = Frame::Array(vec![simple("a"), Frame::Integer(2), Frame::Null]);
    assert_eq!(
        handler.run(Event::Applied(reply)),
        Action::Write(b"*3\r\n+a\r\n:2\r\n$-1\r\n".to_vec())
    );
}
