use redis_starter_rust::connection::{Connection, Read};
use redis_starter_rust::decimal::{is_number, push_decimal, read_decimal};
use redis_starter_rust::frame::{get_decimal, get_line, get_u8, skip, Cursor, Frame, FrameError};

fn bulk(s: &str) -> Frame {
    Frame::Bulk(s.as_bytes().to_vec())
}

fn malformed() -> FrameError {
    FrameError::ProtocolError("invalid frame format".to_string())
}

fn decode(bytes: &[u8]) -> (Result<Frame, FrameError>, usize) {
    let mut cursor = Cursor::new(bytes);
    let r = Frame::parse(&mut cursor);
    (r, cursor.position())
}

fn decimal(n: u64) -> Vec<u8> {
    let mut out = Vec::new();
    push_decimal(&mut out, n);
    out
}

#[test]
fn decimal_is_written_without_leading_zeros() {
    assert_eq!(decimal(0), b"0".to_vec());
    assert_eq!(decimal(7), b"7".to_vec());
    assert_eq!(decimal(10), b"10".to_vec());
    assert_eq!(decimal(1234567890), b"1234567890".to_vec());
    assert_eq!(decimal(u64::MAX), b"18446744073709551615".to_vec());
}

#[test]
fn decimal_is_appended_behind_what_is_there() {
    let mut out = b"$".to_vec();
    push_decimal(&mut out, 42);
    assert_eq!(out, b"$42".to_vec());
}

#[test]
fn decimal_tokens_are_read() {
    assert_eq!(read_decimal(b"0"), Some(0));
    assert_eq!(read_decimal(b"5"), Some(5));
    assert_eq!(read_decimal(b"007"), Some(7));
    assert_eq!(read_decimal(b"1234567890"), Some(1234567890));
    assert_eq!(read_decimal(b"18446744073709551615"), Some(u64::MAX));
    assert_eq!(read_decimal(b"00018446744073709551615"), Some(u64::MAX));
}

#[test]
fn decimal_tokens_that_are_no_number_are_refused() {
    assert_eq!(read_decimal(b""), None);
    assert_eq!(read_decimal(b"-1"), None);
    assert_eq!(read_decimal(b"-0"), None);
    assert_eq!(read_decimal(b"+5"), None);
    assert_eq!(read_decimal(b"12a"), None);
    assert_eq!(read_decimal(b"a12"), None);
    assert_eq!(read_decimal(b" 12"), None);
    assert_eq!(read_decimal(b"1.5"), None);
    assert_eq!(read_decimal(b"18446744073709551616"), None);
    assert_eq!(read_decimal(b"99999999999999999999999"), None);
}

#[test]
fn digits_are_told_from_other_bytes() {
    assert!(is_number(b"0123456789"));
    assert!(!is_number(b""));
    assert!(!is_number(b"/"));
    assert!(!is_number(b":"));
    assert!(!is_number(b"12\r"));
}

#[test]
fn every_kind_of_frame_is_encoded() {
    assert_eq!(Connection::write_frame(&Frame::Simple("OK".to_string())), b"+OK\r\n".to_vec());
    assert_eq!(
        Connection::write_frame(&Frame::Error("ERR no".to_string())),
        b"-ERR no\r\n".to_vec()
    );
    assert_eq!(Connection::write_frame(&Frame::Integer(0)), b":0\r\n".to_vec());
    assert_eq!(Connection::write_frame(&Frame::Integer(1234)), b":1234\r\n".to_vec());
    assert_eq!(
        Connection::write_frame(&Frame::Integer(u64::MAX)),
        b":18446744073709551615\r\n".to_vec()
    );
    assert_eq!(Connection::write_frame(&bulk("hello")), b"$5\r\nhello\r\n".to_vec());
    assert_eq!(Connection::write_frame(&bulk("")), b"$0\r\n\r\n".to_vec());
    assert_eq!(Connection::write_frame(&Frame::Null), b"$-1\r\n".to_vec());
}

#[test]
fn text_is_encoded_as_utf8() {
    assert_eq!(
        Connection::write_frame(&Frame::Simple("h\u{e9}".to_string())),
        vec![b'+', b'h', 0xc3, 0xa9, b'\r', b'\n']
    );
}

#[test]
fn arrays_are_encoded_with_their_count() {
    assert_eq!(Connection::write_frame(&Frame::Array(vec![])), b"*0\r\n".to_vec());
    let reply = Frame::Array(vec![
        Frame::Simple("a".to_string()),
        Frame::Integer(2),
        bulk("ccc"),
        Frame::Null,
        Frame::Error("e".to_string()),
    ]);
    assert_eq!(
        Connection::write_frame(&reply),
        b"*5\r\n+a\r\n:2\r\n$3\r\nccc\r\n$-1\r\n-e\r\n".to_vec()
    );
}

#[test]
fn nested_arrays_are_encoded() {
    let frame = Frame::Array(vec![
        Frame::Array(vec![bulk("a"), Frame::Array(vec![])]),
        bulk("b"),
    ]);
    assert_eq!(
        Connection::write_frame(&frame),
        b"*2\r\n*2\r\n$1\r\na\r\n*0\r\n$1\r\nb\r\n".to_vec()
    );
}

#[test]
fn array_of_twelve_has_a_two_digit_count() {
    let mut items = Vec::new();
    for _ in 0..12 {
        items.push(Frame::Integer(1));
    }
    let bytes = Connection::write_frame(&Frame::Array(items));
    assert_eq!(&bytes[..5], b"*12\r\n");
    assert_eq!(bytes.len(), 5 + 12 * 4);
}

#[test]
fn bulk_string_is_decoded() {
    let (r, pos) = decode(b"$5\r\nhello\r\n");
    assert_eq!(r, Ok(bulk("hello")));
    assert_eq!(pos, 11);
}

#[test]
fn empty_bulk_string_is_decoded() {
    let (r, pos) = decode(b"$0\r\n\r\n");
    assert_eq!(r, Ok(bulk("")));
    assert_eq!(pos, 6);
}

#[test]
fn bulk_string_may_hold_line_terminators() {
    let (r, pos) = decode(b"$4\r\n\r\n\r\n\r\n");
    assert_eq!(r, Ok(Frame::Bulk(b"\r\n\r\n".to_vec())));
    assert_eq!(pos, 10);
}

#[test]
fn decoding_stops_behind_the_frame() {
    let (r, pos) = decode(b"$1\r\na\r\n$1\r\nb\r\n");
    assert_eq!(r, Ok(bulk("a")));
    assert_eq!(pos, 7);
}

#[test]
fn decoding_starts_at_the_cursor() {
    let bytes = b"$1\r\na\r\n$2\r\nbc\r\n";
    let mut cursor = Cursor::new(bytes);
    assert_eq!(Frame::parse(&mut cursor), Ok(bulk("a")));
    assert_eq!(cursor.remaining(), 8);
    assert_eq!(Frame::parse(&mut cursor), Ok(bulk("bc")));
    assert_eq!(cursor.position(), 15);
    assert_eq!(cursor.remaining(), 0);
    assert_eq!(Frame::parse(&mut cursor), Err(FrameError::IncompleteError));
    assert_eq!(cursor.position(), 15);
}

#[test]
fn array_is_decoded() {
    let (r, pos) = decode(b"*2\r\n$3\r\nGET\r\n$1\r\na\r\n");
    assert_eq!(r, Ok(Frame::Array(vec![bulk("GET"), bulk("a")])));
    assert_eq!(pos, 20);
}

#[test]
fn empty_array_is_decoded() {
    let (r, pos) = decode(b"*0\r\n");
    assert_eq!(r, Ok(Frame::Array(vec![])));
    assert_eq!(pos, 4);
}

#[test]
fn nested_array_is_decoded() {
    let (r, pos) = decode(b"*2\r\n*2\r\n$1\r\na\r\n*0\r\n$1\r\nb\r\n");
    assert_eq!(
        r,
        Ok(Frame::Array(vec![
            Frame::Array(vec![bulk("a"), Frame::Array(vec![])]),
            bulk("b"),
        ]))
    );
    assert_eq!(pos, 26);
}

#[test]
fn leading_zeros_in_a_length_are_read() {
    let (r, pos) = decode(b"$003\r\nabc\r\n");
    assert_eq!(r, Ok(bulk("abc")));
    assert_eq!(pos, 11);
}

#[test]
fn empty_buffer_is_incomplete() {
    let (r, pos) = decode(b"");
    assert_eq!(r, Err(FrameError::IncompleteError));
    assert_eq!(pos, 0);
}

#[test]
fn length_line_without_terminator_is_incomplete() {
    for bytes in [&b"$"[..], b"$5", b"$5\r", b"*", b"*2", b"*2\r"] {
        let (r, pos) = decode(bytes);
        assert_eq!(r, Err(FrameError::IncompleteError));
        assert_eq!(pos, 0);
    }
}

#[test]
fn unfinished_length_is_incomplete_though_it_is_no_number_yet() {
    let (r, pos) = decode(b"$-1\r");
    assert_eq!(r, Err(FrameError::IncompleteError));
    assert_eq!(pos, 0);
}

#[test]
fn bulk_string_short_of_its_length_is_incomplete() {
    for bytes in [&b"$5\r\n"[..], b"$5\r\nhel", b"$5\r\nhello", b"$5\r\nhello\r"] {
        let (r, pos) = decode(bytes);
        assert_eq!(r, Err(FrameError::IncompleteError));
        assert_eq!(pos, 0);
    }
}

#[test]
fn array_short_of_its_count_is_incomplete() {
    for bytes in [&b"*2\r\n"[..], b"*2\r\n$1\r\na\r\n", b"*2\r\n$1\r\na\r\n$1\r\nb"] {
        let (r, pos) = decode(bytes);
        assert_eq!(r, Err(FrameError::IncompleteError));
        assert_eq!(pos, 0);
    }
}

#[test]
fn huge_length_is_incomplete() {
    let (r, pos) = decode(b"$18446744073709551615\r\nabc\r\n");
    assert_eq!(r, Err(FrameError::IncompleteError));
    assert_eq!(pos, 0);
    let (r, pos) = decode(b"*18446744073709551615\r\n");
    assert_eq!(r, Err(FrameError::IncompleteError));
    assert_eq!(pos, 0);
}

#[test]
fn failed_nested_decode_leaves_the_cursor() {
    let bytes = b"$1\r\na\r\n*2\r\n$1\r\nb\r\n$9\r\nc";
    let mut cursor = Cursor::new(bytes);
    assert_eq!(Frame::parse(&mut cursor), Ok(bulk("a")));
    assert_eq!(cursor.position(), 7);
    assert_eq!(Frame::parse(&mut cursor), Err(FrameError::IncompleteError));
    assert_eq!(cursor.position(), 7);
}

#[test]
fn other_tags_are_a_protocol_error() {
    for bytes in [&b"+OK\r\n"[..], b"-ERR\r\n", b":1\r\n", b"GET a\r\n", b"\r\n", b"x"] {
        let (r, pos) = decode(bytes);
        assert_eq!(r, Err(malformed()));
        assert_eq!(pos, 0);
    }
}

#[test]
fn null_is_not_decoded() {
    let (r, pos) = decode(b"$-1\r\n");
    assert_eq!(r, Err(malformed()));
    assert_eq!(pos, 0);
}

#[test]
fn length_that_is_no_number_is_a_protocol_error() {
    for bytes in [
        &b"$\r\n\r\n"[..],
        b"$x\r\nabc\r\n",
        b"$3x\r\nabc\r\n",
        b"$+3\r\nabc\r\n",
        b"$-0\r\n\r\n",
        b"$ 3\r\nabc\r\n",
        b"$18446744073709551616\r\n",
        b"*-1\r\n",
        b"*a\r\n",
        b"*\r\n",
    ] {
        let (r, pos) = decode(bytes);
        assert_eq!(r, Err(malformed()));
        assert_eq!(pos, 0);
    }
}

#[test]
fn bulk_string_without_its_terminator_is_a_protocol_error() {
    for bytes in [&b"$3\r\nabcde"[..], b"$3\r\nabc\rx", b"$3\r\nabcx\n", b"$3\r\nabcdefgh\r\n"] {
        let (r, pos) = decode(bytes);
        assert_eq!(r, Err(malformed()));
        assert_eq!(pos, 0);
    }
}

#[test]
fn protocol_error_inside_an_array_fails_the_array() {
    let (r, pos) = decode(b"*2\r\n$1\r\na\r\n+b\r\n");
    assert_eq!(r, Err(malformed()));
    assert_eq!(pos, 0);
}

#[test]
fn first_failure_in_an_array_decides() {
    let (r, _) = decode(b"*3\r\n$1\r\na\r\n$5\r\nab");
    assert_eq!(r, Err(FrameError::IncompleteError));
    let (r, _) = decode(b"*3\r\n$1\r\na\r\n:5\r\n$5\r\nab");
    assert_eq!(r, Err(malformed()));
}

#[test]
fn round_trip_of_bulk_strings_and_arrays() {
    let frames = vec![
        bulk(""),
        bulk("a"),
        bulk("hello world"),
        Frame::Bulk(vec![0, 255, 13, 10, 36, 42]),
        Frame::Bulk(vec![7; 1000]),
        Frame::Array(vec![]),
        Frame::Array(vec![bulk("SET"), bulk("k"), bulk("v"), bulk("PX"), bulk("10")]),
        Frame::Array(vec![Frame::Array(vec![Frame::Array(vec![bulk("deep")])]), bulk("x")]),
    ];
    for frame in frames {
        let bytes = Connection::write_frame(&frame);
        let (r, pos) = decode(&bytes);
        assert_eq!(r, Ok(frame));
        assert_eq!(pos, bytes.len());
    }
}

#[test]
fn every_strict_prefix_is_incomplete() {
    let frames = vec![
        bulk(""),
        bulk("hello"),
        Frame::Bulk(b"a\r\nb".to_vec()),
        Frame::Array(vec![]),
        Frame::Array(vec![bulk("GET"), bulk("key")]),
        Frame::Array(vec![Frame::Array(vec![bulk("a"), bulk("")]), bulk("b")]),
    ];
    for frame in frames {
        let bytes = Connection::write_frame(&frame);
        for len in 1..bytes.len() {
            let (r, pos) = decode(&bytes[..len]);
            assert_eq!(r, Err(FrameError::IncompleteError));
            assert_eq!(pos, 0);
        }
    }
}

#[test]
fn frames_that_decoding_does_not_yield_do_not_come_back() {
    for frame in [Frame::Simple("OK".to_string()), Frame::Integer(5), Frame::Null] {
        let bytes = Connection::write_frame(&frame);
        let (r, _) = decode(&bytes);
        assert_eq!(r, Err(malformed()));
    }
}

#[test]
fn byte_is_taken_at_the_cursor() {
    let mut cursor = Cursor::new(b"ab");
    assert_eq!(get_u8(&mut cursor), Ok(b'a'));
    assert_eq!(cursor.position(), 1);
    assert_eq!(get_u8(&mut cursor), Ok(b'b'));
    assert_eq!(cursor.position(), 2);
    assert_eq!(get_u8(&mut cursor), Err(FrameError::IncompleteError));
    assert_eq!(cursor.position(), 2);
}

#[test]
fn cursor_skips_what_remains_and_no_more() {
    let mut cursor = Cursor::new(b"abcd");
    assert_eq!(skip(&mut cursor, 0), Ok(()));
    assert_eq!(cursor.position(), 0);
    assert_eq!(skip(&mut cursor, 3), Ok(()));
    assert_eq!(cursor.position(), 3);
    assert_eq!(skip(&mut cursor, 2), Err(FrameError::IncompleteError));
    assert_eq!(cursor.position(), 3);
    assert_eq!(skip(&mut cursor, 1), Ok(()));
    assert_eq!(cursor.remaining(), 0);
}

#[test]
fn line_is_taken_up_to_its_terminator() {
    let mut cursor = Cursor::new(b"abc\r\ndef\r\n\r\nx");
    assert_eq!(get_line(&mut cursor), Ok(&b"abc"[..]));
    assert_eq!(cursor.position(), 5);
    assert_eq!(get_line(&mut cursor), Ok(&b"def"[..]));
    assert_eq!(cursor.position(), 10);
    assert_eq!(get_line(&mut cursor), Ok(&b""[..]));
    assert_eq!(cursor.position(), 12);
    assert_eq!(get_line(&mut cursor), Err(FrameError::IncompleteError));
    assert_eq!(cursor.position(), 12);
}

#[test]
fn lone_carriage_return_ends_no_line() {
    let mut cursor = Cursor::new(b"a\rb\nc\r");
    assert_eq!(get_line(&mut cursor), Err(FrameError::IncompleteError));
    assert_eq!(cursor.position(), 0);
    let mut cursor = Cursor::new(b"a\rb\r\n");
    assert_eq!(get_line(&mut cursor), Ok(&b"a\rb"[..]));
}

#[test]
fn line_in_short_buffers() {
    for bytes in [&b""[..], b"\r", b"\n", b"a"] {
        let mut cursor = Cursor::new(bytes);
        assert_eq!(get_line(&mut cursor), Err(FrameError::IncompleteError));
        assert_eq!(cursor.position(), 0);
    }
    let mut cursor = Cursor::new(b"\r\n");
    assert_eq!(get_line(&mut cursor), Ok(&b""[..]));
    assert_eq!(cursor.position(), 2);
}

#[test]
fn number_is_taken_from_a_line() {
    let mut cursor = Cursor::new(b"42\r\n7\r\nx\r\n9");
    assert_eq!(get_decimal(&mut cursor), Ok(42));
    assert_eq!(cursor.position(), 4);
    assert_eq!(get_decimal(&mut cursor), Ok(7));
    assert_eq!(cursor.position(), 7);
    assert_eq!(get_decimal(&mut cursor), Err(malformed()));
    assert_eq!(cursor.position(), 7);
    assert_eq!(skip(&mut cursor, 3), Ok(()));
    assert_eq!(get_decimal(&mut cursor), Err(FrameError::IncompleteError));
    assert_eq!(cursor.position(), 10);
}

#[test]
fn frame_errors_say_what_they_are() {
    assert_eq!(FrameError::IncompleteError.message(), "frame is incomplete");
    assert_eq!(malformed().message(), "protocol error; invalid frame format");
}

#[test]
fn connection_decodes_what_it_has_received() {
    let mut conn = Connection::new();
    assert_eq!(conn.parse_frame(), Ok(None));
    assert_eq!(conn.read_frame(b"$5\r\nhel"), Ok(Read::More));
    assert_eq!(conn.parse_frame(), Ok(None));
    assert_eq!(conn.read_frame(b"lo\r\n$1\r"), Ok(Read::Frame(bulk("hello"))));
    assert_eq!(conn.parse_frame(), Ok(None));
    assert_eq!(conn.read_frame(b"\na\r\n*0\r\n"), Ok(Read::Frame(bulk("a"))));
    assert_eq!(conn.parse_frame(), Ok(Some(Frame::Array(vec![]))));
    assert_eq!(conn.parse_frame(), Ok(None));
}

#[test]
fn read_that_brought_nothing_means_closed() {
    let mut conn = Connection::new();
    assert_eq!(conn.read_frame(b""), Ok(Read::Closed));
    assert_eq!(conn.read_frame(b"$5\r\nhel"), Ok(Read::More));
    assert_eq!(conn.read_frame(b""), Ok(Read::Closed));
    assert_eq!(conn.read_frame(b"lo\r\n"), Ok(Read::Frame(bulk("hello"))));
}

#[test]
fn connection_keeps_bytes_that_are_no_frame() {
    let mut conn = Connection::new();
    assert_eq!(conn.read_frame(b"+OK\r\n"), Err(malformed()));
    assert_eq!(conn.parse_frame(), Err(malformed()));
}
