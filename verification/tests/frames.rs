use redis_lite::connection::parse_frame;
use redis_lite::frame::{Cursor, Error, Frame};

fn check_bytes(input: &[u8]) -> (Result<(), Error>, usize) {
    let mut c = Cursor::new(input);
    let r = Frame::check(&mut c);
    (r, c.position())
}

fn parse_bytes(input: &[u8]) -> (Result<Frame, Error>, usize) {
    let mut c = Cursor::new(input);
    let r = Frame::parse(&mut c);
    (r, c.position())
}

fn other(msg: &str) -> Error {
    Error::Other(msg.to_string())
}

#[test]
fn check_simple_string() {
    assert_eq!(check_bytes(b"+OK\r\n"), (Ok(()), 5));
}

#[test]
fn check_integer_and_bulk() {
    assert_eq!(check_bytes(b":42\r\n"), (Ok(()), 5));
    assert_eq!(check_bytes(b"$5\r\nhello\r\nrest"), (Ok(()), 11));
}

#[test]
fn check_null_bulk_skips_four_bytes() {
    assert_eq!(check_bytes(b"$-1\r\n"), (Ok(()), 5));
}

#[test]
fn check_array() {
    let input = b"*2\r\n$3\r\nGET\r\n$1\r\nk\r\n";
    assert_eq!(check_bytes(input), (Ok(()), input.len()));
}

#[test]
fn check_incomplete() {
    assert_eq!(check_bytes(b"").0, Err(Error::Incomplete));
    assert_eq!(check_bytes(b"+OK").0, Err(Error::Incomplete));
    assert_eq!(check_bytes(b"$5\r\nhel").0, Err(Error::Incomplete));
    assert_eq!(check_bytes(b"*2\r\n:1\r\n").0, Err(Error::Incomplete));
    assert_eq!(check_bytes(b"$").0, Err(Error::Incomplete));
}

#[test]
fn check_invalid_type_byte() {
    assert_eq!(
        check_bytes(b"?x\r\n").0,
        Err(other("protocol error; invalid frame type byte : 63"))
    );
}

#[test]
fn check_invalid_decimal() {
    assert_eq!(
        check_bytes(b":abc\r\n").0,
        Err(other("Protocol error; Invalid frame format"))
    );
}

#[test]
fn parse_simple_and_error_lines() {
    assert_eq!(parse_bytes(b"+OK\r\n"), (Ok(Frame::Simple("OK".to_string())), 5));
    // error lines are read as simple strings
    assert_eq!(
        parse_bytes(b"-ERR bad\r\n"),
        (Ok(Frame::Simple("ERR bad".to_string())), 10)
    );
}

#[test]
fn parse_utf8_line() {
    let input = "+h\u{e9}\r\n".as_bytes();
    assert_eq!(parse_bytes(input).0, Ok(Frame::Simple("h\u{e9}".to_string())));
}

#[test]
fn parse_invalid_utf8_line() {
    assert_eq!(
        parse_bytes(b"+\xff\r\n").0,
        Err(other("Error converting from byte array to String"))
    );
}

#[test]
fn parse_integers() {
    assert_eq!(parse_bytes(b":42\r\n").0, Ok(Frame::Integer(42)));
    assert_eq!(parse_bytes(b":+7\r\n").0, Ok(Frame::Integer(7)));
    assert_eq!(parse_bytes(b":-0\r\n").0, Ok(Frame::Integer(0)));
    assert_eq!(parse_bytes(b":12abc\r\n").0, Ok(Frame::Integer(12)));
    assert_eq!(
        parse_bytes(b":18446744073709551615\r\n").0,
        Ok(Frame::Integer(u64::MAX))
    );
    let invalid = Err(other("Protocol error; Invalid frame format"));
    assert_eq!(parse_bytes(b":-1\r\n").0, invalid);
    assert_eq!(parse_bytes(b":\r\n").0, invalid);
    assert_eq!(parse_bytes(b":18446744073709551616\r\n").0, invalid);
}

#[test]
fn parse_bulk() {
    assert_eq!(
        parse_bytes(b"$5\r\nhello\r\n"),
        (Ok(Frame::Bulk(b"hello".to_vec())), 11)
    );
    assert_eq!(parse_bytes(b"$5\r\nhell").0, Err(Error::Incomplete));
}

#[test]
fn parse_null_bulk_is_an_error() {
    assert_eq!(
        parse_bytes(b"$-1\r\n").0,
        Err(other("Protocol error; Invalid frame format"))
    );
}

#[test]
fn parse_array() {
    let input = b"*3\r\n$3\r\nSET\r\n:5\r\n*1\r\n+x\r\n";
    assert_eq!(
        parse_bytes(input),
        (
            Ok(Frame::Array(vec![
                Frame::Bulk(b"SET".to_vec()),
                Frame::Integer(5),
                Frame::Array(vec![Frame::Simple("x".to_string())]),
            ])),
            input.len()
        )
    );
}

#[test]
fn parse_supported_detection() {
    // check accepts this, but the parse would read the null header as an
    // empty bulk string and land on the byte `k`
    let input = b"*2\r\n$-0\r\n+ok\r\n";
    assert_eq!(check_bytes(input).0, Ok(()));
    assert!(!Frame::parse_is_supported(&Cursor::new(input)));
    assert!(Frame::parse_is_supported(&Cursor::new(b"*1\r\n+ok\r\n")));
    assert!(!Frame::parse_is_supported(&Cursor::new(b"?")));
}

#[test]
fn extension_keeps_whole_frame() {
    let a = parse_bytes(b"$3\r\nabc\r\n");
    let b = parse_bytes(b"$3\r\nabc\r\n+more\r\n");
    assert_eq!(a, b);
}

#[test]
fn frame_to_string() {
    assert_eq!(Frame::Simple("hi".to_string()).to_string(), "hi");
    assert_eq!(Frame::Error("bad".to_string()).to_string(), "error: bad");
    assert_eq!(Frame::Integer(1234).to_string(), "1234");
    assert_eq!(Frame::Integer(0).to_string(), "0");
    assert_eq!(Frame::Null.to_string(), "(nil)");
    assert_eq!(Frame::Bulk(b"text".to_vec()).to_string(), "text");
    assert_eq!(
        Frame::Bulk(vec![0xff, b'\n', b'"', 0, b'a', 0x7f]).to_string(),
        "b\"\\xff\\n\\\"\\0a\\x7f\""
    );
    let arr = Frame::Array(vec![
        Frame::Simple("a".to_string()),
        Frame::Integer(2),
        Frame::Null,
    ]);
    assert_eq!(arr.to_string(), "a 2 (nil)");
    assert_eq!(Frame::Array(vec![]).to_string(), "");
}

#[test]
fn frame_to_error() {
    assert_eq!(
        Frame::Integer(3).to_error(),
        other("unexpected frame : 3")
    );
}

#[test]
fn error_messages() {
    assert_eq!(Error::Incomplete.message(), "stream ended early");
    assert_eq!(other("boom").message(), "boom");
}

#[test]
fn array_building() {
    let mut f = Frame::array();
    f.push_bulk(b"x".to_vec());
    f.push_int(9);
    assert_eq!(
        f,
        Frame::Array(vec![Frame::Bulk(b"x".to_vec()), Frame::Integer(9)])
    );
}

#[test]
fn encode_frames() {
    assert_eq!(Frame::Simple("OK".to_string()).encode(), b"+OK\r\n".to_vec());
    assert_eq!(Frame::Error("no".to_string()).encode(), b"-no\r\n".to_vec());
    assert_eq!(Frame::Integer(42).encode(), b":42\r\n".to_vec());
    assert_eq!(Frame::Null.encode(), b"$-1\r\n".to_vec());
    assert_eq!(Frame::Bulk(b"hey".to_vec()).encode(), b"$3\r\nhey\r\n".to_vec());
    assert_eq!(
        Frame::Array(vec![Frame::Integer(1), Frame::Bulk(vec![])]).encode(),
        b"*2\r\n:1\r\n$0\r\n\r\n".to_vec()
    );
}

#[test]
fn encode_then_parse() {
    let f = Frame::Array(vec![
        Frame::Simple("s".to_string()),
        Frame::Integer(10),
        Frame::Bulk(b"a\r\nb".to_vec()),
    ]);
    let bytes = f.encode();
    assert_eq!(parse_bytes(&bytes), (Ok(f), bytes.len()));
}

#[test]
fn parse_frame_from_buffer() {
    assert_eq!(parse_frame(b"+OK"), Ok(None));
    assert_eq!(parse_frame(b""), Ok(None));
    assert_eq!(
        parse_frame(b"+OK\r\n:1\r\n"),
        Ok(Some((Frame::Simple("OK".to_string()), 5)))
    );
    assert_eq!(
        parse_frame(b"!\r\n"),
        Err(other("protocol error; invalid frame type byte : 33"))
    );
    assert_eq!(
        parse_frame(b"$-1\r\n"),
        Err(other("Protocol error; Invalid frame format"))
    );
}

#[test]
fn every_cut_of_a_whole_frame_is_incomplete() {
    let input: &[u8] = b"*3\r\n$3\r\nSET\r\n:12\r\n*1\r\n+ab\r\n";
    assert_eq!(check_bytes(input), (Ok(()), input.len()));
    for k in 0..input.len() {
        assert_eq!(check_bytes(&input[..k]).0, Err(Error::Incomplete), "cut at {}", k);
        assert_eq!(parse_frame(&input[..k]), Ok(None));
    }
}

#[test]
fn check_and_parse_end_together() {
    let input: &[u8] = b"*2\r\n:1\r\n$2\r\nab\r\n:9\r\n";
    let (c, check_end) = check_bytes(input);
    let (p, parse_end) = parse_bytes(input);
    assert_eq!(c, Ok(()));
    assert!(p.is_ok());
    assert_eq!(check_end, parse_end);
    assert_eq!(check_end, input.len() - 4);
}
