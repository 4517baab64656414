use redis_lite::cli::Arguments;
use redis_lite::cmd::{Command, ParseError};
use redis_lite::engine::Engine;
use redis_lite::frame::Frame;

fn bulk(s: &str) -> Frame {
    Frame::Bulk(s.as_bytes().to_vec())
}

fn request(parts: &[&str]) -> Frame {
    Frame::Array(parts.iter().map(|p| bulk(p)).collect())
}

fn decode(parts: &[&str]) -> Result<Command, ParseError> {
    Command::from_frame(request(parts))
}

fn engine() -> Engine {
    Engine::init(Arguments::new(vec![]))
}

fn run(engine: &mut Engine, parts: &[&str]) -> Frame {
    engine.execute(decode(parts).unwrap())
}

#[test]
fn decode_get() {
    let cmd = decode(&["GeT", "key"]).unwrap();
    assert_eq!(cmd.get_name(), "get");
    match cmd {
        Command::Get(g) => assert_eq!(g.key(), "key"),
        other => panic!("unexpected {:?}", other),
    }
}

#[test]
fn decode_set() {
    match decode(&["set", "k", "v"]).unwrap() {
        Command::SetValue(s) => {
            assert_eq!(s.key(), "k");
            assert_eq!(s.value(), &b"v".to_vec());
        }
        other => panic!("unexpected {:?}", other),
    }
}

#[test]
fn decode_ping() {
    match decode(&["PING"]).unwrap() {
        Command::Ping(p) => assert_eq!(p.msg, None),
        other => panic!("unexpected {:?}", other),
    }
    match decode(&["ping", "hello"]).unwrap() {
        Command::Ping(p) => assert_eq!(p.msg, Some(b"hello".to_vec())),
        other => panic!("unexpected {:?}", other),
    }
}

#[test]
fn decode_unknown_keeps_lowercased_name() {
    let cmd = decode(&["CLIENT", "SETNAME", "x"]).unwrap();
    assert_eq!(cmd.get_name(), "client");
}

#[test]
fn decode_errors() {
    assert_eq!(
        Command::from_frame(Frame::Integer(1)).unwrap_err(),
        ParseError::NotAnArray
    );
    assert_eq!(decode(&[]).unwrap_err(), ParseError::EndOfStream);
    assert_eq!(decode(&["get"]).unwrap_err(), ParseError::EndOfStream);
    assert_eq!(decode(&["get", "a", "b"]).unwrap_err(), ParseError::TrailingData);
    assert_eq!(decode(&["set", "a"]).unwrap_err(), ParseError::EndOfStream);
    assert_eq!(
        decode(&["set", "a", "b", "c"]).unwrap_err(),
        ParseError::TrailingData
    );
    assert_eq!(decode(&["ping", "a", "b"]).unwrap_err(), ParseError::TrailingData);
    assert_eq!(
        Command::from_frame(Frame::Array(vec![Frame::Integer(3)])).unwrap_err(),
        ParseError::UnexpectedFrame
    );
    assert_eq!(
        Command::from_frame(Frame::Array(vec![Frame::Bulk(vec![0xff])])).unwrap_err(),
        ParseError::InvalidString
    );
}

#[test]
fn simple_string_arguments() {
    let f = Frame::Array(vec![
        Frame::Simple("SET".to_string()),
        Frame::Simple("k".to_string()),
        Frame::Simple("v".to_string()),
    ]);
    match Command::from_frame(f).unwrap() {
        Command::SetValue(s) => assert_eq!(s.value(), &b"v".to_vec()),
        other => panic!("unexpected {:?}", other),
    }
}

#[test]
fn get_after_set() {
    let mut e = engine();
    assert_eq!(run(&mut e, &["SET", "foo", "bar"]), Frame::Simple("OK".to_string()));
    assert_eq!(run(&mut e, &["GET", "foo"]), bulk("bar"));
}

#[test]
fn get_missing_is_null() {
    let mut e = engine();
    assert_eq!(run(&mut e, &["GET", "nothing"]), Frame::Null);
}

#[test]
fn last_set_wins_and_other_keys_kept() {
    let mut e = engine();
    run(&mut e, &["SET", "a", "1"]);
    run(&mut e, &["SET", "b", "2"]);
    run(&mut e, &["SET", "a", "3"]);
    assert_eq!(run(&mut e, &["GET", "a"]), bulk("3"));
    assert_eq!(run(&mut e, &["GET", "b"]), bulk("2"));
}

#[test]
fn ping_and_unknown() {
    let mut e = engine();
    assert_eq!(run(&mut e, &["PING"]), Frame::Simple("PONG".to_string()));
    assert_eq!(run(&mut e, &["PING", "yo"]), bulk("yo"));
    assert_eq!(run(&mut e, &["LIBINFO"]), Frame::Simple("OK".to_string()));
    assert_eq!(run(&mut e, &["GET", "LIBINFO"]), Frame::Null);
}

#[test]
fn engine_defaults() {
    let e = engine();
    let shown = format!("{:?}", e);
    assert!(shown.contains("\"dump.rdb\""));
    assert!(shown.contains("\"/tmp\""));
    assert!(shown.contains("\"/tmp/dump.rdb\""));
    assert!(shown.contains("Master(\"8371b4fb1155b71f4a04d3e1bc3e18c4a990aeeb\")"));
}

#[test]
fn engine_from_options() {
    let args = Arguments::new(vec![
        "--dir".to_string(),
        "/data/".to_string(),
        "--dbfilename".to_string(),
        "x.rdb".to_string(),
        "--replicaof".to_string(),
        " localhost\t6380 ".to_string(),
    ]);
    let e = Engine::init(args);
    let shown = format!("{:?}", e);
    assert!(shown.contains("\"/data/x.rdb\""));
    assert!(shown.contains("Slave(\"localhost\", \"6380\")"));
}
