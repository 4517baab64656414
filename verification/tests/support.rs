use redis_lite::cli::Arguments;
use redis_lite::db::Db;
use redis_lite::parser::Parser;
use redis_lite::protocol::{Protocol, Response};
use redis_lite::text::{split_ascii_whitespace, to_ascii_uppercase, u64_to_decimal};

#[test]
fn arguments_lookup() {
    let a = Arguments::new(vec![
        "--port".to_string(),
        "7000".to_string(),
        "plain".to_string(),
        "--port".to_string(),
        "7001".to_string(),
    ]);
    assert_eq!(a.get_arg("port".to_string()), Some(&"7001".to_string()));
    assert_eq!(a.get_arg("plain".to_string()), None);
    assert_eq!(a.get_arg("missing".to_string()), None);
}

#[test]
fn arguments_value_that_looks_like_an_option() {
    let a = Arguments::new(vec!["--a".to_string(), "--b".to_string(), "c".to_string()]);
    assert_eq!(a.get_arg("a".to_string()), Some(&"--b".to_string()));
    assert_eq!(a.get_arg("b".to_string()), Some(&"c".to_string()));
}

#[test]
fn test_args_values() {
    let args = vec![
        "--dir".to_string(),
        "/tmp/base-dir".to_string(),
        "--dbfilename".to_string(),
        "dump.rdb".to_string(),
    ];
    let arguments = Arguments::new(args);
    assert_eq!(arguments.get_arg("dir".to_string()), Some(&"/tmp/base-dir".to_string()));
    assert_eq!(arguments.get_arg("dbfilename".to_string()), Some(&"dump.rdb".to_string()));
}

#[test]
fn db_paths() {
    assert_eq!(Db::new("/tmp".to_string(), "dump.rdb".to_string()).db_file(), "/tmp/dump.rdb");
    assert_eq!(Db::new("/tmp/".to_string(), "dump.rdb".to_string()).db_file(), "/tmp/dump.rdb");
    assert_eq!(Db::new("".to_string(), "dump.rdb".to_string()).db_file(), "dump.rdb");
    assert_eq!(Db::new("/tmp".to_string(), "/abs.rdb".to_string()).db_file(), "/abs.rdb");
    assert_eq!(Db::new("/tmp".to_string(), "".to_string()).db_file(), "/tmp/");
}

#[test]
fn db_entries() {
    let pairs = vec![
        ("k1".to_string(), "v1".to_string()),
        ("k2".to_string(), "".to_string()),
    ];
    assert_eq!(Db::encode_entries(&pairs), b"k1\nv1\nk2\n\n".to_vec());
    assert_eq!(Db::encode_entries(&vec![]), Vec::<u8>::new());
}

fn command(text: &str) -> Option<Protocol> {
    Parser::new(text.to_string()).try_get_command()
}

#[test]
fn parser_words() {
    let p = Parser::new("*2\r\n$4\r\nECHO\r\n$3\r\nhey\r\n".to_string());
    assert_eq!(p.parse_command(), vec!["ECHO".to_string(), "hey".to_string()]);
    let q = Parser::new("a\r\r\n\n b\n$x\n*y".to_string());
    assert_eq!(q.parse_command(), vec!["a\r".to_string(), " b".to_string()]);
}

#[test]
fn parser_commands() {
    assert!(matches!(command("*1\r\n$4\r\nping\r\n"), Some(Protocol::PING)));
    assert!(matches!(command("ECHO\r\nhey\r\n"), Some(Protocol::Echo(s)) if s == "hey"));
    assert!(matches!(command("get\nk"), Some(Protocol::GET(s)) if s == "k"));
    assert!(matches!(command("CONFIG\nGET\ndir"), Some(Protocol::CONFIG(s)) if s == "dir"));
    assert!(matches!(command("KEYS\npat"), Some(Protocol::KEYS(s)) if s == "pat"));
    assert!(matches!(command("save"), Some(Protocol::SAVE)));
    assert!(matches!(command("FLUSH"), Some(Protocol::INVALID)));
}

#[test]
fn parser_set_commands() {
    assert!(matches!(
        command("SET\nFOO\nBAR"),
        Some(Protocol::SetValue(k, v, -1, None)) if k == "FOO" && v == "BAR"
    ));
    assert!(matches!(
        command("set\nk\nv\npx\n100"),
        Some(Protocol::SetValue(k, v, 100, Some(_))) if k == "k" && v == "v"
    ));
    assert!(matches!(command("set\nk\nv\npx\nsoon"), Some(Protocol::INVALID)));
    assert!(matches!(command("set\nk\nv\nex\n5"), Some(Protocol::INVALID)));
}

#[test]
fn parser_missing_words() {
    assert!(command("").is_none());
    assert!(command("ECHO").is_none());
    assert!(command("SET\nk").is_none());
    assert!(command("SET\nk\nv\nPX").is_none());
    assert!(command("CONFIG\nGET").is_none());
}

#[test]
fn response_without_items() {
    assert_eq!(Response::new().construct_response(), "$-1\r\n");
}

#[test]
fn response_counts_items() {
    let mut r = Response::new();
    for i in 0..12 {
        r.add_item(format!("i{}", i));
    }
    assert!(r.construct_response().starts_with("$12\r\ni0\r\n"));
}

#[test]
fn text_helpers() {
    assert_eq!(u64_to_decimal(0), "0");
    assert_eq!(u64_to_decimal(907), "907");
    assert_eq!(u64_to_decimal(u64::MAX), "18446744073709551615");
    assert_eq!(
        split_ascii_whitespace("  a bc\t\nd  "),
        vec!["a".to_string(), "bc".to_string(), "d".to_string()]
    );
    assert_eq!(split_ascii_whitespace(" \x0c "), Vec::<String>::new());
    assert_eq!(to_ascii_uppercase("aBc\u{e9}z"), "ABC\u{e9}Z");
}
