use redis_lite::cli::Arguments;
use redis_lite::parser::Parser;
use redis_lite::protocol::Response;

#[test]
fn test_args() {
    let args = vec![
        "--dir".to_string(),
        "/tmp/base-dir".to_string(),
        "--dbfilename".to_string(),
        "dump.rdb".to_string(),
    ];
    let arguments = Arguments::new(args);
    println!("{:#?}", arguments);
}

#[test]
fn test_parser() {
    let mut parser = Parser::new("*2\r\n$4\r\nECHO\r\n$3\r\nhey\r\n".to_string());
    parser = Parser::new("*1\r\n$4\r\nPING\r\n".to_string());
    parser = Parser::new("*3\r\n$3\r\nSET\r\n$3\r\nFOO\r\n$4\r\nBAR\r\n".to_string());
    println!("{:#?}", parser.get_command());
}

#[test]
fn test_response() {
    let mut response = Response::new();
    response.add_item("bar".into());
    response.add_item("foo".into());
    assert_eq!(
        "$2\r\nbar\r\nfoo\r\n".to_string(),
        response.construct_response()
    );
}
