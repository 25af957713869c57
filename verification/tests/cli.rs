use iox_core::cli::{
    CommandKind, DotenvError, KeyValue, RETURN_CODE_FAILURE, RuntimePlan, get_runtime,
    load_dotenv, parse_header,
};
use iox_core::operations::{
    Command, Config, Error, Output, Request, Timeout, answered, command, printed,
};

#[test]
fn headers_of_the_command_line() {
    let header = parse_header("X-Custom:a:b").unwrap();
    assert_eq!(header.key, "x-custom");
    assert_eq!(header.value, b"a:b".to_vec());
    let header = parse_header("k:").unwrap();
    assert_eq!(header.key, "k");
    assert_eq!(header.value, Vec::<u8>::new());
    assert_eq!(header.clone().key, header.key);
    // a standard name, and a value that is not ASCII
    let header = parse_header("Content-Type:\u{e4}").unwrap();
    assert_eq!(header.key, "content-type");
    assert_eq!(header.value, vec![0xc3, 0xa4]);
}

#[test]
fn texts_that_are_no_headers() {
    assert_eq!(
        parse_header("novalue").unwrap_err(),
        "Invalid key value pair - expected 'KEY:VALUE' got 'novalue'",
    );
    assert_eq!(parse_header(":v").unwrap_err(), "invalid HTTP header name");
    assert_eq!(parse_header("a b:v").unwrap_err(), "invalid HTTP header name");
    assert_eq!(parse_header("\u{e4}:v").unwrap_err(), "invalid HTTP header name");
    assert_eq!(parse_header("a:x\ny").unwrap_err(), "failed to parse header value");
    // what is wrong with the name comes first
    assert_eq!(parse_header("a b:x\ny").unwrap_err(), "invalid HTTP header name");
}

#[test]
fn characters_of_header_names() {
    for c in 0u8..128 {
        let c = c as char;
        if c == ':' {
            continue;
        }
        let accepted = parse_header(&format!("{}:v", c)).is_ok();
        let expected = c.is_ascii_alphanumeric() || "!\"#$%&'*+-.^_`|~".contains(c);
        assert_eq!(accepted, expected, "{:?}", c);
    }
    assert!(parse_header(&format!("{}:v", "a".repeat(65535))).is_ok());
    assert!(parse_header(&format!("{}:v", "a".repeat(65536))).is_err());
}

#[test]
fn key_value_pairs_of_other_types() {
    let key = |text: &str| text.parse::<u8>().map_err(|e| e.to_string());
    let value = |text: &str| text.parse::<bool>().map_err(|e| e.to_string());
    let pair = KeyValue::from_str("7:true", key, value).unwrap();
    assert_eq!(pair.key, 7);
    assert!(pair.value);
    assert_eq!(
        KeyValue::from_str("x:y", key, value).unwrap_err(),
        "invalid digit found in string",
    );
    assert_eq!(
        KeyValue::from_str("7:y", key, value).unwrap_err(),
        "provided string was not `true` or `false`",
    );
}

#[test]
fn runtimes() {
    assert_eq!(get_runtime(None).unwrap(), RuntimePlan::Default);
    assert_eq!(get_runtime(Some(1)).unwrap(), RuntimePlan::CurrentThread);
    assert_eq!(
        get_runtime(Some(2)).unwrap(),
        RuntimePlan::MultiThread { worker_threads: 2 },
    );
    assert_eq!(
        get_runtime(Some(0)).unwrap_err(),
        "Invalid num-threads: '0' must be greater than zero",
    );
}

#[test]
fn environment_files() {
    assert!(load_dotenv(Ok(())).is_none());
    assert!(load_dotenv(Err(DotenvError::NotFound)).is_none());
    assert_eq!(
        load_dotenv(Err(DotenvError::Other("line 3".to_owned()))).unwrap(),
        "FATAL Error loading config from: line 3",
    );
    assert_eq!(RETURN_CODE_FAILURE, 1);
}

#[test]
fn commands() {
    assert!(CommandKind::Operation.connects());
    assert!(!CommandKind::Storage.connects());
    assert!(CommandKind::Run.configures_tracing());
    assert!(!CommandKind::Sql.configures_tracing());
    assert_eq!(CommandKind::Server.failure("x"), "Server command failed: x");
    assert_eq!(CommandKind::Run.failure("x"), "Server command failed: x");
    assert_eq!(CommandKind::Database.failure("x"), "x");
}

#[test]
fn requests() {
    let ask = |c: Command| command(Config { command: c });
    assert!(matches!(ask(Command::List), Request::ListOperations));
    assert!(matches!(ask(Command::Get { id: 3 }), Request::GetOperation { id: 3 }));
    assert!(matches!(
        ask(Command::Wait { id: 3, nanos: None }),
        Request::WaitOperation { id: 3, timeout: None }
    ));
    match ask(Command::Wait { id: 3, nanos: Some(2_000_000_005) }) {
        Request::WaitOperation { id: 3, timeout: Some(timeout) } => {
            assert_eq!(timeout, Timeout { secs: 2, subsec_nanos: 5 })
        }
        other => panic!("{:?}", other),
    }
    assert!(matches!(ask(Command::Cancel { id: 4 }), Request::CancelOperation { id: 4 }));
    match ask(Command::Test { nanos: vec![1, 2] }) {
        Request::CreateDummyJob { nanos } => assert_eq!(nanos, vec![1, 2]),
        other => panic!("{:?}", other),
    }
}

#[test]
fn answers() {
    assert_eq!(answered(&Request::ListOperations, Ok(5)).unwrap(), Output::Json(5));
    assert_eq!(
        answered(&Request::CancelOperation { id: 1 }, Ok(5)).unwrap(),
        Output::Line("Ok".to_owned()),
    );
    let error = answered::<u8>(&Request::ListOperations, Err("down".to_owned())).unwrap_err();
    assert_eq!(error, Error::ClientError("down".to_owned()));
    assert_eq!(error.message(), "Client error: down");
    assert!(printed(Ok(())).is_ok());
    let error = printed(Err("closed".to_owned())).unwrap_err();
    assert_eq!(error.message(), "Output serialization error: closed");
}
