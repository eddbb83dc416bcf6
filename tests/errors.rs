use memcache::error::{is_memcache_error, ClientError, CommandError, MemcacheError, ParseError, ServerError};

#[test]
fn error_lines_are_recognised() {
    assert!(is_memcache_error(b"ERROR\r\n"));
    assert!(is_memcache_error(b"CLIENT_ERROR line too long\r\n"));
    assert!(is_memcache_error(b"SERVER_ERROR busy\r\n"));
    assert!(!is_memcache_error(b"ERRORS\r\n"));
    assert!(!is_memcache_error(b"STORED\r\n"));
}

#[test]
fn try_from_passes_plain_lines_and_maps_statuses() {
    assert_eq!(MemcacheError::try_from(b"STORED\r\n".to_vec()).unwrap(), b"STORED\r\n".to_vec());
    assert!(matches!(
        MemcacheError::try_from(b"ERROR\r\n".to_vec()),
        Err(MemcacheError::CommandError(CommandError::InvalidCommand))
    ));
    assert!(matches!(
        MemcacheError::try_from(b"NOT_FOUND\r\n".to_vec()),
        Err(MemcacheError::CommandError(CommandError::KeyNotFound))
    ));
    assert!(matches!(
        MemcacheError::try_from(b"EXISTS\r\n".to_vec()),
        Err(MemcacheError::CommandError(CommandError::KeyExists))
    ));
    match MemcacheError::try_from(b"SERVER_ERROR oom\r\n".to_vec()) {
        Err(MemcacheError::ServerError(ServerError::Error(m))) => assert_eq!(m, "SERVER_ERROR oom\r\n"),
        other => panic!("unexpected {:?}", other),
    }
    match MemcacheError::try_from(b"CLIENT_ERROR \xff\r\n".to_vec()) {
        Err(MemcacheError::ClientError(ClientError::Error(m))) => assert_eq!(m, "CLIENT_ERROR \u{fffd}\r\n"),
        other => panic!("unexpected {:?}", other),
    }
}

#[test]
fn status_codes() {
    assert_eq!(CommandError::from_status(0), None);
    assert_eq!(CommandError::from_status(1), Some(CommandError::KeyNotFound));
    assert_eq!(CommandError::from_status(2), Some(CommandError::KeyExists));
    assert_eq!(CommandError::from_status(3), Some(CommandError::ValueTooLarge));
    assert_eq!(CommandError::from_status(4), Some(CommandError::InvalidArguments));
    assert_eq!(CommandError::from_status(0x20), Some(CommandError::AuthenticationRequired));
    assert_eq!(CommandError::from_status(0x86), Some(CommandError::Unknown(0x86)));
}

#[test]
fn which_errors_break_a_connection() {
    assert!(!MemcacheError::ClientError(ClientError::KeyTooLong).breaks_connection());
    assert!(!MemcacheError::CommandError(CommandError::KeyExists).breaks_connection());
    assert!(MemcacheError::ServerError(ServerError::BadMagic(0)).breaks_connection());
    assert!(MemcacheError::ParseError(ParseError::Int).breaks_connection());
    let io = std::io::Error::new(std::io::ErrorKind::TimedOut, "timeout");
    assert!(MemcacheError::IOError(io).breaks_connection());
}

#[test]
fn conversions_into_the_error() {
    assert!(matches!(MemcacheError::from(ClientError::KeyTooLong), MemcacheError::ClientError(ClientError::KeyTooLong)));
    assert!(matches!(MemcacheError::from(CommandError::KeyExists), MemcacheError::CommandError(CommandError::KeyExists)));
    assert!(matches!(MemcacheError::from(ServerError::BadMagic(1)), MemcacheError::ServerError(ServerError::BadMagic(1))));
    assert!(matches!(MemcacheError::from(ParseError::Bool), MemcacheError::ParseError(ParseError::Bool)));
    assert_eq!(ClientError::from(String::from("x")), ClientError::Error(String::from("x")));
    assert_eq!(ServerError::from(String::from("y")), ServerError::Error(String::from("y")));
}
