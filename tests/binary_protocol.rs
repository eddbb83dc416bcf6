use memcache::binary::{parse_packet, BinaryProtocol, Packet};
use memcache::error::{ClientError, CommandError, MemcacheError, ServerError};

fn reply(opcode: u8, status: u16, cas: u64, extras: &[u8], key: &[u8], value: &[u8]) -> Vec<u8> {
    let mut p = vec![0x81, opcode];
    p.extend_from_slice(&(key.len() as u16).to_be_bytes());
    p.push(extras.len() as u8);
    p.push(0);
    p.extend_from_slice(&status.to_be_bytes());
    p.extend_from_slice(&((extras.len() + key.len() + value.len()) as u32).to_be_bytes());
    p.extend_from_slice(&0u32.to_be_bytes());
    p.extend_from_slice(&cas.to_be_bytes());
    p.extend_from_slice(extras);
    p.extend_from_slice(key);
    p.extend_from_slice(value);
    p
}

fn read(bytes: &[u8]) -> Packet {
    let mut s = BinaryProtocol::new();
    s.receive(bytes);
    match s.read_packet() {
        Some(Ok(p)) => p,
        other => panic!("unexpected {:?}", other),
    }
}

#[test]
fn get_request_layout() {
    let mut s = BinaryProtocol::new();
    s.get("foo").unwrap();
    let mut expected = vec![0x80, 0x00, 0, 3, 0, 0, 0, 0, 0, 0, 0, 3];
    expected.extend_from_slice(&[0; 12]);
    expected.extend_from_slice(b"foo");
    assert_eq!(s.take_output(), expected);
}

#[test]
fn set_request_carries_flags_and_expiration() {
    let mut s = BinaryProtocol::new();
    s.set("k", b"vv", 5, 300).unwrap();
    let out = s.take_output();
    assert_eq!(out[1], 0x01);
    assert_eq!(out[4], 8);
    assert_eq!(&out[8..12], &[0, 0, 0, 11]);
    assert_eq!(&out[24..32], &[0, 0, 0, 5, 0, 0, 1, 44]);
    assert_eq!(&out[32..], b"kvv");
}

#[test]
fn cas_request_carries_the_token() {
    let mut s = BinaryProtocol::new();
    s.cas("k", b"v", 0, 0, 0x0102030405060708).unwrap();
    let out = s.take_output();
    assert_eq!(&out[16..24], &[1, 2, 3, 4, 5, 6, 7, 8]);
}

#[test]
fn increment_request_refuses_to_create() {
    let mut s = BinaryProtocol::new();
    s.increment("counter", 123).unwrap();
    let out = s.take_output();
    assert_eq!(out[1], 0x05);
    assert_eq!(out[4], 20);
    assert_eq!(&out[24..32], &123u64.to_be_bytes());
    assert_eq!(&out[32..40], &[0; 8]);
    assert_eq!(&out[40..44], &[0xff; 4]);
    assert_eq!(&out[44..], b"counter");
}

#[test]
fn sasl_plain_authentication() {
    let mut s = BinaryProtocol::new();
    s.auth("u", "p").unwrap();
    let out = s.take_output();
    assert_eq!(out[1], 0x21);
    assert_eq!(&out[24..], b"PLAIN\0u\0p");
}

#[test]
fn long_keys_are_refused() {
    let mut s = BinaryProtocol::new();
    let long = "x".repeat(251);
    assert!(matches!(s.delete(&long), Err(MemcacheError::ClientError(ClientError::KeyTooLong))));
    assert!(matches!(s.touch(&long, 1), Err(MemcacheError::ClientError(ClientError::KeyTooLong))));
    assert!(s.take_output().is_empty());
}

#[test]
fn get_reply_gives_value_and_flags() {
    let p = read(&reply(0x00, 0, 7, &[0, 0, 0, 5], b"", b"bar"));
    assert_eq!(p.cas, 7);
    assert_eq!(p.get_outcome().unwrap(), Some((b"bar".to_vec(), 5)));
    let missing = read(&reply(0x00, 1, 0, &[], b"", b"Not found"));
    assert_eq!(missing.get_outcome().unwrap(), None);
}

#[test]
fn statuses_map_to_command_errors() {
    let exists = read(&reply(0x02, 2, 0, &[], b"", b""));
    assert!(matches!(exists.done_outcome(), Err(MemcacheError::CommandError(CommandError::KeyExists))));
    let big = read(&reply(0x01, 3, 0, &[], b"", b""));
    assert!(matches!(big.done_outcome(), Err(MemcacheError::CommandError(CommandError::ValueTooLarge))));
    let auth = read(&reply(0x00, 0x20, 0, &[], b"", b""));
    assert!(matches!(auth.get_outcome(), Err(MemcacheError::CommandError(CommandError::AuthenticationRequired))));
    let odd = read(&reply(0x00, 0x81, 0, &[], b"", b""));
    assert!(matches!(odd.get_outcome(), Err(MemcacheError::CommandError(CommandError::Unknown(0x81)))));
}

#[test]
fn cas_mismatch_is_false() {
    assert!(read(&reply(0x01, 0, 1, &[], b"", b"")).cas_outcome().unwrap());
    assert!(!read(&reply(0x01, 2, 0, &[], b"", b"")).cas_outcome().unwrap());
    assert!(!read(&reply(0x01, 1, 0, &[], b"", b"")).cas_outcome().unwrap());
}

#[test]
fn counter_and_found_replies() {
    let p = read(&reply(0x05, 0, 0, &[], b"", &444u64.to_be_bytes()));
    assert_eq!(p.counter_outcome().unwrap(), 444);
    assert!(read(&reply(0x04, 0, 0, &[], b"", b"")).found_outcome().unwrap());
    assert!(!read(&reply(0x04, 1, 0, &[], b"", b"")).found_outcome().unwrap());
}

#[test]
fn version_and_stats_replies() {
    assert_eq!(read(&reply(0x0b, 0, 0, &[], b"", b"1.6.9")).version_outcome().unwrap(), "1.6.9");
    let stat = read(&reply(0x10, 0, 0, &[], b"pid", b"42"));
    assert_eq!(stat.stat_outcome().unwrap(), Some((b"pid".to_vec(), b"42".to_vec())));
    let end = read(&reply(0x10, 0, 0, &[], b"", b""));
    assert_eq!(end.stat_outcome().unwrap(), None);
}

#[test]
fn bad_magic_is_a_server_error_that_breaks_the_connection() {
    let mut bytes = reply(0x00, 0, 0, &[], b"", b"");
    bytes[0] = 0x80;
    let mut s = BinaryProtocol::new();
    s.receive(&bytes);
    match s.read_packet() {
        Some(Err(e)) => {
            assert!(matches!(e, MemcacheError::ServerError(ServerError::BadMagic(0x80))));
            assert!(e.breaks_connection());
        }
        other => panic!("unexpected {:?}", other),
    }
}

#[test]
fn packets_wait_until_complete_and_pipeline() {
    let first = reply(0x04, 0, 0, &[], b"", b"");
    let second = reply(0x04, 1, 0, &[], b"", b"");
    let mut s = BinaryProtocol::new();
    s.receive(&first[..10]);
    assert!(s.read_packet().is_none());
    s.receive(&first[10..]);
    s.receive(&second);
    assert!(s.read_packet().unwrap().unwrap().found_outcome().unwrap());
    assert!(!s.read_packet().unwrap().unwrap().found_outcome().unwrap());
    assert!(s.read_packet().is_none());
}

#[test]
fn overrunning_header_is_malformed() {
    let mut bytes = reply(0x00, 0, 0, &[], b"", b"");
    bytes[3] = 9;
    assert!(matches!(
        parse_packet(&bytes),
        Some((Err(MemcacheError::ServerError(ServerError::BadResponse(_))), 24))
    ));
}

#[test]
fn requests_are_numbered_and_replies_matched_by_opaque() {
    let mut s = BinaryProtocol::new();
    s.get("a").unwrap();
    s.get("b").unwrap();
    let out = s.take_output();
    assert_eq!(&out[12..16], &[0, 0, 0, 0]);
    assert_eq!(&out[25 + 12..25 + 16], &[0, 0, 0, 1]);
    assert_eq!(s.next, 2);

    let first = reply(0x00, 1, 0, &[], b"", b"");
    let mut second = reply(0x00, 1, 0, &[], b"", b"");
    second[15] = 7;
    s.receive(&first);
    s.receive(&second);
    assert!(matches!(s.read_reply(), Some(Ok(p)) if p.opaque == 0));
    assert!(matches!(
        s.read_reply(),
        Some(Err(MemcacheError::ServerError(ServerError::BadResponse(_))))
    ));
    assert_eq!(s.awaited, 2);
    assert!(s.inp.is_empty());
}
