use memcache::ascii::{AsciiProtocol, Item, Options, StoreCommand};
use memcache::error::{ClientError, CommandError, MemcacheError, ParseError, ServerError};

fn session() -> AsciiProtocol {
    AsciiProtocol::new(false)
}

fn sent(p: &mut AsciiProtocol) -> String {
    String::from_utf8(p.take_output()).unwrap()
}

fn item(key: &str, value: &str, flags: u32, cas: Option<u64>) -> Item {
    Item { key: key.as_bytes().to_vec(), value: value.as_bytes().to_vec(), flags, cas }
}

#[test]
fn set_frames_header_and_payload() {
    let mut p = session();
    p.set("foo", b"bar", 0, 0).unwrap();
    assert_eq!(sent(&mut p), "set foo 0 0 3\r\nbar\r\n");
    p.set("foo", b"bar", 7, 3600).unwrap();
    assert_eq!(sent(&mut p), "set foo 7 3600 3\r\nbar\r\n");
}

#[test]
fn store_commands_use_their_words() {
    let mut p = session();
    p.add("k", b"v", 1, 2).unwrap();
    p.replace("k", b"v", 1, 2).unwrap();
    p.append("k", b"v").unwrap();
    p.prepend("k", b"v").unwrap();
    assert_eq!(
        sent(&mut p),
        "add k 1 2 1\r\nv\r\nreplace k 1 2 1\r\nv\r\nappend k 0 0 1\r\nv\r\nprepend k 0 0 1\r\nv\r\n"
    );
}

#[test]
fn store_with_noreply_and_cas() {
    let mut p = session();
    let options = Options { noreply: true, exptime: 5, flags: 2, cas: Some(99) };
    p.store(StoreCommand::Cas, "k", b"xy", &options).unwrap();
    assert_eq!(sent(&mut p), "cas k 2 5 2 99 noreply\r\nxy\r\n");
}

#[test]
fn cas_without_token_is_a_client_error() {
    let mut p = session();
    let r = p.store(StoreCommand::Cas, "k", b"v", &Options::default());
    match r {
        Err(MemcacheError::ClientError(ClientError::Error(m))) => {
            assert_eq!(m, "cas command should have a casid")
        }
        other => panic!("unexpected {:?}", other),
    }
    assert!(p.take_output().is_empty());
}

#[test]
fn auth_is_a_set_of_the_credentials() {
    let mut p = session();
    p.auth("user", "secret").unwrap();
    assert_eq!(sent(&mut p), "set auth 0 0 11\r\nuser secret\r\n");
}

#[test]
fn keys_over_the_limit_are_refused_before_any_output() {
    let long = "k".repeat(251);
    let mut p = session();
    assert!(matches!(p.get(&long), Err(MemcacheError::ClientError(ClientError::KeyTooLong))));
    assert!(matches!(p.set(&long, b"v", 0, 0), Err(MemcacheError::ClientError(ClientError::KeyTooLong))));
    assert!(matches!(p.cas(&long, b"v", 0, 0, 1), Err(MemcacheError::ClientError(ClientError::KeyTooLong))));
    assert!(matches!(p.append(&long, b"v"), Err(MemcacheError::ClientError(ClientError::KeyTooLong))));
    assert!(matches!(p.delete(&long), Err(MemcacheError::ClientError(ClientError::KeyTooLong))));
    assert!(matches!(p.increment(&long, 1), Err(MemcacheError::ClientError(ClientError::KeyTooLong))));
    assert!(matches!(p.decrement(&long, 1), Err(MemcacheError::ClientError(ClientError::KeyTooLong))));
    assert!(matches!(p.touch(&long, 1), Err(MemcacheError::ClientError(ClientError::KeyTooLong))));
    assert!(matches!(p.gets(&["a", long.as_str()]), Err(MemcacheError::ClientError(ClientError::KeyTooLong))));
    assert!(p.take_output().is_empty());
}

#[test]
fn key_of_exactly_the_limit_is_accepted() {
    let key = "k".repeat(250);
    let mut p = session();
    p.delete(&key).unwrap();
    assert_eq!(sent(&mut p), format!("delete {}\r\n", key));
}

#[test]
fn flush_then_get_finds_nothing() {
    let mut p = session();
    p.set("foo", b"bar", 0, 0).unwrap();
    p.flush().unwrap();
    p.get("foo").unwrap();
    assert_eq!(sent(&mut p), "set foo 0 0 3\r\nbar\r\nflush_all\r\nget foo\r\n");
    p.receive(b"STORED\r\nOK\r\nEND\r\n");
    assert!(matches!(p.store_reply(), Some(Ok(true))));
    assert!(matches!(p.ok_reply(), Some(Ok(()))));
    assert!(matches!(p.get_reply("foo"), Some(Ok(None))));
    assert!(p.inp.is_empty());
}

#[test]
fn flush_with_delay_keeps_the_value_until_then() {
    let mut p = session();
    p.flush_with_delay(3).unwrap();
    p.get("foo").unwrap();
    assert_eq!(sent(&mut p), "flush_all 3\r\nget foo\r\n");
    p.receive(b"OK\r\nVALUE foo 0 3\r\nbar\r\nEND\r\n");
    assert!(matches!(p.ok_reply(), Some(Ok(()))));
    match p.get_reply("foo") {
        Some(Ok(Some(found))) => assert_eq!(found, item("foo", "bar", 0, None)),
        other => panic!("unexpected {:?}", other),
    }
}

#[test]
fn get_reply_waits_for_the_whole_block() {
    let mut p = session();
    p.receive(b"VALUE foo 5 3\r\nba");
    assert!(p.get_reply("foo").is_none());
    assert_eq!(p.inp, b"VALUE foo 5 3\r\nba".to_vec());
    p.receive(b"r\r\nEND\r\nNEXT");
    match p.get_reply("foo") {
        Some(Ok(Some(found))) => assert_eq!(found, item("foo", "bar", 5, None)),
        other => panic!("unexpected {:?}", other),
    }
    assert_eq!(p.inp, b"NEXT".to_vec());
}

#[test]
fn get_reply_keeps_binary_payloads() {
    let mut p = session();
    p.receive(b"VALUE k 1 4\r\n\r\n\x00\xff\r\nEND\r\n");
    match p.get_reply("k") {
        Some(Ok(Some(found))) => assert_eq!(found.value, vec![13, 10, 0, 255]),
        other => panic!("unexpected {:?}", other),
    }
}

#[test]
fn get_reply_for_another_key_is_malformed() {
    let mut p = session();
    p.receive(b"VALUE bar 0 1\r\nx\r\nEND\r\n");
    assert!(matches!(
        p.get_reply("foo"),
        Some(Err(MemcacheError::ServerError(ServerError::BadResponse(_))))
    ));
}

#[test]
fn get_reply_with_bad_flags_is_a_parse_error() {
    let mut p = session();
    p.receive(b"VALUE foo x 1\r\nx\r\nEND\r\n");
    assert!(matches!(p.get_reply("foo"), Some(Err(MemcacheError::ParseError(ParseError::Int)))));
    let mut q = session();
    q.receive(b"VALUE foo 4294967296 1\r\nx\r\nEND\r\n");
    assert!(matches!(q.get_reply("foo"), Some(Err(MemcacheError::ParseError(ParseError::Int)))));
}

#[test]
fn get_reply_without_end_is_malformed() {
    let mut p = session();
    p.receive(b"VALUE foo 0 1\r\nx\r\nEXTRA\r\n");
    assert!(matches!(
        p.get_reply("foo"),
        Some(Err(MemcacheError::ServerError(ServerError::BadResponse(_))))
    ));
    let mut q = session();
    q.receive(b"VALUE foo 0 1\r\nxy\r\nEND\r\n");
    assert!(matches!(
        q.get_reply("foo"),
        Some(Err(MemcacheError::ServerError(ServerError::BadResponse(_))))
    ));
}

#[test]
fn gets_returns_found_items_with_tokens() {
    let mut p = session();
    p.gets(&["ascii_foo", "ascii_baz", "not_exists_key"]).unwrap();
    assert_eq!(sent(&mut p), "gets ascii_foo ascii_baz not_exists_key\r\n");
    p.receive(b"VALUE ascii_foo 0 3 11\r\nbar\r\nVALUE ascii_baz 0 3 12\r\nqux\r\nEND\r\n");
    match p.gets_reply() {
        Some(Ok(items)) => {
            assert_eq!(items.len(), 2);
            assert_eq!(items[0], item("ascii_foo", "bar", 0, Some(11)));
            assert_eq!(items[1], item("ascii_baz", "qux", 0, Some(12)));
        }
        other => panic!("unexpected {:?}", other),
    }
}

#[test]
fn gets_is_refused_over_datagrams() {
    let mut p = AsciiProtocol::new(true);
    assert!(matches!(
        p.gets(&["foo", "fooo"]),
        Err(MemcacheError::ClientError(ClientError::Error(_)))
    ));
    assert!(p.take_output().is_empty());
}

#[test]
fn cas_succeeds_once_then_reports_false() {
    let mut p = session();
    p.cas("ascii_foo", b"bar2", 0, 0, 11).unwrap();
    p.cas("ascii_foo", b"bar3", 0, 0, 11).unwrap();
    assert_eq!(sent(&mut p), "cas ascii_foo 0 0 4 11\r\nbar2\r\ncas ascii_foo 0 0 4 11\r\nbar3\r\n");
    p.receive(b"STORED\r\nEXISTS\r\nNOT_FOUND\r\n");
    assert!(matches!(p.cas_reply(), Some(Ok(true))));
    assert!(matches!(p.cas_reply(), Some(Ok(false))));
    assert!(matches!(p.cas_reply(), Some(Ok(false))));
}

#[test]
fn store_reports_exists_and_not_found_as_errors() {
    let mut p = session();
    p.receive(b"NOT_STORED\r\nEXISTS\r\nNOT_FOUND\r\nWHAT\r\n");
    assert!(matches!(p.store_reply(), Some(Ok(false))));
    assert!(matches!(p.store_reply(), Some(Err(MemcacheError::CommandError(CommandError::KeyExists)))));
    assert!(matches!(p.store_reply(), Some(Err(MemcacheError::CommandError(CommandError::KeyNotFound)))));
    assert!(matches!(p.store_reply(), Some(Err(MemcacheError::ServerError(ServerError::BadResponse(_))))));
}

#[test]
fn increment_reads_the_new_value() {
    let mut p = session();
    p.set("counter", b"321", 0, 0).unwrap();
    p.increment("counter", 123).unwrap();
    assert_eq!(sent(&mut p), "set counter 0 0 3\r\n321\r\nincr counter 123\r\n");
    p.receive(b"STORED\r\n444\r\n");
    assert!(matches!(p.store_reply(), Some(Ok(true))));
    assert!(matches!(p.counter_reply(), Some(Ok(444))));
}

#[test]
fn counter_replies_for_missing_and_garbage() {
    let mut p = session();
    p.decrement("c", 1).unwrap();
    assert_eq!(sent(&mut p), "decr c 1\r\n");
    p.receive(b"NOT_FOUND\r\n12a\r\n18446744073709551615\r\n");
    assert!(matches!(p.counter_reply(), Some(Err(MemcacheError::CommandError(CommandError::KeyNotFound)))));
    assert!(matches!(p.counter_reply(), Some(Err(MemcacheError::ServerError(ServerError::BadResponse(_))))));
    assert!(matches!(p.counter_reply(), Some(Ok(18446744073709551615))));
}

#[test]
fn delete_present_and_absent() {
    let mut p = session();
    p.delete("present").unwrap();
    p.delete("absent").unwrap();
    assert_eq!(sent(&mut p), "delete present\r\ndelete absent\r\n");
    p.receive(b"DELETED\r\nNOT_FOUND\r\n");
    assert!(matches!(p.delete_reply(), Some(Ok(true))));
    assert!(matches!(p.delete_reply(), Some(Ok(false))));
}

#[test]
fn touch_frames_and_reads() {
    let mut p = session();
    p.touch("fooo", 12345).unwrap();
    assert_eq!(sent(&mut p), "touch fooo 12345\r\n");
    p.receive(b"TOUCHED\r\nNOT_FOUND\r\n");
    assert!(matches!(p.touch_reply(), Some(Ok(true))));
    assert!(matches!(p.touch_reply(), Some(Ok(false))));
}

#[test]
fn version_reads_the_text_after_the_word() {
    let mut p = session();
    p.version().unwrap();
    assert_eq!(sent(&mut p), "version\r\n");
    p.receive(b"VERSION 1.6.9\r\nVERSIONX\r\n");
    match p.version_reply() {
        Some(Ok(v)) => assert_eq!(v, "1.6.9"),
        other => panic!("unexpected {:?}", other),
    }
    assert!(matches!(p.version_reply(), Some(Err(MemcacheError::ServerError(ServerError::BadResponse(_))))));
}

#[test]
fn stats_reads_names_and_values() {
    let mut p = session();
    p.stats().unwrap();
    assert_eq!(sent(&mut p), "stats\r\n");
    p.receive(b"STAT pid 123\r\nSTAT version 1.6 beta\r\nEND\r\n");
    match p.stats_reply() {
        Some(Ok(stats)) => {
            assert_eq!(stats.len(), 2);
            assert_eq!(stats[0], (b"pid".to_vec(), b"123".to_vec()));
            assert_eq!(stats[1], (b"version".to_vec(), b"1.6 beta".to_vec()));
        }
        other => panic!("unexpected {:?}", other),
    }
    let mut q = session();
    q.receive(b"STAT lonely\r\nEND\r\n");
    assert!(matches!(q.stats_reply(), Some(Err(MemcacheError::ServerError(ServerError::BadResponse(_))))));
}

#[test]
fn server_error_lines_become_errors() {
    let mut p = session();
    p.receive(b"ERROR\r\nCLIENT_ERROR bad data chunk\r\nSERVER_ERROR out of memory\r\n");
    assert!(matches!(p.delete_reply(), Some(Err(MemcacheError::CommandError(CommandError::InvalidCommand)))));
    match p.delete_reply() {
        Some(Err(MemcacheError::ClientError(ClientError::Error(m)))) => {
            assert_eq!(m, "CLIENT_ERROR bad data chunk\r\n")
        }
        other => panic!("unexpected {:?}", other),
    }
    match p.get_reply("k") {
        Some(Err(MemcacheError::ServerError(ServerError::Error(m)))) => {
            assert_eq!(m, "SERVER_ERROR out of memory\r\n")
        }
        other => panic!("unexpected {:?}", other),
    }
    assert!(p.inp.is_empty());
}

#[test]
fn replies_wait_for_a_whole_line() {
    let mut p = session();
    p.receive(b"STOR");
    assert!(p.store_reply().is_none());
    assert_eq!(p.inp, b"STOR".to_vec());
    p.receive(b"ED\r\n");
    assert!(matches!(p.store_reply(), Some(Ok(true))));
}

#[test]
fn add_on_a_present_key_fails_with_key_exists() {
    let mut p = session();
    p.add("foo", b"baz", 0, 0).unwrap();
    assert_eq!(sent(&mut p), "add foo 0 0 3\r\nbaz\r\n");
    p.receive(b"NOT_STORED\r\nSTORED\r\n");
    assert!(matches!(p.add_reply(), Some(Err(MemcacheError::CommandError(CommandError::KeyExists)))));
    assert!(matches!(p.add_reply(), Some(Ok(()))));
}

#[test]
fn replace_on_a_missing_key_fails_with_key_not_found() {
    let mut p = session();
    p.replace("foo", b"baz", 0, 0).unwrap();
    assert_eq!(sent(&mut p), "replace foo 0 0 3\r\nbaz\r\n");
    p.receive(b"NOT_STORED\r\nSTORED\r\nSERVER_ERROR busy\r\n");
    assert!(matches!(p.replace_reply(), Some(Err(MemcacheError::CommandError(CommandError::KeyNotFound)))));
    assert!(matches!(p.replace_reply(), Some(Ok(()))));
    assert!(matches!(p.replace_reply(), Some(Err(MemcacheError::ServerError(ServerError::Error(_))))));
}
