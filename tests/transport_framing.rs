use memcache::client::Connectable;
use memcache::datagram::{frame, Reassembly};

fn datagram(id: u16, seq: u16, total: u16, payload: &[u8]) -> Vec<u8> {
    let mut d = Vec::new();
    d.extend_from_slice(&id.to_be_bytes());
    d.extend_from_slice(&seq.to_be_bytes());
    d.extend_from_slice(&total.to_be_bytes());
    d.extend_from_slice(&[0, 0]);
    d.extend_from_slice(payload);
    d
}

#[test]
fn connectable_names_its_urls() {
    assert_eq!("memcache://a:1".get_urls(), vec![String::from("memcache://a:1")]);
    assert_eq!(String::from("memcache://b:2").get_urls(), vec![String::from("memcache://b:2")]);
    assert_eq!(
        vec!["memcache://a:1", "memcache://b:2"].get_urls(),
        vec![String::from("memcache://a:1"), String::from("memcache://b:2")]
    );
    let owned = vec![String::from("x"), String::from("y")];
    assert_eq!(owned.clone().get_urls(), owned);
}

#[test]
fn requests_go_out_as_one_datagram() {
    assert_eq!(frame(7, b"get a\r\n"), datagram(7, 0, 1, b"get a\r\n"));
}

#[test]
fn reply_datagrams_are_put_back_in_order() {
    let mut r = Reassembly::new(7);
    assert!(r.complete().is_none());
    assert!(!r.accept(&datagram(8, 0, 2, b"stale")));
    assert!(!r.accept(b"short"));
    assert!(r.accept(&datagram(7, 1, 2, b"END\r\n")));
    assert!(r.complete().is_none());
    assert!(!r.accept(&datagram(7, 1, 2, b"again")));
    assert!(!r.accept(&datagram(7, 0, 3, b"wrong total")));
    assert!(!r.accept(&datagram(7, 2, 2, b"past the end")));
    assert!(r.accept(&datagram(7, 0, 2, b"VALUE a 0 1\r\nx\r\n")));
    assert_eq!(r.complete().unwrap(), b"VALUE a 0 1\r\nx\r\nEND\r\n".to_vec());
}
