use hidpipe::client::{Client, ReadError, ReadReply};
use hidpipe::guest::GuestDevices;
use hidpipe::insert_entry;
use hidpipe::registry::Registry;
use std::collections::HashMap;

#[test]
fn hello_read_in_two_parts() {
    let mut c = Client::new(5u32);
    assert!(!c.is_ready());
    assert_eq!(c.room(4), Ok(4));
    assert!(matches!(c.feed(4, &[0, 0]), Ok(ReadReply::NotReady)));
    assert_eq!(c.room(4), Ok(2));
    assert_eq!(c.room(8), Err(ReadError::SizeMismatch));
    assert!(matches!(c.feed(8, &[0]), Err(ReadError::SizeMismatch)));
    match c.feed(4, &[1, 2]) {
        Ok(ReadReply::Data(v)) => assert_eq!(v, vec![0, 0, 1, 2]),
        _ => panic!("expected a complete record"),
    }
    assert_eq!(c.room(8), Ok(8));
    assert_eq!(*c.socket(), 5);
}

#[test]
fn empty_read_is_hangup() {
    let mut c = Client::new(());
    assert!(matches!(c.feed(4, &[]), Ok(ReadReply::Hangup)));
    assert!(matches!(c.feed(4, &[1, 2, 3, 4]), Ok(ReadReply::Data(_))));
}

#[test]
fn registry_add_get_remove() {
    let mut r: Registry<&str> = Registry::new();
    assert!(r.add(b"event3".to_vec(), 11, "pad").is_empty());
    assert!(r.add(b"event4".to_vec(), 12, "stick").is_empty());
    assert_eq!(r.len(), 2);
    assert_eq!(r.get(11), Some(&"pad"));
    assert_eq!(r.fd_of(b"event4"), Some(12));
    assert_eq!(r.fd_of(b"event5"), None);
    let mut fds = r.fds();
    fds.sort();
    assert_eq!(fds, vec![11, 12]);
    let e = r.remove(b"event3").unwrap();
    assert_eq!(e.fd, 11);
    assert_eq!(e.handle, "pad");
    assert_eq!(r.get(11), None);
    assert!(r.remove(b"event3").is_none());
    assert_eq!(r.len(), 1);
}

#[test]
fn registry_second_add_replaces_first() {
    let mut r: Registry<&str> = Registry::new();
    r.add(b"event3".to_vec(), 11, "first");
    let evicted = r.add(b"event3".to_vec(), 14, "second");
    assert_eq!(evicted.len(), 1);
    assert_eq!(evicted[0].fd, 11);
    assert_eq!(r.len(), 1);
    assert_eq!(r.fd_of(b"event3"), Some(14));
    assert_eq!(r.get(14), Some(&"second"));
    assert_eq!(r.get(11), None);
}

#[test]
fn registry_reused_descriptor_replaces_stale_entry() {
    let mut r: Registry<u8> = Registry::new();
    r.add(b"event3".to_vec(), 11, 1);
    let evicted = r.add(b"event9".to_vec(), 11, 2);
    assert_eq!(evicted.len(), 1);
    assert_eq!(r.fd_of(b"event3"), None);
    assert_eq!(r.fd_of(b"event9"), Some(11));
}

#[test]
fn insert_entry_overwrites() {
    let mut m: HashMap<u64, &str> = HashMap::new();
    assert_eq!(*insert_entry(&mut m, 3, "a"), "a");
    assert_eq!(*insert_entry(&mut m, 3, "b"), "b");
    assert_eq!(m.len(), 1);
    assert_eq!(m[&3], "b");
}

#[test]
fn guest_remove_unknown_is_noop() {
    let mut g: GuestDevices<&str> = GuestDevices::new();
    g.add(7, 20, "pad");
    assert!(g.remove(8).is_none());
    assert_eq!(g.get(7), Some(&"pad"));
    assert_eq!(g.id_of_fd(20), Some(7));
}

#[test]
fn guest_add_remove() {
    let mut g: GuestDevices<&str> = GuestDevices::new();
    assert!(g.add(7, 20, "pad").is_empty());
    assert!(g.add(9, 21, "wheel").is_empty());
    assert_eq!(g.id_of_fd(21), Some(9));
    let d = g.remove(7).unwrap();
    assert_eq!(d.fd, 20);
    assert_eq!(d.handle, "pad");
    assert_eq!(g.get(7), None);
    assert_eq!(g.id_of_fd(20), None);
    assert_eq!(g.get(9), Some(&"wheel"));
}

#[test]
fn guest_readd_keeps_maps_paired() {
    let mut g: GuestDevices<u8> = GuestDevices::new();
    g.add(7, 20, 1);
    let evicted = g.add(7, 22, 2);
    assert_eq!(evicted.len(), 1);
    assert_eq!(evicted[0].fd, 20);
    assert_eq!(g.id_of_fd(20), None);
    assert_eq!(g.id_of_fd(22), Some(7));
    assert_eq!(g.get(7), Some(&2));
}
