use hidpipe::server::{Descriptor, GreetError, HelloProgress, Server};
use hidpipe::wire::{ABS_BYTES, EV_BYTES, KEY_BYTES, LED_BYTES, MSC_BYTES, NAME_BYTES, PROP_BYTES, REL_BYTES, SND_BYTES, SW_BYTES};
use hidpipe::{AbsoluteInfo, AddDevice, InputEvent, InputId, ServerHello};

fn x_axis() -> AbsoluteInfo {
    AbsoluteInfo { value: 0, minimum: -32768, maximum: 32767, fuzz: 16, flat: 128, resolution: 0 }
}

fn test_pad(id: u64) -> Descriptor {
    let mut absbits = vec![0u8; ABS_BYTES];
    absbits[0] = 1;
    let mut name = vec![0u8; NAME_BYTES];
    name[..7].copy_from_slice(b"TestPad");
    Descriptor {
        dev: AddDevice {
            id,
            evbits: vec![0u8; EV_BYTES],
            keybits: vec![0u8; KEY_BYTES],
            relbits: vec![0u8; REL_BYTES],
            absbits,
            mscbits: vec![0u8; MSC_BYTES],
            ledbits: vec![0u8; LED_BYTES],
            sndbits: vec![0u8; SND_BYTES],
            swbits: vec![0u8; SW_BYTES],
            propbits: vec![0u8; PROP_BYTES],
            input_id: InputId { bustype: 3, vendor: 0, product: 0, version: 0 },
            ff_effects: 0,
            name,
        },
        infos: vec![x_axis()],
    }
}

fn ready_client(s: &mut Server<u32, &'static str>, fd: u64, descs: &Vec<Descriptor>) -> Vec<u8> {
    assert!(s.connect(fd, fd as u32).is_none());
    assert!(matches!(s.hello_room(fd), Some(Ok(4))));
    assert!(matches!(s.feed_hello(fd, &[0, 0, 0, 0]), HelloProgress::Complete));
    s.greet(fd, descs).unwrap()
}

#[test]
fn minimal_handshake() {
    let mut s: Server<u32, &str> = Server::new();
    let bytes = ready_client(&mut s, 5, &vec![]);
    assert_eq!(bytes, ServerHello { version: 0 }.encode());
    assert_eq!(bytes.len(), 4);
    assert_eq!(s.ready_clients(), vec![5]);
    assert!(matches!(s.hello_room(5), None));
    assert!(matches!(s.feed_hello(5, &[0]), HelloProgress::Ignored));
}

#[test]
fn hello_catch_up() {
    let mut s: Server<u32, &str> = Server::new();
    let (_, frame, targets) = match s.add_device(b"event7".to_vec(), 7, "pad", &test_pad(7)) {
        Ok(r) => r,
        Err(_) => panic!("descriptor refused"),
    };
    assert!(targets.is_empty());
    assert_eq!(frame.len(), 4 + 224 + 24);
    let bytes = ready_client(&mut s, 5, &vec![test_pad(7)]);
    assert_eq!(bytes.len(), 4 + 4 + 224 + 24);
    assert_eq!(&bytes[0..4], &[0, 0, 0, 0]);
    assert_eq!(&bytes[4..8], &[0, 0, 0, 0]);
    let rec = AddDevice::decode(&bytes[8..232]).unwrap();
    assert_eq!(rec.id, 7);
    assert_eq!(rec.absbits[0], 1);
    assert!(rec.keybits.iter().all(|b| *b == 0));
    assert_eq!(&rec.name[..8], b"TestPad\0");
    assert_eq!(AbsoluteInfo::decode(&bytes[232..256]), Some(x_axis()));
}

#[test]
fn event_fan_out() {
    let mut s: Server<u32, &str> = Server::new();
    assert!(s.add_device(b"event7".to_vec(), 7, "pad", &test_pad(7)).is_ok());
    ready_client(&mut s, 5, &vec![test_pad(7)]);
    ready_client(&mut s, 6, &vec![test_pad(7)]);
    let ev = InputEvent::new(7, 1_700_000_000, 0, 3, 0, 1234);
    let (frame, targets) = s.input_event(&ev);
    assert_eq!(targets, vec![5, 6]);
    assert_eq!(&frame[0..4], &[2, 0, 0, 0]);
    let got = InputEvent::decode(&frame[4..]).unwrap();
    assert_eq!(got.id, 7);
    assert_eq!(got.ty, 3);
    assert_eq!(got.code, 0);
    assert_eq!(got.value, 1234);
    assert_eq!(got.time_sec, 1_700_000_000);
    assert_eq!(got.time_usec, 0);
}

#[test]
fn hot_unplug() {
    let mut s: Server<u32, &str> = Server::new();
    assert!(s.add_device(b"event7".to_vec(), 7, "pad", &test_pad(7)).is_ok());
    ready_client(&mut s, 5, &vec![test_pad(7)]);
    ready_client(&mut s, 6, &vec![test_pad(7)]);
    let (entry, frame, targets) = s.remove_device(b"event7").unwrap();
    assert_eq!(entry.fd, 7);
    assert_eq!(entry.handle, "pad");
    assert_eq!(targets, vec![5, 6]);
    assert_eq!(frame, vec![1, 0, 0, 0, 7, 0, 0, 0, 0, 0, 0, 0]);
    assert!(s.devices().get(7).is_none());
    assert!(s.remove_device(b"event7").is_none());
}

#[test]
fn slow_client_sees_hotplug() {
    let mut s: Server<u32, &str> = Server::new();
    assert!(s.connect(5, 5).is_none());
    ready_client(&mut s, 6, &vec![]);
    let (_, frame, targets) = match s.add_device(b"event7".to_vec(), 7, "pad", &test_pad(7)) {
        Ok(r) => r,
        Err(_) => panic!("descriptor refused"),
    };
    assert_eq!(targets, vec![5, 6]);
    assert_eq!(frame.len(), 252);
    assert_eq!(s.ready_clients(), vec![6]);
}

#[test]
fn client_error_isolation() {
    let mut s: Server<u32, &str> = Server::new();
    assert!(s.add_device(b"event7".to_vec(), 7, "pad", &test_pad(7)).is_ok());
    ready_client(&mut s, 5, &vec![test_pad(7)]);
    ready_client(&mut s, 6, &vec![test_pad(7)]);
    assert_eq!(s.hang_up(5), Some(5));
    assert_eq!(s.hang_up(5), None);
    for v in 0..3 {
        let (_, targets) = s.input_event(&InputEvent::new(7, 0, v, 3, 0, v as i32));
        assert_eq!(targets, vec![6]);
    }
}

#[test]
fn hello_failures_drop_client() {
    let mut s: Server<u32, &str> = Server::new();
    s.connect(5, 50);
    assert!(matches!(s.feed_hello(5, &[0, 0]), HelloProgress::Pending));
    assert!(matches!(s.hello_room(5), Some(Ok(2))));
    assert!(matches!(s.feed_hello(5, &[0, 0, 0]), HelloProgress::Dropped(50)));
    assert!(s.clients().is_empty());
    s.connect(6, 60);
    assert!(matches!(s.feed_hello(6, &[]), HelloProgress::Dropped(60)));
    assert!(matches!(s.feed_hello(6, &[0]), HelloProgress::Ignored));
}

#[test]
fn greet_checks_descriptors() {
    let mut s: Server<u32, &str> = Server::new();
    assert!(s.add_device(b"event7".to_vec(), 7, "pad", &test_pad(7)).is_ok());
    assert!(matches!(s.greet(9, &vec![]), Err(GreetError::UnknownClient)));
    s.connect(5, 5);
    assert!(matches!(s.greet(5, &vec![]), Err(GreetError::Mismatch)));
    assert!(matches!(s.greet(5, &vec![test_pad(8)]), Err(GreetError::Mismatch)));
    assert!(matches!(s.greet(5, &vec![test_pad(7), test_pad(7)]), Err(GreetError::Mismatch)));
    let mut bad = test_pad(7);
    bad.infos.clear();
    assert!(matches!(s.greet(5, &vec![bad]), Err(GreetError::Mismatch)));
    assert!(s.greet(5, &vec![test_pad(7)]).is_ok());
    assert!(matches!(s.greet(5, &vec![test_pad(7)]), Err(GreetError::AlreadyReady)));
}

#[test]
fn add_device_refuses_bad_descriptor() {
    let mut s: Server<u32, &str> = Server::new();
    assert!(matches!(s.add_device(b"event7".to_vec(), 8, "pad", &test_pad(7)), Err("pad")));
    let mut d = test_pad(7);
    d.dev.name.pop();
    assert!(matches!(s.add_device(b"event7".to_vec(), 7, "pad", &d), Err("pad")));
    assert!(s.devices().get(7).is_none());
}

#[test]
fn readd_same_sysname_keeps_one_entry() {
    let mut s: Server<u32, &str> = Server::new();
    assert!(s.add_device(b"event7".to_vec(), 7, "first", &test_pad(7)).is_ok());
    let (evicted, _, _) = match s.add_device(b"event7".to_vec(), 9, "second", &test_pad(9)) {
        Ok(r) => r,
        Err(_) => panic!("descriptor refused"),
    };
    assert_eq!(evicted.len(), 1);
    assert_eq!(evicted[0].handle, "first");
    assert_eq!(s.devices().len(), 1);
    assert_eq!(s.devices().fd_of(b"event7"), Some(9));
}

#[test]
fn unreadable_device_drops_all_clients() {
    let mut s: Server<u32, &str> = Server::new();
    ready_client(&mut s, 5, &vec![]);
    s.connect(6, 6);
    let (evicted, mut dropped) = s.add_device_unreadable(b"event7".to_vec(), 7, "pad");
    assert!(evicted.is_empty());
    dropped.sort();
    assert_eq!(dropped, vec![5, 6]);
    assert!(s.clients().is_empty());
    assert_eq!(s.devices().get(7), Some(&"pad"));
}
