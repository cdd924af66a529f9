use hidpipe::bits::set_bits;
use hidpipe::frames::{add_device_frame, input_event_frame, remove_device_frame};
use hidpipe::wire::{ABS_BYTES, ADD_DEVICE_SIZE, EV_BYTES, KEY_BYTES, LED_BYTES, MSC_BYTES, NAME_BYTES, PROP_BYTES, REL_BYTES, SND_BYTES, SW_BYTES};
use hidpipe::{AbsoluteInfo, AddDevice, ClientHello, InputEvent, InputId, MessageType, RemoveDevice, ServerHello};

fn pad(abs_x: bool) -> AddDevice {
    let mut absbits = vec![0u8; ABS_BYTES];
    if abs_x {
        absbits[0] = 1;
    }
    let mut name = vec![0u8; NAME_BYTES];
    name[..7].copy_from_slice(b"TestPad");
    AddDevice {
        id: 7,
        evbits: vec![0u8; EV_BYTES],
        keybits: vec![0u8; KEY_BYTES],
        relbits: vec![0u8; REL_BYTES],
        absbits,
        mscbits: vec![0u8; MSC_BYTES],
        ledbits: vec![0u8; LED_BYTES],
        sndbits: vec![0u8; SND_BYTES],
        swbits: vec![0u8; SW_BYTES],
        propbits: vec![0u8; PROP_BYTES],
        input_id: InputId { bustype: 3, vendor: 0x045e, product: 0x028e, version: 0x0110 },
        ff_effects: 16,
        name,
    }
}

#[test]
fn hello_is_four_zero_bytes() {
    assert_eq!(ClientHello { version: 0 }.encode(), vec![0, 0, 0, 0]);
    assert_eq!(ServerHello { version: 0 }.encode(), vec![0, 0, 0, 0]);
    assert_eq!(ClientHello::decode(&[1, 0, 0, 0]), Some(ClientHello { version: 1 }));
    assert_eq!(ServerHello::decode(&[0, 0, 0]), None);
}

#[test]
fn message_tags() {
    assert_eq!(MessageType::AddDevice.tag(), 0);
    assert_eq!(MessageType::RemoveDevice.tag(), 1);
    assert_eq!(MessageType::InputEvent.tag(), 2);
    assert_eq!(MessageType::from_tag(1), Some(MessageType::RemoveDevice));
    assert_eq!(MessageType::from_tag(3), None);
    assert_eq!(MessageType::decode(&[2, 0, 0, 0]), Some(MessageType::InputEvent));
    assert_eq!(MessageType::decode(&[0, 1, 0, 0]), None);
}

#[test]
fn input_event_layout() {
    let ev = InputEvent::new(7, 1_700_000_000, 0, 3, 0, 1234);
    let b = ev.encode();
    assert_eq!(b.len(), 32);
    assert_eq!(&b[0..8], &1_700_000_000i64.to_le_bytes());
    assert_eq!(&b[8..16], &[0u8; 8]);
    assert_eq!(&b[16..24], &7u64.to_le_bytes());
    assert_eq!(&b[24..28], &1234i32.to_le_bytes());
    assert_eq!(&b[28..30], &3u16.to_le_bytes());
    assert_eq!(&b[30..32], &0u16.to_le_bytes());
    assert_eq!(InputEvent::decode(&b), Some(ev));
}

#[test]
fn input_event_bytes_round_trip() {
    let b: Vec<u8> = (0u8..32).map(|x| x.wrapping_mul(37)).collect();
    let ev = InputEvent::decode(&b).unwrap();
    assert_eq!(ev.encode(), b);
    assert_eq!(InputEvent::decode(&b[..31]), None);
}

#[test]
fn negative_values_round_trip() {
    let ev = InputEvent::new(u64::MAX, -1, -2, 0xffff, 0x8000, i32::MIN);
    assert_eq!(InputEvent::decode(&ev.encode()), Some(ev));
}

#[test]
fn remove_device_layout() {
    let r = RemoveDevice { id: 7 };
    assert_eq!(r.encode(), vec![7, 0, 0, 0, 0, 0, 0, 0]);
    assert_eq!(RemoveDevice::decode(&r.encode()), Some(r));
}

#[test]
fn absolute_info_layout() {
    let a = AbsoluteInfo { value: 0, minimum: -32768, maximum: 32767, fuzz: 16, flat: 128, resolution: 0 };
    let b = a.encode();
    assert_eq!(b.len(), 24);
    assert_eq!(&b[4..8], &(-32768i32).to_le_bytes());
    assert_eq!(&b[8..12], &32767i32.to_le_bytes());
    assert_eq!(AbsoluteInfo::decode(&b), Some(a));
}

#[test]
fn add_device_layout() {
    let d = pad(true);
    let b = d.encode();
    assert_eq!(b.len(), ADD_DEVICE_SIZE);
    assert_eq!(&b[0..8], &7u64.to_le_bytes());
    assert_eq!(b[110], 1);
    assert_eq!(b[129], 0);
    assert_eq!(&b[130..132], &3u16.to_le_bytes());
    assert_eq!(&b[132..134], &0x045eu16.to_le_bytes());
    assert_eq!(&b[140..144], &16u32.to_le_bytes());
    assert_eq!(&b[144..151], b"TestPad");
    let back = AddDevice::decode(&b).unwrap();
    assert_eq!(back.encode(), b);
    assert_eq!(back.absbits, d.absbits);
    assert_eq!(back.name, d.name);
}

#[test]
fn add_device_decode_ignores_padding() {
    let mut b = pad(false).encode();
    b[129] = 9;
    let back = AddDevice::decode(&b).unwrap();
    assert_eq!(back.encode()[129], 0);
}

#[test]
fn add_device_frame_carries_one_axis_record_per_bit() {
    let d = pad(true);
    let info = AbsoluteInfo { value: 0, minimum: -32768, maximum: 32767, fuzz: 16, flat: 128, resolution: 0 };
    let f = add_device_frame(&d, &vec![info]);
    assert_eq!(f.len(), 4 + 224 + 24);
    assert_eq!(&f[0..4], &[0, 0, 0, 0]);
    assert_eq!(&f[4..228], &d.encode()[..]);
    assert_eq!(AbsoluteInfo::decode(&f[228..252]), Some(info));
}

#[test]
fn add_device_frame_counts_set_axes() {
    let mut d = pad(false);
    d.absbits[0] = 0b0000_0011;
    d.absbits[1] = 0b1000_0000;
    assert_eq!(set_bits(&d.absbits, 64), vec![0, 1, 15]);
    let info = AbsoluteInfo { value: 1, minimum: 2, maximum: 3, fuzz: 4, flat: 5, resolution: 6 };
    let f = add_device_frame(&d, &vec![info, info, info]);
    assert_eq!(f.len(), 4 + 224 + 3 * 24);
}

#[test]
fn remove_and_event_frames() {
    let f = remove_device_frame(7);
    assert_eq!(f, vec![1, 0, 0, 0, 7, 0, 0, 0, 0, 0, 0, 0]);
    let ev = InputEvent::new(7, 1_700_000_000, 0, 3, 0, 1234);
    let g = input_event_frame(&ev);
    assert_eq!(&g[0..4], &[2, 0, 0, 0]);
    assert_eq!(&g[4..], &ev.encode()[..]);
}
