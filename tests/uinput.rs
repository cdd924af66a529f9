use hidpipe::uinput::{uinput_plan, CapKind, UInputOp};
use hidpipe::wire::{ABS_BYTES, EV_BYTES, KEY_BYTES, LED_BYTES, MSC_BYTES, NAME_BYTES, PROP_BYTES, REL_BYTES, SND_BYTES, SW_BYTES};
use hidpipe::{AbsoluteInfo, AddDevice, InputId};

fn device() -> AddDevice {
    AddDevice {
        id: 7,
        evbits: vec![0b0000_1011, 0, 0, 0],
        keybits: {
            let mut k = vec![0u8; KEY_BYTES];
            k[0x130 / 8] = 1;
            k
        },
        relbits: vec![0u8; REL_BYTES],
        absbits: {
            let mut a = vec![0u8; ABS_BYTES];
            a[0] = 0b11;
            a
        },
        mscbits: vec![0b1u8; MSC_BYTES],
        ledbits: vec![0u8; LED_BYTES],
        sndbits: vec![0u8; SND_BYTES],
        swbits: vec![0u8; SW_BYTES],
        propbits: vec![0u8; PROP_BYTES],
        input_id: InputId { bustype: 3, vendor: 1, product: 2, version: 3 },
        ff_effects: 0,
        name: vec![0u8; NAME_BYTES],
    }
}

#[test]
fn plan_enables_bits_then_calibrates_then_creates() {
    assert_eq!(EV_BYTES, 4);
    let x = AbsoluteInfo { value: 0, minimum: -32768, maximum: 32767, fuzz: 16, flat: 128, resolution: 0 };
    let y = AbsoluteInfo { value: 5, minimum: -10, maximum: 10, fuzz: 0, flat: 0, resolution: 1 };
    let plan = uinput_plan(&device(), &vec![x, y]);
    let expected = vec![
        UInputOp::SetBit { kind: CapKind::Event, code: 0 },
        UInputOp::SetBit { kind: CapKind::Event, code: 1 },
        UInputOp::SetBit { kind: CapKind::Event, code: 3 },
        UInputOp::SetBit { kind: CapKind::Key, code: 0x130 },
        UInputOp::SetBit { kind: CapKind::Absolute, code: 0 },
        UInputOp::AbsSetup { code: 0, info: x },
        UInputOp::SetBit { kind: CapKind::Absolute, code: 1 },
        UInputOp::AbsSetup { code: 1, info: y },
        UInputOp::SetBit { kind: CapKind::Misc, code: 0 },
        UInputOp::DevSetup,
        UInputOp::DevCreate,
    ];
    assert_eq!(plan, expected);
}

#[test]
fn switch_mask_stops_at_last_switch_code() {
    let mut d = device();
    d.absbits = vec![0u8; ABS_BYTES];
    d.swbits = vec![0, 0, 0xff];
    let plan = uinput_plan(&d, &vec![]);
    assert!(plan.contains(&UInputOp::SetBit { kind: CapKind::Switch, code: 16 }));
    assert!(!plan.contains(&UInputOp::SetBit { kind: CapKind::Switch, code: 17 }));
}
