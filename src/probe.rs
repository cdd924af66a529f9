//! Deciding from its capability masks whether an evdev device is a joystick.
use vstd::prelude::*;
use crate::bits::{bit_set, bit_is_set};

verus! {

pub const PROP_BUTTONPAD: usize = 0x02;
pub const PROP_SEMI_MT: usize = 0x03;
pub const PROP_TOPBUTTONPAD: usize = 0x04;
pub const PROP_POINTING_STICK: usize = 0x05;
pub const PROP_ACCELEROMETER: usize = 0x06;

pub const EV_ABS: usize = 0x03;

pub const ABS_X: usize = 0x00;
pub const ABS_Y: usize = 0x01;
pub const ABS_RX: usize = 0x03;
pub const ABS_RY: usize = 0x04;
pub const ABS_THROTTLE: usize = 0x06;
pub const ABS_RUDDER: usize = 0x07;
pub const ABS_WHEEL: usize = 0x08;
pub const ABS_GAS: usize = 0x09;
pub const ABS_BRAKE: usize = 0x0a;

pub const BTN_1: usize = 0x101;
pub const BTN_TRIGGER: usize = 0x120;
pub const BTN_SOUTH: usize = 0x130;

/// A property that marks a touchpad, pointing stick or accelerometer.
pub open spec fn spec_excluded_by_properties(props: Seq<u8>) -> bool {
    bit_set(props, PROP_ACCELEROMETER as int) || bit_set(props, PROP_POINTING_STICK as int)
        || bit_set(props, PROP_TOPBUTTONPAD as int) || bit_set(props, PROP_BUTTONPAD as int)
        || bit_set(props, PROP_SEMI_MT as int)
}

/// A joystick trigger or face button, or a secondary stick or pedal axis.
pub open spec fn spec_has_joystick_control(keys: Seq<u8>, axes: Seq<u8>) -> bool {
    bit_set(keys, BTN_TRIGGER as int) || bit_set(keys, BTN_SOUTH as int) || bit_set(keys, BTN_1 as int)
        || bit_set(axes, ABS_RX as int) || bit_set(axes, ABS_RY as int) || bit_set(
        axes,
        ABS_THROTTLE as int,
    ) || bit_set(axes, ABS_RUDDER as int) || bit_set(axes, ABS_WHEEL as int) || bit_set(
        axes,
        ABS_GAS as int,
    ) || bit_set(axes, ABS_BRAKE as int)
}

pub open spec fn spec_is_joystick(props: Seq<u8>, events: Seq<u8>, axes: Seq<u8>, keys: Seq<u8>) -> bool {
    &&& !spec_excluded_by_properties(props)
    &&& bit_set(events, EV_ABS as int)
    &&& bit_set(axes, ABS_X as int)
    &&& bit_set(axes, ABS_Y as int)
    &&& spec_has_joystick_control(keys, axes)
}

/// Classifies a device from its property, event-kind, absolute-axis and key masks.
pub fn is_joystick(props: &[u8], events: &[u8], axes: &[u8], keys: &[u8]) -> (r: bool)
    ensures
        r == spec_is_joystick(props@, events@, axes@, keys@),
{
    if bit_is_set(props, PROP_ACCELEROMETER) || bit_is_set(props, PROP_POINTING_STICK)
        || bit_is_set(props, PROP_TOPBUTTONPAD) || bit_is_set(props, PROP_BUTTONPAD)
        || bit_is_set(props, PROP_SEMI_MT) {
        return false;
    }
    if !bit_is_set(events, EV_ABS) {
        return false;
    }
    if !bit_is_set(axes, ABS_X) || !bit_is_set(axes, ABS_Y) {
        return false;
    }
    bit_is_set(keys, BTN_TRIGGER) || bit_is_set(keys, BTN_SOUTH) || bit_is_set(keys, BTN_1)
        || bit_is_set(axes, ABS_RX) || bit_is_set(axes, ABS_RY) || bit_is_set(axes, ABS_THROTTLE)
        || bit_is_set(axes, ABS_RUDDER) || bit_is_set(axes, ABS_WHEEL) || bit_is_set(axes, ABS_GAS)
        || bit_is_set(axes, ABS_BRAKE)
}

} // verus!
