//! The steps that turn an `AddDevice` descriptor into a synthetic device.
use vstd::prelude::*;
use crate::bits::{set_bits, set_bits_below};
use crate::frames::{abs_axes, axis_count};
use crate::wire::{
    AbsoluteInfo, AddDevice, AddDeviceModel, ABS_COUNT, EV_COUNT, KEY_COUNT, LED_COUNT, MSC_COUNT,
    PROP_COUNT, REL_COUNT, SND_COUNT, SW_COUNT,
};

verus! {

/// The event family a capability bit belongs to.
#[derive(Clone, Copy, Debug, PartialEq, Eq, Structural)]
pub enum CapKind {
    Event,
    Key,
    Relative,
    Absolute,
    Misc,
    Led,
    Sound,
    Switch,
    Property,
}

/// One request to the userspace-input device.
#[derive(Clone, Copy, Debug, PartialEq, Eq, Structural)]
pub enum UInputOp {
    /// Enable capability `code` of family `kind`.
    SetBit { kind: CapKind, code: u16 },
    /// Calibrate absolute axis `code`.
    AbsSetup { code: u16, info: AbsoluteInfo },
    /// Set identifiers, name and force-feedback effect count.
    DevSetup,
    /// Create the device.
    DevCreate,
}

pub open spec fn bit_ops(kind: CapKind, codes: Seq<u16>) -> Seq<UInputOp> {
    codes.map_values(|c: u16| UInputOp::SetBit { kind, code: c })
}

/// For each absolute axis in turn, enable it and then calibrate it.
pub open spec fn abs_ops(codes: Seq<u16>, infos: Seq<AbsoluteInfo>, n: nat) -> Seq<UInputOp>
    decreases n,
{
    if n == 0 {
        seq![]
    } else {
        abs_ops(codes, infos, (n - 1) as nat) + seq![
            UInputOp::SetBit { kind: CapKind::Absolute, code: codes[n - 1] },
            UInputOp::AbsSetup { code: codes[n - 1], info: infos[n - 1] },
        ]
    }
}

/// Every capability bit enabled family by family, each axis calibrated right
/// after it is enabled, then setup, then creation.
pub open spec fn spec_plan(d: AddDeviceModel, infos: Seq<AbsoluteInfo>) -> Seq<UInputOp> {
    bit_ops(CapKind::Event, set_bits_below(d.evbits, EV_COUNT as nat)) + bit_ops(
        CapKind::Key,
        set_bits_below(d.keybits, KEY_COUNT as nat),
    ) + bit_ops(CapKind::Relative, set_bits_below(d.relbits, REL_COUNT as nat)) + abs_ops(
        abs_axes(d),
        infos,
        infos.len(),
    ) + bit_ops(CapKind::Misc, set_bits_below(d.mscbits, MSC_COUNT as nat)) + bit_ops(
        CapKind::Led,
        set_bits_below(d.ledbits, LED_COUNT as nat),
    ) + bit_ops(CapKind::Sound, set_bits_below(d.sndbits, SND_COUNT as nat)) + bit_ops(
        CapKind::Switch,
        set_bits_below(d.swbits, SW_COUNT as nat),
    ) + bit_ops(CapKind::Property, set_bits_below(d.propbits, PROP_COUNT as nat)) + seq![
        UInputOp::DevSetup,
        UInputOp::DevCreate,
    ]
}

fn push_bit_ops(out: &mut Vec<UInputOp>, kind: CapKind, mask: &[u8], count: usize)
    requires
        count <= 0x10000,
    ensures
        final(out)@ == old(out)@ + bit_ops(kind, set_bits_below(mask@, count as nat)),
{
    let codes = set_bits(mask, count);
    let mut i: usize = 0;
    while i < codes.len()
        invariant
            i <= codes@.len(),
            codes@ == set_bits_below(mask@, count as nat),
            out@ == old(out)@ + bit_ops(kind, codes@.subrange(0, i as int)),
        decreases codes@.len() - i,
    {
        out.push(UInputOp::SetBit { kind, code: codes[i] });
        i = i + 1;
        assert(out@ =~= old(out)@ + bit_ops(kind, codes@.subrange(0, i as int)));
    }
    assert(codes@.subrange(0, i as int) =~= codes@);
}

/// The requests that create the synthetic device for `dev`, given the
/// calibration of each of its absolute axes in ascending axis order.
pub fn uinput_plan(dev: &AddDevice, infos: &Vec<AbsoluteInfo>) -> (r: Vec<UInputOp>)
    requires
        dev.wf(),
        infos@.len() == axis_count(dev@),
    ensures
        r@ == spec_plan(dev@, infos@),
{
    let mut out: Vec<UInputOp> = Vec::new();
    push_bit_ops(&mut out, CapKind::Event, dev.evbits.as_slice(), EV_COUNT);
    push_bit_ops(&mut out, CapKind::Key, dev.keybits.as_slice(), KEY_COUNT);
    push_bit_ops(&mut out, CapKind::Relative, dev.relbits.as_slice(), REL_COUNT);
    let axes = set_bits(dev.absbits.as_slice(), ABS_COUNT);
    let ghost head = out@;
    let mut i: usize = 0;
    while i < axes.len()
        invariant
            i <= axes@.len(),
            axes@ == abs_axes(dev@),
            infos@.len() == axes@.len(),
            out@ == head + abs_ops(axes@, infos@, i as nat),
        decreases axes@.len() - i,
    {
        out.push(UInputOp::SetBit { kind: CapKind::Absolute, code: axes[i] });
        out.push(UInputOp::AbsSetup { code: axes[i], info: infos[i] });
        i = i + 1;
        assert(out@ =~= head + abs_ops(axes@, infos@, i as nat));
    }
    push_bit_ops(&mut out, CapKind::Misc, dev.mscbits.as_slice(), MSC_COUNT);
    push_bit_ops(&mut out, CapKind::Led, dev.ledbits.as_slice(), LED_COUNT);
    push_bit_ops(&mut out, CapKind::Sound, dev.sndbits.as_slice(), SND_COUNT);
    push_bit_ops(&mut out, CapKind::Switch, dev.swbits.as_slice(), SW_COUNT);
    push_bit_ops(&mut out, CapKind::Property, dev.propbits.as_slice(), PROP_COUNT);
    out.push(UInputOp::DevSetup);
    out.push(UInputOp::DevCreate);
    assert(out@ =~= spec_plan(dev@, infos@));
    out
}

} // verus!
