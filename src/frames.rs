//! Tagged messages as they appear on the stream after the hello exchange.
use vstd::prelude::*;
use crate::bits::{popcount, set_bits_below};
use crate::wire::{
    AbsoluteInfo, AddDevice, AddDeviceModel, InputEvent, MessageType, RemoveDevice, ABS_COUNT,
    ABSOLUTE_INFO_SIZE, ADD_DEVICE_SIZE, TAG_SIZE, lemma_absolute_info_round_trip,
};

verus! {

/// The records of `infos`, one after the other.
pub open spec fn infos_encoding(infos: Seq<AbsoluteInfo>) -> Seq<u8>
    decreases infos.len(),
{
    if infos.len() == 0 {
        seq![]
    } else {
        infos_encoding(infos.drop_last()) + infos.last().spec_encode()
    }
}

/// Number of axis records that follow an `AddDevice` record.
pub open spec fn axis_count(d: AddDeviceModel) -> nat {
    popcount(d.absbits, ABS_COUNT as nat)
}

/// Tag 0, the device record, then one calibration record per set absolute-axis bit.
pub open spec fn spec_add_device_frame(d: AddDeviceModel, infos: Seq<AbsoluteInfo>) -> Seq<u8> {
    MessageType::AddDevice.spec_encode() + d.spec_encode() + infos_encoding(infos)
}

pub open spec fn spec_remove_device_frame(id: u64) -> Seq<u8> {
    MessageType::RemoveDevice.spec_encode() + (RemoveDevice { id }).spec_encode()
}

pub open spec fn spec_input_event_frame(ev: InputEvent) -> Seq<u8> {
    MessageType::InputEvent.spec_encode() + ev.spec_encode()
}

/// The absolute axes whose calibration must accompany `d`, ascending.
pub open spec fn abs_axes(d: AddDeviceModel) -> Seq<u16> {
    set_bits_below(d.absbits, ABS_COUNT as nat)
}

pub proof fn lemma_infos_encoding_len(infos: Seq<AbsoluteInfo>)
    ensures
        infos_encoding(infos).len() == ABSOLUTE_INFO_SIZE * infos.len(),
    decreases infos.len(),
{
    if infos.len() > 0 {
        lemma_infos_encoding_len(infos.drop_last());
    }
}

/// Record `i` of the concatenation decodes to `infos[i]`.
pub proof fn lemma_infos_encoding_records(infos: Seq<AbsoluteInfo>, i: int)
    requires
        0 <= i < infos.len(),
    ensures
        infos_encoding(infos).subrange(24 * i, 24 * i + 24) == infos[i].spec_encode(),
    decreases infos.len(),
{
    let prev = infos.drop_last();
    lemma_infos_encoding_len(prev);
    let enc = infos_encoding(infos);
    if i < infos.len() - 1 {
        lemma_infos_encoding_records(prev, i);
        lemma_infos_encoding_len(prev);
        assert(enc.subrange(24 * i, 24 * i + 24) =~= infos_encoding(prev).subrange(24 * i, 24 * i + 24));
    } else {
        assert(enc.subrange(24 * i, 24 * i + 24) =~= infos.last().spec_encode());
    }
}

pub fn add_device_frame(dev: &AddDevice, infos: &Vec<AbsoluteInfo>) -> (r: Vec<u8>)
    requires
        dev.wf(),
        infos@.len() == axis_count(dev@),
    ensures
        r@ == spec_add_device_frame(dev@, infos@),
{
    let mut out = MessageType::AddDevice.encode();
    let rec = dev.encode();
    let mut k: usize = 0;
    while k < rec.len()
        invariant
            k <= rec@.len(),
            out@ == MessageType::AddDevice.spec_encode() + rec@.subrange(0, k as int),
        decreases rec@.len() - k,
    {
        out.push(rec[k]);
        k = k + 1;
        assert(out@ =~= MessageType::AddDevice.spec_encode() + rec@.subrange(0, k as int));
    }
    assert(rec@.subrange(0, k as int) =~= rec@);
    let ghost head = out@;
    let mut i: usize = 0;
    while i < infos.len()
        invariant
            i <= infos@.len(),
            head == MessageType::AddDevice.spec_encode() + dev@.spec_encode(),
            out@ == head + infos_encoding(infos@.subrange(0, i as int)),
        decreases infos@.len() - i,
    {
        infos[i].encode_into(&mut out);
        i = i + 1;
        assert(infos@.subrange(0, i as int).drop_last() =~= infos@.subrange(0, i - 1));
        assert(out@ =~= head + infos_encoding(infos@.subrange(0, i as int)));
    }
    assert(infos@.subrange(0, i as int) =~= infos@);
    out
}

pub fn remove_device_frame(id: u64) -> (r: Vec<u8>)
    ensures
        r@ == spec_remove_device_frame(id),
{
    let mut out = MessageType::RemoveDevice.encode();
    let rec = RemoveDevice { id }.encode();
    let mut k: usize = 0;
    while k < rec.len()
        invariant
            k <= rec@.len(),
            rec@ == (RemoveDevice { id }).spec_encode(),
            out@ == MessageType::RemoveDevice.spec_encode() + rec@.subrange(0, k as int),
        decreases rec@.len() - k,
    {
        out.push(rec[k]);
        k = k + 1;
        assert(out@ =~= MessageType::RemoveDevice.spec_encode() + rec@.subrange(0, k as int));
    }
    assert(rec@.subrange(0, k as int) =~= rec@);
    out
}

pub fn input_event_frame(ev: &InputEvent) -> (r: Vec<u8>)
    ensures
        r@ == spec_input_event_frame(*ev),
{
    let mut out = MessageType::InputEvent.encode();
    let rec = ev.encode();
    let mut k: usize = 0;
    while k < rec.len()
        invariant
            k <= rec@.len(),
            rec@ == ev.spec_encode(),
            out@ == MessageType::InputEvent.spec_encode() + rec@.subrange(0, k as int),
        decreases rec@.len() - k,
    {
        out.push(rec[k]);
        k = k + 1;
        assert(out@ =~= MessageType::InputEvent.spec_encode() + rec@.subrange(0, k as int));
    }
    assert(rec@.subrange(0, k as int) =~= rec@);
    out
}

/// An `AddDevice` frame carries exactly one calibration record per set bit of
/// the absolute-axis mask: after the tag and the device record come
/// `popcount(absbits)` records of 24 bytes, the `i`-th of which decodes to the
/// calibration of the `i`-th set axis, and nothing else.
pub proof fn lemma_add_device_frame_layout(d: AddDeviceModel, infos: Seq<AbsoluteInfo>)
    requires
        d.wf(),
        infos.len() == axis_count(d),
    ensures
        spec_add_device_frame(d, infos).len() == TAG_SIZE + ADD_DEVICE_SIZE + ABSOLUTE_INFO_SIZE
            * axis_count(d),
        abs_axes(d).len() == axis_count(d),
        forall|i: int|
            0 <= i < axis_count(d) ==> #[trigger] AbsoluteInfo::spec_decode(
                spec_add_device_frame(d, infos).subrange(
                    TAG_SIZE + ADD_DEVICE_SIZE + ABSOLUTE_INFO_SIZE * i,
                    TAG_SIZE + ADD_DEVICE_SIZE + ABSOLUTE_INFO_SIZE * i + ABSOLUTE_INFO_SIZE,
                ),
            ) == infos[i],
{
    let f = spec_add_device_frame(d, infos);
    assert(d.spec_encode().len() == ADD_DEVICE_SIZE);
    lemma_infos_encoding_len(infos);
    let tail = infos_encoding(infos);
    assert(f.len() == 4 + 224 + tail.len());
    assert forall|i: int| 0 <= i < axis_count(d) implies #[trigger] AbsoluteInfo::spec_decode(
        f.subrange(
            TAG_SIZE + ADD_DEVICE_SIZE + ABSOLUTE_INFO_SIZE * i,
            TAG_SIZE + ADD_DEVICE_SIZE + ABSOLUTE_INFO_SIZE * i + ABSOLUTE_INFO_SIZE,
        ),
    ) == infos[i] by {
        lemma_infos_encoding_records(infos, i);
        assert(f.subrange(228 + 24 * i, 228 + 24 * i + 24) =~= tail.subrange(24 * i, 24 * i + 24));
        lemma_absolute_info_round_trip(infos[i], infos[i].spec_encode());
    }
}

} // verus!
