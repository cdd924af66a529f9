//! Fixed-layout records exchanged between host and guest.
//!
//! Every record has the size and field offsets of its C layout; integers are
//! little-endian and padding bytes are written as zero.
use vstd::prelude::*;
use crate::bytes::{
    le_u16, le_u32, le_u64, le_i32, le_i64, u16_of, u32_of, u64_of, i32_of, i64_of, push_u16,
    push_u32, push_u64, push_i32, push_i64, push_bytes, get_u16, get_u32, get_u64, get_i32,
    get_i64, get_bytes, lemma_u16_round_trip, lemma_u32_round_trip, lemma_u64_round_trip,
    lemma_i32_round_trip, lemma_i64_round_trip, lemma_u16_bytes, lemma_u32_bytes, lemma_u64_bytes,
    lemma_i32_bytes, lemma_i64_bytes,
};

verus! {

/// The only protocol version spoken by both peers.
pub const PROTOCOL_VERSION: u32 = 0;

pub const HELLO_SIZE: usize = 4;
pub const TAG_SIZE: usize = 4;
pub const REMOVE_DEVICE_SIZE: usize = 8;
pub const INPUT_EVENT_SIZE: usize = 32;
pub const ABSOLUTE_INFO_SIZE: usize = 24;
pub const ADD_DEVICE_SIZE: usize = 224;

/// Bytes of each capability bitmask: one bit per code of its event family.
pub const EV_BYTES: usize = 4;
pub const KEY_BYTES: usize = 96;
pub const REL_BYTES: usize = 2;
pub const ABS_BYTES: usize = 8;
pub const MSC_BYTES: usize = 1;
pub const LED_BYTES: usize = 2;
pub const SND_BYTES: usize = 1;
pub const SW_BYTES: usize = 3;
pub const PROP_BYTES: usize = 4;
pub const NAME_BYTES: usize = 80;

/// Number of codes in each event family (bits of a mask that carry meaning).
pub const EV_COUNT: usize = 32;
pub const KEY_COUNT: usize = 768;
pub const REL_COUNT: usize = 16;
pub const ABS_COUNT: usize = 64;
pub const MSC_COUNT: usize = 8;
pub const LED_COUNT: usize = 16;
pub const SND_COUNT: usize = 8;
pub const SW_COUNT: usize = 17;
pub const PROP_COUNT: usize = 32;

/// Sent once by the guest when it connects.
#[derive(Clone, Copy, Debug, PartialEq, Eq, Structural)]
pub struct ClientHello {
    pub version: u32,
}

/// Sent once by the host in answer to a `ClientHello`.
#[derive(Clone, Copy, Debug, PartialEq, Eq, Structural)]
pub struct ServerHello {
    pub version: u32,
}

/// The tag in front of every message after the hello exchange.
#[derive(Clone, Copy, Debug, PartialEq, Eq, Structural)]
pub enum MessageType {
    AddDevice,
    RemoveDevice,
    InputEvent,
}

/// Calibration of one absolute axis.
#[derive(Clone, Copy, Debug, PartialEq, Eq, Structural)]
pub struct AbsoluteInfo {
    pub value: i32,
    pub minimum: i32,
    pub maximum: i32,
    pub fuzz: i32,
    pub flat: i32,
    pub resolution: i32,
}

/// Bus type, vendor, product and version of a device.
#[derive(Clone, Copy, Debug, PartialEq, Eq, Structural)]
pub struct InputId {
    pub bustype: u16,
    pub vendor: u16,
    pub product: u16,
    pub version: u16,
}

/// Full capability descriptor of one device.
#[derive(Debug)]
pub struct AddDevice {
    pub id: u64,
    pub evbits: Vec<u8>,
    pub keybits: Vec<u8>,
    pub relbits: Vec<u8>,
    pub absbits: Vec<u8>,
    pub mscbits: Vec<u8>,
    pub ledbits: Vec<u8>,
    pub sndbits: Vec<u8>,
    pub swbits: Vec<u8>,
    pub propbits: Vec<u8>,
    pub input_id: InputId,
    pub ff_effects: u32,
    pub name: Vec<u8>,
}

/// The value of an `AddDevice`, with each byte array as a sequence.
pub ghost struct AddDeviceModel {
    pub id: u64,
    pub evbits: Seq<u8>,
    pub keybits: Seq<u8>,
    pub relbits: Seq<u8>,
    pub absbits: Seq<u8>,
    pub mscbits: Seq<u8>,
    pub ledbits: Seq<u8>,
    pub sndbits: Seq<u8>,
    pub swbits: Seq<u8>,
    pub propbits: Seq<u8>,
    pub input_id: InputId,
    pub ff_effects: u32,
    pub name: Seq<u8>,
}

/// Announces that a device is gone.
#[derive(Clone, Copy, Debug, PartialEq, Eq, Structural)]
pub struct RemoveDevice {
    pub id: u64,
}

/// One input event of one device.
#[derive(Clone, Copy, Debug, PartialEq, Eq, Structural)]
pub struct InputEvent {
    pub time_sec: i64,
    pub time_usec: i64,
    pub id: u64,
    pub value: i32,
    pub ty: u16,
    pub code: u16,
}

impl ClientHello {
    pub open spec fn spec_encode(self) -> Seq<u8> {
        le_u32(self.version)
    }

    pub open spec fn spec_decode(b: Seq<u8>) -> ClientHello {
        ClientHello { version: u32_of(b) }
    }

    pub fn encode(&self) -> (r: Vec<u8>)
        ensures
            r@ == self.spec_encode(),
    {
        let mut out: Vec<u8> = Vec::new();
        push_u32(&mut out, self.version);
        out
    }

    /// Reads a hello from exactly `HELLO_SIZE` bytes.
    pub fn decode(b: &[u8]) -> (r: Option<ClientHello>)
        ensures
            r is Some <==> b@.len() == HELLO_SIZE,
            r is Some ==> r->0 == ClientHello::spec_decode(b@),
    {
        if b.len() != HELLO_SIZE {
            return None;
        }
        assert(b@.subrange(0, 4) =~= b@);
        Some(ClientHello { version: get_u32(b, 0) })
    }
}

impl ServerHello {
    pub open spec fn spec_encode(self) -> Seq<u8> {
        le_u32(self.version)
    }

    pub open spec fn spec_decode(b: Seq<u8>) -> ServerHello {
        ServerHello { version: u32_of(b) }
    }

    pub fn encode(&self) -> (r: Vec<u8>)
        ensures
            r@ == self.spec_encode(),
    {
        let mut out: Vec<u8> = Vec::new();
        push_u32(&mut out, self.version);
        out
    }

    /// Reads a hello from exactly `HELLO_SIZE` bytes.
    pub fn decode(b: &[u8]) -> (r: Option<ServerHello>)
        ensures
            r is Some <==> b@.len() == HELLO_SIZE,
            r is Some ==> r->0 == ServerHello::spec_decode(b@),
    {
        if b.len() != HELLO_SIZE {
            return None;
        }
        assert(b@.subrange(0, 4) =~= b@);
        Some(ServerHello { version: get_u32(b, 0) })
    }
}

impl MessageType {
    pub open spec fn spec_tag(self) -> u32 {
        match self {
            MessageType::AddDevice => 0,
            MessageType::RemoveDevice => 1,
            MessageType::InputEvent => 2,
        }
    }

    pub open spec fn spec_encode(self) -> Seq<u8> {
        le_u32(self.spec_tag())
    }

    pub fn tag(&self) -> (r: u32)
        ensures
            r == self.spec_tag(),
    {
        match self {
            MessageType::AddDevice => 0,
            MessageType::RemoveDevice => 1,
            MessageType::InputEvent => 2,
        }
    }

    /// The message kind of a tag; `None` for a tag outside the protocol.
    pub fn from_tag(t: u32) -> (r: Option<MessageType>)
        ensures
            r is Some <==> t <= 2,
            r is Some ==> r->0.spec_tag() == t,
    {
        if t == 0 {
            Some(MessageType::AddDevice)
        } else if t == 1 {
            Some(MessageType::RemoveDevice)
        } else if t == 2 {
            Some(MessageType::InputEvent)
        } else {
            None
        }
    }

    pub fn encode(&self) -> (r: Vec<u8>)
        ensures
            r@ == self.spec_encode(),
    {
        let mut out: Vec<u8> = Vec::new();
        push_u32(&mut out, self.tag());
        out
    }

    /// Reads the message kind from exactly `TAG_SIZE` bytes.
    pub fn decode(b: &[u8]) -> (r: Option<MessageType>)
        ensures
            r is Some <==> (b@.len() == TAG_SIZE && u32_of(b@) <= 2),
            r is Some ==> r->0.spec_tag() == u32_of(b@),
    {
        if b.len() != TAG_SIZE {
            return None;
        }
        assert(b@.subrange(0, 4) =~= b@);
        MessageType::from_tag(get_u32(b, 0))
    }
}

impl AbsoluteInfo {
    pub open spec fn spec_encode(self) -> Seq<u8> {
        le_i32(self.value) + le_i32(self.minimum) + le_i32(self.maximum) + le_i32(self.fuzz)
            + le_i32(self.flat) + le_i32(self.resolution)
    }

    pub open spec fn spec_decode(b: Seq<u8>) -> AbsoluteInfo {
        AbsoluteInfo {
            value: i32_of(b.subrange(0, 4)),
            minimum: i32_of(b.subrange(4, 8)),
            maximum: i32_of(b.subrange(8, 12)),
            fuzz: i32_of(b.subrange(12, 16)),
            flat: i32_of(b.subrange(16, 20)),
            resolution: i32_of(b.subrange(20, 24)),
        }
    }

    pub fn encode(&self) -> (r: Vec<u8>)
        ensures
            r@ == self.spec_encode(),
    {
        let mut out: Vec<u8> = Vec::new();
        self.encode_into(&mut out);
        out
    }

    pub fn encode_into(&self, out: &mut Vec<u8>)
        ensures
            final(out)@ == old(out)@ + self.spec_encode(),
    {
        push_i32(out, self.value);
        push_i32(out, self.minimum);
        push_i32(out, self.maximum);
        push_i32(out, self.fuzz);
        push_i32(out, self.flat);
        push_i32(out, self.resolution);
        assert(final(out)@ =~= old(out)@ + self.spec_encode());
    }

    /// Reads a record from exactly `ABSOLUTE_INFO_SIZE` bytes.
    pub fn decode(b: &[u8]) -> (r: Option<AbsoluteInfo>)
        ensures
            r is Some <==> b@.len() == ABSOLUTE_INFO_SIZE,
            r is Some ==> r->0 == AbsoluteInfo::spec_decode(b@),
    {
        if b.len() != ABSOLUTE_INFO_SIZE {
            return None;
        }
        Some(
            AbsoluteInfo {
                value: get_i32(b, 0),
                minimum: get_i32(b, 4),
                maximum: get_i32(b, 8),
                fuzz: get_i32(b, 12),
                flat: get_i32(b, 16),
                resolution: get_i32(b, 20),
            },
        )
    }
}

impl View for AddDevice {
    type V = AddDeviceModel;

    open spec fn view(&self) -> AddDeviceModel {
        AddDeviceModel {
            id: self.id,
            evbits: self.evbits@,
            keybits: self.keybits@,
            relbits: self.relbits@,
            absbits: self.absbits@,
            mscbits: self.mscbits@,
            ledbits: self.ledbits@,
            sndbits: self.sndbits@,
            swbits: self.swbits@,
            propbits: self.propbits@,
            input_id: self.input_id,
            ff_effects: self.ff_effects,
            name: self.name@,
        }
    }
}

impl AddDeviceModel {
    /// Each mask and the name has the size of its fixed array.
    pub open spec fn wf(self) -> bool {
        &&& self.evbits.len() == EV_BYTES
        &&& self.keybits.len() == KEY_BYTES
        &&& self.relbits.len() == REL_BYTES
        &&& self.absbits.len() == ABS_BYTES
        &&& self.mscbits.len() == MSC_BYTES
        &&& self.ledbits.len() == LED_BYTES
        &&& self.sndbits.len() == SND_BYTES
        &&& self.swbits.len() == SW_BYTES
        &&& self.propbits.len() == PROP_BYTES
        &&& self.name.len() == NAME_BYTES
    }

    pub open spec fn spec_encode_input_id(id: InputId) -> Seq<u8> {
        le_u16(id.bustype) + le_u16(id.vendor) + le_u16(id.product) + le_u16(id.version)
    }

    /// The C layout: one padding byte before `input_id`, two before `ff_effects`.
    pub open spec fn spec_encode(self) -> Seq<u8> {
        le_u64(self.id) + self.evbits + self.keybits + self.relbits + self.absbits + self.mscbits
            + self.ledbits + self.sndbits + self.swbits + self.propbits + seq![0u8]
            + Self::spec_encode_input_id(self.input_id) + seq![0u8, 0u8] + le_u32(self.ff_effects)
            + self.name
    }

    pub open spec fn spec_decode(b: Seq<u8>) -> AddDeviceModel {
        AddDeviceModel {
            id: u64_of(b.subrange(0, 8)),
            evbits: b.subrange(8, 12),
            keybits: b.subrange(12, 108),
            relbits: b.subrange(108, 110),
            absbits: b.subrange(110, 118),
            mscbits: b.subrange(118, 119),
            ledbits: b.subrange(119, 121),
            sndbits: b.subrange(121, 122),
            swbits: b.subrange(122, 125),
            propbits: b.subrange(125, 129),
            input_id: InputId {
                bustype: u16_of(b.subrange(130, 132)),
                vendor: u16_of(b.subrange(132, 134)),
                product: u16_of(b.subrange(134, 136)),
                version: u16_of(b.subrange(136, 138)),
            },
            ff_effects: u32_of(b.subrange(140, 144)),
            name: b.subrange(144, 224),
        }
    }

    /// The padding bytes of an encoded record are zero.
    pub open spec fn zero_padding(b: Seq<u8>) -> bool {
        b[129] == 0 && b[138] == 0 && b[139] == 0
    }
}

impl AddDevice {
    pub open spec fn wf(&self) -> bool {
        self@.wf()
    }

    pub fn encode(&self) -> (r: Vec<u8>)
        requires
            self.wf(),
        ensures
            r@ == self@.spec_encode(),
            r@.len() == ADD_DEVICE_SIZE,
    {
        let mut out: Vec<u8> = Vec::with_capacity(ADD_DEVICE_SIZE);
        push_u64(&mut out, self.id);
        push_bytes(&mut out, self.evbits.as_slice());
        push_bytes(&mut out, self.keybits.as_slice());
        push_bytes(&mut out, self.relbits.as_slice());
        push_bytes(&mut out, self.absbits.as_slice());
        push_bytes(&mut out, self.mscbits.as_slice());
        push_bytes(&mut out, self.ledbits.as_slice());
        push_bytes(&mut out, self.sndbits.as_slice());
        push_bytes(&mut out, self.swbits.as_slice());
        push_bytes(&mut out, self.propbits.as_slice());
        out.push(0u8);
        push_u16(&mut out, self.input_id.bustype);
        push_u16(&mut out, self.input_id.vendor);
        push_u16(&mut out, self.input_id.product);
        push_u16(&mut out, self.input_id.version);
        out.push(0u8);
        out.push(0u8);
        push_u32(&mut out, self.ff_effects);
        push_bytes(&mut out, self.name.as_slice());
        assert(out@ =~= self@.spec_encode());
        out
    }

    /// Reads a record from exactly `ADD_DEVICE_SIZE` bytes; padding is not looked at.
    pub fn decode(b: &[u8]) -> (r: Option<AddDevice>)
        ensures
            r is Some <==> b@.len() == ADD_DEVICE_SIZE,
            r is Some ==> r->0@ == AddDeviceModel::spec_decode(b@) && r->0.wf(),
    {
        if b.len() != ADD_DEVICE_SIZE {
            return None;
        }
        Some(
            AddDevice {
                id: get_u64(b, 0),
                evbits: get_bytes(b, 8, EV_BYTES),
                keybits: get_bytes(b, 12, KEY_BYTES),
                relbits: get_bytes(b, 108, REL_BYTES),
                absbits: get_bytes(b, 110, ABS_BYTES),
                mscbits: get_bytes(b, 118, MSC_BYTES),
                ledbits: get_bytes(b, 119, LED_BYTES),
                sndbits: get_bytes(b, 121, SND_BYTES),
                swbits: get_bytes(b, 122, SW_BYTES),
                propbits: get_bytes(b, 125, PROP_BYTES),
                input_id: InputId {
                    bustype: get_u16(b, 130),
                    vendor: get_u16(b, 132),
                    product: get_u16(b, 134),
                    version: get_u16(b, 136),
                },
                ff_effects: get_u32(b, 140),
                name: get_bytes(b, 144, NAME_BYTES),
            },
        )
    }
}

impl RemoveDevice {
    pub open spec fn spec_encode(self) -> Seq<u8> {
        le_u64(self.id)
    }

    pub open spec fn spec_decode(b: Seq<u8>) -> RemoveDevice {
        RemoveDevice { id: u64_of(b) }
    }

    pub fn encode(&self) -> (r: Vec<u8>)
        ensures
            r@ == self.spec_encode(),
    {
        let mut out: Vec<u8> = Vec::new();
        push_u64(&mut out, self.id);
        out
    }

    /// Reads a record from exactly `REMOVE_DEVICE_SIZE` bytes.
    pub fn decode(b: &[u8]) -> (r: Option<RemoveDevice>)
        ensures
            r is Some <==> b@.len() == REMOVE_DEVICE_SIZE,
            r is Some ==> r->0 == RemoveDevice::spec_decode(b@),
    {
        if b.len() != REMOVE_DEVICE_SIZE {
            return None;
        }
        assert(b@.subrange(0, 8) =~= b@);
        Some(RemoveDevice { id: get_u64(b, 0) })
    }
}

impl InputEvent {
    /// An event of device `id` with the given time stamp, type, code and value.
    pub fn new(id: u64, time_sec: i64, time_usec: i64, ty: u16, code: u16, value: i32) -> (r:
        InputEvent)
        ensures
            r == (InputEvent { time_sec, time_usec, id, value, ty, code }),
    {
        InputEvent { time_sec, time_usec, id, value, ty, code }
    }

    pub open spec fn spec_encode(self) -> Seq<u8> {
        le_i64(self.time_sec) + le_i64(self.time_usec) + le_u64(self.id) + le_i32(self.value)
            + le_u16(self.ty) + le_u16(self.code)
    }

    pub open spec fn spec_decode(b: Seq<u8>) -> InputEvent {
        InputEvent {
            time_sec: i64_of(b.subrange(0, 8)),
            time_usec: i64_of(b.subrange(8, 16)),
            id: u64_of(b.subrange(16, 24)),
            value: i32_of(b.subrange(24, 28)),
            ty: u16_of(b.subrange(28, 30)),
            code: u16_of(b.subrange(30, 32)),
        }
    }

    pub fn encode(&self) -> (r: Vec<u8>)
        ensures
            r@ == self.spec_encode(),
    {
        let mut out: Vec<u8> = Vec::new();
        push_i64(&mut out, self.time_sec);
        push_i64(&mut out, self.time_usec);
        push_u64(&mut out, self.id);
        push_i32(&mut out, self.value);
        push_u16(&mut out, self.ty);
        push_u16(&mut out, self.code);
        assert(out@ =~= self.spec_encode());
        out
    }

    /// Reads a record from exactly `INPUT_EVENT_SIZE` bytes.
    pub fn decode(b: &[u8]) -> (r: Option<InputEvent>)
        ensures
            r is Some <==> b@.len() == INPUT_EVENT_SIZE,
            r is Some ==> r->0 == InputEvent::spec_decode(b@),
    {
        if b.len() != INPUT_EVENT_SIZE {
            return None;
        }
        Some(
            InputEvent {
                time_sec: get_i64(b, 0),
                time_usec: get_i64(b, 8),
                id: get_u64(b, 16),
                value: get_i32(b, 24),
                ty: get_u16(b, 28),
                code: get_u16(b, 30),
            },
        )
    }
}

/// Decoding an encoded hello gives it back, and encoding the hello read from
/// any four bytes gives those bytes back.
pub proof fn lemma_hello_round_trip(h: ClientHello, s: ServerHello, b: Seq<u8>)
    requires
        b.len() == HELLO_SIZE,
    ensures
        ClientHello::spec_decode(h.spec_encode()) == h,
        ServerHello::spec_decode(s.spec_encode()) == s,
        ClientHello::spec_decode(b).spec_encode() == b,
        ServerHello::spec_decode(b).spec_encode() == b,
{
    lemma_u32_round_trip(h.version);
    lemma_u32_round_trip(s.version);
    lemma_u32_bytes(b);
}

/// A message tag survives encoding, and the four bytes of a known tag are
/// exactly its encoding.
pub proof fn lemma_tag_round_trip(m: MessageType, b: Seq<u8>)
    requires
        b.len() == TAG_SIZE,
    ensures
        u32_of(m.spec_encode()) == m.spec_tag(),
        u32_of(b) <= 2 ==> exists|k: MessageType| k.spec_tag() == u32_of(b) && #[trigger] k.spec_encode() == b,
{
    lemma_u32_round_trip(m.spec_tag());
    lemma_u32_bytes(b);
    if u32_of(b) == 0 {
        assert(MessageType::AddDevice.spec_encode() == b);
    } else if u32_of(b) == 1 {
        assert(MessageType::RemoveDevice.spec_encode() == b);
    } else if u32_of(b) == 2 {
        assert(MessageType::InputEvent.spec_encode() == b);
    }
}

/// Decoding an encoded `RemoveDevice` gives it back, and encoding the record read
/// from any eight bytes gives those bytes back.
pub proof fn lemma_remove_device_round_trip(r: RemoveDevice, b: Seq<u8>)
    requires
        b.len() == REMOVE_DEVICE_SIZE,
    ensures
        RemoveDevice::spec_decode(r.spec_encode()) == r,
        RemoveDevice::spec_decode(b).spec_encode() == b,
{
    lemma_u64_round_trip(r.id);
    lemma_u64_bytes(b);
}

/// Decoding an encoded `AbsoluteInfo` gives it back, and encoding the record read
/// from any 24 bytes gives those bytes back.
pub proof fn lemma_absolute_info_round_trip(a: AbsoluteInfo, b: Seq<u8>)
    requires
        b.len() == ABSOLUTE_INFO_SIZE,
    ensures
        AbsoluteInfo::spec_decode(a.spec_encode()) == a,
        AbsoluteInfo::spec_decode(b).spec_encode() == b,
{
    let e = a.spec_encode();
    assert(e.subrange(0, 4) =~= le_i32(a.value));
    assert(e.subrange(4, 8) =~= le_i32(a.minimum));
    assert(e.subrange(8, 12) =~= le_i32(a.maximum));
    assert(e.subrange(12, 16) =~= le_i32(a.fuzz));
    assert(e.subrange(16, 20) =~= le_i32(a.flat));
    assert(e.subrange(20, 24) =~= le_i32(a.resolution));
    lemma_i32_round_trip(a.value);
    lemma_i32_round_trip(a.minimum);
    lemma_i32_round_trip(a.maximum);
    lemma_i32_round_trip(a.fuzz);
    lemma_i32_round_trip(a.flat);
    lemma_i32_round_trip(a.resolution);
    lemma_i32_bytes(b.subrange(0, 4));
    lemma_i32_bytes(b.subrange(4, 8));
    lemma_i32_bytes(b.subrange(8, 12));
    lemma_i32_bytes(b.subrange(12, 16));
    lemma_i32_bytes(b.subrange(16, 20));
    lemma_i32_bytes(b.subrange(20, 24));
    assert(AbsoluteInfo::spec_decode(b).spec_encode() =~= b);
}

/// Decoding an encoded `InputEvent` gives it back, and encoding the record read
/// from any 32 bytes gives those bytes back.
pub proof fn lemma_input_event_round_trip(ev: InputEvent, b: Seq<u8>)
    requires
        b.len() == INPUT_EVENT_SIZE,
    ensures
        InputEvent::spec_decode(ev.spec_encode()) == ev,
        InputEvent::spec_decode(b).spec_encode() == b,
{
    let e = ev.spec_encode();
    assert(e.subrange(0, 8) =~= le_i64(ev.time_sec));
    assert(e.subrange(8, 16) =~= le_i64(ev.time_usec));
    assert(e.subrange(16, 24) =~= le_u64(ev.id));
    assert(e.subrange(24, 28) =~= le_i32(ev.value));
    assert(e.subrange(28, 30) =~= le_u16(ev.ty));
    assert(e.subrange(30, 32) =~= le_u16(ev.code));
    lemma_i64_round_trip(ev.time_sec);
    lemma_i64_round_trip(ev.time_usec);
    lemma_u64_round_trip(ev.id);
    lemma_i32_round_trip(ev.value);
    lemma_u16_round_trip(ev.ty);
    lemma_u16_round_trip(ev.code);
    lemma_i64_bytes(b.subrange(0, 8));
    lemma_i64_bytes(b.subrange(8, 16));
    lemma_u64_bytes(b.subrange(16, 24));
    lemma_i32_bytes(b.subrange(24, 28));
    lemma_u16_bytes(b.subrange(28, 30));
    lemma_u16_bytes(b.subrange(30, 32));
    assert(InputEvent::spec_decode(b).spec_encode() =~= b);
}

/// Decoding an encoded well-formed `AddDevice` gives it back, and encoding the
/// record read from 224 bytes gives those bytes back when their padding is zero.
pub proof fn lemma_add_device_round_trip(d: AddDeviceModel, b: Seq<u8>)
    requires
        d.wf(),
        b.len() == ADD_DEVICE_SIZE,
        AddDeviceModel::zero_padding(b),
    ensures
        AddDeviceModel::spec_decode(d.spec_encode()) == d,
        d.spec_encode().len() == ADD_DEVICE_SIZE,
        AddDeviceModel::spec_decode(b).wf(),
        AddDeviceModel::spec_decode(b).spec_encode() == b,
{
    let e = d.spec_encode();
    assert(e.subrange(0, 8) =~= le_u64(d.id));
    assert(e.subrange(8, 12) =~= d.evbits);
    assert(e.subrange(12, 108) =~= d.keybits);
    assert(e.subrange(108, 110) =~= d.relbits);
    assert(e.subrange(110, 118) =~= d.absbits);
    assert(e.subrange(118, 119) =~= d.mscbits);
    assert(e.subrange(119, 121) =~= d.ledbits);
    assert(e.subrange(121, 122) =~= d.sndbits);
    assert(e.subrange(122, 125) =~= d.swbits);
    assert(e.subrange(125, 129) =~= d.propbits);
    assert(e.subrange(130, 132) =~= le_u16(d.input_id.bustype));
    assert(e.subrange(132, 134) =~= le_u16(d.input_id.vendor));
    assert(e.subrange(134, 136) =~= le_u16(d.input_id.product));
    assert(e.subrange(136, 138) =~= le_u16(d.input_id.version));
    assert(e.subrange(140, 144) =~= le_u32(d.ff_effects));
    assert(e.subrange(144, 224) =~= d.name);
    lemma_u64_round_trip(d.id);
    lemma_u16_round_trip(d.input_id.bustype);
    lemma_u16_round_trip(d.input_id.vendor);
    lemma_u16_round_trip(d.input_id.product);
    lemma_u16_round_trip(d.input_id.version);
    lemma_u32_round_trip(d.ff_effects);
    assert(AddDeviceModel::spec_decode(e) =~= d);
    lemma_u64_bytes(b.subrange(0, 8));
    lemma_u16_bytes(b.subrange(130, 132));
    lemma_u16_bytes(b.subrange(132, 134));
    lemma_u16_bytes(b.subrange(134, 136));
    lemma_u16_bytes(b.subrange(136, 138));
    lemma_u32_bytes(b.subrange(140, 144));
    assert(AddDeviceModel::spec_decode(b).spec_encode() =~= b);
}

} // verus!
