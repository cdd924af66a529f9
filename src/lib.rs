//! Host-to-guest input device forwarding: wire records, capability bitmasks,
//! joystick classification, device tables and the per-client read state.
pub mod bits;
pub mod bytes;
pub mod client;
pub mod frames;
pub mod guest;
pub mod probe;
pub mod registry;
pub mod server;
pub mod uinput;
pub mod wire;

pub use wire::{
    AbsoluteInfo, AddDevice, ClientHello, InputEvent, InputId, MessageType, RemoveDevice,
    ServerHello,
};
pub use guest::insert_entry;
