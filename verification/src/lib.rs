//! Protocol library for MeshCore companion radio nodes: packet and frame
//! codecs, payload parsers, the event model, the incoming-packet state
//! machine and the command encoders, all verified with Verus.
use vstd::prelude::*;

pub mod cache;
pub mod commands;
pub mod connection;
pub mod error;
pub mod events;
pub mod packets;
pub mod parsing;
pub mod reader;
pub mod text;

verus! {

/// Length of the channel name field in bytes
pub const CHANNEL_NAME_LEN: usize = 32;

/// Length of channel secret field in bytes
pub const CHANNEL_SECRET_LEN: usize = 16;

/// Total length of channel info payload (idx + name + secret)
pub const CHANNEL_INFO_LEN: usize = 1 + CHANNEL_NAME_LEN + CHANNEL_SECRET_LEN;

/// When set, auto-adding a new contact while the table is full overwrites
/// the oldest non-favourite entry instead of being rejected.
pub const AUTO_ADD_OVERWRITE_OLDEST: u8 = 1u8 << 0u8;

/// Auto-add Chat (Companion) contacts (`ADV_TYPE_CHAT`).
pub const AUTO_ADD_CHAT: u8 = 1u8 << 1u8;

/// Auto-add Repeater contacts (`ADV_TYPE_REPEATER`).
pub const AUTO_ADD_REPEATER: u8 = 1u8 << 2u8;

/// Auto-add Room Server contacts (`ADV_TYPE_ROOM`).
pub const AUTO_ADD_ROOM_SERVER: u8 = 1u8 << 3u8;

/// Auto-add Sensor contacts (`ADV_TYPE_SENSOR`).
pub const AUTO_ADD_SENSOR: u8 = 1u8 << 4u8;

} // verus!
