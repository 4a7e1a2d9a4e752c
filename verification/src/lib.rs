//! Outbound network core of a game server: per-shard ring buffers, packet
//! framing, a coalescing write queue with in-flight accounting, and the
//! ordering rules of the event loop that flushes those queues.

use vstd::prelude::*;

pub mod buf;
pub mod compress;
pub mod encoder;
pub mod laws;
pub mod packets;
pub mod ring;
pub mod server;

verus! {

/// The Minecraft protocol version this library targets.
pub const PROTOCOL_VERSION: i32 = 763;

/// The maximum number of bytes that can be sent in a single packet.
pub const MAX_PACKET_SIZE: usize = 2097152;

/// The stringified name of the Minecraft version this library targets.
pub const MINECRAFT_VERSION: &'static str = "1.20.1";

/// Capacity of one shard's ring buffer: 128 MiB.
pub const S2C_BUFFER_SIZE: usize = 1024 * 1024 * 128;

} // verus!
