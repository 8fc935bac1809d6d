//! Wire types shared by the server and the client sidecar.
//!
//! Two distinct encodings: `quic` holds the messages between sidecar and server, versioned by
//! `PROTOCOL_VERSION`; `ipc` frames fixed-layout little-endian records between sidecar and game,
//! so that the game can parse them with a struct cast and no allocator.

use vstd::prelude::*;

pub mod ipc;
pub mod ipc_laws;
pub mod quic;

verus! {

/// Bumped on any incompatible change to the QUIC messages. The server refuses mismatched clients.
pub const PROTOCOL_VERSION: u16 = 1;

/// Maximum remote players the server will describe in a single snapshot: the game can only
/// render a handful, next to the map's own characters.
pub const MAX_VISIBLE_PLAYERS: usize = 8;

/// Identifies one map instance.
#[derive(Debug, Clone, Copy, PartialEq, Eq, Hash, Default, Structural)]
pub struct MapId {
    pub group: u8,
    pub num: u8,
}

impl MapId {
    pub fn new(group: u8, num: u8) -> (r: Self)
        ensures
            r == (MapId { group, num }),
    {
        MapId { group, num }
    }
}

/// Where a character is standing, in map tile coordinates.
#[derive(Debug, Clone, Copy, PartialEq, Eq, Default, Structural)]
pub struct Pose {
    pub map: MapId,
    pub x: i16,
    pub y: i16,
    /// Game direction constant: 1=south, 2=north, 3=west, 4=east.
    pub facing: u8,
    pub elevation: u8,
    /// True while the avatar is mid-step, so observers animate a walk instead of a warp.
    pub moving: bool,
}

/// Server-assigned identity for a connected character.
pub type PlayerId = u32;

} // verus!
