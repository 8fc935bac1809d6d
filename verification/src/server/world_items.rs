//! Items dropped on the ground for other players to pick up.
//!
//! A drop is a stack of one item sitting on a tile of a map. Any player can drop from their bag,
//! and any player standing on the drop can take it, except for Deadman death-drops, which the
//! killer gets first.

use vstd::prelude::*;

verus! {

/// One dropped stack sitting in the world.
#[derive(Debug, Clone)]
pub struct WorldItem {
    pub id: u64,
    pub map_group: u8,
    pub map_num: u8,
    pub x: i16,
    pub y: i16,
    pub item: u16,
    pub quantity: u16,
    /// The player who gets first claim (a PvP killer), or `None` for a freely-dropped item.
    pub owner: Option<u64>,
    /// Seconds since the drop was created, stamped by the world tick (not wall-clock here).
    pub age_s: u64,
}

/// How long the killer of a Deadman player has the exclusive right to their death-drop.
pub const OWNER_WINDOW_S: u64 = 60;

/// How long a drop lingers in total before it is gone forever.
pub const EXPIRE_S: u64 = 180;

/// Whether a given player may pick up a drop right now.
#[derive(Debug, PartialEq, Eq, Structural)]
pub enum Pickup {
    /// The taker may have it.
    Allowed,
    /// Owned by someone else and still inside their exclusive window.
    Reserved,
    /// Past its lifetime; it should be reaped, and nobody gets it.
    Expired,
}

/// The pickup rule: a freely-dropped item (no owner) is anyone's immediately. A death-drop is the
/// owner's alone for the first `OWNER_WINDOW_S`, then anyone's until `EXPIRE_S`, then gone.
pub fn can_pick_up(age_s: u64, owner: Option<u64>, taker: u64) -> (r: Pickup)
    ensures
        r is Expired <==> age_s >= EXPIRE_S,
        r is Reserved <==> age_s < OWNER_WINDOW_S && owner is Some && owner != Some(taker),
        r is Allowed <==> age_s < EXPIRE_S && (age_s >= OWNER_WINDOW_S || owner is None || owner
            == Some(taker)),
{
    if age_s >= EXPIRE_S {
        return Pickup::Expired;
    }
    match owner {
        Some(o) => if o != taker && age_s < OWNER_WINDOW_S {
            Pickup::Reserved
        } else {
            Pickup::Allowed
        },
        None => Pickup::Allowed,
    }
}

/// Whether a drop has outlived its lifetime and should be reaped: exactly when nobody may pick it
/// up any more.
pub fn is_expired(age_s: u64) -> (r: bool)
    ensures
        r == (age_s >= EXPIRE_S),
{
    age_s >= EXPIRE_S
}

} // verus!
