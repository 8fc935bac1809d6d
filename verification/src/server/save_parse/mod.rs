//! Reading and writing the game's flash image.
//!
//! - An image is 32 sectors of 4096 bytes. Sectors 0-13 are one save slot, 14-27 the other.
//! - Each sector ends in a footer: its id, a checksum, a signature and a counter. The id says
//!   which part of the save it holds and is not its position: the game rotates sectors on every
//!   write, so a slot is indexed by footer id rather than read in order.
//! - The slot with the higher counter is the newer one, which is the one the game will load.
//! - A block of the save is spread over the sectors of its ids, in order, 3968 bytes at a time.

pub mod image;
pub mod image_laws;
pub mod mon;
pub mod state;
pub mod judge;
pub mod edit;
pub mod edit_laws;
pub mod judge_laws;
pub mod parse_laws;
pub mod rotation;
pub mod write_laws;
