//! Messages exchanged between the client sidecar and the server over QUIC.
//!
//! Control traffic rides a reliable bidirectional stream. Movement rides unreliable datagrams,
//! because a dropped position is superseded by the next one.

use super::{MapId, PlayerId, Pose, PROTOCOL_VERSION};
use vstd::prelude::*;

verus! {

/// How the player is currently authenticated.
#[derive(Debug, Clone, Copy, PartialEq, Eq, Structural)]
pub enum AuthState {
    Offline,
    Connecting,
    /// The server issued a login ticket; the player must complete the Discord flow.
    NeedsLogin,
    AwaitingBrowser,
    Online,
}

/// What a client says. The order of the variants is their number on the wire: new ones are
/// appended.
#[derive(Debug, Clone)]
pub enum ClientControl {
    /// First message on the control stream. `token` is a previously issued session token and
    /// `mode` selects which world this connection plays: "normal" or "deadman".
    Hello { protocol_version: u16, token: Option<String>, client_version: String, mode: String },
    /// Ask the server to mint a login ticket so the sidecar can open the browser.
    BeginLogin,
    /// Poll whether the browser half of the Discord flow has completed.
    PollLogin { ticket: String },
    /// The player walked onto a different map.
    EnterMap { map: MapId },
    Chat { target: ChatTarget, text: String },
    /// Ask another player for a battle. They answer with `RespondToBattle`.
    RequestBattle { target: PlayerId },
    /// Answer an outstanding invitation.
    RespondToBattle { from: PlayerId, accepted: bool },
    Goodbye,
    /// One slice of this character's save. `total` lets the server know when it has all of it.
    SaveUpload { offset: u32, total: u32, bytes: Vec<u8> },
    /// Send this character's profile and stored save again, as they are now.
    Resync,
    /// One block of link-battle traffic, for whoever this player is battling.
    LinkBlock { bytes: Vec<u8> },
    /// This player's battle is over.
    BattleEnded,
    /// This character's money is now this.
    MoneyChanged { amount: u32 },
    /// This character now holds `quantity` of `item`, in `pocket`.
    ItemChanged { pocket: u8, item: u16, quantity: u16 },
    /// The whole party, as the game's own bytes.
    PartyChanged { count: u8, mons: Vec<u8> },
    /// One allowlisted region of SaveBlock1.
    RegionChanged { offset: u32, bytes: Vec<u8> },
    /// One chunk of a whole save block.
    BlockChunk { block: u8, offset: u32, total: u32, bytes: Vec<u8> },
    /// Key state for a run of consecutive frames.
    Keys { frames: Vec<u16> },
    /// Deadman hard reset: the character has no living Pokemon left anywhere, so it loses
    /// everything and starts over.
    HardReset,
    /// Deposit the whole carried wallet into the PC bank.
    BankDeposit,
    /// Withdraw from the PC bank into the carried wallet, up to the money cap.
    BankWithdraw,
}

#[derive(Debug, Clone, PartialEq, Eq)]
pub enum ChatTarget {
    /// The default in-game channel, bridged to IRC `#pokeplanet`.
    Global,
    /// Everyone standing on the same map.
    Local,
    /// A private message, bridged to an IRC PM.
    Private(String),
}

/// The save-file summary shown on the sign-in screen, straight from the server.
#[derive(Debug, Clone, Default)]
pub struct CharacterProfile {
    pub name: String,
    /// Overworld sprite assigned to this character at creation.
    pub graphics_id: u8,
    pub play_time_seconds: u32,
    pub badges: u8,
    pub pokedex_caught: u16,
    pub pokedex_seen: u16,
    pub money: u32,
    /// Where this character stands, as the server has it.
    pub map_group: u8,
    pub map_num: u8,
    pub x: i16,
    pub y: i16,
}

/// A rate multiplier, as the bits of a single-precision number.
pub type RateBits = u32;

/// What the server says. The order of the variants is their number on the wire: new ones are
/// appended.
#[derive(Debug, Clone)]
pub enum ServerControl {
    /// Authentication succeeded; the character is live. The token skips the browser next launch.
    Welcome { player_id: PlayerId, profile: CharacterProfile, token: String },
    /// No usable token. The player must visit `login_url` to finish the Discord flow.
    AuthRequired { ticket: String, login_url: String },
    /// Response to `PollLogin` while the browser flow is still outstanding.
    LoginPending,
    PlayerJoined { player_id: PlayerId, name: String, graphics_id: u8 },
    PlayerLeft { player_id: PlayerId },
    Chat { from: String, target: ChatTarget, text: String },
    /// Someone wants to battle you. Answer with `ClientControl::RespondToBattle`.
    BattleInvitation { from: PlayerId, from_name: String },
    /// The outcome of an invitation you sent.
    BattleInvitationAnswered { from: PlayerId, from_name: String, accepted: bool },
    /// An invitation could not be delivered: they left, or are already busy.
    BattleInvitationFailed { reason: String },
    /// Terminal error; the sidecar drops to offline and reports `reason` to the game.
    Rejected { reason: String },
    /// This character signed in somewhere else and that connection now owns it.
    Superseded { reason: String },
    /// One slice of the character's stored save, sent at sign-in.
    SaveImage { offset: u32, total: u32, bytes: Vec<u8> },
    /// Both players agreed to battle. `link_id` is this player's slot in the battle, assigned
    /// by the server so that exactly one of the two runs the battle engine.
    BattleStarting { opponent: PlayerId, opponent_name: String, link_id: u8 },
    /// A reported step was refused, and this is where the client really is.
    Correction { pose: Pose },
    /// One block of link-battle traffic from the player this one is battling.
    LinkBlock { from_slot: u8, bytes: Vec<u8> },
    /// The gameplay rates this server runs, sent at sign-in.
    Rates {
        experience: RateBits,
        encounter: RateBits,
        money: RateBits,
        items: RateBits,
        catch: RateBits,
        shop_price: RateBits,
        /// Per-species encounter multipliers, applied on top of the global `encounter` rate.
        species_encounter: Vec<(u16, RateBits)>,
    },
    /// The PC bank balance and the authoritative carried money.
    BankState { bank: u64, carried: u32 },
}

/// Position report, sent by the client at roughly 10Hz on a datagram.
#[derive(Debug, Clone, Copy)]
pub struct ClientMovement {
    pub pose: Pose,
}

/// Positions of every other character sharing the sender's map.
#[derive(Debug, Clone)]
pub struct ServerSnapshot {
    pub players: Vec<RemotePlayer>,
}

#[derive(Debug, Clone)]
pub struct RemotePlayer {
    pub player_id: PlayerId,
    pub name: String,
    pub graphics_id: u8,
    pub pose: Pose,
    /// How many Pokemon this player carries, for their name tag.
    pub party_count: u8,
}

/// Client and server must agree exactly; there is no compatibility window.
pub fn version_is_compatible(client: u16) -> (r: bool)
    ensures
        r == (client == PROTOCOL_VERSION),
{
    client == PROTOCOL_VERSION
}

} // verus!
