//! What a control message of a signed-in client asks for.

use super::super::chat;
use super::chunks::MAX_CHUNK;
use crate::proto::quic::{CharacterProfile, ChatTarget, ClientControl};
use crate::proto::{MapId, PlayerId, Pose};
use crate::text;
use vstd::prelude::*;

verus! {

/// The game's buffer for a block of battle traffic. A larger one cannot be anything that the
/// battle engine produced.
pub const MAX_LINK_BLOCK: usize = 256;

/// The longest run of key states. A client choosing how much the server buffers is a client
/// choosing how much memory to spend.
pub const MAX_KEY_RUN: usize = 600;

/// A message makes the server do heavy save work: a full load, parse, rebuild and store, or a
/// fresh copy handed back.
pub open spec fn is_heavy(control: ClientControl) -> bool {
    ||| control is SaveUpload
    ||| control is Resync
    ||| control is MoneyChanged
    ||| control is ItemChanged
    ||| control is PartyChanged
    ||| control is RegionChanged
    ||| control is BlockChunk
    ||| control is HardReset
    ||| control is BankDeposit
    ||| control is BankWithdraw
}

/// Whether a control message makes the server do heavy save work. These are the operations that
/// are paced; a client's cheap traffic (keys, chat, battle relay) is never throttled.
pub fn is_heavy_control(control: &ClientControl) -> (r: bool)
    ensures
        r == is_heavy(*control),
{
    match control {
        ClientControl::SaveUpload { .. } => true,
        ClientControl::Resync => true,
        ClientControl::MoneyChanged { .. } => true,
        ClientControl::ItemChanged { .. } => true,
        ClientControl::PartyChanged { .. } => true,
        ClientControl::RegionChanged { .. } => true,
        ClientControl::BlockChunk { .. } => true,
        ClientControl::HardReset => true,
        ClientControl::BankDeposit => true,
        ClientControl::BankWithdraw => true,
        _ => false,
    }
}

/// What is to be done about a message, before the message itself is looked at.
#[derive(Debug, Clone, Copy, PartialEq, Eq, Structural)]
pub enum Gate {
    /// A newer sign-in has taken over: no further message of this connection counts.
    Superseded,
    /// Too much heavy work at once: the message is dropped, and the next one reconciles.
    Throttled,
    /// The message counts. A heavy one is handled under the character's save lock.
    Open { locked: bool },
}

/// Decides whether a message counts. `budget` says whether the connection's budget for heavy work
/// still covers this message; it is only spent on heavy ones.
pub fn gate(current: bool, heavy: bool, budget: bool) -> (r: Gate)
    ensures
        r == (if !current {
            Gate::Superseded
        } else if heavy && !budget {
            Gate::Throttled
        } else {
            Gate::Open { locked: heavy }
        }),
{
    if !current {
        Gate::Superseded
    } else if heavy && !budget {
        Gate::Throttled
    } else {
        Gate::Open { locked: heavy }
    }
}

/// What a message asks for.
pub enum Ask {
    /// Nothing.
    Ignore,
    /// Something that is refused; the connection goes on.
    Refused,
    /// To end the connection.
    Stop,
    Say { target: ChatTarget, text: String },
    Enter { map: MapId },
    Invite { target: PlayerId },
    Answer { from: PlayerId, accepted: bool },
    Replay { frames: Vec<u16> },
    Block { block: u8, offset: u32, total: u32, bytes: Vec<u8> },
    Region { offset: u32, bytes: Vec<u8> },
    Party { count: u8, mons: Vec<u8> },
    Item { pocket: u8, item: u16, quantity: u16 },
    Money { amount: u32 },
    Upload { offset: u32, total: u32, bytes: Vec<u8> },
    Resync,
    Forward { bytes: Vec<u8> },
    BattleOver,
    /// To lose everything and start over.
    Wipe,
    Bank { deposit: bool },
}

/// The character plays the permadeath world.
pub open spec fn plays_deadman(mode: Seq<char>) -> bool {
    mode == "deadman"@
}

/// What a message asks for. Chat that is empty once it is cleaned asks for nothing; the bank and
/// the hard reset exist in the permadeath world only; and what is larger than the game could have
/// sent is refused before anything is done with it.
pub open spec fn asks(msg: ClientControl, mode: Seq<char>, r: Ask) -> bool {
    match msg {
        ClientControl::Chat { target, text } => if chat::clean(text@).len() == 0 {
            r is Ignore
        } else {
            r matches Ask::Say { target: t, text: x } && t == target && x@ == chat::clean(text@)
        },
        ClientControl::EnterMap { map } => r == (Ask::Enter { map }),
        ClientControl::RequestBattle { target } => r == (Ask::Invite { target }),
        ClientControl::RespondToBattle { from, accepted } => r == (Ask::Answer { from, accepted }),
        ClientControl::Keys { frames } => if frames@.len() > MAX_KEY_RUN {
            r is Refused
        } else {
            r == (Ask::Replay { frames })
        },
        ClientControl::BlockChunk { block, offset, total, bytes } => r == (Ask::Block {
            block,
            offset,
            total,
            bytes,
        }),
        ClientControl::RegionChanged { offset, bytes } => if bytes@.len() > MAX_CHUNK {
            r is Refused
        } else {
            r == (Ask::Region { offset, bytes })
        },
        ClientControl::PartyChanged { count, mons } => if mons@.len() != 600 || count > 6 {
            r is Refused
        } else {
            r == (Ask::Party { count, mons })
        },
        ClientControl::ItemChanged { pocket, item, quantity } => r == (Ask::Item {
            pocket,
            item,
            quantity,
        }),
        ClientControl::MoneyChanged { amount } => r == (Ask::Money { amount }),
        ClientControl::SaveUpload { offset, total, bytes } => r == (Ask::Upload {
            offset,
            total,
            bytes,
        }),
        ClientControl::Resync => r is Resync,
        ClientControl::LinkBlock { bytes } => if bytes@.len() > MAX_LINK_BLOCK {
            r is Stop
        } else {
            r == (Ask::Forward { bytes })
        },
        ClientControl::BattleEnded => r is BattleOver,
        ClientControl::HardReset => if plays_deadman(mode) {
            r is Wipe
        } else {
            r is Ignore
        },
        ClientControl::BankDeposit => if plays_deadman(mode) {
            r == (Ask::Bank { deposit: true })
        } else {
            r is Ignore
        },
        ClientControl::BankWithdraw => if plays_deadman(mode) {
            r == (Ask::Bank { deposit: false })
        } else {
            r is Ignore
        },
        ClientControl::Goodbye => r is Stop,
        ClientControl::Hello { .. } => r is Ignore,
        ClientControl::BeginLogin => r is Ignore,
        ClientControl::PollLogin { .. } => r is Ignore,
    }
}

/// Decides what a message asks for.
pub fn read_control(msg: ClientControl, mode: &str) -> (r: Ask)
    ensures
        asks(msg, mode@, r),
{
    match msg {
        ClientControl::Chat { target, text } => {
            let said = chat::sanitize_chat(&text);
            if said.as_str().is_empty() {
                Ask::Ignore
            } else {
                Ask::Say { target, text: said }
            }
        },
        ClientControl::EnterMap { map } => Ask::Enter { map },
        ClientControl::RequestBattle { target } => Ask::Invite { target },
        ClientControl::RespondToBattle { from, accepted } => Ask::Answer { from, accepted },
        ClientControl::Keys { frames } => {
            if frames.len() > MAX_KEY_RUN {
                Ask::Refused
            } else {
                Ask::Replay { frames }
            }
        },
        ClientControl::BlockChunk { block, offset, total, bytes } => {
            Ask::Block { block, offset, total, bytes }
        },
        ClientControl::RegionChanged { offset, bytes } => {
            if bytes.len() > MAX_CHUNK {
                Ask::Refused
            } else {
                Ask::Region { offset, bytes }
            }
        },
        ClientControl::PartyChanged { count, mons } => {
            if mons.len() != 600 || count > 6 {
                Ask::Refused
            } else {
                Ask::Party { count, mons }
            }
        },
        ClientControl::ItemChanged { pocket, item, quantity } => {
            Ask::Item { pocket, item, quantity }
        },
        ClientControl::MoneyChanged { amount } => Ask::Money { amount },
        ClientControl::SaveUpload { offset, total, bytes } => Ask::Upload { offset, total, bytes },
        ClientControl::Resync => Ask::Resync,
        ClientControl::LinkBlock { bytes } => {
            if bytes.len() > MAX_LINK_BLOCK {
                Ask::Stop
            } else {
                Ask::Forward { bytes }
            }
        },
        ClientControl::BattleEnded => Ask::BattleOver,
        ClientControl::HardReset => {
            if text::is_text(mode, "deadman") {
                Ask::Wipe
            } else {
                Ask::Ignore
            }
        },
        ClientControl::BankDeposit => {
            if text::is_text(mode, "deadman") {
                Ask::Bank { deposit: true }
            } else {
                Ask::Ignore
            }
        },
        ClientControl::BankWithdraw => {
            if text::is_text(mode, "deadman") {
                Ask::Bank { deposit: false }
            } else {
                Ask::Ignore
            }
        },
        ClientControl::Goodbye => Ask::Stop,
        ClientControl::Hello { .. } => Ask::Ignore,
        ClientControl::BeginLogin => Ask::Ignore,
        ClientControl::PollLogin { .. } => Ask::Ignore,
    }
}

/// The profile of a character with the position that the world has them standing at, where it
/// has one: the row is only written when they save or leave, so during play it lags.
pub fn resynced(profile: CharacterProfile, pose: Option<Pose>) -> (r: CharacterProfile)
    ensures
        r == (match pose {
            Some(p) => CharacterProfile {
                map_group: p.map.group,
                map_num: p.map.num,
                x: p.x,
                y: p.y,
                ..profile
            },
            None => profile,
        }),
{
    let mut profile = profile;
    match pose {
        Some(p) => {
            profile.map_group = p.map.group;
            profile.map_num = p.map.num;
            profile.x = p.x;
            profile.y = p.y;
        },
        None => {},
    }
    profile
}

/// Where a client is to be put back to: the pose that the world holds to be true, where it
/// differs from the one the client reported.
pub fn correction(reported: Pose, accepted: Option<Pose>) -> (r: Option<Pose>)
    ensures
        r == (if accepted is Some && accepted->0 != reported {
            accepted
        } else {
            None
        }),
{
    match accepted {
        Some(truth) => if truth != reported {
            Some(truth)
        } else {
            None
        },
        None => None,
    }
}

} // verus!
