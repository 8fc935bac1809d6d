//! From the first frame of a connection to a player in the world.

use super::super::db::Character;
use super::super::save_parse::state;
use super::super::world::{Presence, SessionId};
use super::control;
use crate::bytes;
use crate::proto::quic::{version_is_compatible, ClientControl, ServerControl};
use crate::proto::{MapId, PlayerId, Pose, PROTOCOL_VERSION};
use crate::text;
use vstd::prelude::*;

verus! {

/// The largest frame of the control stream.
pub const MAX_CONTROL_FRAME: u32 = 64 * 1024;

/// How long a connection may stay without signing in.
pub const LOGIN_DEADLINE_S: u64 = 600;

/// The shortest time between two polls of a login that reach the database.
pub const POLL_INTERVAL_MS: u64 = 1000;

// ---------------------------------------------------------------------------------------------
// Frames
// ---------------------------------------------------------------------------------------------

/// The length that the prefix of a control frame gives, where it is plausible; else the length
/// as it was given.
pub fn control_frame_len(prefix: &[u8; 4]) -> (r: Result<u32, u32>)
    ensures
        ({
            let len = bytes::le32(prefix@, 0);
            r == if 0 < len <= MAX_CONTROL_FRAME {
                Ok::<u32, u32>(len)
            } else {
                Err::<u32, u32>(len)
            }
        }),
{
    let len: u32 = bytes::get32(prefix.as_slice(), 0);
    if len > 0 && len <= MAX_CONTROL_FRAME {
        Ok(len)
    } else {
        Err(len)
    }
}

/// What is said of a frame whose length is not plausible.
pub fn frame_len_message(len: u32) -> (r: String)
    ensures
        r@ == "implausible control frame length "@ + text::dec(len as nat),
{
    let mut s = "implausible control frame length ".to_owned();
    text::push_dec(&mut s, len as u64);
    s
}

// ---------------------------------------------------------------------------------------------
// Greeting
// ---------------------------------------------------------------------------------------------

/// What the first frame of a connection amounts to.
pub enum Greeting {
    /// It is not a greeting.
    NotHello,
    /// The client is to be told this and turned away.
    Outdated { reason: String },
    /// The client is to be let in with this token, into this world.
    Enter { token: Option<String>, mode: String },
}

/// Which world a connection plays. Only two exist; anything else is treated as normal, so that a
/// bad value cannot conjure a third ruleset.
pub open spec fn world_of(mode: Seq<char>) -> Seq<char> {
    if mode == "deadman"@ {
        "deadman"@
    } else {
        "normal"@
    }
}

/// Which world a connection plays.
pub fn mode_of(mode: &str) -> (r: String)
    ensures
        r@ == world_of(mode@),
{
    if text::is_text(mode, "deadman") {
        "deadman".to_owned()
    } else {
        "normal".to_owned()
    }
}

/// What a client of another version is told.
pub open spec fn outdated_text(version: u16) -> Seq<char> {
    "This client speaks protocol "@ + text::dec(version as nat) + "; the server needs "@
        + text::dec(PROTOCOL_VERSION as nat) + ". Please update."@
}

/// Decides what the first frame of a connection amounts to.
pub fn greet(first: ClientControl) -> (r: Greeting)
    ensures
        match first {
            ClientControl::Hello { protocol_version, token, client_version, mode } => {
                if protocol_version != PROTOCOL_VERSION {
                    r matches Greeting::Outdated { reason } && reason@ == outdated_text(
                        protocol_version,
                    )
                } else {
                    r matches Greeting::Enter { token: t, mode: m } && t == token && m@ == world_of(
                        mode@,
                    )
                }
            },
            _ => r is NotHello,
        },
{
    match first {
        ClientControl::Hello { protocol_version, token, mode, .. } => {
            if !version_is_compatible(protocol_version) {
                let mut reason = "This client speaks protocol ".to_owned();
                text::push_dec(&mut reason, protocol_version as u64);
                text::push_text(&mut reason, "; the server needs ");
                text::push_dec(&mut reason, PROTOCOL_VERSION as u64);
                text::push_text(&mut reason, ". Please update.");
                Greeting::Outdated { reason }
            } else {
                Greeting::Enter { token, mode: mode_of(&mode) }
            }
        },
        _ => Greeting::NotHello,
    }
}

/// Whether the character that a token names belongs to another world than the one asked for, so
/// that the account's character of that world is to be taken, or made.
pub fn plays_elsewhere(character: &Character, mode: &str) -> (r: bool)
    ensures
        r == (character.mode@ != mode@),
{
    !text::is_text(&character.mode, mode)
}

// ---------------------------------------------------------------------------------------------
// Signing in through the browser
// ---------------------------------------------------------------------------------------------

/// What is to be done about a message of a client that has not signed in.
pub enum LoginStep {
    /// Answer that the login is pending, without asking the database.
    Pending,
    /// Ask the database whether the login with this ticket has completed.
    Claim { ticket: String },
    /// Send the ticket again.
    Resend,
    End,
    Ignore,
}

/// When the database was last asked whether a login has completed, in milliseconds.
pub struct LoginPolls {
    pub last: Option<u64>,
}

/// A poll at this time is too soon after the last one that reached the database.
pub open spec fn too_soon(last: Option<u64>, now: u64) -> bool {
    last is Some && now < last->0 + POLL_INTERVAL_MS
}

impl LoginPolls {
    /// Nothing was asked yet.
    pub fn new() -> (r: Self)
        ensures
            r.last is None,
    {
        LoginPolls { last: None }
    }

    /// Decides what to do about a message. A poll reaches the database only once a second at
    /// most; one that arrives sooner is answered without a query.
    pub fn step(&mut self, msg: ClientControl, now: u64) -> (r: LoginStep)
        ensures
            match msg {
                ClientControl::PollLogin { ticket } => if too_soon(old(self).last, now) {
                    r is Pending && final(self).last == old(self).last
                } else {
                    r == (LoginStep::Claim { ticket }) && final(self).last == Some(now)
                },
                ClientControl::BeginLogin => r is Resend && final(self).last == old(self).last,
                ClientControl::Goodbye => r is End && final(self).last == old(self).last,
                _ => r is Ignore && final(self).last == old(self).last,
            },
    {
        match msg {
            ClientControl::PollLogin { ticket } => {
                let soon: bool = match self.last {
                    Some(t) => now < t || now - t < POLL_INTERVAL_MS,
                    None => false,
                };
                if soon {
                    return LoginStep::Pending;
                }
                self.last = Some(now);
                LoginStep::Claim { ticket }
            },
            ClientControl::BeginLogin => LoginStep::Resend,
            ClientControl::Goodbye => LoginStep::End,
            _ => LoginStep::Ignore,
        }
    }
}

/// What the database answers to a poll that reached it: no token yet, or a token, and with it a
/// character or none.
pub enum Claimed {
    NotYet,
    NoCharacter,
    Character(Character),
}

/// What a client that has not signed in is answered, or that it is let in.
pub enum LoginAnswer {
    Tell(ServerControl),
    TellAndEnd(ServerControl),
    Enter(Character),
}

/// Decides what follows from what the database answered.
pub fn after_claim(claimed: Claimed) -> (r: LoginAnswer)
    ensures
        match claimed {
            Claimed::NotYet => r == LoginAnswer::Tell(ServerControl::LoginPending),
            Claimed::NoCharacter => match r {
                LoginAnswer::TellAndEnd(ServerControl::Rejected { reason }) => reason@
                    == "Login completed but the session was already gone."@,
                _ => false,
            },
            Claimed::Character(c) => r == LoginAnswer::Enter(c),
        },
{
    match claimed {
        Claimed::NotYet => LoginAnswer::Tell(ServerControl::LoginPending),
        Claimed::NoCharacter => LoginAnswer::TellAndEnd(
            ServerControl::Rejected {
                reason: "Login completed but the session was already gone.".to_owned(),
            },
        ),
        Claimed::Character(c) => LoginAnswer::Enter(c),
    }
}

/// Two polls that both reach the database are at least a second apart.
pub proof fn law_polls_reach_the_database_once_a_second(first: u64, second: u64)
    requires
        !too_soon(Some(first), second),
    ensures
        second - first >= 1000,
{
}

// ---------------------------------------------------------------------------------------------
// Entering the world
// ---------------------------------------------------------------------------------------------

/// The wire's id of a character, where it fits.
pub fn player_id_of(character_id: i64) -> (r: Option<PlayerId>)
    ensures
        match r {
            Some(id) => id == character_id,
            None => character_id < 0 || character_id > u32::MAX,
        },
{
    if character_id < 0 || character_id > u32::MAX as i64 {
        None
    } else {
        Some(character_id as PlayerId)
    }
}

/// What is said of an id that does not fit.
pub fn unfit_id_message(character_id: i64) -> (r: String)
    ensures
        r@ == "character id "@ + text::dec_signed(character_id as int)
            + " does not fit the wire's player id; refusing"@,
{
    let mut s = "character id ".to_owned();
    text::push_signed(&mut s, character_id);
    text::push_text(&mut s, " does not fit the wire's player id; refusing");
    s
}

/// Where a character starts a session.
pub open spec fn start_of(c: Character) -> Pose {
    Pose {
        map: MapId { group: c.map_group, num: c.map_num },
        x: c.x,
        y: c.y,
        facing: c.facing,
        elevation: c.elevation,
        moving: false,
    }
}

/// The presence that a character joins the world with.
pub fn presence_of(c: &Character, session: SessionId, party_count: u8) -> (r: Presence)
    ensures
        r.session == session,
        r.character_id == c.id,
        r.name@ == c.name@,
        r.graphics_id == c.graphics_id,
        r.pose == start_of(*c),
        r.party_count == party_count,
        r.badges == c.badges,
        r.mode@ == c.mode@,
        r.pending_invite is None,
        r.battle is None,
        r.position_unknown,
{
    Presence {
        session,
        character_id: c.id,
        name: c.name.clone(),
        graphics_id: c.graphics_id,
        pose: Pose {
            map: MapId::new(c.map_group, c.map_num),
            x: c.x,
            y: c.y,
            facing: c.facing,
            elevation: c.elevation,
            moving: false,
        },
        party_count,
        badges: c.badges,
        mode: c.mode.clone(),
        pending_invite: None,
        battle: None,
        position_unknown: true,
    }
}

/// How many Pokemon the name tag of a character shows at first: those in the stored save, and
/// none where there is no save that can be read.
pub fn seed_party_count(stored: Option<&Vec<u8>>) -> (r: u8)
    ensures
        r == (match stored {
            Some(image) => match state::parsed(image@) {
                Some(s) => (s.party.len() % 256) as u8,
                None => 0,
            },
            None => 0,
        }),
{
    match stored {
        Some(image) => match state::parse(image) {
            Some(s) => {
                assert(s@.party.len() == s.party@.len());
                (s.party.len() % 256) as u8
            },
            None => 0,
        },
        None => 0,
    }
}

/// The money that a character is told to carry: what the stored save says, and what the row says
/// where there is no save that can be read.
pub fn carried_money(stored: Option<&Vec<u8>>, row: i32) -> (r: u32)
    ensures
        r == (match stored {
            Some(image) => match state::parsed(image@) {
                Some(s) => s.money(),
                None => row as u32,
            },
            None => row as u32,
        }),
{
    match stored {
        Some(image) => match state::parse(image) {
            Some(s) => s.money(),
            None => row as u32,
        },
        None => row as u32,
    }
}

/// What a character is told of its bank as it enters: only those of the permadeath world have one.
pub fn bank_on_entering(c: &Character, stored: Option<&Vec<u8>>, bank: u64) -> (r: Option<
    ServerControl,
>)
    ensures
        r == (if control::plays_deadman(c.mode@) {
            Some(
                ServerControl::BankState {
                    bank,
                    carried: match stored {
                        Some(image) => match state::parsed(image@) {
                            Some(s) => s.money(),
                            None => c.money as u32,
                        },
                        None => c.money as u32,
                    },
                },
            )
        } else {
            None
        }),
{
    if text::is_text(c.mode.as_str(), "deadman") {
        Some(ServerControl::BankState { bank, carried: carried_money(stored, c.money) })
    } else {
        None
    }
}

} // verus!
