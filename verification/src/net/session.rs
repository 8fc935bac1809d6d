//! The upstream session: what is relayed between the server and the game.
//!
//! Each event, a message of either side or a tick, is decided here; the caller holds the
//! connections and does what is decided, in order.

use crate::proto::ipc;
use crate::proto::ipc::{
    GameMessage, SnapshotEntry, AUTH_AWAITING_BROWSER, AUTH_NEEDS_LOGIN, AUTH_OFFLINE, AUTH_ONLINE,
    AUTH_SUPERSEDED, CHAT_GLOBAL, CHAT_LOCAL, CHAT_PRIVATE,
};
use crate::proto::quic::{ChatTarget, ClientControl, RemotePlayer, ServerControl};
use crate::proto::{Pose, PROTOCOL_VERSION};
use crate::server::quic::chunks;
use crate::server::quic::chunks::{Slice, MAX_SAVE_BYTES};
use crate::text;
use vstd::prelude::*;

verus! {

/// Slice size for forwarding a save upstream. Small enough that chat and battle messages sharing
/// the control stream are not stuck behind a whole save.
pub const SAVE_UPLOAD_CHUNK: usize = 8 * 1024;

/// Slice size for handing the save down to the game over the loopback link.
pub const SAVE_TO_GAME_CHUNK: usize = 1024;

/// What is to be done about an event.
pub enum Step {
    /// Remember the token of the session, and write it down.
    StoreToken(String),
    /// Forget the token.
    ClearToken,
    /// Send the game its sign-in state, and remember it for a game that attaches later.
    Status(Vec<u8>),
    /// Send the game the save summary, and remember it.
    Profile(Vec<u8>),
    /// Send the game this frame.
    Game(Vec<u8>),
    /// Send the server this message.
    Server(ClientControl),
    /// Open the player's browser at this address.
    Browse(String),
    /// The session is over.
    End,
    /// The session failed, for this reason.
    Fail(String),
    /// Let the last frame reach the game, and go away: another client owns the character.
    Quit,
}

/// Where a session stands.
pub struct Relay {
    /// The client keeps the identity it was given and signs in through no browser.
    pub fixed_token: bool,
    /// The name of the character, once signed in.
    pub player_name: String,
    /// The login that the browser has not finished yet.
    pub pending_ticket: Option<String>,
    pub latest_pose: Option<Pose>,
    /// The save arrives in slices; this is where they are put back together.
    pub save_image: Vec<u8>,
}

// ---------------------------------------------------------------------------------------------
// The model
// ---------------------------------------------------------------------------------------------

/// The frame of a sign-in state.
pub open spec fn status_frame(state: u8, name: Seq<char>, url: Seq<char>) -> Seq<u8> {
    ipc::framed(seq![ipc::MSG_STATUS, state] + ipc::text_field(name, 16) + ipc::text_field(url, 192))
}

/// The step sends this sign-in state.
pub open spec fn is_status(s: Step, state: u8, name: Seq<char>, url: Seq<char>) -> bool {
    s matches Step::Status(f) && f@ == status_frame(state, name, url)
}

/// The step sends the game this body.
pub open spec fn is_frame(s: Step, body: Seq<u8>) -> bool {
    s matches Step::Game(f) && f@ == ipc::framed(body)
}

/// The kind of a line of chat as the game knows it.
pub open spec fn chat_kind(target: ChatTarget) -> u8 {
    match target {
        ChatTarget::Global => CHAT_GLOBAL,
        ChatTarget::Local => CHAT_LOCAL,
        ChatTarget::Private(_) => CHAT_PRIVATE,
    }
}

/// The session has this ticket pending.
pub open spec fn awaits(pending: Option<String>, ticket: Seq<char>) -> bool {
    pending is Some && pending->0@ == ticket
}

/// What stands of a session besides what an event changes.
pub open spec fn same_session(a: Relay, b: Relay) -> bool {
    &&& a.fixed_token == b.fixed_token
    &&& a.player_name@ == b.player_name@
    &&& a.pending_ticket == b.pending_ticket
    &&& a.latest_pose == b.latest_pose
    &&& a.save_image@ == b.save_image@
}

/// What the sign-in state of a session is worth: everything but the name and the ticket.
pub open spec fn same_besides_sign_in(a: Relay, b: Relay) -> bool {
    &&& a.fixed_token == b.fixed_token
    &&& a.latest_pose == b.latest_pose
    &&& a.save_image@ == b.save_image@
}

// ---------------------------------------------------------------------------------------------
// Starting
// ---------------------------------------------------------------------------------------------

/// How long to wait after an attempt, and how long after the next: a session that closed cleanly
/// starts over at one second, and each wait is twice the last, up to half a minute.
pub fn backoff(wait: u64, closed: bool) -> (r: (u64, u64))
    requires
        wait <= 30,
    ensures
        r.0 == (if closed {
            1
        } else {
            wait
        }),
        r.1 == (if r.0 * 2 <= 30 {
            (r.0 * 2) as u64
        } else {
            30
        }),
{
    let now: u64 = if closed {
        1
    } else {
        wait
    };
    let next: u64 = now * 2;
    if next <= 30 {
        (now, next)
    } else {
        (now, 30)
    }
}

/// What a client says first. The server does not see a stream until it carries data.
pub fn hello(token: Option<String>, client_version: &str, mode: &str) -> (r: ClientControl)
    ensures
        match r {
            ClientControl::Hello { protocol_version, token: t, client_version: v, mode: m } => {
                &&& protocol_version == PROTOCOL_VERSION
                &&& t == token
                &&& v@ == client_version@
                &&& m@ == mode@
            },
            _ => false,
        },
{
    ClientControl::Hello {
        protocol_version: PROTOCOL_VERSION,
        token,
        client_version: client_version.to_owned(),
        mode: mode.to_owned(),
    }
}

fn status(state: u8, name: &str, url: &str) -> (r: Step)
    ensures
        is_status(r, state, name@, url@),
{
    Step::Status(ipc::encode_status(state, name, url))
}

fn empty_text() -> (r: String)
    ensures
        r@ == Seq::<char>::empty(),
{
    String::new()
}

impl Relay {
    /// A session that was just opened.
    pub fn new(fixed_token: bool) -> (r: Self)
        ensures
            r.fixed_token == fixed_token,
            r.player_name@ == Seq::<char>::empty(),
            r.pending_ticket is None,
            r.latest_pose is None,
            r.save_image@ == Seq::<u8>::empty(),
    {
        Relay {
            fixed_token,
            player_name: String::new(),
            pending_ticket: None,
            latest_pose: None,
            save_image: Vec::new(),
        }
    }

    /// Whether the session has this ticket pending.
    fn is_pending(&self, ticket: &str) -> (r: bool)
        ensures
            r == awaits(self.pending_ticket, ticket@),
    {
        match &self.pending_ticket {
            Some(t) => text::is_text(t, ticket),
            None => false,
        }
    }
}

// ---------------------------------------------------------------------------------------------
// From the server
// ---------------------------------------------------------------------------------------------

/// What a sign-in state of the server comes to. Signing in stores the token, unless it is fixed,
/// and tells the game the profile before the state. A login that is needed is shown to the player,
/// and the browser opened the first time a ticket is seen; a fixed token instead fails. A refusal
/// drops the token, unless it is fixed, and fails.
pub open spec fn sign_in_steps(before: Relay, msg: ServerControl, steps: Seq<Step>, after: Relay) -> bool {
    let none = Seq::<char>::empty();
    match msg {
        ServerControl::Welcome { player_id, profile, token } => {
            let k = if before.fixed_token { 0int } else { 1int };
            &&& steps.len() == k + 2
            &&& !before.fixed_token ==> steps[0] == Step::StoreToken(token)
            &&& steps[k] matches Step::Profile(f) && f@ == profile_frame(profile)
            &&& is_status(steps[k + 1], AUTH_ONLINE, profile.name@, none)
            &&& after.player_name@ == profile.name@
            &&& after.pending_ticket is None
            &&& same_besides_sign_in(before, after)
        },
        ServerControl::AuthRequired { ticket, login_url } => if before.fixed_token {
            &&& steps.len() == 2
            &&& is_status(steps[0], AUTH_OFFLINE, none, none)
            &&& steps[1] matches Step::Fail(why) && why@ == "fixed token refused"@
            &&& same_session(before, after)
        } else {
            &&& steps.len() == (if awaits(before.pending_ticket, ticket@) {
                1int
            } else {
                3int
            })
            &&& is_status(steps[0], AUTH_NEEDS_LOGIN, none, login_url@)
            &&& !awaits(before.pending_ticket, ticket@) ==> {
                &&& steps[1] matches Step::Browse(url) && url@ == login_url@
                &&& is_status(steps[2], AUTH_AWAITING_BROWSER, none, login_url@)
            }
            &&& after.player_name@ == before.player_name@
            &&& awaits(after.pending_ticket, ticket@)
            &&& same_besides_sign_in(before, after)
        },
        ServerControl::Rejected { reason } => {
            let k = if before.fixed_token { 0int } else { 1int };
            &&& steps.len() == k + 1
            &&& !before.fixed_token ==> steps[0] is ClearToken
            &&& steps[k] matches Step::Fail(why) && why@ == reason@
            &&& same_session(before, after)
        },
        ServerControl::Superseded { reason } => {
            &&& steps.len() == 2
            &&& is_status(steps[0], AUTH_SUPERSEDED, none, reason@)
            &&& steps[1] is Quit
            &&& same_session(before, after)
        },
        _ => true,
    }
}

/// The frame of a save summary.
pub open spec fn profile_frame(profile: crate::proto::quic::CharacterProfile) -> Seq<u8> {
    ipc::framed(
        seq![ipc::MSG_PROFILE, profile.graphics_id, profile.badges] + crate::bytes::bytes16(
            profile.pokedex_caught,
        ) + crate::bytes::bytes16(profile.pokedex_seen) + crate::bytes::bytes32(
            profile.play_time_seconds,
        ) + crate::bytes::bytes32(profile.money) + seq![profile.map_group, profile.map_num]
            + crate::bytes::bytes16(profile.x as u16) + crate::bytes::bytes16(profile.y as u16)
            + ipc::text_field(profile.name@, 16),
    )
}

/// What the game is sent of a message of the server that is relayed as it is; nothing of one that
/// is not.
pub open spec fn relayed(msg: ServerControl) -> Option<Seq<u8>> {
    match msg {
        ServerControl::Chat { from, target, text } => Some(
            seq![ipc::MSG_CHAT, chat_kind(target)] + ipc::text_field(from@, 24)
                + ipc::text_field(text@, 200),
        ),
        ServerControl::BattleInvitation { from, from_name } => Some(
            seq![ipc::MSG_BATTLE_INVITE] + crate::bytes::bytes32(from) + ipc::text_field(
                from_name@,
                16,
            ),
        ),
        ServerControl::BattleInvitationAnswered { from, from_name, accepted } => Some(
            seq![ipc::MSG_BATTLE_ANSWERED, ipc::flag_byte(accepted)] + crate::bytes::bytes32(from)
                + ipc::text_field(from_name@, 16),
        ),
        ServerControl::BattleInvitationFailed { reason } => Some(
            seq![ipc::MSG_BATTLE_FAILED] + ipc::text_field(reason@, 200),
        ),
        ServerControl::BattleStarting { opponent, opponent_name, link_id } => Some(
            seq![ipc::MSG_BATTLE_STARTING, link_id] + crate::bytes::bytes32(opponent)
                + ipc::text_field(opponent_name@, 16),
        ),
        ServerControl::Correction { pose } => Some(
            seq![ipc::MSG_CORRECTION, pose.map.group, pose.map.num] + crate::bytes::bytes16(
                pose.x as u16,
            ) + crate::bytes::bytes16(pose.y as u16) + seq![pose.facing, pose.elevation],
        ),
        ServerControl::LinkBlock { from_slot, bytes } => Some(
            seq![ipc::MSG_LINK_BLOCK, from_slot] + crate::bytes::bytes16(
                (bytes@.len() % 0x1_0000) as u16,
            ) + bytes@,
        ),
        _ => None,
    }
}

/// The message tells where the sign-in stands.
pub open spec fn is_sign_in(msg: ServerControl) -> bool {
    msg is Welcome || msg is AuthRequired || msg is Rejected || msg is Superseded
}

/// What a message of the server comes to: the sign-in is followed, what is for the game is relayed,
/// and anything else comes to nothing.
pub open spec fn server_steps(before: Relay, msg: ServerControl, steps: Seq<Step>, after: Relay) -> bool {
    if is_sign_in(msg) {
        sign_in_steps(before, msg, steps, after)
    } else {
        &&& same_session(before, after)
        &&& match relayed(msg) {
            Some(body) => steps.len() == 1 && is_frame(steps[0], body),
            None => steps.len() == 0,
        }
    }
}

fn kind_of(target: &ChatTarget) -> (r: u8)
    ensures
        r == chat_kind(*target),
{
    match target {
        ChatTarget::Global => CHAT_GLOBAL,
        ChatTarget::Local => CHAT_LOCAL,
        ChatTarget::Private(_) => CHAT_PRIVATE,
    }
}

/// What the game is sent of a message of the server that is relayed as it is.
fn relay_frame(msg: &ServerControl) -> (r: Option<Vec<u8>>)
    ensures
        match r {
            Some(f) => relayed(*msg) is Some && f@ == ipc::framed(relayed(*msg)->0),
            None => relayed(*msg) is None,
        },
{
    match msg {
        ServerControl::Chat { from, target, text } => Some(
            ipc::encode_chat(kind_of(target), from, text),
        ),
        ServerControl::BattleInvitation { from, from_name } => Some(
            ipc::encode_battle_invite(*from, from_name),
        ),
        ServerControl::BattleInvitationAnswered { from, from_name, accepted } => Some(
            ipc::encode_battle_answered(*from, from_name, *accepted),
        ),
        ServerControl::BattleInvitationFailed { reason } => Some(ipc::encode_battle_failed(reason)),
        ServerControl::BattleStarting { opponent, opponent_name, link_id } => Some(
            ipc::encode_battle_starting(*opponent, opponent_name, *link_id),
        ),
        ServerControl::Correction { pose } => Some(ipc::encode_correction(pose)),
        ServerControl::LinkBlock { from_slot, bytes } => Some(
            ipc::encode_link_block(*from_slot, bytes),
        ),
        _ => None,
    }
}

impl Relay {
    /// Decides what to do about a message of the server.
    pub fn server(&mut self, msg: ServerControl) -> (r: Vec<Step>)
        ensures
            server_steps(*old(self), msg, r@, *final(self)),
    {
        let mut steps: Vec<Step> = Vec::new();
        match msg {
            ServerControl::Welcome { profile, token, .. } => {
                let frame: Vec<u8> = ipc::encode_profile(&profile);
                let state: Step = status(AUTH_ONLINE, &profile.name, &empty_text());
                if !self.fixed_token {
                    steps.push(Step::StoreToken(token));
                }
                steps.push(Step::Profile(frame));
                steps.push(state);
                self.player_name = profile.name;
                self.pending_ticket = None;
                steps
            },
            ServerControl::AuthRequired { ticket, login_url } => {
                if self.fixed_token {
                    // A browser here would sign this client in as whoever is at the keyboard.
                    steps.push(status(AUTH_OFFLINE, &empty_text(), &empty_text()));
                    steps.push(Step::Fail("fixed token refused".to_owned()));
                    return steps;
                }
                let is_new: bool = !self.is_pending(&ticket);
                self.pending_ticket = Some(ticket);
                steps.push(status(AUTH_NEEDS_LOGIN, &empty_text(), &login_url));
                if is_new {
                    let state: Step = status(AUTH_AWAITING_BROWSER, &empty_text(), &login_url);
                    steps.push(Step::Browse(login_url));
                    steps.push(state);
                }
                steps
            },
            ServerControl::Rejected { reason } => {
                // A stale token is the common cause; a fixed one is the client's only identity.
                if !self.fixed_token {
                    steps.push(Step::ClearToken);
                }
                steps.push(Step::Fail(reason));
                steps
            },
            ServerControl::Superseded { reason } => {
                steps.push(status(AUTH_SUPERSEDED, &empty_text(), &reason));
                steps.push(Step::Quit);
                steps
            },
            other => {
                match relay_frame(&other) {
                    Some(frame) => {
                        steps.push(Step::Game(frame));
                    },
                    None => {},
                }
                steps
            },
        }
    }
}

/// The entries of a snapshot are those of the players that the server described.
pub open spec fn same_players(entries: Seq<SnapshotEntry>, players: Seq<RemotePlayer>) -> bool {
    &&& entries.len() == players.len()
    &&& forall|i: int|
        0 <= i < players.len() ==> {
            &&& (#[trigger] entries[i]).player_id == players[i].player_id
            &&& entries[i].name@ == players[i].name@
            &&& entries[i].graphics_id == players[i].graphics_id
            &&& entries[i].pose == players[i].pose
        }
}

/// The frame that the game is sent of a snapshot.
pub fn snapshot_frame(players: &Vec<RemotePlayer>) -> (r: Vec<u8>)
    ensures
        exists|entries: Seq<SnapshotEntry>| #[trigger]
            same_players(entries, players@) && r@ == ipc::framed(
                seq![ipc::MSG_SNAPSHOT] + crate::bytes::bytes16(
                    (players@.len() % 0x1_0000) as u16,
                ) + ipc::entries_bytes(entries),
            ),
{
    let mut entries: Vec<SnapshotEntry> = Vec::new();
    let mut i: usize = 0;
    while i < players.len()
        invariant
            i <= players@.len(),
            same_players(entries@, players@.subrange(0, i as int)),
        decreases players@.len() - i,
    {
        let p: &RemotePlayer = &players[i];
        entries.push(
            SnapshotEntry {
                player_id: p.player_id,
                name: p.name.clone(),
                graphics_id: p.graphics_id,
                pose: p.pose,
            },
        );
        i = i + 1;
    }
    assert(players@.subrange(0, i as int) =~= players@);
    assert(same_players(entries@, players@));
    ipc::encode_snapshot(&entries)
}

/// The frames of slices of a save on their way to the game.
pub open spec fn are_save_frames(frames: Seq<Vec<u8>>, slices: Seq<Slice>, total: u32) -> bool {
    &&& frames.len() == slices.len()
    &&& forall|i: int|
        0 <= i < frames.len() ==> (#[trigger] frames[i])@ == ipc::framed(
            seq![ipc::MSG_SAVE_IMAGE] + crate::bytes::bytes32(slices[i].offset)
                + crate::bytes::bytes32(total) + crate::bytes::bytes16(
                (slices[i].bytes@.len() % 0x1_0000) as u16,
            ) + slices[i].bytes@,
        )
}

/// The length that the server announces a save with, where it can be genuine.
pub fn save_len(prefix: &[u8; 4]) -> (r: Result<u32, u32>)
    ensures
        ({
            let len = crate::bytes::le32(prefix@, 0);
            r == if len <= MAX_SAVE_BYTES {
                Ok::<u32, u32>(len)
            } else {
                Err::<u32, u32>(len)
            }
        }),
{
    let len: u32 = crate::bytes::get32(prefix.as_slice(), 0);
    if len as usize <= MAX_SAVE_BYTES {
        Ok(len)
    } else {
        Err(len)
    }
}

/// Cuts a save into the frames that the game is sent.
pub fn save_frames(image: &Vec<u8>) -> (r: Vec<Vec<u8>>)
    requires
        image@.len() <= MAX_SAVE_BYTES,
    ensures
        exists|slices: Seq<Slice>| #[trigger]
            chunks::are_slices(slices, image@, SAVE_TO_GAME_CHUNK as int) && are_save_frames(
                r@,
                slices,
                image@.len() as u32,
            ),
{
    let slices: Vec<Slice> = chunks::cut(image, SAVE_TO_GAME_CHUNK);
    let total: u32 = image.len() as u32;
    let mut out: Vec<Vec<u8>> = Vec::new();
    let mut i: usize = 0;
    while i < slices.len()
        invariant
            i <= slices@.len(),
            are_save_frames(out@, slices@.subrange(0, i as int), total),
        decreases slices@.len() - i,
    {
        out.push(ipc::encode_save_image(slices[i].offset, total, &slices[i].bytes));
        i = i + 1;
    }
    assert(slices@.subrange(0, i as int) =~= slices@);
    assert(are_save_frames(out@, slices@, total));
    out
}

// ---------------------------------------------------------------------------------------------
// From the game
// ---------------------------------------------------------------------------------------------

/// Whom a line of the game's chat is for.
pub open spec fn is_target(t: ChatTarget, kind: u8, to: Seq<char>) -> bool {
    if kind == CHAT_LOCAL {
        t is Local
    } else if kind == CHAT_PRIVATE {
        t matches ChatTarget::Private(s) && s@ == to
    } else {
        t is Global
    }
}

/// The steps send the server these slices of a save, in order.
pub open spec fn are_uploads(steps: Seq<Step>, slices: Seq<Slice>, total: u32) -> bool {
    &&& steps.len() == slices.len()
    &&& forall|i: int|
        0 <= i < steps.len() ==> match #[trigger] steps[i] {
            Step::Server(ClientControl::SaveUpload { offset, total: t, bytes }) => {
                offset == slices[i].offset && t == total && bytes@ == slices[i].bytes@
            },
            _ => false,
        }
}

/// What a message of the game comes to. A slice of the save is put with the others, and a save that
/// is whole goes to the server in slices. Logging out forgets the token, unless it is fixed.
pub open spec fn game_steps(before: Relay, msg: GameMessage, steps: Seq<Step>, after: Relay) -> bool {
    let none = Seq::<char>::empty();
    match msg {
        GameMessage::SelfState { pose, .. } => {
            &&& steps.len() == 0
            &&& after.latest_pose == Some(pose)
            &&& same_session(Relay { latest_pose: Some(pose), ..before }, after)
        },
        GameMessage::BeginLogin => {
            &&& same_session(before, after)
            &&& steps.len() == 1
            &&& if before.pending_ticket is Some {
                steps[0] == Step::Server(ClientControl::BeginLogin)
            } else {
                is_status(steps[0], AUTH_ONLINE, before.player_name@, none)
            }
        },
        GameMessage::CancelLogin => {
            &&& same_session(before, after)
            &&& steps.len() == 1
            &&& is_status(steps[0], AUTH_OFFLINE, none, none)
        },
        GameMessage::ChatSend { kind, target, text } => {
            &&& same_session(before, after)
            &&& steps.len() == 1
            &&& steps[0] matches Step::Server(ClientControl::Chat { target: t, text: x })
            &&& is_target(t, kind, target@)
            &&& x@ == text@
        },
        GameMessage::RequestBattle { target } => {
            &&& same_session(before, after)
            &&& steps =~= seq![Step::Server(ClientControl::RequestBattle { target })]
        },
        GameMessage::RespondToBattle { from, accepted } => {
            &&& same_session(before, after)
            &&& steps =~= seq![Step::Server(ClientControl::RespondToBattle { from, accepted })]
        },
        GameMessage::LinkBlock { bytes } => {
            &&& same_session(before, after)
            &&& steps =~= seq![Step::Server(ClientControl::LinkBlock { bytes })]
        },
        GameMessage::BattleEnded => {
            &&& same_session(before, after)
            &&& steps =~= seq![Step::Server(ClientControl::BattleEnded)]
        },
        GameMessage::Attached => {
            &&& same_session(before, after)
            &&& steps =~= (if before.player_name@.len() > 0 {
                seq![Step::Server(ClientControl::Resync)]
            } else {
                Seq::<Step>::empty()
            })
        },
        GameMessage::Logout => {
            &&& same_session(before, after)
            &&& steps =~= (if before.fixed_token {
                seq![Step::Server(ClientControl::Goodbye), Step::End]
            } else {
                seq![Step::ClearToken, Step::Server(ClientControl::Goodbye), Step::End]
            })
        },
        GameMessage::SaveChunk { offset, total, bytes } => {
            let image = chunks::collected(before.save_image@, offset as int, bytes@);
            &&& same_session(Relay { save_image: after.save_image, ..before }, after)
            &&& if chunks::completes(before.save_image@, offset as int, bytes@, total as int) {
                &&& after.save_image@ == Seq::<u8>::empty()
                &&& exists|slices: Seq<Slice>| #[trigger]
                    chunks::are_slices(slices, image, SAVE_UPLOAD_CHUNK as int) && are_uploads(
                        steps,
                        slices,
                        total,
                    )
            } else {
                &&& steps.len() == 0
                &&& after.save_image@ == image
            }
        },
    }
}

impl Relay {
    /// Takes in a slice of the save that the game sends. A save that is whole is forwarded in
    /// slices, so that it never blocks the control stream that chat and battles share.
    fn take_slice(&mut self, offset: u32, total: u32, bytes: &Vec<u8>) -> (r: Vec<Step>)
        ensures
            same_session(
                Relay { save_image: final(self).save_image, ..*old(self) },
                *final(self),
            ),
            if chunks::completes(
                old(self).save_image@,
                offset as int,
                bytes@,
                total as int,
            ) {
                let image = chunks::collected(old(self).save_image@, offset as int, bytes@);
                &&& final(self).save_image@ == Seq::<u8>::empty()
                &&& exists|slices: Seq<Slice>| #[trigger]
                    chunks::are_slices(slices, image, SAVE_UPLOAD_CHUNK as int) && are_uploads(
                        r@,
                        slices,
                        total,
                    )
            } else {
                &&& r@.len() == 0
                &&& final(self).save_image@ == chunks::collected(
                    old(self).save_image@,
                    offset as int,
                    bytes@,
                )
            },
    {
        let mut steps: Vec<Step> = Vec::new();
        match chunks::take_game_slice(&mut self.save_image, offset, total, bytes) {
            Some(image) => {
                let slices: Vec<Slice> = chunks::cut(&image, SAVE_UPLOAD_CHUNK);
                let ghost all = slices@;
                let mut rest: Vec<Slice> = slices;
                rest = reversed(rest);
                while rest.len() > 0
                    invariant
                        rest@.len() <= all.len(),
                        forall|k: int|
                            0 <= k < rest@.len() ==> #[trigger] rest@[k] == all[all.len() - 1 - k],
                        are_uploads(steps@, all.subrange(0, all.len() - rest@.len()), total),
                    decreases rest@.len(),
                {
                    let ghost n = all.len() - rest@.len();
                    assert(rest@[rest@.len() - 1] == all[n]);
                    match rest.pop() {
                        Some(slice) => {
                            assert(slice == all[n]);
                            steps.push(
                                Step::Server(
                                    ClientControl::SaveUpload {
                                        offset: slice.offset,
                                        total,
                                        bytes: slice.bytes,
                                    },
                                ),
                            );
                        },
                        None => {},
                    }
                }
                assert(all.subrange(0, all.len() as int) =~= all);
                assert(are_uploads(steps@, all, total));
            },
            None => {},
        }
        steps
    }

    /// Decides what to do about a message of the game.
    pub fn game(&mut self, msg: GameMessage) -> (r: Vec<Step>)
        ensures
            game_steps(*old(self), msg, r@, *final(self)),
    {
        let mut steps: Vec<Step> = Vec::new();
        match msg {
            GameMessage::SelfState { pose, .. } => {
                self.latest_pose = Some(pose);
            },
            GameMessage::BeginLogin => {
                if self.pending_ticket.is_some() {
                    steps.push(Step::Server(ClientControl::BeginLogin));
                } else {
                    // Already signed in; announced again so that the menu updates.
                    steps.push(status(AUTH_ONLINE, &self.player_name, &empty_text()));
                }
            },
            GameMessage::CancelLogin => {
                steps.push(status(AUTH_OFFLINE, &empty_text(), &empty_text()));
            },
            GameMessage::ChatSend { kind, target, text } => {
                let target: ChatTarget = if kind == CHAT_LOCAL {
                    ChatTarget::Local
                } else if kind == CHAT_PRIVATE {
                    ChatTarget::Private(target)
                } else {
                    ChatTarget::Global
                };
                steps.push(Step::Server(ClientControl::Chat { target, text }));
            },
            GameMessage::RequestBattle { target } => {
                steps.push(Step::Server(ClientControl::RequestBattle { target }));
            },
            GameMessage::RespondToBattle { from, accepted } => {
                steps.push(Step::Server(ClientControl::RespondToBattle { from, accepted }));
            },
            GameMessage::SaveChunk { offset, total, bytes } => {
                return self.take_slice(offset, total, &bytes);
            },
            GameMessage::LinkBlock { bytes } => {
                steps.push(Step::Server(ClientControl::LinkBlock { bytes }));
            },
            GameMessage::BattleEnded => {
                steps.push(Step::Server(ClientControl::BattleEnded));
            },
            GameMessage::Attached => {
                // Only worth asking once signed in: before that the sign-in brings the same data.
                if !self.player_name.as_str().is_empty() {
                    steps.push(Step::Server(ClientControl::Resync));
                }
            },
            GameMessage::Logout => {
                if !self.fixed_token {
                    steps.push(Step::ClearToken);
                }
                steps.push(Step::Server(ClientControl::Goodbye));
                steps.push(Step::End);
            },
        }
        steps
    }

    /// Periodically: the position to push upstream, once the game has told it.
    pub fn movement(&self) -> (r: Option<Pose>)
        ensures
            r == self.latest_pose,
    {
        self.latest_pose
    }

    /// Periodically: asks whether the browser login has finished, while one is pending.
    pub fn login_poll(&self) -> (r: Option<ClientControl>)
        ensures
            match r {
                Some(ClientControl::PollLogin { ticket }) => awaits(self.pending_ticket, ticket@),
                Some(_) => false,
                None => self.pending_ticket is None,
            },
    {
        match &self.pending_ticket {
            Some(t) => Some(ClientControl::PollLogin { ticket: t.clone() }),
            None => None,
        }
    }
}

/// The same slices, last first.
fn reversed(slices: Vec<Slice>) -> (r: Vec<Slice>)
    ensures
        r@.len() == slices@.len(),
        forall|k: int| 0 <= k < r@.len() ==> #[trigger] r@[k] == slices@[slices@.len() - 1 - k],
{
    let ghost all = slices@;
    let mut rest: Vec<Slice> = slices;
    let mut out: Vec<Slice> = Vec::new();
    while rest.len() > 0
        invariant
            rest@.len() + out@.len() == all.len(),
            rest@ =~= all.subrange(0, rest@.len() as int),
            forall|k: int| 0 <= k < out@.len() ==> #[trigger] out@[k] == all[all.len() - 1 - k],
        decreases rest@.len(),
    {
        match rest.pop() {
            Some(s) => {
                out.push(s);
            },
            None => {},
        }
    }
    out
}

// ---------------------------------------------------------------------------------------------
// Laws
// ---------------------------------------------------------------------------------------------

/// None of these steps touches the token or opens a browser.
pub open spec fn keep_token(steps: Seq<Step>) -> bool {
    forall|i: int|
        0 <= i < steps.len() ==> !(#[trigger] steps[i] is StoreToken) && !(steps[i] is ClearToken)
            && !(steps[i] is Browse)
}

/// A fixed token is never rewritten, never dropped and never leads to a browser, whatever the
/// server says; and it stays fixed.
pub proof fn law_a_fixed_token_is_kept(
    before: Relay,
    msg: ServerControl,
    steps: Seq<Step>,
    after: Relay,
)
    requires
        before.fixed_token,
        server_steps(before, msg, steps, after),
    ensures
        keep_token(steps),
        after.fixed_token,
{
}

/// A fixed token is never rewritten, never dropped and never leads to a browser, whatever the game
/// says, logging out included; and it stays fixed.
pub proof fn law_the_game_cannot_drop_a_fixed_token(
    before: Relay,
    msg: GameMessage,
    steps: Seq<Step>,
    after: Relay,
)
    requires
        before.fixed_token,
        game_steps(before, msg, steps, after),
    ensures
        keep_token(steps),
        after.fixed_token,
{
}

/// The browser is opened once for a ticket: seeing it again opens none.
pub proof fn law_one_browser_per_ticket(
    before: Relay,
    ticket: String,
    url: String,
    steps: Seq<Step>,
    middle: Relay,
    again: Seq<Step>,
    after: Relay,
)
    requires
        !before.fixed_token,
        sign_in_steps(
            before,
            ServerControl::AuthRequired { ticket, login_url: url },
            steps,
            middle,
        ),
        sign_in_steps(
            middle,
            ServerControl::AuthRequired { ticket, login_url: url },
            again,
            after,
        ),
    ensures
        forall|i: int| 0 <= i < again.len() ==> !(#[trigger] again[i] is Browse),
{
}

} // verus!
