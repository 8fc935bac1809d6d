//! What the game is told, byte by byte, and what it is asked for.

use crate::bytes;
use crate::net::browser;
use crate::net::ipc as net_ipc;
use crate::net::ipc::LinkView;
use crate::net::session;
use crate::net::session::{Relay, Step};
use crate::proto::ipc;
use crate::proto::ipc::{GameMessage, SnapshotEntry};
use crate::proto::ipc_laws::{
    law_entries_stand_where_the_game_looks, lemma_half, lemma_word, lemma_wrapped, wrapped,
};
use crate::proto::quic::{
    CharacterProfile, ChatTarget, ClientControl, RemotePlayer, ServerControl,
};
use crate::server::quic::chunks;
use crate::server::quic::chunks::Slice;
use crate::server::save_parse::parse_laws::num;
use crate::text;
use vstd::prelude::*;

verus! {

// ---------------------------------------------------------------------------------------------
// From the server to the game
// ---------------------------------------------------------------------------------------------

/// A line of chat reaches the game as it was: of its kind, with the name of who said it and what was
/// said, each in a field of its own.
pub proof fn law_chat_reaches_the_game(msg: ServerControl)
    requires
        msg is Chat,
    ensures
        ({
            let b = session::relayed(msg)->0;
            &&& session::relayed(msg) is Some
            &&& b.len() == 2 + 24 + 200
            &&& b[0] == 3
            &&& b[1] == (match msg->Chat_target {
                ChatTarget::Global => 0u8,
                ChatTarget::Local => 1u8,
                ChatTarget::Private(_) => 2u8,
            })
            &&& b.subrange(2, 26) == ipc::text_field(msg->Chat_from@, 24)
            &&& b.subrange(26, 226) == ipc::text_field(msg->Chat_text@, 200)
        }),
{
    let b = session::relayed(msg)->0;
    ipc::lemma_text_field(msg->Chat_from@, 24);
    ipc::lemma_text_field(msg->Chat_text@, 200);
    assert(b.subrange(2, 26) =~= ipc::text_field(msg->Chat_from@, 24));
    assert(b.subrange(26, 226) =~= ipc::text_field(msg->Chat_text@, 200));
}

/// A challenge, its answer and the start of a battle reach the game with the number and the name of
/// the other player, the answer with whether it was yes, and the start with the slot.
pub proof fn law_challenges_reach_the_game(msg: ServerControl)
    ensures
        match msg {
            ServerControl::BattleInvitation { from, from_name } => {
                let b = session::relayed(msg)->0;
                &&& session::relayed(msg) is Some
                &&& b.len() == 21
                &&& b[0] == 5
                &&& num(b, 1, 4) == from
                &&& b.subrange(5, 21) == ipc::text_field(from_name@, 16)
            },
            ServerControl::BattleInvitationAnswered { from, from_name, accepted } => {
                let b = session::relayed(msg)->0;
                &&& session::relayed(msg) is Some
                &&& b.len() == 22
                &&& b[0] == 6
                &&& b[1] == (if accepted {
                    1u8
                } else {
                    0u8
                })
                &&& num(b, 2, 4) == from
                &&& b.subrange(6, 22) == ipc::text_field(from_name@, 16)
            },
            ServerControl::BattleStarting { opponent, opponent_name, link_id } => {
                let b = session::relayed(msg)->0;
                &&& session::relayed(msg) is Some
                &&& b.len() == 22
                &&& b[0] == 9
                &&& b[1] == link_id
                &&& num(b, 2, 4) == opponent
                &&& b.subrange(6, 22) == ipc::text_field(opponent_name@, 16)
            },
            ServerControl::BattleInvitationFailed { reason } => {
                let b = session::relayed(msg)->0;
                &&& session::relayed(msg) is Some
                &&& b.len() == 201
                &&& b[0] == 7
                &&& b.subrange(1, 201) == ipc::text_field(reason@, 200)
            },
            _ => true,
        },
{
    let b = session::relayed(msg)->0;
    match msg {
        ServerControl::BattleInvitation { from, from_name } => {
            ipc::lemma_text_field(from_name@, 16);
            assert(b.subrange(1, 5) =~= bytes::bytes32(from));
            lemma_word(b, 1, from);
            assert(b.subrange(5, 21) =~= ipc::text_field(from_name@, 16));
        },
        ServerControl::BattleInvitationAnswered { from, from_name, accepted } => {
            ipc::lemma_text_field(from_name@, 16);
            assert(b.subrange(2, 6) =~= bytes::bytes32(from));
            lemma_word(b, 2, from);
            assert(b.subrange(6, 22) =~= ipc::text_field(from_name@, 16));
        },
        ServerControl::BattleStarting { opponent, opponent_name, link_id } => {
            ipc::lemma_text_field(opponent_name@, 16);
            assert(b.subrange(2, 6) =~= bytes::bytes32(opponent));
            lemma_word(b, 2, opponent);
            assert(b.subrange(6, 22) =~= ipc::text_field(opponent_name@, 16));
        },
        ServerControl::BattleInvitationFailed { reason } => {
            ipc::lemma_text_field(reason@, 200);
            assert(b.subrange(1, 201) =~= ipc::text_field(reason@, 200));
        },
        _ => {},
    }
}

/// A correction reaches the game with the map and both coordinates, and a block of the opponent's
/// with the slot that it is from, its length and all its bytes.
pub proof fn law_corrections_and_blocks_reach_the_game(msg: ServerControl)
    ensures
        match msg {
            ServerControl::Correction { pose } => {
                let b = session::relayed(msg)->0;
                &&& session::relayed(msg) is Some
                &&& b.len() == 9
                &&& b[0] == 10
                &&& b[1] == pose.map.group && b[2] == pose.map.num
                &&& num(b, 3, 2) == wrapped(pose.x)
                &&& num(b, 5, 2) == wrapped(pose.y)
                &&& b[7] == pose.facing && b[8] == pose.elevation
            },
            ServerControl::LinkBlock { from_slot, bytes } => {
                let b = session::relayed(msg)->0;
                &&& session::relayed(msg) is Some
                &&& b.len() == 4 + bytes@.len()
                &&& b[0] == 11
                &&& b[1] == from_slot
                &&& bytes@.len() < 0x1_0000 ==> num(b, 2, 2) == bytes@.len()
                &&& b.subrange(4, b.len() as int) == bytes@
            },
            _ => true,
        },
{
    let b = session::relayed(msg)->0;
    match msg {
        ServerControl::Correction { pose } => {
            lemma_wrapped(pose.x);
            lemma_wrapped(pose.y);
            assert(b.subrange(3, 5) =~= bytes::bytes16(pose.x as u16));
            lemma_half(b, 3, pose.x as u16);
            assert(b.subrange(5, 7) =~= bytes::bytes16(pose.y as u16));
            lemma_half(b, 5, pose.y as u16);
        },
        ServerControl::LinkBlock { from_slot, bytes: sent } => {
            let n = (sent@.len() % 0x1_0000) as u16;
            assert(b.subrange(2, 4) =~= bytes::bytes16(n));
            lemma_half(b, 2, n);
            assert(b.subrange(4, b.len() as int) =~= sent@);
        },
        _ => {},
    }
}

/// The frame of a sign-in state says the state, the name and the address, each at its place.
pub proof fn law_sign_in_states_stand_where_the_game_looks(
    state: u8,
    name: Seq<char>,
    url: Seq<char>,
)
    ensures
        ({
            let f = session::status_frame(state, name, url);
            &&& f.len() == 4 + 210
            &&& num(f, 0, 4) == 210
            &&& f[4] == 1 && f[5] == state
            &&& f.subrange(6, 22) == ipc::text_field(name, 16)
            &&& f.subrange(22, 214) == ipc::text_field(url, 192)
        }),
{
    let f = session::status_frame(state, name, url);
    ipc::lemma_text_field(name, 16);
    ipc::lemma_text_field(url, 192);
    assert(f.subrange(0, 4) =~= bytes::bytes32(210));
    lemma_word(f, 0, 210);
    assert(f.subrange(6, 22) =~= ipc::text_field(name, 16));
    assert(f.subrange(22, 214) =~= ipc::text_field(url, 192));
}

/// The frame of a save summary says each of its numbers at its place.
pub proof fn law_save_summaries_stand_where_the_game_looks(p: CharacterProfile)
    ensures
        ({
            let f = session::profile_frame(p);
            &&& f.len() == 4 + 37
            &&& num(f, 0, 4) == 37
            &&& f[4] == 4 && f[5] == p.graphics_id && f[6] == p.badges
            &&& num(f, 7, 2) == p.pokedex_caught
            &&& num(f, 9, 2) == p.pokedex_seen
            &&& num(f, 11, 4) == p.play_time_seconds
            &&& num(f, 15, 4) == p.money
            &&& f[19] == p.map_group && f[20] == p.map_num
            &&& num(f, 21, 2) == wrapped(p.x)
            &&& num(f, 23, 2) == wrapped(p.y)
            &&& f.subrange(25, 41) == ipc::text_field(p.name@, 16)
        }),
{
    let f = session::profile_frame(p);
    ipc::lemma_text_field(p.name@, 16);
    lemma_wrapped(p.x);
    lemma_wrapped(p.y);
    assert(f.subrange(0, 4) =~= bytes::bytes32(37));
    lemma_word(f, 0, 37);
    assert(f.subrange(7, 9) =~= bytes::bytes16(p.pokedex_caught));
    lemma_half(f, 7, p.pokedex_caught);
    assert(f.subrange(9, 11) =~= bytes::bytes16(p.pokedex_seen));
    lemma_half(f, 9, p.pokedex_seen);
    assert(f.subrange(11, 15) =~= bytes::bytes32(p.play_time_seconds));
    lemma_word(f, 11, p.play_time_seconds);
    assert(f.subrange(15, 19) =~= bytes::bytes32(p.money));
    lemma_word(f, 15, p.money);
    assert(f.subrange(21, 23) =~= bytes::bytes16(p.x as u16));
    lemma_half(f, 21, p.x as u16);
    assert(f.subrange(23, 25) =~= bytes::bytes16(p.y as u16));
    lemma_half(f, 23, p.y as u16);
    assert(f.subrange(25, 41) =~= ipc::text_field(p.name@, 16));
}

/// A save on its way to the game arrives whole: each frame says where its bytes belong, how many
/// there are in all and how many it carries, and these are the bytes of the image from there on.
pub proof fn law_saves_reach_the_game_whole(
    frames: Seq<Vec<u8>>,
    slices: Seq<Slice>,
    image: Seq<u8>,
    total: u32,
    k: int,
)
    requires
        chunks::are_slices(slices, image, 1024),
        session::are_save_frames(frames, slices, total),
        0 <= k < frames.len(),
        image.len() < 0x1_0000_0000,
    ensures
        ({
            let f = frames[k]@;
            let n = if image.len() >= 1024 * (k + 1) {
                1024int
            } else {
                image.len() - 1024 * k
            };
            &&& 0 < n
            &&& f.len() == 4 + 11 + n
            &&& num(f, 0, 4) == 11 + n
            &&& f[4] == 8
            &&& num(f, 5, 4) == 1024 * k
            &&& num(f, 9, 4) == total
            &&& num(f, 13, 2) == n
            &&& f.subrange(15, 15 + n) == image.subrange(1024 * k, 1024 * k + n)
        }),
{
    let f = frames[k]@;
    let s = slices[k];
    let n = s.bytes@.len();
    assert(s.offset == k * 1024);
    assert(k * 1024 <= (slices.len() - 1) * 1024) by (nonlinear_arith)
        requires
            k <= slices.len() - 1,
    ;
    assert(f.subrange(0, 4) =~= bytes::bytes32((11 + n) as u32));
    lemma_word(f, 0, (11 + n) as u32);
    assert(f.subrange(5, 9) =~= bytes::bytes32(s.offset));
    lemma_word(f, 5, s.offset);
    assert(f.subrange(9, 13) =~= bytes::bytes32(total));
    lemma_word(f, 9, total);
    assert(f.subrange(13, 15) =~= bytes::bytes16(n as u16));
    lemma_half(f, 13, n as u16);
    assert(f.subrange(15, 15 + n as int) =~= s.bytes@);
}

// ---------------------------------------------------------------------------------------------
// From the game to the server
// ---------------------------------------------------------------------------------------------

/// The kinds of chat mean the same both ways: a line that the game sends of the kind that a target
/// is shown as goes to such a target.
pub proof fn law_kinds_of_chat_mean_the_same_both_ways(t: ChatTarget, to: Seq<char>, u: ChatTarget)
    requires
        session::is_target(u, session::chat_kind(t), to),
    ensures
        t is Global <==> u is Global,
        t is Local <==> u is Local,
        t is Private ==> (u matches ChatTarget::Private(name) && name@ == to),
{
}

/// What the game asks of the server is passed on as it came, and a position is kept for the next
/// report; neither changes who is signed in.
pub proof fn law_the_game_is_passed_on(before: Relay, msg: GameMessage, steps: Seq<Step>, after: Relay)
    requires
        session::game_steps(before, msg, steps, after),
    ensures
        after.player_name@ == before.player_name@,
        after.fixed_token == before.fixed_token,
        after.pending_ticket == before.pending_ticket,
        match msg {
            GameMessage::SelfState { pose, .. } => steps.len() == 0 && after.latest_pose == Some(
                pose,
            ),
            GameMessage::ChatSend { kind, target, text } => {
                &&& steps.len() == 1
                &&& steps[0] matches Step::Server(ClientControl::Chat { target: t, text: x })
                &&& x@ == text@
                &&& kind == 1 ==> t is Local
                &&& kind == 2 ==> (t matches ChatTarget::Private(to) && to@ == target@)
                &&& kind != 1 && kind != 2 ==> t is Global
            },
            GameMessage::RequestBattle { target } => steps.len() == 1 && steps[0] == Step::Server(
                ClientControl::RequestBattle { target },
            ),
            GameMessage::RespondToBattle { from, accepted } => steps.len() == 1 && steps[0]
                == Step::Server(ClientControl::RespondToBattle { from, accepted }),
            GameMessage::LinkBlock { bytes } => steps.len() == 1 && steps[0] == Step::Server(
                ClientControl::LinkBlock { bytes },
            ),
            GameMessage::BattleEnded => steps.len() == 1 && steps[0] == Step::Server(
                ClientControl::BattleEnded,
            ),
            _ => after.latest_pose == before.latest_pose,
        },
{
}

/// A game that attaches asks for a fresh start of the session if and only if somebody is signed in;
/// one that logs out says goodbye, ends the session, and forgets the token unless it is fixed; and a
/// login that is asked for is passed on while one is outstanding.
pub proof fn law_what_the_game_does_to_the_session(
    before: Relay,
    msg: GameMessage,
    steps: Seq<Step>,
    after: Relay,
)
    requires
        session::game_steps(before, msg, steps, after),
    ensures
        match msg {
            GameMessage::Attached => {
                &&& steps.len() == (if before.player_name@.len() > 0 {
                    1int
                } else {
                    0int
                })
                &&& steps.len() == 1 ==> steps[0] == Step::Server(ClientControl::Resync)
            },
            GameMessage::Logout => {
                let n = steps.len() as int;
                &&& n == (if before.fixed_token {
                    2int
                } else {
                    3int
                })
                &&& !before.fixed_token ==> steps[0] is ClearToken
                &&& steps[n - 2] == Step::Server(ClientControl::Goodbye)
                &&& steps[n - 1] is End
            },
            GameMessage::BeginLogin => {
                &&& steps.len() == 1
                &&& before.pending_ticket is Some ==> steps[0] == Step::Server(
                    ClientControl::BeginLogin,
                )
                &&& before.pending_ticket is None ==> session::is_status(
                    steps[0],
                    4,
                    before.player_name@,
                    Seq::empty(),
                )
            },
            GameMessage::CancelLogin => steps.len() == 1 && session::is_status(
                steps[0],
                0,
                Seq::empty(),
                Seq::empty(),
            ),
            _ => true,
        },
{
}

/// A save of the game that has arrived whole goes up in slices of eight kibibytes, the last one
/// shorter or not, in order and without a gap, and is then forgotten; until it is whole, nothing goes
/// up.
pub proof fn law_whole_saves_go_up(
    before: Relay,
    offset: u32,
    total: u32,
    bytes: Vec<u8>,
    steps: Seq<Step>,
    after: Relay,
    k: int,
)
    requires
        session::game_steps(
            before,
            GameMessage::SaveChunk { offset, total, bytes },
            steps,
            after,
        ),
        offset > 0,
    ensures
        ({
            let image = before.save_image@ + bytes@;
            let whole = before.save_image@.len() == offset && image.len() == total;
            &&& !whole ==> steps.len() == 0
            &&& before.save_image@.len() == offset && !whole ==> after.save_image@ == image
            &&& before.save_image@.len() != offset ==> after.save_image@.len() == 0
            &&& whole ==> after.save_image@.len() == 0
            &&& whole && 0 <= k < steps.len() ==> {
                let n = if image.len() >= 8192 * (k + 1) {
                    8192int
                } else {
                    image.len() - 8192 * k
                };
                &&& 0 < n
                &&& steps[k] matches Step::Server(
                    ClientControl::SaveUpload { offset: at, total: all, bytes: part },
                ) && at == 8192 * k && all == total && part@ == image.subrange(
                    8192 * k,
                    8192 * k + n,
                )
            }
            &&& whole ==> 8192 * (steps.len() - 1) < image.len() <= 8192 * steps.len()
                || image.len() == 0
        }),
{
    let image = before.save_image@ + bytes@;
    if before.save_image@.len() == offset && image.len() == total {
        let slices = choose|slices: Seq<Slice>| #[trigger]
            chunks::are_slices(slices, image, session::SAVE_UPLOAD_CHUNK as int)
                && session::are_uploads(steps, slices, total);
        assert(chunks::are_slices(slices, image, 8192));
        assert(slices.len() == steps.len());
        if 0 <= k < steps.len() {
            assert(slices[k].offset == k * 8192);
            assert(k * 8192 <= (slices.len() - 1) * 8192) by (nonlinear_arith)
                requires
                    k <= slices.len() - 1,
            ;
            assert(steps[k] is Server);
        }
    }
}

/// Signing in is followed to its end: whoever is welcomed is told to the game as online, under the
/// name of the character, and the token is kept unless it is fixed; a refusal ends the session for
/// the reason given; and a character that signed in elsewhere is let go.
pub proof fn law_signing_in_is_followed(
    before: Relay,
    msg: ServerControl,
    steps: Seq<Step>,
    after: Relay,
)
    requires
        session::server_steps(before, msg, steps, after),
    ensures
        match msg {
            ServerControl::Welcome { profile, token, .. } => {
                let n = steps.len() as int;
                &&& n >= 2
                &&& session::is_status(steps[n - 1], 4, profile.name@, Seq::empty())
                &&& steps[n - 2] matches Step::Profile(f) && f@ == session::profile_frame(profile)
                &&& !before.fixed_token ==> n == 3 && steps[0] == Step::StoreToken(token)
                &&& before.fixed_token ==> n == 2
                &&& after.player_name@ == profile.name@
                &&& after.pending_ticket is None
            },
            ServerControl::Rejected { reason } => {
                let n = steps.len() as int;
                &&& n >= 1
                &&& steps[n - 1] matches Step::Fail(why) && why@ == reason@
                &&& !before.fixed_token ==> n == 2 && steps[0] is ClearToken
                &&& before.fixed_token ==> n == 1
            },
            ServerControl::Superseded { reason } => {
                &&& steps.len() == 2
                &&& session::is_status(steps[0], 5, Seq::empty(), reason@)
                &&& steps[1] is Quit
            },
            ServerControl::AuthRequired { ticket, login_url } => {
                &&& steps.len() >= 1
                &&& before.fixed_token ==> session::is_status(
                    steps[0],
                    0,
                    Seq::empty(),
                    Seq::empty(),
                ) && steps[1] is Fail
                &&& !before.fixed_token ==> {
                    &&& session::is_status(steps[0], 2, Seq::empty(), login_url@)
                    &&& after.pending_ticket is Some && after.pending_ticket->0@ == ticket@
                    &&& (before.pending_ticket is None || before.pending_ticket->0@ != ticket@)
                        <==> steps.len() == 3
                    &&& steps.len() == 3 ==> {
                        &&& steps[1] matches Step::Browse(url) && url@ == login_url@
                        &&& session::is_status(steps[2], 3, Seq::empty(), login_url@)
                    }
                }
            },
            _ => {
                &&& steps.len() <= 1
                &&& session::same_session(before, after)
            },
        },
{
}

/// A snapshot of the server reaches the game entry by entry: of each player the number, the name, the
/// looks and the pose.
pub proof fn law_snapshots_reach_the_game(
    entries: Seq<SnapshotEntry>,
    players: Seq<RemotePlayer>,
    i: int,
)
    requires
        session::same_players(entries, players),
        0 <= i < players.len(),
    ensures
        ({
            let all = ipc::entries_bytes(entries);
            let b = all.subrange(32 * i, 32 * i + 32);
            let p = players[i];
            &&& all.len() == 32 * players.len()
            &&& num(b, 0, 4) == p.player_id
            &&& b[4] == p.pose.map.group && b[5] == p.pose.map.num
            &&& num(b, 6, 2) == wrapped(p.pose.x)
            &&& num(b, 8, 2) == wrapped(p.pose.y)
            &&& b[10] == p.pose.facing && b[11] == p.graphics_id && b[12] == p.pose.elevation
            &&& b[13] == (if p.pose.moving {
                1u8
            } else {
                0u8
            })
            &&& b.subrange(14, 30) == ipc::text_field(p.name@, 16)
        }),
{
    law_entries_stand_where_the_game_looks(entries, i);
    assert(entries[i].player_id == players[i].player_id);
}

/// A game that attaches is told the sign-in state and the summaries of the two worlds, as far as
/// there are any, the state first; a save summary that is older than the game is not told.
pub proof fn law_a_new_game_is_told_where_things_stand(link: LinkView)
    ensures
        ({
            let told = net_ipc::replayed(link);
            &&& link.status is Some ==> told.len() >= 1 && told[0] == link.status->0
            &&& link.mode_profiles is Some ==> told.len() >= 1 && told.last()
                == link.mode_profiles->0
            &&& link.status is Some && link.mode_profiles is Some ==> told.len() == 2
            &&& link.status is Some != link.mode_profiles is Some ==> told.len() == 1
            &&& link.status is None && link.mode_profiles is None ==> told.len() == 0
        }),
{
}

// ---------------------------------------------------------------------------------------------
// The browser
// ---------------------------------------------------------------------------------------------

/// The text starts with this one.
pub open spec fn starts(s: Seq<char>, p: Seq<char>) -> bool {
    p.is_prefix_of(s)
}

/// A URL is opened if and only if it starts as one of the web does and holds neither a quote nor the
/// end of a line, wherever in it that would stand.
pub proof fn law_only_plain_web_addresses_are_opened(url: Seq<char>)
    ensures
        browser::is_http(url) <==> starts(url, "https://"@) || starts(url, "http://"@),
        browser::is_tricky(url) <==> url.contains('"') || url.contains('\n') || url.contains('\r'),
{
    lemma_starts(url, "https://"@);
    lemma_starts(url, "http://"@);
    lemma_holds(url, '"');
    lemma_holds(url, '\n');
    lemma_holds(url, '\r');
}

proof fn lemma_starts(s: Seq<char>, p: Seq<char>)
    ensures
        text::has_at(s, p, 0) == starts(s, p),
{
    if p.len() <= s.len() {
        assert(s.subrange(0, 0 + p.len() as int) =~= p <==> starts(s, p));
    }
}

proof fn lemma_holds(s: Seq<char>, c: char)
    ensures
        text::index_from(s, c, 0) is Some == s.contains(c),
{
    text::lemma_index(s, c, 0);
    if s.contains(c) {
        let k = choose|k: int| 0 <= k < s.len() && s[k] == c;
    }
}

} // verus!
