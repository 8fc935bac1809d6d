//! What the world promises, told by coordinates, maps, names and seats.

use super::collision::MapGrid;
use super::world;
use super::world::{Audience, BattleRefusal, BattleSeat, Presence, SessionId};
use crate::proto::quic::RemotePlayer;
use crate::proto::{MapId, PlayerId, Pose};
use vstd::prelude::*;

verus! {

// ---------------------------------------------------------------------------------------------
// Moving
// ---------------------------------------------------------------------------------------------

/// How many tiles apart two coordinates are.
pub open spec fn apart(a: int, b: int) -> int {
    if a <= b {
        b - a
    } else {
        a - b
    }
}

/// A size as a signed number of sixteen bits.
pub open spec fn signed(size: u16) -> int {
    if size < 0x8000 {
        size as int
    } else {
        size - 0x1_0000
    }
}

/// The table knows the map that a pose is on.
pub open spec fn known(grids: Map<u16, MapGrid>, pose: Pose) -> bool {
    grids.contains_key((pose.map.group * 256 + pose.map.num) as u16)
}

/// The grid of the map that a pose is on.
pub open spec fn grid(grids: Map<u16, MapGrid>, pose: Pose) -> MapGrid {
    grids[(pose.map.group * 256 + pose.map.num) as u16]
}

/// The pose is within the layout of its map, which begins seven tiles in.
pub open spec fn within(g: MapGrid, pose: Pose) -> bool {
    &&& 7 <= pose.x < 7 + signed(g.width)
    &&& 7 <= pose.y < 7 + signed(g.height)
}

/// The bit of the tile that a pose is on, counted along the rows of the layout.
pub open spec fn tile_bit(g: MapGrid, pose: Pose) -> bool {
    let n = (pose.x - 7) + g.width * (pose.y - 7);
    g.bits[n / 8] & (1u8 << ((n % 8) as u8)) != 0
}

/// A wall stands where the pose is.
pub open spec fn wall(grids: Map<u16, MapGrid>, pose: Pose) -> bool {
    known(grids, pose) && within(grid(grids, pose), pose) && tile_bit(grid(grids, pose), pose)
}

proof fn lemma_signed(size: u16)
    ensures
        (size as i16) as int == signed(size),
{
    assert(size < 0x8000 ==> (size as i16) as int == size as int) by (bit_vector);
    assert(size >= 0x8000 ==> (size as i16) as int == size as int - 0x1_0000) by (bit_vector);
}

proof fn lemma_bit(b: u8, k: u8)
    requires
        k < 8,
    ensures
        ((b >> k) & 1 == 1) == (b & (1u8 << k) != 0),
{
    assert(((b >> k) & 1 == 1) == (b & (1u8 << k) != 0)) by (bit_vector)
        requires
            k < 8,
    ;
}

proof fn lemma_walls(grids: Map<u16, MapGrid>, pose: Pose)
    ensures
        super::collision::may_stand(grids, pose.map.group, pose.map.num, pose.x, pose.y) == !wall(
            grids,
            pose,
        ),
        super::collision::place_on(grids, pose.map.group, pose.map.num, pose.x, pose.y) == (known(
            grids,
            pose,
        ) ==> within(grid(grids, pose), pose)),
{
    let g = grid(grids, pose);
    lemma_signed(g.width);
    lemma_signed(g.height);
    let n = (pose.y - 7) * g.width + (pose.x - 7);
    assert((pose.x - 7) + g.width * (pose.y - 7) == n) by (nonlinear_arith)
        requires
            n == (pose.y - 7) * g.width + (pose.x - 7),
    ;
    lemma_bit(g.bits[n / 8], (n % 8) as u8);
}

/// A player whose position is known, and who reports other coordinates on the same map, is moved
/// there if and only if that is one tile away along one axis and no wall stands there, whichever way
/// the step goes. Else nothing of the player changes.
pub proof fn law_a_step_is_one_tile_onto_open_ground(
    grids: Map<u16, MapGrid>,
    p: Presence,
    pose: Pose,
)
    requires
        !p.position_unknown,
        pose.map.group == p.pose.map.group,
        pose.map.num == p.pose.map.num,
        pose.x != p.pose.x || pose.y != p.pose.y,
    ensures
        world::moved(grids, p, pose) == if apart(pose.x as int, p.pose.x as int) + apart(
            pose.y as int,
            p.pose.y as int,
        ) == 1 && !wall(grids, pose) {
            Presence { pose, ..p }
        } else {
            p
        },
{
    lemma_walls(grids, pose);
}

/// Whoever stays on their tile may turn, even where a wall has come to stand.
pub proof fn law_turning_is_always_free(grids: Map<u16, MapGrid>, p: Presence, pose: Pose)
    requires
        !p.position_unknown,
        pose.map == p.pose.map,
        pose.x == p.pose.x,
        pose.y == p.pose.y,
    ensures
        world::moved(grids, p, pose) == (Presence { pose, ..p }),
{
}

/// An arrival, on another map or while the position is not known, is taken if and only if it is
/// within the layout of its map, or the table does not know that map. One on another map leaves the
/// next report free; one that settles an unknown position does not.
pub proof fn law_arrivals_are_within_the_layout(
    grids: Map<u16, MapGrid>,
    p: Presence,
    pose: Pose,
)
    requires
        p.position_unknown || pose.map.group != p.pose.map.group || pose.map.num != p.pose.map.num,
    ensures
        ({
            let q = world::moved(grids, p, pose);
            if known(grids, pose) && !within(grid(grids, pose), pose) {
                q == (Presence { position_unknown: true, ..p })
            } else {
                q == (Presence { pose, position_unknown: !p.position_unknown, ..p })
            }
        }),
{
    lemma_walls(grids, pose);
}

/// Each tile of a map has a bit of its own: two tiles share none, and each bit is among the bytes.
pub proof fn law_each_tile_has_its_own_bit(g: MapGrid, x1: int, y1: int, x2: int, y2: int)
    requires
        g.wf(),
        g.holds(x1, y1),
        g.holds(x2, y2),
        x1 != x2 || y1 != y2,
    ensures
        y1 * g.width + x1 != y2 * g.width + x2,
        0 <= (y1 * g.width + x1) / 8 < g.bits.len(),
{
    lemma_signed(g.width);
    lemma_signed(g.height);
    let w = g.width as int;
    let h = g.height as int;
    assert(y1 * w + x1 != y2 * w + x2) by (nonlinear_arith)
        requires
            0 <= x1 < w,
            0 <= x2 < w,
            x1 != x2 || y1 != y2,
    ;
    assert(0 <= y1 * w + x1 < w * h) by (nonlinear_arith)
        requires
            0 <= x1 < w,
            0 <= y1 < h,
    ;
}

// ---------------------------------------------------------------------------------------------
// Seeing
// ---------------------------------------------------------------------------------------------

/// The player is online, stands on this map, and is not the viewer.
pub open spec fn is_there(
    players: Map<PlayerId, Presence>,
    viewer: PlayerId,
    map: MapId,
    id: PlayerId,
) -> bool {
    &&& players.contains_key(id)
    &&& id != viewer
    &&& players[id].pose.map.group == map.group
    &&& players[id].pose.map.num == map.num
}

/// The square of the way, as the crow flies, from one pose to another.
pub open spec fn crow(a: Pose, b: Pose) -> int {
    let dx = apart(a.x as int, b.x as int);
    let dy = apart(a.y as int, b.y as int);
    dx * dx + dy * dy
}

proof fn lemma_crow(p: Presence, from: Pose)
    ensures
        world::distance(p, from) == crow(p.pose, from),
{
    let dx = p.pose.x - from.x;
    let dy = p.pose.y - from.y;
    assert((-dx) * (-dx) == dx * dx) by (nonlinear_arith);
    assert((-dy) * (-dy) == dy * dy) by (nonlinear_arith);
}

/// A snapshot shows nobody twice and only players who are there, at most eight. It leaves someone
/// out only where it shows eight, and then nobody who is left out is nearer than anyone shown, and
/// those shown stand in the order of their distance, by both coordinates.
pub proof fn law_snapshots_show_the_nearest(
    players: Map<PlayerId, Presence>,
    viewer: PlayerId,
    map: MapId,
    from: Pose,
    ids: Seq<PlayerId>,
)
    requires
        world::shown(players, viewer, map, from, ids),
    ensures
        ids.len() <= 8,
        forall|i: int, j: int|
            0 <= i < j < ids.len() ==> #[trigger] ids[i] != #[trigger] ids[j],
        forall|i: int| 0 <= i < ids.len() ==> is_there(players, viewer, map, #[trigger] ids[i]),
        forall|out: PlayerId| #[trigger]
            is_there(players, viewer, map, out) && !ids.contains(out) ==> {
                &&& ids.len() == 8
                &&& forall|i: int|
                    0 <= i < 8 ==> crow(players[#[trigger] ids[i]].pose, from) <= crow(
                        players[out].pose,
                        from,
                    )
                &&& forall|i: int, j: int|
                    0 <= i < j < 8 ==> crow(players[#[trigger] ids[i]].pose, from) <= crow(
                        players[#[trigger] ids[j]].pose,
                        from,
                    )
            },
{
    let all = players.dom().filter(|id: PlayerId| world::visible(players, viewer, map, id));
    ids.unique_seq_to_set();
    assert forall|i: int| 0 <= i < ids.len() implies is_there(
        players,
        viewer,
        map,
        #[trigger] ids[i],
    ) by {
        assert(world::visible(players, viewer, map, ids[i]));
    }
    assert forall|out: PlayerId| #[trigger]
        is_there(players, viewer, map, out) && !ids.contains(out) implies {
        &&& ids.len() == 8
        &&& forall|i: int|
            0 <= i < 8 ==> crow(players[#[trigger] ids[i]].pose, from) <= crow(
                players[out].pose,
                from,
            )
        &&& forall|i: int, j: int|
            0 <= i < j < 8 ==> crow(players[#[trigger] ids[i]].pose, from) <= crow(
                players[#[trigger] ids[j]].pose,
                from,
            )
    } by {
        assert(world::visible(players, viewer, map, out));
        assert(all.contains(out));
        assert(!ids.to_set().contains(out));
        lemma_crow(players[out], from);
        assert forall|i: int| 0 <= i < 8 implies crow(players[#[trigger] ids[i]].pose, from)
            <= crow(players[out].pose, from) by {
            lemma_crow(players[ids[i]], from);
        }
        assert forall|i: int, j: int| 0 <= i < j < 8 implies crow(
            players[#[trigger] ids[i]].pose,
            from,
        ) <= crow(players[#[trigger] ids[j]].pose, from) by {
            lemma_crow(players[ids[i]], from);
            lemma_crow(players[ids[j]], from);
        }
    }
}

/// Both axes count alike: of two players straight along different axes, one who is shown while the
/// other is left out is not the farther of them.
pub proof fn law_neither_axis_counts_for_more(
    players: Map<PlayerId, Presence>,
    viewer: PlayerId,
    map: MapId,
    from: Pose,
    ids: Seq<PlayerId>,
    i: int,
    out: PlayerId,
)
    requires
        world::shown(players, viewer, map, from, ids),
        0 <= i < ids.len(),
        is_there(players, viewer, map, out),
        !ids.contains(out),
    ensures
        ({
            let a = players[ids[i]].pose;
            let b = players[out].pose;
            &&& a.x == from.x && b.y == from.y ==> apart(a.y as int, from.y as int) <= apart(
                b.x as int,
                from.x as int,
            )
            &&& a.y == from.y && b.x == from.x ==> apart(a.x as int, from.x as int) <= apart(
                b.y as int,
                from.y as int,
            )
        }),
{
    law_snapshots_show_the_nearest(players, viewer, map, from, ids);
    let a = players[ids[i]].pose;
    let b = players[out].pose;
    assert(crow(a, from) <= crow(b, from));
    let (ax, ay) = (apart(a.x as int, from.x as int), apart(a.y as int, from.y as int));
    let (bx, by) = (apart(b.x as int, from.x as int), apart(b.y as int, from.y as int));
    assert(ax == 0 && by == 0 ==> ay <= bx) by (nonlinear_arith)
        requires
            ax * ax + ay * ay <= bx * bx + by * by,
            ay >= 0,
            bx >= 0,
    ;
    assert(ay == 0 && bx == 0 ==> ax <= by) by (nonlinear_arith)
        requires
            ax * ax + ay * ay <= bx * bx + by * by,
            ax >= 0,
            by >= 0,
    ;
}

/// What is sent of a player in a snapshot is what the world holds of that player.
pub proof fn law_snapshots_tell_the_truth(r: RemotePlayer, p: Presence)
    requires
        world::describes(r, p),
        0 <= p.character_id <= u32::MAX,
    ensures
        r.player_id as int == p.character_id as int,
        r.name@ == p.name@,
        r.graphics_id == p.graphics_id,
        r.party_count == p.party_count,
        r.pose.map.group == p.pose.map.group && r.pose.map.num == p.pose.map.num,
        r.pose.x == p.pose.x && r.pose.y == p.pose.y,
        r.pose.facing == p.pose.facing && r.pose.elevation == p.pose.elevation,
        r.pose.moving == p.pose.moving,
{
}

// ---------------------------------------------------------------------------------------------
// Speaking
// ---------------------------------------------------------------------------------------------

/// Two characters are the same, or the same letter of ASCII in its two cases, which are thirty-two
/// apart.
pub open spec fn same_letter(a: char, b: char) -> bool {
    ||| a == b
    ||| 0x41 <= a as u32 <= 0x5A && b as u32 == a as u32 + 32
    ||| 0x41 <= b as u32 <= 0x5A && a as u32 == b as u32 + 32
}

/// Two names are the same but for the case of ASCII letters.
pub open spec fn same_name(a: Seq<char>, b: Seq<char>) -> bool {
    a.len() == b.len() && forall|i: int| 0 <= i < a.len() ==> same_letter(a[i], #[trigger] b[i])
}

proof fn lemma_same_name(a: Seq<char>, b: Seq<char>)
    ensures
        crate::text::same_ignoring_case(a, b) == same_name(a, b),
{
    assert forall|i: int| 0 <= i < a.len() && a.len() == b.len() implies (crate::text::lower(a[i])
        == crate::text::lower(#[trigger] b[i])) == same_letter(a[i], b[i]) by {
        let (x, y) = (a[i], b[i]);
        let (u, v) = (x as u32, y as u32);
        assert(0x41 <= u <= 0x5A ==> ((u + 32) as char) as u32 == u + 32);
        assert(0x41 <= v <= 0x5A ==> ((v + 32) as char) as u32 == v + 32);
        if 0x41 <= u <= 0x5A && v == u + 32 {
            vstd::utf8::char_u32_cast(y, (u + 32) as u32);
            assert((u + 32) as char == y);
        }
        if 0x41 <= v <= 0x5A && u == v + 32 {
            vstd::utf8::char_u32_cast(x, (v + 32) as u32);
            assert((v + 32) as char == x);
        }
        if 0x41 <= u <= 0x5A && 0x41 <= v <= 0x5A && (u + 32) as char == (v + 32) as char {
            assert(u == v);
            vstd::utf8::char_u32_cast(x, v);
            vstd::utf8::char_u32_cast(y, v);
        }
    }
    if same_name(a, b) {
        assert forall|i: int| 0 <= i < a.len() implies crate::text::lower(a[i])
            == crate::text::lower(#[trigger] b[i]) by {
            assert(same_letter(a[i], b[i]));
        }
    }
    if crate::text::same_ignoring_case(a, b) {
        assert forall|i: int| 0 <= i < a.len() implies same_letter(a[i], #[trigger] b[i]) by {
            assert(crate::text::lower(a[i]) == crate::text::lower(b[i]));
        }
    }
}

/// The list names these players, each once.
pub open spec fn lists(to: Seq<PlayerId>, who: spec_fn(PlayerId) -> bool) -> bool {
    &&& forall|i: int, j: int| 0 <= i < j < to.len() ==> #[trigger] to[i] != #[trigger] to[j]
    &&& forall|id: PlayerId| #[trigger] to.contains(id) <==> who(id)
}

proof fn lemma_names_all(to: Seq<PlayerId>, set: Set<PlayerId>, who: spec_fn(PlayerId) -> bool)
    requires
        world::names_all(to, set),
        forall|id: PlayerId| #[trigger] set.contains(id) <==> who(id),
    ensures
        lists(to, who),
{
    assert forall|id: PlayerId| #[trigger] to.contains(id) <==> who(id) by {
        assert(to.to_set().contains(id) == to.contains(id));
        assert(set.contains(id) <==> who(id));
    }
}

/// A local line goes to exactly those online whose map has the group and the number of the sender's.
pub proof fn law_local_chat_stays_on_the_map(
    players: Map<PlayerId, Presence>,
    sender: PlayerId,
    to: Seq<PlayerId>,
)
    requires
        players.contains_key(sender),
        world::names_all(
            to,
            world::addressees(players, Audience::OnMap(players[sender].pose.map)),
        ),
    ensures
        lists(
            to,
            |id: PlayerId|
                players.contains_key(id) && players[id].pose.map.group
                    == players[sender].pose.map.group && players[id].pose.map.num
                    == players[sender].pose.map.num,
        ),
        to.contains(sender),
{
    let who = |id: PlayerId|
        players.contains_key(id) && players[id].pose.map.group == players[sender].pose.map.group
            && players[id].pose.map.num == players[sender].pose.map.num;
    lemma_names_all(
        to,
        world::addressees(players, Audience::OnMap(players[sender].pose.map)),
        who,
    );
    assert(who(sender));
}

/// A global line goes to everyone online, and an announcement to everyone but the one it is about.
pub proof fn law_global_chat_reaches_everyone(
    players: Map<PlayerId, Presence>,
    skip: PlayerId,
    to: Seq<PlayerId>,
    others: Seq<PlayerId>,
)
    requires
        world::names_all(to, world::addressees(players, Audience::Everyone)),
        world::names_all(others, world::addressees(players, Audience::Except(skip))),
    ensures
        lists(to, |id: PlayerId| players.contains_key(id)),
        lists(others, |id: PlayerId| players.contains_key(id) && id != skip),
{
    lemma_names_all(
        to,
        world::addressees(players, Audience::Everyone),
        |id: PlayerId| players.contains_key(id),
    );
    lemma_names_all(
        others,
        world::addressees(players, Audience::Except(skip)),
        |id: PlayerId| players.contains_key(id) && id != skip,
    );
}

/// A whisper goes to exactly those online who bear the name, but for the case of ASCII letters, and
/// to the sender, if online. It counts as delivered if and only if somebody bears the name.
pub proof fn law_whispers_go_by_name(
    players: Map<PlayerId, Presence>,
    name: &String,
    sender: PlayerId,
    to: Seq<PlayerId>,
)
    requires
        world::names_all(
            to,
            world::addressees(players, Audience::Whisper { to: name, from: sender }),
        ),
    ensures
        lists(
            to,
            |id: PlayerId|
                players.contains_key(id) && (id == sender || same_name(
                    players[id].name@,
                    name@,
                )),
        ),
        world::somebody_named(players, name@) <==> exists|id: PlayerId| #[trigger]
            players.contains_key(id) && same_name(players[id].name@, name@),
{
    let who = |id: PlayerId|
        players.contains_key(id) && (id == sender || same_name(players[id].name@, name@));
    let set = world::addressees(players, Audience::Whisper { to: name, from: sender });
    assert forall|id: PlayerId| #[trigger] set.contains(id) <==> who(id) by {
        lemma_same_name(players[id].name@, name@);
    }
    lemma_names_all(to, set, who);
    if world::somebody_named(players, name@) {
        let id = choose|id: PlayerId| #[trigger]
            players.contains_key(id) && crate::text::same_ignoring_case(
                players[id].name@,
                name@,
            );
        lemma_same_name(players[id].name@, name@);
        assert(players.contains_key(id));
    }
    if exists|id: PlayerId| #[trigger]
        players.contains_key(id) && same_name(players[id].name@, name@) {
        let id = choose|id: PlayerId| #[trigger]
            players.contains_key(id) && same_name(players[id].name@, name@);
        lemma_same_name(players[id].name@, name@);
        assert(players.contains_key(id));
    }
}

// ---------------------------------------------------------------------------------------------
// Coming and going
// ---------------------------------------------------------------------------------------------

/// When the live session of a player leaves, that player is gone; everyone else stays as they were,
/// but for a battle against the one who left, which is over.
pub proof fn law_leaving_touches_only_the_opponent(
    players: Map<PlayerId, Presence>,
    id: PlayerId,
    session: SessionId,
    other: PlayerId,
)
    requires
        players.contains_key(id),
        players[id].session == session,
        other != id,
    ensures
        ({
            let after = world::left(players, id, session);
            &&& !after.contains_key(id)
            &&& after.contains_key(other) == players.contains_key(other)
            &&& players.contains_key(other) ==> {
                let ours = players[id].battle matches Some(a) && a.peer == other;
                let theirs = players[other].battle matches Some(b) && b.peer == id;
                after[other] == if ours && theirs {
                    Presence { battle: None, ..players[other] }
                } else {
                    players[other]
                }
            }
        }),
{
}

/// Ending a battle frees the player, and the opponent only where that one still names the player;
/// nothing else of anyone changes.
pub proof fn law_ending_a_battle_frees_both(
    players: Map<PlayerId, Presence>,
    id: PlayerId,
    other: PlayerId,
)
    requires
        players.contains_key(id),
        players.contains_key(other),
        other != id,
    ensures
        ({
            let after = world::battle_over(players, id);
            let ours = players[id].battle matches Some(a) && a.peer == other;
            let theirs = players[other].battle matches Some(b) && b.peer == id;
            &&& after.dom() =~= players.dom()
            &&& after[id] == (Presence { battle: None, ..players[id] })
            &&& after[other] == if ours && theirs {
                Presence { battle: None, ..players[other] }
            } else {
                players[other]
            }
        }),
{
}

// ---------------------------------------------------------------------------------------------
// Battling
// ---------------------------------------------------------------------------------------------

/// A challenge is on if and only if two different players, both online, stand on the same map,
/// neither is being challenged, and they are not two of the permadeath world more than two badges
/// apart.
pub proof fn law_who_may_challenge_whom(
    players: Map<PlayerId, Presence>,
    from: PlayerId,
    target: PlayerId,
)
    ensures
        world::invite_refusal(players, from, target) is None <==> {
            let (a, b) = (players[from], players[target]);
            &&& from != target
            &&& players.contains_key(from)
            &&& players.contains_key(target)
            &&& a.pose.map.group == b.pose.map.group && a.pose.map.num == b.pose.map.num
            &&& a.pending_invite is None
            &&& b.pending_invite is None
            &&& a.mode@ == "deadman"@ && b.mode@ == "deadman"@ ==> apart(
                a.badges as int,
                b.badges as int,
            ) <= 2
        },
{
}

/// The reason against a challenge is true of the two players.
pub proof fn law_refusals_are_true(
    players: Map<PlayerId, Presence>,
    from: PlayerId,
    target: PlayerId,
)
    requires
        world::invite_refusal(players, from, target) is Some,
    ensures
        ({
            let (a, b) = (players[from], players[target]);
            match world::invite_refusal(players, from, target)->0 {
                BattleRefusal::Yourself => from == target,
                BattleRefusal::NotOnline => from != target && !players.contains_key(from),
                BattleRefusal::TheyAreGone => players.contains_key(from) && !players.contains_key(
                    target,
                ),
                BattleRefusal::OtherArea => a.pose.map.group != b.pose.map.group || a.pose.map.num
                    != b.pose.map.num,
                BattleRefusal::BadgeRank => a.mode@ == "deadman"@ && b.mode@ == "deadman"@ && apart(
                    a.badges as int,
                    b.badges as int,
                ) > 2,
                BattleRefusal::AlreadyChallenged => b.pending_invite is Some,
                BattleRefusal::YouAreChallenged => a.pending_invite is Some,
                _ => false,
            }
        }),
{
}

/// Answering does what it says to the two players and nothing to anyone else: the challenge that is
/// answered is used up, and accepting it seats the challenger in slot 0 and the other in slot 1. An
/// answer to a challenge that is not the one outstanding changes nobody.
pub proof fn law_answers_touch_only_the_two(
    players: Map<PlayerId, Presence>,
    responder: PlayerId,
    from: PlayerId,
    accepted: bool,
    id: PlayerId,
)
    requires
        responder != from,
        players.contains_key(id),
    ensures
        ({
            let after = world::answered(players, responder, from, accepted);
            let due = players.contains_key(responder) && players[responder].pending_invite == Some(
                from,
            );
            let on = due && players.contains_key(from) && accepted;
            let seat = |peer: PlayerId, slot: u8| Some(BattleSeat { peer, slot });
            &&& after.dom() =~= players.dom()
            &&& after[id] == if id == responder && due {
                Presence {
                    pending_invite: None,
                    battle: if on {
                        seat(from, 1)
                    } else {
                        players[id].battle
                    },
                    ..players[id]
                }
            } else if id == from && on {
                Presence { battle: seat(responder, 0), ..players[id] }
            } else {
                players[id]
            }
        }),
{
}

/// A challenge that was sent is noted on the one challenged, and nowhere else.
pub proof fn law_a_challenge_is_noted_on_the_challenged(
    players: Map<PlayerId, Presence>,
    from: PlayerId,
    target: PlayerId,
    id: PlayerId,
)
    requires
        players.contains_key(id),
    ensures
        ({
            let after = world::challenged(players, target, Some(from));
            &&& after.dom() =~= players.dom()
            &&& after[id].pending_invite == if id == target {
                Some(from)
            } else {
                players[id].pending_invite
            }
            &&& after[id] == (Presence {
                pending_invite: after[id].pending_invite,
                ..players[id]
            })
        }),
{
}

/// Battle traffic of a player goes to whoever that player names as the opponent, under the player's
/// own slot, if and only if the opponent is online and names the player in turn.
pub proof fn law_traffic_needs_both_to_agree(
    players: Map<PlayerId, Presence>,
    from: PlayerId,
    seat: BattleSeat,
)
    ensures
        world::link_peer(players, from) == Some(seat) <==> {
            &&& players.contains_key(from)
            &&& players[from].battle == Some(seat)
            &&& players.contains_key(seat.peer)
            &&& players[seat.peer].battle matches Some(other) && other.peer == from
        },
{
}

} // verus!
