//! Live world state: who is online, where they are standing, and chat routing.
//!
//! Presence is ephemeral and rebuilt when clients reconnect. The world decides who is told what;
//! the caller holds the connections and does the telling.

use super::chat;
use super::collision;
use super::collision::{Collision, MapGrid};
use super::deadman;
use crate::proto::quic::{ChatTarget, RemotePlayer, ServerControl};
use crate::proto::{MapId, PlayerId, Pose, MAX_VISIBLE_PLAYERS};
use crate::text;
use std::collections::HashMap;
use std::collections::HashSet;
use vstd::prelude::*;

verus! {

broadcast use vstd::std_specs::hash::group_hash_axioms;

/// Distinguishes two connections for the same character.
///
/// A player can be connected twice at once: a reconnect that races its own teardown, or a second
/// copy of the game. Without this, the older connection's cleanup would evict the live one.
pub type SessionId = u64;

/// The next session id, out of the counter that the process keeps.
pub fn next_session_id(next: &mut SessionId) -> (r: SessionId)
    ensures
        r == *old(next),
        *final(next) == (if *old(next) == u64::MAX {
            0
        } else {
            *old(next) + 1
        }),
{
    let id: u64 = *next;
    *next = id.wrapping_add(1);
    id
}

/// One connected character.
pub struct Presence {
    pub session: SessionId,
    pub character_id: i64,
    pub name: String,
    pub graphics_id: u8,
    pub pose: Pose,
    /// How many Pokemon this player carries, shown on their name tag.
    pub party_count: u8,
    /// How many gym badges this character has. Deadman PvP is gated to within two badges.
    pub badges: u8,
    /// Which world this character plays: "normal" or "deadman".
    pub mode: String,
    /// Who has challenged this player and is awaiting an answer.
    pub pending_invite: Option<PlayerId>,
    /// The battle this player is in, if any. Recorded on both sides when an invitation is
    /// accepted, so a block can never reach someone who is not in the battle it belongs to.
    pub battle: Option<BattleSeat>,
    /// The next reported position need not continue from this one. True on joining and after a map
    /// change, because a warp legitimately puts the player anywhere on the new map.
    pub position_unknown: bool,
}

/// A player's place in a battle.
#[derive(Debug, Clone, Copy, PartialEq, Eq, Structural)]
pub struct BattleSeat {
    /// The other player.
    pub peer: PlayerId,
    /// This player's link id. Slot 0 runs the engine; slot 1 follows it.
    pub slot: u8,
}

/// One message for several players.
pub struct Broadcast {
    pub to: Vec<PlayerId>,
    pub msg: ServerControl,
}

/// One message for one player.
pub struct Delivery {
    pub to: PlayerId,
    pub msg: ServerControl,
}

/// Everyone who is online, and where.
pub struct World {
    players: HashMap<u32, Presence>,
    /// Who is on which map, so that a snapshot does not walk the whole table.
    by_map: HashMap<u16, HashSet<u32>>,
    /// Where players may stand. Empty when the table could not be loaded, in which case steps
    /// are still checked for being single steps, just not for hitting walls.
    collision: Collision,
}

// ---------------------------------------------------------------------------------------------
// The model
// ---------------------------------------------------------------------------------------------

/// The player is listed under this map.
spec fn listed(by_map: Map<u16, HashSet<u32>>, k: u16, id: PlayerId) -> bool {
    by_map.contains_key(k) && by_map[k]@.contains(id)
}

/// The key of the map that a pose is on.
pub open spec fn pose_key(pose: Pose) -> u16 {
    collision::map_key(pose.map.group, pose.map.num)
}

/// The player is online and stands on this map.
pub open spec fn stands(players: Map<PlayerId, Presence>, k: u16, id: PlayerId) -> bool {
    players.contains_key(id) && pose_key(players[id].pose) == k
}

impl World {
    /// Everyone online, by id.
    pub closed spec fn players(&self) -> Map<PlayerId, Presence> {
        self.players@
    }

    /// The grids of the known maps.
    pub closed spec fn grids(&self) -> Map<u16, MapGrid> {
        self.collision@
    }

    /// The lists by map say of each player exactly where they stand.
    pub closed spec fn wf(&self) -> bool {
        forall|k: u16, id: PlayerId| #[trigger]
            listed(self.by_map@, k, id) == stands(self.players@, k, id)
    }
}

/// A step from one pose to another on the same map: standing still, turning, or one tile along
/// one axis onto a place where a player may stand.
pub open spec fn legal_step(grids: Map<u16, MapGrid>, from: Pose, to: Pose) -> bool {
    ||| from.x == to.x && from.y == to.y
    ||| {
        &&& (from.x == to.x && (to.y - from.y == 1 || from.y - to.y == 1)) || (from.y == to.y && (
        to.x - from.x == 1 || from.x - to.x == 1))
        &&& collision::may_stand(grids, to.map.group, to.map.num, to.x, to.y)
    }
}

/// What becomes of a player who reports a pose. Where the position is not known, any place on the
/// reported map is taken and settles it; one off that map leaves it open. A change of map is taken
/// if it leads onto the map, and leaves the next position open either way. A step on the same map
/// is taken if it is a legal one.
pub open spec fn moved(grids: Map<u16, MapGrid>, p: Presence, pose: Pose) -> Presence {
    if p.position_unknown {
        if collision::place_on(grids, pose.map.group, pose.map.num, pose.x, pose.y) {
            Presence { pose, position_unknown: false, ..p }
        } else {
            p
        }
    } else if pose.map != p.pose.map {
        if collision::place_on(grids, pose.map.group, pose.map.num, pose.x, pose.y) {
            Presence { pose, position_unknown: true, ..p }
        } else {
            Presence { position_unknown: true, ..p }
        }
    } else if legal_step(grids, p.pose, pose) {
        Presence { pose, ..p }
    } else {
        p
    }
}

/// The session is the live one for its character.
pub open spec fn current(
    players: Map<PlayerId, Presence>,
    id: PlayerId,
    session: SessionId,
) -> bool {
    players.contains_key(id) && players[id].session == session
}

/// The list names each of these players once.
pub open spec fn names_all(list: Seq<PlayerId>, who: Set<PlayerId>) -> bool {
    list.no_duplicates() && list.to_set() == who
}

/// Whom a message is for.
pub enum Audience<'a> {
    Everyone,
    Except(PlayerId),
    OnMap(MapId),
    /// Whoever bears this name, but for the case of letters, and the sender.
    Whisper { to: &'a String, from: PlayerId },
}

/// The player is among those whom a message is for.
pub open spec fn addressed(
    players: Map<PlayerId, Presence>,
    audience: Audience<'_>,
    id: PlayerId,
) -> bool {
    match audience {
        Audience::Everyone => true,
        Audience::Except(skip) => id != skip,
        Audience::OnMap(map) => players[id].pose.map == map,
        Audience::Whisper { to, from } => id == from || text::same_ignoring_case(
            players[id].name@,
            to@,
        ),
    }
}

/// Everyone online whom a message is for.
pub open spec fn addressees(players: Map<PlayerId, Presence>, audience: Audience<'_>) -> Set<
    PlayerId,
> {
    players.dom().filter(|id: PlayerId| addressed(players, audience, id))
}

/// Someone online bears this name, but for the case of letters.
pub open spec fn somebody_named(players: Map<PlayerId, Presence>, name: Seq<char>) -> bool {
    exists|id: PlayerId| #[trigger]
        players.contains_key(id) && text::same_ignoring_case(players[id].name@, name)
}

/// The two chat targets are the same.
pub open spec fn same_target(a: ChatTarget, b: ChatTarget) -> bool {
    match (a, b) {
        (ChatTarget::Global, ChatTarget::Global) => true,
        (ChatTarget::Local, ChatTarget::Local) => true,
        (ChatTarget::Private(x), ChatTarget::Private(y)) => x@ == y@,
        _ => false,
    }
}

/// The message is this line of chat.
pub open spec fn is_chat(
    msg: ServerControl,
    from: Seq<char>,
    target: ChatTarget,
    said: Seq<char>,
) -> bool {
    match msg {
        ServerControl::Chat { from: f, target: t, text } => {
            &&& f@ == from
            &&& same_target(t, target)
            &&& text@ == said
        },
        _ => false,
    }
}

/// The player is seen by the viewer on this map.
pub open spec fn visible(
    players: Map<PlayerId, Presence>,
    viewer: PlayerId,
    map: MapId,
    id: PlayerId,
) -> bool {
    players.contains_key(id) && players[id].pose.map == map && id != viewer
}

/// How far a player stands from a pose, squared.
pub open spec fn distance(p: Presence, from: Pose) -> int {
    (p.pose.x - from.x) * (p.pose.x - from.x) + (p.pose.y - from.y) * (p.pose.y - from.y)
}

/// These are the players that a snapshot shows: everyone visible where the game can draw them
/// all, else the nearest ones, nearest first.
pub open spec fn shown(
    players: Map<PlayerId, Presence>,
    viewer: PlayerId,
    map: MapId,
    from: Pose,
    ids: Seq<PlayerId>,
) -> bool {
    let all = players.dom().filter(|id: PlayerId| visible(players, viewer, map, id));
    &&& ids.no_duplicates()
    &&& forall|i: int| 0 <= i < ids.len() ==> visible(players, viewer, map, #[trigger] ids[i])
    &&& all.len() <= MAX_VISIBLE_PLAYERS ==> ids.to_set() == all
    &&& all.len() > MAX_VISIBLE_PLAYERS ==> {
        &&& ids.len() == MAX_VISIBLE_PLAYERS
        &&& forall|i: int, j: int|
            0 <= i < j < ids.len() ==> distance(players[#[trigger] ids[i]], from) <= distance(
                players[#[trigger] ids[j]],
                from,
            )
        &&& forall|i: int, id: PlayerId|
            0 <= i < ids.len() && #[trigger] visible(players, viewer, map, id) && !ids.contains(id)
                ==> distance(players[#[trigger] ids[i]], from) <= distance(players[id], from)
    }
}

/// The entry of a snapshot describes this player.
pub open spec fn describes(r: RemotePlayer, p: Presence) -> bool {
    &&& r.player_id == p.character_id as u32
    &&& r.name@ == p.name@
    &&& r.graphics_id == p.graphics_id
    &&& r.pose == p.pose
    &&& r.party_count == p.party_count
}

// ---------------------------------------------------------------------------------------------
// The lists by map
// ---------------------------------------------------------------------------------------------

fn unlist(by_map: &mut HashMap<u16, HashSet<u32>>, k: u16, id: PlayerId)
    ensures
        forall|k2: u16, id2: PlayerId| #[trigger]
            listed(final(by_map)@, k2, id2) == (listed(old(by_map)@, k2, id2) && !(k2 == k && id2
                == id)),
{
    match by_map.remove(&k) {
        Some(set) => {
            let mut set = set;
            set.remove(&id);
            by_map.insert(k, set);
        },
        None => {},
    }
}

fn list(by_map: &mut HashMap<u16, HashSet<u32>>, k: u16, id: PlayerId)
    ensures
        forall|k2: u16, id2: PlayerId| #[trigger]
            listed(final(by_map)@, k2, id2) == (listed(old(by_map)@, k2, id2) || (k2 == k && id2
                == id)),
{
    let mut set: HashSet<u32> = match by_map.remove(&k) {
        Some(set) => set,
        None => HashSet::new(),
    };
    set.insert(id);
    by_map.insert(k, set);
}

/// Moves a player between the per-map sets.
fn reindex(by_map: &mut HashMap<u16, HashSet<u32>>, id: PlayerId, from: u16, to: u16)
    ensures
        forall|k2: u16, id2: PlayerId| #[trigger]
            listed(final(by_map)@, k2, id2) == if id2 == id && k2 == to {
                true
            } else if id2 == id && k2 == from {
                false
            } else {
                listed(old(by_map)@, k2, id2)
            },
{
    unlist(by_map, from, id);
    list(by_map, to, id);
}

/// The members of a set, each once.
fn members(set: &HashSet<u32>) -> (r: Vec<PlayerId>)
    ensures
        names_all(r@, set@),
{
    let mut ids: Vec<PlayerId> = Vec::new();
    for id in it: set.iter()
        invariant
            it.seq().no_duplicates(),
            it.seq().unref().to_set() == set@,
            ids@ =~= it.seq().unref().subrange(0, it.index() as int),
            it.index() == it.seq().len() ==> ids@ =~= it.seq().unref(),
    {
        ids.push(*id);
    }
    assert(ids@.no_duplicates());
    ids
}

fn key_of_pose(pose: &Pose) -> (r: u16)
    ensures
        r == pose_key(*pose),
{
    collision::key_of(pose.map.group, pose.map.num)
}

// ---------------------------------------------------------------------------------------------
// Coming, going and moving
// ---------------------------------------------------------------------------------------------

/// What a session that was displaced is told.
pub fn superseded() -> (r: ServerControl)
    ensures
        r matches ServerControl::Superseded { reason } && reason@
            == "signed in from somewhere else"@,
{
    ServerControl::Superseded { reason: "signed in from somewhere else".to_owned() }
}

/// A session that was displaced, and what it is told.
pub struct Displaced {
    pub session: SessionId,
    pub msg: ServerControl,
}

/// What follows from someone's joining.
pub struct Joined {
    /// The session that this one displaced, and what it is to be told.
    pub displaced: Option<Displaced>,
    pub announcement: Broadcast,
}

impl World {
    /// A world without a collision table.
    pub fn new() -> (r: Self)
        ensures
            r.wf(),
            r.players() == Map::<PlayerId, Presence>::empty(),
            r.grids() == Map::<u16, MapGrid>::empty(),
    {
        World::with_collision(Collision::empty())
    }

    /// A world in which nobody is online yet.
    pub fn with_collision(collision: Collision) -> (r: Self)
        ensures
            r.wf(),
            r.players() == Map::<PlayerId, Presence>::empty(),
            r.grids() == collision@,
    {
        World { players: HashMap::new(), by_map: HashMap::new(), collision }
    }

    /// Everyone online, each once.
    fn online(&self) -> (r: Vec<PlayerId>)
        ensures
            names_all(r@, self.players().dom()),
    {
        let mut ids: Vec<PlayerId> = Vec::new();
        for id in it: self.players.keys()
            invariant
                it.seq().no_duplicates(),
                it.seq().unref().to_set() == self.players@.dom(),
                ids@ =~= it.seq().unref().subrange(0, it.index() as int),
                it.index() == it.seq().len() ==> ids@ =~= it.seq().unref(),
        {
            ids.push(*id);
        }
        assert(ids@.no_duplicates());
        ids
    }

    fn is_addressed(&self, audience: &Audience<'_>, id: PlayerId) -> (r: bool)
        requires
            self.players().contains_key(id),
        ensures
            r == addressed(self.players(), *audience, id),
    {
        match self.players.get(&id) {
            Some(p) => match audience {
                Audience::Everyone => true,
                Audience::Except(skip) => id != *skip,
                Audience::OnMap(map) => p.pose.map == *map,
                Audience::Whisper { to, from } => id == *from || text::eq_ignoring_case(
                    &p.name,
                    to,
                ),
            },
            None => false,
        }
    }

    /// Everyone online whom a message is for, each once.
    fn audience(&self, audience: &Audience<'_>) -> (r: Vec<PlayerId>)
        ensures
            names_all(r@, addressees(self.players(), *audience)),
    {
        let all: Vec<PlayerId> = self.online();
        let ghost players = self.players();
        let mut to: Vec<PlayerId> = Vec::new();
        let mut i: usize = 0;
        while i < all.len()
            invariant
                i <= all@.len(),
                all@.no_duplicates(),
                all@.to_set() == players.dom(),
                players == self.players(),
                to@.no_duplicates(),
                forall|id: PlayerId| #[trigger]
                    to@.contains(id) <==> addressed(players, *audience, id) && all@.subrange(
                        0,
                        i as int,
                    ).contains(id),
            decreases all@.len() - i,
        {
            let ghost before = to@;
            let id: PlayerId = all[i];
            proof {
                lemma_next(all@, i as int);
                assert(all@.to_set().contains(id));
            }
            if self.is_addressed(audience, id) {
                to.push(id);
                proof {
                    lemma_push(before, id);
                }
            }
            i = i + 1;
        }
        proof {
            assert(all@.subrange(0, i as int) =~= all@);
            assert forall|id: PlayerId|
                to@.to_set().contains(id) == addressees(players, *audience).contains(id) by {
                assert(all@.to_set().contains(id) == all@.contains(id));
                assert(to@.to_set().contains(id) == to@.contains(id));
            }
            assert(to@.to_set() =~= addressees(players, *audience));
        }
        to
    }

    /// Puts a player into the world. One character cannot be in two places: an older session of
    /// the same character is displaced.
    pub fn join(&mut self, id: PlayerId, presence: Presence) -> (r: Joined)
        requires
            old(self).wf(),
        ensures
            final(self).wf(),
            final(self).grids() == old(self).grids(),
            final(self).players() == old(self).players().insert(id, presence),
            match r.displaced {
                Some(d) => {
                    &&& old(self).players().contains_key(id)
                    &&& d.session == old(self).players()[id].session
                    &&& d.msg matches ServerControl::Superseded { reason }
                    &&& reason@ == "signed in from somewhere else"@
                },
                None => !old(self).players().contains_key(id),
            },
            names_all(
                r.announcement.to@,
                addressees(final(self).players(), Audience::Except(id)),
            ),
            match r.announcement.msg {
                ServerControl::PlayerJoined { player_id, name, graphics_id } => {
                    &&& player_id == id
                    &&& name@ == presence.name@
                    &&& graphics_id == presence.graphics_id
                },
                _ => false,
            },
    {
        let msg = ServerControl::PlayerJoined {
            player_id: id,
            name: presence.name.clone(),
            graphics_id: presence.graphics_id,
        };
        let key: u16 = key_of_pose(&presence.pose);
        let displaced: Option<Displaced> = match self.players.insert(id, presence) {
            Some(before) => {
                unlist(&mut self.by_map, key_of_pose(&before.pose), id);
                Some(Displaced { session: before.session, msg: superseded() })
            },
            None => None,
        };
        list(&mut self.by_map, key, id);
        let to: Vec<PlayerId> = self.audience(&Audience::Except(id));
        Joined { displaced, announcement: Broadcast { to, msg } }
    }

    /// Unseats a player from a battle with `peer`; one who has moved on to another battle stays
    /// in that.
    fn unseat(&mut self, id: PlayerId, peer: PlayerId)
        requires
            old(self).wf(),
        ensures
            final(self).wf(),
            final(self).grids() == old(self).grids(),
            final(self).players() == unseated(old(self).players(), id, peer),
    {
        let seated: bool = match self.players.get(&id) {
            Some(p) => match p.battle {
                Some(seat) => seat.peer == peer,
                None => false,
            },
            None => false,
        };
        if seated {
            match self.players.remove(&id) {
                Some(p) => {
                    let mut p = p;
                    p.battle = None;
                    self.players.insert(id, p);
                },
                None => {},
            }
        }
        assert(self.players@ =~= unseated(old(self).players(), id, peer));
    }

    /// Removes a player, but only if the presence still belongs to `session`. The older of two
    /// connections tearing down must not evict the newer one.
    pub fn leave(&mut self, id: PlayerId, session: SessionId) -> (r: Option<Broadcast>)
        requires
            old(self).wf(),
        ensures
            final(self).wf(),
            final(self).grids() == old(self).grids(),
            final(self).players() == left(old(self).players(), id, session),
            match r {
                Some(b) => {
                    &&& current(old(self).players(), id, session)
                    &&& names_all(
                        b.to@,
                        addressees(final(self).players(), Audience::Except(id)),
                    )
                    &&& b.msg == (ServerControl::PlayerLeft { player_id: id })
                },
                None => !current(old(self).players(), id, session),
            },
    {
        if !self.session_is_current(id, session) {
            return None;
        }
        match self.players.remove(&id) {
            Some(p) => {
                unlist(&mut self.by_map, key_of_pose(&p.pose), id);
                match p.battle {
                    Some(seat) => {
                        self.unseat(seat.peer, id);
                    },
                    None => {},
                }
            },
            None => {},
        }
        let to: Vec<PlayerId> = self.audience(&Audience::Except(id));
        Some(Broadcast { to, msg: ServerControl::PlayerLeft { player_id: id } })
    }

    /// True while this session is still the live one for its character.
    pub fn session_is_current(&self, id: PlayerId, session: SessionId) -> (r: bool)
        ensures
            r == current(self.players(), id, session),
    {
        match self.players.get(&id) {
            Some(p) => p.session == session,
            None => false,
        }
    }

    /// Where a player stands.
    pub fn pose_of(&self, id: PlayerId) -> (r: Option<Pose>)
        ensures
            r == (if self.players().contains_key(id) {
                Some(self.players()[id].pose)
            } else {
                None
            }),
    {
        match self.players.get(&id) {
            Some(p) => Some(p.pose),
            None => None,
        }
    }

    /// How many players are online.
    pub fn online_count(&self) -> (r: usize)
        ensures
            r == self.players().dom().len(),
    {
        self.players.len()
    }

    /// Updates a pose, ignoring reports from a connection that has been superseded.
    ///
    /// Returns the pose the server considers real. When that differs from what was reported, the
    /// client is out of step and has to be corrected.
    pub fn update_pose(&mut self, id: PlayerId, session: SessionId, pose: Pose) -> (r: Option<Pose>)
        requires
            old(self).wf(),
        ensures
            final(self).wf(),
            final(self).grids() == old(self).grids(),
            match r {
                Some(truth) => {
                    let after = moved(old(self).grids(), old(self).players()[id], pose);
                    &&& current(old(self).players(), id, session)
                    &&& final(self).players() == old(self).players().insert(id, after)
                    &&& truth == after.pose
                },
                None => {
                    &&& !current(old(self).players(), id, session)
                    &&& final(self).players() == old(self).players()
                },
            },
    {
        if !self.session_is_current(id, session) {
            return None;
        }
        let ghost before = self.players@;
        let mut p: Presence = match self.players.remove(&id) {
            Some(p) => p,
            None => {
                return None;
            },
        };
        let was: Pose = p.pose;
        if p.position_unknown {
            // There is nothing to continue from, but a position off the map is no place at all.
            if self.collision.in_bounds(pose.map.group, pose.map.num, pose.x, pose.y) {
                p.position_unknown = false;
                p.pose = pose;
            }
        } else if pose.map != p.pose.map {
            // The next honest report settles where they are, whether this one was taken or not.
            p.position_unknown = true;
            if self.collision.in_bounds(pose.map.group, pose.map.num, pose.x, pose.y) {
                p.pose = pose;
            }
        } else {
            // Widened: both operands come from a client, and the difference of two of them need
            // not fit.
            let dx: i32 = pose.x as i32 - was.x as i32;
            let dy: i32 = pose.y as i32 - was.y as i32;
            let still = dx == 0 && dy == 0;
            let single = (dx == 0 && (dy == 1 || dy == -1)) || (dy == 0 && (dx == 1 || dx == -1));
            if still || (single && self.collision.walkable(
                pose.map.group,
                pose.map.num,
                pose.x,
                pose.y,
            )) {
                p.pose = pose;
            }
        }
        let truth: Pose = p.pose;
        let from: u16 = key_of_pose(&was);
        let to: u16 = key_of_pose(&truth);
        assert(p == moved(self.collision@, before[id], pose));
        self.players.insert(id, p);
        assert(self.players@ =~= before.insert(id, p));
        if from != to {
            reindex(&mut self.by_map, id, from, to);
        }
        Some(truth)
    }

    /// Updates a player's carried-Pokemon count so their name tag reflects a party change.
    pub fn set_party_count(&mut self, id: PlayerId, count: u8)
        requires
            old(self).wf(),
        ensures
            final(self).wf(),
            final(self).grids() == old(self).grids(),
            final(self).players() == (if old(self).players().contains_key(id) {
                old(self).players().insert(
                    id,
                    Presence { party_count: count, ..old(self).players()[id] },
                )
            } else {
                old(self).players()
            }),
    {
        match self.players.remove(&id) {
            Some(p) => {
                let mut p = p;
                p.party_count = count;
                self.players.insert(id, p);
                assert(self.players@ =~= old(self).players@.insert(id, p));
            },
            None => {
                assert(self.players@ =~= old(self).players@);
            },
        }
    }

    /// Updates a player's badges, which gate whom they may battle.
    pub fn set_badges(&mut self, id: PlayerId, badges: u8)
        requires
            old(self).wf(),
        ensures
            final(self).wf(),
            final(self).grids() == old(self).grids(),
            final(self).players() == (if old(self).players().contains_key(id) {
                old(self).players().insert(id, Presence { badges, ..old(self).players()[id] })
            } else {
                old(self).players()
            }),
    {
        match self.players.remove(&id) {
            Some(p) => {
                let mut p = p;
                p.badges = badges;
                self.players.insert(id, p);
                assert(self.players@ =~= old(self).players@.insert(id, p));
            },
            None => {
                assert(self.players@ =~= old(self).players@);
            },
        }
    }
}

/// The players, with one of them unseated where they were in a battle with `peer`.
pub open spec fn unseated(
    players: Map<PlayerId, Presence>,
    id: PlayerId,
    peer: PlayerId,
) -> Map<PlayerId, Presence> {
    if players.contains_key(id) && players[id].battle is Some && players[id].battle->0.peer
        == peer {
        players.insert(id, Presence { battle: None, ..players[id] })
    } else {
        players
    }
}

/// The players, with one of them gone if the session was theirs, and their opponent unseated.
pub open spec fn left(
    players: Map<PlayerId, Presence>,
    id: PlayerId,
    session: SessionId,
) -> Map<PlayerId, Presence> {
    if !current(players, id, session) {
        players
    } else {
        let rest = players.remove(id);
        match players[id].battle {
            Some(seat) => unseated(rest, seat.peer, id),
            None => rest,
        }
    }
}

/// What the first `i + 1` elements are, in terms of the first `i`.
proof fn lemma_next(all: Seq<PlayerId>, i: int)
    requires
        0 <= i < all.len(),
        all.no_duplicates(),
    ensures
        !all.subrange(0, i).contains(all[i]),
        forall|id: PlayerId| #[trigger]
            all.subrange(0, i + 1).contains(id) <==> id == all[i] || all.subrange(0, i).contains(
                id,
            ),
{
    let a = all.subrange(0, i);
    let b = all.subrange(0, i + 1);
    assert(b =~= a.push(all[i]));
    assert forall|id: PlayerId| #[trigger] b.contains(id) <==> id == all[i] || a.contains(id) by {
        if a.contains(id) {
            let j = choose|j: int| 0 <= j < a.len() && a[j] == id;
            assert(b[j] == id);
        }
        if id == all[i] {
            assert(b[i] == id);
        }
    }
}

proof fn lemma_push(before: Seq<PlayerId>, id: PlayerId)
    requires
        before.no_duplicates(),
        !before.contains(id),
    ensures
        before.push(id).no_duplicates(),
        forall|x: PlayerId| #[trigger]
            before.push(id).contains(x) <==> x == id || before.contains(x),
{
    let after = before.push(id);
    assert forall|x: PlayerId| #[trigger] after.contains(x) <==> x == id || before.contains(x) by {
        if before.contains(x) {
            let j = choose|j: int| 0 <= j < before.len() && before[j] == x;
            assert(after[j] == x);
        }
        if x == id {
            assert(after[before.len() as int] == x);
        }
    }
}

// ---------------------------------------------------------------------------------------------
// Snapshots
// ---------------------------------------------------------------------------------------------

impl World {
    /// Everyone else on a map, each once.
    fn visible_ids(&self, viewer: PlayerId, map: MapId) -> (r: Vec<PlayerId>)
        requires
            self.wf(),
        ensures
            r@.no_duplicates(),
            forall|id: PlayerId| #[trigger]
                r@.contains(id) <==> visible(self.players(), viewer, map, id),
    {
        let key: u16 = collision::key_of(map.group, map.num);
        let ghost players = self.players();
        let mut ids: Vec<PlayerId> = Vec::new();
        match self.by_map.get(&key) {
            Some(set) => {
                let all: Vec<PlayerId> = members(set);
                let mut i: usize = 0;
                while i < all.len()
                    invariant
                        i <= all@.len(),
                        all@.no_duplicates(),
                        ids@.no_duplicates(),
                        forall|x: PlayerId| #[trigger]
                            ids@.contains(x) <==> x != viewer && all@.subrange(
                                0,
                                i as int,
                            ).contains(x),
                    decreases all@.len() - i,
                {
                    let ghost before = ids@;
                    let id: PlayerId = all[i];
                    proof {
                        lemma_next(all@, i as int);
                    }
                    if id != viewer {
                        ids.push(id);
                        proof {
                            lemma_push(before, id);
                        }
                    }
                    i = i + 1;
                }
                proof {
                    assert(all@.subrange(0, i as int) =~= all@);
                    assert forall|x: PlayerId| #[trigger] ids@.contains(x) <==> x != viewer
                        && set@.contains(x) by {
                        assert(all@.to_set().contains(x) == all@.contains(x));
                    }
                }
            },
            None => {},
        }
        proof {
            assert forall|id: PlayerId| #[trigger] ids@.contains(id) <==> visible(
                players,
                viewer,
                map,
                id,
            ) by {
                assert(listed(self.by_map@, key, id) == stands(players, key, id));
                if players.contains_key(id) {
                    let m = players[id].pose.map;
                    collision::law_map_keys_are_distinct(m.group, m.num, map.group, map.num);
                }
            }
        }
        ids
    }

    fn distance_of(&self, id: PlayerId, from: &Pose) -> (r: i64)
        requires
            self.players().contains_key(id),
        ensures
            r == distance(self.players()[id], *from),
    {
        match self.players.get(&id) {
            Some(p) => {
                let dx: i64 = p.pose.x as i64 - from.x as i64;
                let dy: i64 = p.pose.y as i64 - from.y as i64;
                proof {
                    assert(0 <= dx * dx <= 65535 * 65535) by (nonlinear_arith)
                        requires
                            -65535 <= dx <= 65535,
                    ;
                    assert(0 <= dy * dy <= 65535 * 65535) by (nonlinear_arith)
                        requires
                            -65535 <= dy <= 65535,
                    ;
                }
                dx * dx + dy * dy
            },
            None => 0,
        }
    }

    /// Where the nearest of these players stands in the list.
    fn nearest(&self, ids: &Vec<PlayerId>, from: &Pose) -> (r: usize)
        requires
            ids@.len() > 0,
            forall|i: int| 0 <= i < ids@.len() ==> self.players().contains_key(#[trigger] ids@[i]),
        ensures
            r < ids@.len(),
            forall|i: int|
                0 <= i < ids@.len() ==> distance(self.players()[ids@[r as int]], *from)
                    <= distance(self.players()[#[trigger] ids@[i]], *from),
    {
        let mut best: usize = 0;
        let mut least: i64 = self.distance_of(ids[0], from);
        let mut i: usize = 1;
        while i < ids.len()
            invariant
                1 <= i <= ids@.len(),
                best < i,
                forall|k: int|
                    0 <= k < ids@.len() ==> self.players().contains_key(#[trigger] ids@[k]),
                least == distance(self.players()[ids@[best as int]], *from),
                forall|k: int|
                    0 <= k < i ==> least <= distance(self.players()[#[trigger] ids@[k]], *from),
            decreases ids@.len() - i,
        {
            let d: i64 = self.distance_of(ids[i], from);
            if d < least {
                least = d;
                best = i;
            }
            i = i + 1;
        }
        best
    }

    /// The nearest eight of these players, nearest first.
    fn nearest_eight(
        &self,
        all: Vec<PlayerId>,
        viewer: PlayerId,
        map: MapId,
        from: &Pose,
    ) -> (r: Vec<PlayerId>)
        requires
            all@.len() > 8,
            all@.no_duplicates(),
            forall|id: PlayerId| #[trigger]
                all@.contains(id) <==> visible(self.players(), viewer, map, id),
        ensures
            r@.len() == 8,
            r@.no_duplicates(),
            forall|i: int|
                0 <= i < r@.len() ==> visible(self.players(), viewer, map, #[trigger] r@[i]),
            forall|i: int, j: int|
                0 <= i < j < r@.len() ==> distance(self.players()[#[trigger] r@[i]], *from)
                    <= distance(self.players()[#[trigger] r@[j]], *from),
            forall|i: int, id: PlayerId|
                0 <= i < r@.len() && #[trigger] visible(self.players(), viewer, map, id)
                    && !r@.contains(id) ==> distance(self.players()[#[trigger] r@[i]], *from)
                    <= distance(self.players()[id], *from),
    {
        let ghost players = self.players();
        let mut rest: Vec<PlayerId> = all;
        let mut ids: Vec<PlayerId> = Vec::new();
        while ids.len() < MAX_VISIBLE_PLAYERS
            invariant
                players == self.players(),
                ids@.len() <= 8,
                rest@.len() + ids@.len() > 8,
                ids@.no_duplicates(),
                rest@.no_duplicates(),
                forall|id: PlayerId|
                    visible(players, viewer, map, id) <==> (#[trigger] rest@.contains(id))
                        || ids@.contains(id),
                forall|id: PlayerId| !(#[trigger] rest@.contains(id) && ids@.contains(id)),
                forall|i: int, j: int|
                    0 <= i < j < ids@.len() ==> distance(players[#[trigger] ids@[i]], *from)
                        <= distance(players[#[trigger] ids@[j]], *from),
                forall|i: int, j: int|
                    0 <= i < ids@.len() && 0 <= j < rest@.len() ==> distance(
                        players[#[trigger] ids@[i]],
                        *from,
                    ) <= distance(players[#[trigger] rest@[j]], *from),
            decreases 8 - ids@.len(),
        {
            proof {
                assert forall|i: int| 0 <= i < rest@.len() implies players.contains_key(
                    #[trigger] rest@[i],
                ) by {
                    assert(rest@.contains(rest@[i]));
                }
            }
            let ghost was = rest@;
            let ghost had = ids@;
            let at: usize = self.nearest(&rest, from);
            let id: PlayerId = rest.remove(at);
            ids.push(id);
            proof {
                assert(was.contains(was[at as int]));
                lemma_push(had, id);
                lemma_taken(was, at as int);
                assert(rest@ =~= was.remove(at as int));
                assert forall|i: int, j: int|
                    0 <= i < ids@.len() && 0 <= j < rest@.len() implies distance(
                    players[#[trigger] ids@[i]],
                    *from,
                ) <= distance(players[#[trigger] rest@[j]], *from) by {
                    let k = if j < at { j } else { j + 1 };
                    assert(rest@[j] == was[k]);
                }
                assert forall|x: PlayerId|
                    visible(players, viewer, map, x) <==> (#[trigger] rest@.contains(x))
                        || ids@.contains(x) by {
                    assert(was.contains(x) <==> x == id || rest@.contains(x));
                    assert(ids@.contains(x) <==> x == id || had.contains(x));
                }
                assert forall|x: PlayerId| !(#[trigger] rest@.contains(x) && ids@.contains(x)) by {
                    assert(was.contains(x) <==> x == id || rest@.contains(x));
                    assert(ids@.contains(x) <==> x == id || had.contains(x));
                }
            }
        }
        proof {
            assert forall|i: int| 0 <= i < ids@.len() implies visible(
                players,
                viewer,
                map,
                #[trigger] ids@[i],
            ) by {
                let id = ids@[i];
                assert(ids@.contains(id));
                if rest@.contains(id) {
                    assert(visible(players, viewer, map, id));
                } else {
                    assert(visible(players, viewer, map, id));
                }
            }
            assert forall|i: int, id: PlayerId|
                0 <= i < ids@.len() && #[trigger] visible(players, viewer, map, id)
                    && !ids@.contains(id) implies distance(players[#[trigger] ids@[i]], *from)
                <= distance(players[id], *from) by {
                assert(rest@.contains(id));
                let j = choose|j: int| 0 <= j < rest@.len() && rest@[j] == id;
                assert(distance(players[ids@[i]], *from) <= distance(players[rest@[j]], *from));
            }
        }
        ids
    }

    /// Everyone else standing on `map`, capped to what the client can actually render.
    ///
    /// When more players share a map than the game has object-event slots, the nearest ones win:
    /// a crowd should thin out at the edges rather than pop in and out at random.
    pub fn snapshot(&self, viewer: PlayerId, map: MapId, from: Pose) -> (r: Vec<RemotePlayer>)
        requires
            self.wf(),
        ensures
            exists|ids: Seq<PlayerId>| #[trigger]
                shown(self.players(), viewer, map, from, ids) && r@.len() == ids.len() && forall|
                    i: int,
                |
                    0 <= i < ids.len() ==> describes(#[trigger] r@[i], self.players()[ids[i]]),
    {
        let ghost players = self.players();
        let all: Vec<PlayerId> = self.visible_ids(viewer, map);
        let ghost whole = players.dom().filter(|id: PlayerId| visible(players, viewer, map, id));
        proof {
            assert forall|id: PlayerId| all@.to_set().contains(id) == whole.contains(id) by {
                assert(all@.to_set().contains(id) == all@.contains(id));
            }
            assert(all@.to_set() =~= whole);
            all@.unique_seq_to_set();
        }
        let ids: Vec<PlayerId> = if all.len() > MAX_VISIBLE_PLAYERS {
            self.nearest_eight(all, viewer, map, &from)
        } else {
            proof {
                assert forall|i: int| 0 <= i < all@.len() implies visible(
                    players,
                    viewer,
                    map,
                    #[trigger] all@[i],
                ) by {
                    assert(all@.contains(all@[i]));
                }
            }
            all
        };
        assert(shown(players, viewer, map, from, ids@));
        let mut out: Vec<RemotePlayer> = Vec::new();
        let mut i: usize = 0;
        while i < ids.len()
            invariant
                players == self.players(),
                i <= ids@.len(),
                out@.len() == i,
                forall|k: int|
                    0 <= k < ids@.len() ==> visible(players, viewer, map, #[trigger] ids@[k]),
                forall|k: int|
                    0 <= k < i ==> describes(#[trigger] out@[k], players[ids@[k]]),
            decreases ids@.len() - i,
        {
            match self.players.get(&ids[i]) {
                Some(p) => {
                    out.push(
                        RemotePlayer {
                            player_id: p.character_id as PlayerId,
                            name: p.name.clone(),
                            graphics_id: p.graphics_id,
                            pose: p.pose,
                            party_count: p.party_count,
                        },
                    );
                },
                None => {
                    assert(visible(players, viewer, map, ids@[i as int]));
                },
            }
            i = i + 1;
        }
        out
    }
}

/// What is left of a list without duplicates when one element is taken out of it.
proof fn lemma_taken(s: Seq<PlayerId>, at: int)
    requires
        0 <= at < s.len(),
        s.no_duplicates(),
    ensures
        s.remove(at).no_duplicates(),
        !s.remove(at).contains(s[at]),
        forall|x: PlayerId| #[trigger]
            s.contains(x) <==> x == s[at] || s.remove(at).contains(x),
{
    let t = s.remove(at);
    assert forall|x: PlayerId| #[trigger] s.contains(x) <==> x == s[at] || t.contains(x) by {
        if s.contains(x) && x != s[at] {
            let k = choose|k: int| 0 <= k < s.len() && s[k] == x;
            let j = if k < at { k } else { k - 1 };
            assert(t[j] == x);
        }
        if t.contains(x) {
            let j = choose|j: int| 0 <= j < t.len() && t[j] == x;
            let k = if j < at { j } else { j + 1 };
            assert(s[k] == x);
        }
    }
}

// ---------------------------------------------------------------------------------------------
// Chat
// ---------------------------------------------------------------------------------------------

/// Whom a line of chat is for, and whether it reached whom it was meant for.
pub struct Routed {
    pub line: Broadcast,
    pub delivered: bool,
}

fn copy_target(target: &ChatTarget) -> (r: ChatTarget)
    ensures
        same_target(r, *target),
{
    match target {
        ChatTarget::Global => ChatTarget::Global,
        ChatTarget::Local => ChatTarget::Local,
        ChatTarget::Private(to) => ChatTarget::Private(to.clone()),
    }
}

impl World {
    /// Whether somebody online bears this name, but for the case of letters.
    fn is_named(&self, name: &str) -> (r: bool)
        ensures
            r == somebody_named(self.players(), name@),
    {
        let all: Vec<PlayerId> = self.online();
        let mut i: usize = 0;
        while i < all.len()
            invariant
                i <= all@.len(),
                all@.to_set() == self.players().dom(),
                forall|k: int|
                    0 <= k < i ==> !text::same_ignoring_case(
                        self.players()[#[trigger] all@[k]].name@,
                        name@,
                    ),
            decreases all@.len() - i,
        {
            assert(all@.to_set().contains(all@[i as int]));
            match self.players.get(&all[i]) {
                Some(p) => {
                    if text::eq_ignoring_case(&p.name, name) {
                        return true;
                    }
                },
                None => {},
            }
            i = i + 1;
        }
        proof {
            if somebody_named(self.players(), name@) {
                let id = choose|id: PlayerId| #[trigger]
                    self.players().contains_key(id) && text::same_ignoring_case(
                        self.players()[id].name@,
                        name@,
                    );
                assert(all@.to_set().contains(id));
                let k = choose|k: int| 0 <= k < all@.len() && all@[k] == id;
                assert(all@[k] == id);
            }
        }
        false
    }

    /// Decides whom a line is for. `from_id` identifies the sender; `from` is only what
    /// recipients are shown. It is not delivered if a private message has no recipient online, or
    /// if a local one has no sender.
    pub fn route_chat(&self, from_id: PlayerId, from: &str, target: &ChatTarget, said: &str) -> (r:
        Routed)
        ensures
            is_chat(r.line.msg, from@, *target, said@),
            match *target {
                ChatTarget::Global => {
                    &&& r.delivered
                    &&& names_all(r.line.to@, addressees(self.players(), Audience::Everyone))
                },
                ChatTarget::Local => if self.players().contains_key(from_id) {
                    &&& r.delivered
                    &&& names_all(
                        r.line.to@,
                        addressees(
                            self.players(),
                            Audience::OnMap(self.players()[from_id].pose.map),
                        ),
                    )
                } else {
                    &&& !r.delivered
                    &&& r.line.to@ == Seq::<PlayerId>::empty()
                },
                ChatTarget::Private(to) => {
                    &&& r.delivered == somebody_named(self.players(), to@)
                    &&& names_all(
                        r.line.to@,
                        addressees(
                            self.players(),
                            Audience::Whisper { to: &to, from: from_id },
                        ),
                    )
                },
            },
    {
        let msg = ServerControl::Chat {
            from: from.to_owned(),
            target: copy_target(target),
            text: said.to_owned(),
        };
        match target {
            ChatTarget::Global => Routed {
                line: Broadcast { to: self.audience(&Audience::Everyone), msg },
                delivered: true,
            },
            ChatTarget::Local => match self.pose_of(from_id) {
                Some(origin) => Routed {
                    line: Broadcast { to: self.audience(&Audience::OnMap(origin.map)), msg },
                    delivered: true,
                },
                None => Routed { line: Broadcast { to: Vec::new(), msg }, delivered: false },
            },
            ChatTarget::Private(to) => Routed {
                line: Broadcast {
                    to: self.audience(&Audience::Whisper { to, from: from_id }),
                    msg,
                },
                delivered: self.is_named(to),
            },
        }
    }
}

impl World {
    /// Addresses one control message to a single player, if they are online.
    pub fn tell(&self, id: PlayerId, msg: ServerControl) -> (r: Option<Delivery>)
        ensures
            match r {
                Some(d) => self.players().contains_key(id) && d.to == id && d.msg == msg,
                None => !self.players().contains_key(id),
            },
    {
        if self.players.contains_key(&id) {
            Some(Delivery { to: id, msg })
        } else {
            None
        }
    }

    /// Decides whom a message is for that originated outside the game, e.g. from IRC. Such text is
    /// as untrusted as text from a game client: sender and line are cleaned, and what is then
    /// empty is dropped.
    pub fn inject_chat(&self, from: &str, said: &str) -> (r: Option<Broadcast>)
        ensures
            match r {
                Some(b) => {
                    &&& chat::clean(from@).len() > 0 && chat::clean(said@).len() > 0
                    &&& is_chat(
                        b.msg,
                        chat::clean(from@),
                        ChatTarget::Global,
                        chat::clean(said@),
                    )
                    &&& names_all(b.to@, addressees(self.players(), Audience::Everyone))
                },
                None => chat::clean(from@).len() == 0 || chat::clean(said@).len() == 0,
            },
    {
        let from = chat::sanitize_chat(from);
        let said = chat::sanitize_chat(said);
        if from.as_str().is_empty() || said.as_str().is_empty() {
            return None;
        }
        let to: Vec<PlayerId> = self.audience(&Audience::Everyone);
        Some(
            Broadcast {
                to,
                msg: ServerControl::Chat { from, target: ChatTarget::Global, text: said },
            },
        )
    }
}

// ---------------------------------------------------------------------------------------------
// Battles
// ---------------------------------------------------------------------------------------------

/// Why a battle is not on.
#[derive(Debug, Clone, Copy, PartialEq, Eq, Structural)]
pub enum BattleRefusal {
    Yourself,
    NotOnline,
    TheyAreGone,
    OtherArea,
    BadgeRank,
    AlreadyChallenged,
    YouAreChallenged,
    NotResponding,
    Expired,
}

impl BattleRefusal {
    pub open spec fn text(self) -> Seq<char> {
        match self {
            BattleRefusal::Yourself => "You can't battle yourself."@,
            BattleRefusal::NotOnline => "You are not online."@,
            BattleRefusal::TheyAreGone => "They are no longer online."@,
            BattleRefusal::OtherArea => "They have left this area."@,
            BattleRefusal::BadgeRank => "They are too far from your badge rank to battle."@,
            BattleRefusal::AlreadyChallenged => "They are already being challenged."@,
            BattleRefusal::YouAreChallenged => "You are already being challenged."@,
            BattleRefusal::NotResponding => "They aren't responding."@,
            BattleRefusal::Expired => "That invitation has expired."@,
        }
    }

    /// What the player is told.
    pub fn message(&self) -> (r: String)
        ensures
            r@ == self.text(),
    {
        match *self {
            BattleRefusal::Yourself => "You can't battle yourself.".to_owned(),
            BattleRefusal::NotOnline => "You are not online.".to_owned(),
            BattleRefusal::TheyAreGone => "They are no longer online.".to_owned(),
            BattleRefusal::OtherArea => "They have left this area.".to_owned(),
            BattleRefusal::BadgeRank => {
                "They are too far from your badge rank to battle.".to_owned()
            },
            BattleRefusal::AlreadyChallenged => "They are already being challenged.".to_owned(),
            BattleRefusal::YouAreChallenged => "You are already being challenged.".to_owned(),
            BattleRefusal::NotResponding => "They aren't responding.".to_owned(),
            BattleRefusal::Expired => "That invitation has expired.".to_owned(),
        }
    }
}

/// Both play the world in which badges gate battles, and their badges are too far apart.
pub open spec fn out_of_rank(a: Presence, b: Presence) -> bool {
    a.mode@ == "deadman"@ && b.mode@ == "deadman"@ && !deadman::in_badge_range(a.badges, b.badges)
}

/// What stands against offering a battle.
pub open spec fn invite_refusal(
    players: Map<PlayerId, Presence>,
    from: PlayerId,
    target: PlayerId,
) -> Option<BattleRefusal> {
    if from == target {
        Some(BattleRefusal::Yourself)
    } else if !players.contains_key(from) {
        Some(BattleRefusal::NotOnline)
    } else if !players.contains_key(target) {
        Some(BattleRefusal::TheyAreGone)
    } else if players[from].pose.map != players[target].pose.map {
        Some(BattleRefusal::OtherArea)
    } else if out_of_rank(players[from], players[target]) {
        Some(BattleRefusal::BadgeRank)
    } else if players[target].pending_invite is Some {
        Some(BattleRefusal::AlreadyChallenged)
    } else if players[from].pending_invite is Some {
        Some(BattleRefusal::YouAreChallenged)
    } else {
        None
    }
}

/// The message is this challenge.
pub open spec fn is_invitation(msg: ServerControl, from: PlayerId, name: Seq<char>) -> bool {
    match msg {
        ServerControl::BattleInvitation { from: f, from_name } => f == from && from_name@ == name,
        _ => false,
    }
}

/// The message is this answer to a challenge.
pub open spec fn is_answer(
    msg: ServerControl,
    from: PlayerId,
    name: Seq<char>,
    accepted: bool,
) -> bool {
    match msg {
        ServerControl::BattleInvitationAnswered { from: f, from_name, accepted: a } => {
            f == from && from_name@ == name && a == accepted
        },
        _ => false,
    }
}

/// The message starts this battle.
pub open spec fn is_start(
    msg: ServerControl,
    opponent: PlayerId,
    name: Seq<char>,
    link_id: u8,
) -> bool {
    match msg {
        ServerControl::BattleStarting { opponent: o, opponent_name, link_id: l } => {
            o == opponent && opponent_name@ == name && l == link_id
        },
        _ => false,
    }
}

/// The players, with one of them challenged by another.
pub open spec fn challenged(
    players: Map<PlayerId, Presence>,
    target: PlayerId,
    by: Option<PlayerId>,
) -> Map<PlayerId, Presence> {
    if players.contains_key(target) {
        players.insert(target, Presence { pending_invite: by, ..players[target] })
    } else {
        players
    }
}

/// The players, with one of them seated in a battle.
pub open spec fn seated(
    players: Map<PlayerId, Presence>,
    id: PlayerId,
    seat: Option<BattleSeat>,
) -> Map<PlayerId, Presence> {
    if players.contains_key(id) {
        players.insert(id, Presence { battle: seat, ..players[id] })
    } else {
        players
    }
}

/// The players, with two of them in a battle: whoever issued the challenge takes slot 0, the slot
/// that the game treats as the master.
pub open spec fn paired(
    players: Map<PlayerId, Presence>,
    from: PlayerId,
    responder: PlayerId,
) -> Map<PlayerId, Presence> {
    seated(
        seated(players, from, Some(BattleSeat { peer: responder, slot: 0 })),
        responder,
        Some(BattleSeat { peer: from, slot: 1 }),
    )
}

/// What stands against an answer to a challenge.
pub open spec fn answer_refusal(
    players: Map<PlayerId, Presence>,
    responder: PlayerId,
    from: PlayerId,
) -> Option<BattleRefusal> {
    if !players.contains_key(responder) {
        Some(BattleRefusal::NotOnline)
    } else if players[responder].pending_invite != Some(from) {
        Some(BattleRefusal::Expired)
    } else if !players.contains_key(from) {
        Some(BattleRefusal::TheyAreGone)
    } else {
        None
    }
}

/// What an answer to a challenge does to the players. The challenge is used up even where the
/// challenger is gone; one that is not the one being answered stays.
pub open spec fn answered(
    players: Map<PlayerId, Presence>,
    responder: PlayerId,
    from: PlayerId,
    accepted: bool,
) -> Map<PlayerId, Presence> {
    match answer_refusal(players, responder, from) {
        Some(BattleRefusal::TheyAreGone) => challenged(players, responder, None),
        Some(_) => players,
        None => if accepted {
            paired(challenged(players, responder, None), from, responder)
        } else {
            challenged(players, responder, None)
        },
    }
}

/// The players, with the battle of one of them ended on both sides.
pub open spec fn battle_over(players: Map<PlayerId, Presence>, id: PlayerId) -> Map<
    PlayerId,
    Presence,
> {
    if players.contains_key(id) && players[id].battle is Some {
        unseated(seated(players, id, None), players[id].battle->0.peer, id)
    } else {
        players
    }
}

/// Where a block of battle traffic goes: to the peer, if both agree that they are in the same
/// battle. With it, the sender's seat.
pub open spec fn link_peer(players: Map<PlayerId, Presence>, from: PlayerId) -> Option<BattleSeat> {
    if !players.contains_key(from) {
        None
    } else {
        match players[from].battle {
            Some(seat) => if players.contains_key(seat.peer) && players[seat.peer].battle is Some
                && players[seat.peer].battle->0.peer == from {
                Some(seat)
            } else {
                None
            },
            None => None,
        }
    }
}

impl World {
    fn set_invite(&mut self, id: PlayerId, by: Option<PlayerId>)
        requires
            old(self).wf(),
        ensures
            final(self).wf(),
            final(self).grids() == old(self).grids(),
            final(self).players() == challenged(old(self).players(), id, by),
    {
        match self.players.remove(&id) {
            Some(p) => {
                let mut p = p;
                p.pending_invite = by;
                self.players.insert(id, p);
            },
            None => {},
        }
        assert(self.players@ =~= challenged(old(self).players(), id, by));
    }

    fn set_seat(&mut self, id: PlayerId, seat: Option<BattleSeat>)
        requires
            old(self).wf(),
        ensures
            final(self).wf(),
            final(self).grids() == old(self).grids(),
            final(self).players() == seated(old(self).players(), id, seat),
    {
        match self.players.remove(&id) {
            Some(p) => {
                let mut p = p;
                p.battle = seat;
                self.players.insert(id, p);
            },
            None => {},
        }
        assert(self.players@ =~= seated(old(self).players(), id, seat));
    }

    fn name_of(&self, id: PlayerId) -> (r: Option<String>)
        ensures
            match r {
                Some(name) => self.players().contains_key(id) && name@ == self.players()[id].name@,
                None => !self.players().contains_key(id),
            },
    {
        match self.players.get(&id) {
            Some(p) => Some(p.name.clone()),
            None => None,
        }
    }

    /// Offers a battle to another player: the invitation to be sent, or the reason against it.
    ///
    /// Invitations are refused across maps because the two avatars must be standing together, and
    /// refused when either side already has one outstanding. Whether the invitation could be
    /// sent is to be reported to `invitation_sent`.
    pub fn invite_to_battle(&self, from: PlayerId, target: PlayerId) -> (r: Result<
        Delivery,
        BattleRefusal,
    >)
        ensures
            match r {
                Ok(d) => {
                    &&& invite_refusal(self.players(), from, target) is None
                    &&& d.to == target
                    &&& is_invitation(d.msg, from, self.players()[from].name@)
                },
                Err(why) => invite_refusal(self.players(), from, target) == Some(why),
            },
    {
        if from == target {
            return Err(BattleRefusal::Yourself);
        }
        let inviter = match self.players.get(&from) {
            Some(p) => p,
            None => {
                return Err(BattleRefusal::NotOnline);
            },
        };
        let invitee = match self.players.get(&target) {
            Some(p) => p,
            None => {
                return Err(BattleRefusal::TheyAreGone);
            },
        };
        if inviter.pose.map != invitee.pose.map {
            return Err(BattleRefusal::OtherArea);
        }
        if text::is_text(&inviter.mode, "deadman") && text::is_text(&invitee.mode, "deadman")
            && !deadman::pvp_in_badge_range(inviter.badges, invitee.badges) {
            return Err(BattleRefusal::BadgeRank);
        }
        if invitee.pending_invite.is_some() {
            return Err(BattleRefusal::AlreadyChallenged);
        }
        if inviter.pending_invite.is_some() {
            return Err(BattleRefusal::YouAreChallenged);
        }
        Ok(
            Delivery {
                to: target,
                msg: ServerControl::BattleInvitation { from, from_name: inviter.name.clone() },
            },
        )
    }

    /// Records an invitation that was sent, or says that the other side does not respond.
    pub fn invitation_sent(&mut self, from: PlayerId, target: PlayerId, sent: bool) -> (r: Result<
        (),
        BattleRefusal,
    >)
        requires
            old(self).wf(),
        ensures
            final(self).wf(),
            final(self).grids() == old(self).grids(),
            sent ==> r == Ok::<(), BattleRefusal>(()) && final(self).players() == challenged(
                old(self).players(),
                target,
                Some(from),
            ),
            !sent ==> r == Err::<(), BattleRefusal>(BattleRefusal::NotResponding)
                && final(self).players() == old(self).players(),
    {
        if !sent {
            return Err(BattleRefusal::NotResponding);
        }
        self.set_invite(target, Some(from));
        Ok(())
    }

    /// Answers an invitation: what each side is told, or the reason why it is no longer
    /// outstanding.
    pub fn answer_battle(&mut self, responder: PlayerId, from: PlayerId, accepted: bool) -> (r:
        Result<Vec<Delivery>, BattleRefusal>)
        requires
            old(self).wf(),
        ensures
            final(self).wf(),
            final(self).grids() == old(self).grids(),
            final(self).players() == answered(old(self).players(), responder, from, accepted),
            match r {
                Err(why) => answer_refusal(old(self).players(), responder, from) == Some(why),
                Ok(told) => {
                    let me = old(self).players()[responder].name@;
                    let them = old(self).players()[from].name@;
                    &&& answer_refusal(old(self).players(), responder, from) is None
                    &&& told@.len() == (if accepted {
                        3int
                    } else {
                        1int
                    })
                    &&& told@[0].to == from
                    &&& is_answer(told@[0].msg, responder, me, accepted)
                    &&& accepted ==> {
                        &&& told@[1].to == from
                        &&& is_start(told@[1].msg, responder, me, 0)
                        &&& told@[2].to == responder
                        &&& is_start(told@[2].msg, from, them, 1)
                    }
                },
            },
    {
        let me: String = match self.players.get(&responder) {
            Some(p) => match p.pending_invite {
                Some(by) => {
                    if by != from {
                        return Err(BattleRefusal::Expired);
                    }
                    p.name.clone()
                },
                None => {
                    return Err(BattleRefusal::Expired);
                },
            },
            None => {
                return Err(BattleRefusal::NotOnline);
            },
        };
        self.set_invite(responder, None);
        let them: String = match self.name_of(from) {
            Some(name) => name,
            None => {
                return Err(BattleRefusal::TheyAreGone);
            },
        };
        let mut told: Vec<Delivery> = Vec::new();
        told.push(
            Delivery {
                to: from,
                msg: ServerControl::BattleInvitationAnswered {
                    from: responder,
                    from_name: me.clone(),
                    accepted,
                },
            },
        );
        if accepted {
            told.push(
                Delivery {
                    to: from,
                    msg: ServerControl::BattleStarting {
                        opponent: responder,
                        opponent_name: me,
                        link_id: 0,
                    },
                },
            );
            told.push(
                Delivery {
                    to: responder,
                    msg: ServerControl::BattleStarting {
                        opponent: from,
                        opponent_name: them,
                        link_id: 1,
                    },
                },
            );
            // Seated with the same slots they are told, so what the server forwards by can never
            // disagree with what the clients believe.
            self.set_seat(from, Some(BattleSeat { peer: responder, slot: 0 }));
            self.set_seat(responder, Some(BattleSeat { peer: from, slot: 1 }));
        }
        Ok(told)
    }

    /// Ends the battle this player is in, on both sides.
    pub fn clear_battle(&mut self, id: PlayerId)
        requires
            old(self).wf(),
        ensures
            final(self).wf(),
            final(self).grids() == old(self).grids(),
            final(self).players() == battle_over(old(self).players(), id),
    {
        let peer: PlayerId = match self.players.get(&id) {
            Some(p) => match p.battle {
                Some(seat) => seat.peer,
                None => {
                    return ;
                },
            },
            None => {
                return ;
            },
        };
        self.set_seat(id, None);
        self.unseat(peer, id);
    }

    /// Forwards one block of battle traffic to whoever the sender is battling; to nobody where
    /// the two do not agree that they are in the same battle. The bytes are not interpreted.
    pub fn route_link_block(&self, from: PlayerId, bytes: Vec<u8>) -> (r: Option<Delivery>)
        ensures
            match r {
                Some(d) => {
                    &&& link_peer(self.players(), from) matches Some(seat)
                    &&& d.to == seat.peer
                    &&& d.msg == (ServerControl::LinkBlock { from_slot: seat.slot, bytes })
                },
                None => link_peer(self.players(), from) is None,
            },
    {
        let seat: BattleSeat = match self.players.get(&from) {
            Some(p) => match p.battle {
                Some(seat) => seat,
                None => {
                    return None;
                },
            },
            None => {
                return None;
            },
        };
        match self.players.get(&seat.peer) {
            Some(peer) => match peer.battle {
                Some(other) => {
                    if other.peer != from {
                        return None;
                    }
                },
                None => {
                    return None;
                },
            },
            None => {
                return None;
            },
        }
        Some(
            Delivery {
                to: seat.peer,
                msg: ServerControl::LinkBlock { from_slot: seat.slot, bytes },
            },
        )
    }
}

// ---------------------------------------------------------------------------------------------
// Laws
// ---------------------------------------------------------------------------------------------

/// An accepted challenge seats the two against each other, in different slots, and the challenger
/// runs the engine; each other player keeps the seat they had.
pub proof fn law_accepted_battles_pair_two_slots(
    players: Map<PlayerId, Presence>,
    responder: PlayerId,
    from: PlayerId,
    other: PlayerId,
)
    requires
        answer_refusal(players, responder, from) is None,
        responder != from,
        players.contains_key(other),
        other != responder,
        other != from,
    ensures
        ({
            let after = answered(players, responder, from, true);
            &&& after[from].battle == Some(BattleSeat { peer: responder, slot: 0 })
            &&& after[responder].battle == Some(BattleSeat { peer: from, slot: 1 })
            &&& link_peer(after, from) == Some(BattleSeat { peer: responder, slot: 0 })
            &&& link_peer(after, responder) == Some(BattleSeat { peer: from, slot: 1 })
            &&& after[other] == players[other]
        }),
{
}

/// A challenge can be answered once: after the answer it is no longer outstanding.
pub proof fn law_a_challenge_is_answered_once(
    players: Map<PlayerId, Presence>,
    responder: PlayerId,
    from: PlayerId,
    accepted: bool,
    again: PlayerId,
)
    requires
        answer_refusal(players, responder, from) is None,
    ensures
        answer_refusal(answered(players, responder, from, accepted), responder, again) == Some(
            BattleRefusal::Expired,
        ),
{
}

/// When a battle is over, or a player leaves, neither side forwards to the other any more.
pub proof fn law_a_finished_battle_is_unseated_on_both_sides(
    players: Map<PlayerId, Presence>,
    id: PlayerId,
    session: SessionId,
    peer: PlayerId,
)
    requires
        link_peer(players, id) is Some,
        link_peer(players, id)->0.peer == peer,
    ensures
        link_peer(battle_over(players, id), id) is None,
        peer != id ==> link_peer(battle_over(players, id), peer) is None,
        peer != id && players[id].session == session ==> {
            let after = left(players, id, session);
            &&& !after.contains_key(id)
            &&& after.contains_key(peer) && after[peer].battle is None
        },
{
}

/// A block never reaches someone who is not in the battle it belongs to: whoever gets it names the
/// sender as their opponent.
pub proof fn law_blocks_reach_only_the_opponent(players: Map<PlayerId, Presence>, from: PlayerId)
    requires
        link_peer(players, from) is Some,
    ensures
        ({
            let seat = link_peer(players, from)->0;
            &&& players[from].battle == Some(seat)
            &&& players.contains_key(seat.peer)
            &&& players[seat.peer].battle matches Some(other) && other.peer == from
        }),
{
}

/// A superseded session can neither evict its successor nor be taken for the live one.
pub proof fn law_a_stale_session_changes_nothing(
    players: Map<PlayerId, Presence>,
    id: PlayerId,
    presence: Presence,
    stale: SessionId,
)
    requires
        presence.session != stale,
    ensures
        ({
            let joined = players.insert(id, presence);
            &&& !current(joined, id, stale)
            &&& current(joined, id, presence.session)
            &&& left(joined, id, stale) == joined
        }),
{
}

/// A position that is known moves by at most one tile while the map stays the same, and onto
/// another map only where the position is on it.
pub proof fn law_no_teleporting(grids: Map<u16, MapGrid>, p: Presence, pose: Pose)
    requires
        !p.position_unknown,
    ensures
        ({
            let q = moved(grids, p, pose);
            &&& q.pose.map == p.pose.map ==> {
                &&& -1 <= q.pose.x - p.pose.x <= 1
                &&& -1 <= q.pose.y - p.pose.y <= 1
                &&& q.pose.x == p.pose.x || q.pose.y == p.pose.y
            }
            &&& q.pose.map != p.pose.map ==> {
                &&& q.pose == pose
                &&& q.position_unknown
                &&& collision::place_on(
                    grids,
                    pose.map.group,
                    pose.map.num,
                    pose.x,
                    pose.y,
                )
            }
            &&& q.pose == p.pose || q.pose == pose
        }),
{
}

/// A report that changes the map, or that comes while the position is not known, is stored only if
/// it is a tile of the map it names, or that map is not known; reported again, it is refused again.
pub proof fn law_nowhere_is_never_stored(grids: Map<u16, MapGrid>, p: Presence, pose: Pose)
    requires
        p.position_unknown || pose.map != p.pose.map,
    ensures
        ({
            let q = moved(grids, p, pose);
            if collision::place_on(grids, pose.map.group, pose.map.num, pose.x, pose.y) {
                q.pose == pose
            } else {
                &&& q.pose == p.pose
                &&& q.position_unknown
                &&& moved(grids, q, pose) == q
            }
        }),
{
}

/// A challenge is refused between players of different ranks only where both play the world in
/// which rank counts, and then whoever of the two issues it.
pub proof fn law_rank_is_mutual(a: Presence, b: Presence)
    ensures
        out_of_rank(a, b) == out_of_rank(b, a),
{
}

/// A whisper reaches the sender and whoever bears the name, and nobody else.
pub proof fn law_whispers_stay_between_two(
    players: Map<PlayerId, Presence>,
    to: &String,
    from: PlayerId,
    id: PlayerId,
)
    ensures
        addressees(players, Audience::Whisper { to, from }).contains(id) <==> players.contains_key(
            id,
        ) && (id == from || text::same_ignoring_case(players[id].name@, to@)),
{
}

/// Nobody sees themselves in a snapshot, and nobody on another map.
pub proof fn law_snapshots_show_only_others_on_the_map(
    players: Map<PlayerId, Presence>,
    viewer: PlayerId,
    map: MapId,
    from: Pose,
    ids: Seq<PlayerId>,
)
    requires
        shown(players, viewer, map, from, ids),
    ensures
        ids.len() <= MAX_VISIBLE_PLAYERS,
        !ids.contains(viewer),
        forall|i: int|
            0 <= i < ids.len() ==> players.contains_key(#[trigger] ids[i])
                && players[ids[i]].pose.map == map,
{
    let all = players.dom().filter(|id: PlayerId| visible(players, viewer, map, id));
    ids.unique_seq_to_set();
    if ids.contains(viewer) {
        let k = choose|k: int| 0 <= k < ids.len() && ids[k] == viewer;
        assert(visible(players, viewer, map, ids[k]));
    }
}

} // verus!
