//! Who is online, where they stand, whom they reach.

use pokeplanet::proto::quic::{ChatTarget, ServerControl};
use pokeplanet::proto::{MapId, PlayerId, Pose, MAX_VISIBLE_PLAYERS};
use pokeplanet::server::collision::{Collision, CollisionError, MAP_OFFSET};
use pokeplanet::server::world::{
    next_session_id, superseded, BattleRefusal, Broadcast, Delivery, Displaced, Presence, SessionId,
    World,
};
use std::collections::HashMap;

/// A table of maps: group, number, width, height and the solid tiles of each.
fn table(maps: &[(u8, u8, u16, u16, &[(i16, i16)])]) -> Vec<u8> {
    let mut out = b"PPCL\0\0".to_vec();
    out.extend_from_slice(&(maps.len() as u16).to_le_bytes());
    for &(group, num, width, height, solid) in maps {
        out.push(group);
        out.push(num);
        out.extend_from_slice(&width.to_le_bytes());
        out.extend_from_slice(&height.to_le_bytes());
        let mut bits = vec![0u8; (width as usize * height as usize).div_ceil(8)];
        for &(x, y) in solid {
            let i = y as usize * width as usize + x as usize;
            bits[i / 8] |= 1 << (i % 8);
        }
        out.extend_from_slice(&bits);
    }
    out
}

fn one_map(width: u16, height: u16, solid: &[(i16, i16)]) -> Collision {
    Collision::parse(&table(&[(0, 9, width, height, solid)])).ok().unwrap()
}

#[test]
fn a_solid_tile_is_not_walkable() {
    // Solid at layout (3,4), which the client would report as (10,11).
    let c = one_map(20, 20, &[(3, 4)]);
    assert!(!c.walkable(0, 9, 3 + MAP_OFFSET, 4 + MAP_OFFSET));
    assert!(c.walkable(0, 9, 4 + MAP_OFFSET, 4 + MAP_OFFSET));
}

#[test]
fn off_the_layout_is_allowed_so_connections_still_work() {
    let c = one_map(20, 20, &[]);
    assert!(c.walkable(0, 9, -5, 3));
    assert!(c.walkable(0, 9, 500, 3));
}

#[test]
fn an_unknown_map_is_not_a_cage() {
    let c = one_map(20, 20, &[]);
    assert!(c.walkable(3, 3, 10, 10));
}

#[test]
fn off_the_edge_is_refused_and_ordinary_positions_are_not() {
    // Birch's lab: 13x13 layout, so runtime 7..=19.
    let c = Collision::parse(&table(&[(1, 4, 13, 13, &[])])).ok().unwrap();

    assert!(c.in_bounds(1, 4, 7, 7), "the top-left tile is on the map");
    assert!(
        c.in_bounds(1, 4, 19, 19),
        "the bottom-right tile is on the map"
    );
    assert!(
        c.in_bounds(1, 4, 13, 14),
        "somewhere in the middle is on the map"
    );

    assert!(
        !c.in_bounds(1, 4, 14, 23),
        "town coordinates are not on the lab"
    );
    assert!(
        !c.in_bounds(1, 4, 20, 19),
        "one tile past the right edge is off the map"
    );
    assert!(!c.in_bounds(1, 4, 6, 7), "above the border is off the map");

    assert!(
        c.in_bounds(9, 9, 1000, 1000),
        "unknown maps are not policed"
    );
}

#[test]
fn a_table_is_read_or_refused() {
    let good = table(&[(0, 9, 3, 3, &[(0, 0)]), (0, 9, 2, 2, &[]), (1, 1, 0, 5, &[])]);
    let c = Collision::parse(&good).ok().unwrap();
    assert_eq!(c.len(), 2, "a map that occurs twice counts once");
    assert!(c.walkable(0, 9, 7, 7), "and its last record holds");
    assert_eq!(Collision::empty().len(), 0);
    let refused = |b: &[u8]| Collision::parse(b).err();
    assert_eq!(refused(b"PPCL"), Some(CollisionError::Short));
    assert_eq!(refused(b"NOPE\0\0\0\0"), Some(CollisionError::Magic));
    assert_eq!(refused(&good[..10]), Some(CollisionError::MidRecord));
    assert_eq!(refused(&good[..15]), Some(CollisionError::MidMap));
    assert_eq!(
        CollisionError::Short.message(),
        "collision table is too short to hold a header"
    );
    assert_eq!(CollisionError::MidMap.message(), "collision table ends mid-map");
}

// ---------------------------------------------------------------------------------------------

/// A world and the messages that each player has been sent.
struct Room {
    world: World,
    next: SessionId,
    inbox: HashMap<PlayerId, Vec<ServerControl>>,
}

impl Room {
    fn new() -> Self {
        Room { world: World::new(), next: 1, inbox: HashMap::new() }
    }

    fn with(collision: Collision) -> Self {
        Room { world: World::with_collision(collision), next: 1, inbox: HashMap::new() }
    }

    fn presence(&mut self, character_id: i64, name: &str, x: i16, y: i16) -> Presence {
        Presence {
            session: next_session_id(&mut self.next),
            character_id,
            name: name.to_string(),
            graphics_id: 7,
            pose: Pose { map: MapId::new(1, 4), x, y, ..Default::default() },
            party_count: 0,
            badges: 0,
            mode: "normal".to_string(),
            pending_invite: None,
            battle: None,
            position_unknown: true,
        }
    }

    fn send(&mut self, b: Broadcast) {
        for id in b.to {
            self.inbox.entry(id).or_default().push(b.msg.clone());
        }
    }

    fn deliver(&mut self, d: Delivery) {
        self.inbox.entry(d.to).or_default().push(d.msg);
    }

    /// Joins, and returns the session and the one that it displaced.
    fn join(&mut self, id: PlayerId, p: Presence) -> (SessionId, Option<Displaced>) {
        let session = p.session;
        let joined = self.world.join(id, p);
        self.send(joined.announcement);
        (session, joined.displaced)
    }

    fn add(&mut self, id: PlayerId, name: &str, x: i16, y: i16) -> SessionId {
        let p = self.presence(id as i64, name, x, y);
        self.join(id, p).0
    }

    fn invite(&mut self, from: PlayerId, target: PlayerId) -> Result<(), BattleRefusal> {
        let d = self.world.invite_to_battle(from, target)?;
        self.deliver(d);
        self.world.invitation_sent(from, target, true)
    }

    fn answer(
        &mut self,
        responder: PlayerId,
        from: PlayerId,
        accepted: bool,
    ) -> Result<(), BattleRefusal> {
        for d in self.world.answer_battle(responder, from, accepted)? {
            self.deliver(d);
        }
        Ok(())
    }

    fn chat(&mut self, from: PlayerId, name: &str, target: &ChatTarget, said: &str) -> bool {
        let routed = self.world.route_chat(from, name, target, said);
        self.send(routed.line);
        routed.delivered
    }

    fn block(&mut self, from: PlayerId, bytes: Vec<u8>) -> bool {
        match self.world.route_link_block(from, bytes) {
            Some(d) => {
                self.deliver(d);
                true
            }
            None => false,
        }
    }

    fn received(&mut self, id: PlayerId) -> Vec<ServerControl> {
        self.inbox.remove(&id).unwrap_or_default()
    }
}

fn at(group: u8, num: u8, x: i16, y: i16) -> Pose {
    Pose { map: MapId::new(group, num), x, y, ..Default::default() }
}

#[test]
fn a_map_change_onto_an_off_map_tile_is_refused() {
    // (0,9) is 13x13 -> runtime 7..=19; (0,10) is 20x20 -> runtime 7..=26.
    let mut room = Room::with(
        Collision::parse(&table(&[(0, 9, 13, 13, &[]), (0, 10, 20, 20, &[])])).ok().unwrap(),
    );
    let session = room.add(1, "Ash", 10, 10);

    // Settle onto (0,10) at a valid tile.
    let start = at(0, 10, 10, 10);
    assert_eq!(room.world.update_pose(1, session, start), Some(start));

    let off = at(0, 9, 14, 23);
    assert_eq!(
        room.world.update_pose(1, session, off),
        Some(start),
        "an off-map map-change must be refused, keeping the old pose"
    );

    // The same change onto a real tile of (0,9) is accepted.
    let ok = at(0, 9, 12, 12);
    assert_eq!(
        room.world.update_pose(1, session, ok),
        Some(ok),
        "an on-map map-change must be accepted"
    );
}

#[test]
fn nowhere_is_never_stored_however_often_it_is_reported() {
    let mut room = Room::with(
        Collision::parse(&table(&[(0, 9, 13, 13, &[]), (0, 10, 20, 20, &[])])).ok().unwrap(),
    );
    let session = room.add(1, "Ash", 10, 10);
    let start = at(0, 10, 10, 10);
    assert_eq!(room.world.update_pose(1, session, start), Some(start));
    let off = at(0, 9, 14, 23);
    for _ in 0..3 {
        assert_eq!(room.world.update_pose(1, session, off), Some(start));
        assert_eq!(room.world.pose_of(1), Some(start));
    }
    // The next place that is one settles it, and from there on steps count.
    let arrived = at(0, 9, 19, 19);
    assert_eq!(room.world.update_pose(1, session, arrived), Some(arrived));
    let jump = at(0, 9, 7, 7);
    assert_eq!(room.world.update_pose(1, session, jump), Some(arrived));
    // One step past the edge is how maps are crossed.
    let edge = at(0, 9, 20, 19);
    assert_eq!(room.world.update_pose(1, session, edge), Some(edge));
}

#[test]
fn a_first_report_off_the_map_is_refused() {
    let mut room =
        Room::with(Collision::parse(&table(&[(0, 9, 13, 13, &[])])).ok().unwrap());
    let session = room.add(1, "Ash", 10, 10);
    let before = room.world.pose_of(1);
    assert_eq!(room.world.update_pose(1, session, at(0, 9, 14, 23)), before);
    // A map that the table does not cover is no cage.
    let unknown = at(5, 5, 300, -20);
    assert_eq!(room.world.update_pose(1, session, unknown), Some(unknown));
}

#[test]
fn a_displaced_session_is_told_why() {
    match superseded() {
        ServerControl::Superseded { reason } => assert_eq!(reason, "signed in from somewhere else"),
        other => panic!("told something else: {other:?}"),
    }
}

#[test]
fn arriving_through_a_door_is_not_mistaken_for_a_teleport() {
    let mut room = Room::new();
    let session = room.add(1, "Ash", 5, 5);

    // Settle in: the join grace is used up by the first report.
    room.world.update_pose(1, session, at(1, 4, 5, 5));

    let doorway = at(9, 1, 4, 8);
    assert_eq!(room.world.update_pose(1, session, doorway), Some(doorway));

    let inside = at(9, 1, 12, 2);
    assert_eq!(
        room.world.update_pose(1, session, inside),
        Some(inside),
        "arriving through a door was refused as a teleport"
    );

    // Once settled, the rules apply again on the new map.
    let jump = at(9, 1, 40, 40);
    let answer = room.world.update_pose(1, session, jump).unwrap();
    assert_ne!(answer, jump, "a teleport inside the building was accepted");
}

#[test]
fn walking_to_another_map_moves_you_in_the_index() {
    let mut room = Room::new();
    let session = room.add(1, "Ash", 5, 5);
    room.add(2, "Misty", 6, 5);

    let here = MapId::new(1, 4);
    let there = MapId::new(2, 7);

    assert_eq!(room.world.snapshot(2, here, Pose::default()).len(), 1);

    room.world.update_pose(1, session, at(2, 7, 5, 5));

    assert!(room.world.snapshot(2, here, Pose::default()).is_empty());
    assert_eq!(room.world.snapshot(2, there, Pose::default()).len(), 1);
}

#[test]
fn a_single_step_is_accepted_and_a_teleport_is_not() {
    let mut room = Room::new();
    let session = room.add(1, "Ash", 10, 10);

    let step = at(1, 4, 10, 11);
    assert_eq!(
        room.world.update_pose(1, session, step),
        Some(step),
        "a one-tile step should be accepted"
    );

    // Across the map in one report: the classic teleport.
    let jump = at(1, 4, 40, 60);
    let answer = room.world.update_pose(1, session, jump).unwrap();
    assert_ne!(answer, jump, "a teleport was accepted");
    assert_eq!(
        (answer.x, answer.y),
        (10, 11),
        "the refusal should hand back the last position the server accepted"
    );

    // And the refusal must not have moved them either.
    assert_eq!(room.world.pose_of(1).map(|p| (p.x, p.y)), Some((10, 11)));
}

#[test]
fn a_diagonal_step_is_refused() {
    let mut room = Room::new();
    let session = room.add(1, "Ash", 5, 5);

    room.world.update_pose(1, session, at(1, 4, 5, 5));

    let diagonal = at(1, 4, 6, 6);
    let answer = room.world.update_pose(1, session, diagonal).unwrap();
    assert_ne!(answer, diagonal, "a diagonal step was accepted");
}

#[test]
fn a_step_into_a_wall_is_refused_and_turning_is_not() {
    let mut room = Room::with(
        Collision::parse(&table(&[(1, 4, 20, 20, &[(3, 4)])])).ok().unwrap(),
    );
    let session = room.add(1, "Ash", 10, 10);
    let beside = at(1, 4, 9, 11);
    room.world.update_pose(1, session, beside);
    assert_eq!(room.world.update_pose(1, session, at(1, 4, 10, 11)), Some(beside));
    let turned = Pose { facing: 2, ..beside };
    assert_eq!(room.world.update_pose(1, session, turned), Some(turned));
    assert_eq!(room.world.update_pose(2, session, turned), None, "nobody is there");
}

#[test]
fn accepting_gives_each_side_a_different_battle_slot() {
    let mut room = Room::new();
    room.add(1, "Ash", 0, 0);
    room.add(2, "Misty", 1, 0);

    room.invite(1, 2).unwrap();
    room.answer(2, 1, true).unwrap();

    let slot_of = |msgs: Vec<ServerControl>| {
        let mut found = None;
        for msg in msgs {
            if let ServerControl::BattleStarting { link_id, .. } = msg {
                found = Some(link_id);
            }
        }
        found
    };

    let challenger = slot_of(room.received(1)).expect("the challenger was not told to battle");
    let accepter = slot_of(room.received(2)).expect("the accepter was not told to battle");

    assert_eq!(challenger, 0, "the challenger should hold the master slot");
    assert_ne!(
        challenger, accepter,
        "both sides were given the same slot, so both would claim to be master"
    );
}

#[test]
fn declining_starts_no_battle() {
    let mut room = Room::new();
    room.add(1, "Ash", 0, 0);
    room.add(2, "Misty", 1, 0);

    room.invite(1, 2).unwrap();
    room.answer(2, 1, false).unwrap();

    for msg in room.received(1) {
        assert!(
            !matches!(msg, ServerControl::BattleStarting { .. }),
            "a declined challenge still started a battle"
        );
    }
}

#[test]
fn signing_in_again_tells_the_old_connection_to_stop() {
    let mut room = Room::new();
    let first = room.presence(1, "Ash", 0, 0);
    let second = room.presence(1, "Ash", 0, 0);

    let (old, displaced) = room.join(1, first);
    assert!(displaced.is_none());
    let (_, displaced) = room.join(1, second);
    let displaced = displaced.expect("nobody was displaced");
    assert_eq!(displaced.session, old);
    match displaced.msg {
        ServerControl::Superseded { reason } => assert_eq!(reason, "signed in from somewhere else"),
        other => panic!("the displaced connection was not told to stop: {other:?}"),
    }
}

#[test]
fn the_surviving_connection_is_not_told_to_stop() {
    let mut room = Room::new();
    let first = room.presence(1, "Ash", 0, 0);
    let second = room.presence(1, "Ash", 0, 0);

    room.join(1, first);
    let (live, displaced) = room.join(1, second);

    assert_ne!(
        displaced.map(|d| d.session),
        Some(live),
        "the live connection was told to stop"
    );
    for msg in room.received(1) {
        assert!(
            !matches!(msg, ServerControl::Superseded { .. }),
            "the live connection was told to stop"
        );
    }
}

#[test]
fn a_snapshot_excludes_the_viewer() {
    let mut room = Room::new();
    room.add(1, "Ash", 0, 0);
    room.add(2, "Misty", 3, 3);

    let seen = room.world.snapshot(1, MapId::new(1, 4), at(1, 4, 0, 0));
    assert_eq!(seen.len(), 1);
    assert_eq!(seen[0].name, "Misty");
}

#[test]
fn players_on_another_map_are_not_visible() {
    let mut room = Room::new();
    room.add(1, "Ash", 0, 0);
    let mut b = room.presence(2, "Misty", 0, 0);
    b.pose.map = MapId::new(9, 9);
    room.join(2, b);

    let seen = room.world.snapshot(1, MapId::new(1, 4), Pose::default());
    assert!(seen.is_empty());
}

#[test]
fn an_overfull_map_keeps_the_nearest_players() {
    let mut room = Room::new();
    room.add(0, "Me", 0, 0);
    // Twenty players strung out along the x axis, furthest inserted first.
    for i in 1..=20i16 {
        room.add(i as PlayerId, &format!("P{i}"), 100 - i, 0);
    }

    let seen = room.world.snapshot(0, MapId::new(1, 4), Pose::default());
    assert_eq!(seen.len(), MAX_VISIBLE_PLAYERS);
    // The closest is at x = 100 - 20 = 80.
    let nearest = seen.iter().map(|p| p.pose.x).min().unwrap();
    assert_eq!(nearest, 80);
    let furthest = seen.iter().map(|p| p.pose.x).max().unwrap();
    assert_eq!(furthest, 87);
}

#[test]
fn a_private_message_reaches_sender_and_recipient_only() {
    let mut room = Room::new();
    room.add(1, "Ash", 0, 0);
    room.add(2, "Misty", 0, 0);
    room.add(3, "Brock", 0, 0);
    room.inbox.clear();

    let ok = room.chat(1, "Ash", &ChatTarget::Private("Misty".into()), "hey");
    assert!(ok);
    assert!(!room.received(1).is_empty(), "sender should see their own PM");
    assert!(!room.received(2).is_empty(), "recipient should receive the PM");
    assert!(
        room.received(3).is_empty(),
        "third party must not receive the PM"
    );
}

#[test]
fn a_private_message_finds_its_recipient_whatever_the_case() {
    let mut room = Room::new();
    room.add(1, "Ash", 0, 0);
    room.add(2, "Misty", 0, 0);
    room.inbox.clear();

    let ok = room.chat(1, "Ash", &ChatTarget::Private("mIsTy".into()), "hey");
    assert!(ok);
    assert!(!room.received(2).is_empty(), "recipient should receive the PM");
}

#[test]
fn local_chat_stays_on_the_senders_map() {
    let mut room = Room::new();
    room.add(1, "Ash", 0, 0);
    room.add(2, "Misty", 0, 0);
    let mut c = room.presence(3, "Brock", 0, 0);
    c.pose.map = MapId::new(0, 9); // somewhere else entirely
    room.join(3, c);
    room.inbox.clear();

    let ok = room.chat(1, "Ash", &ChatTarget::Local, "hello");
    assert!(ok);
    assert!(!room.received(1).is_empty(), "sender should see their own line");
    assert!(
        !room.received(2).is_empty(),
        "someone on the same map should hear it"
    );
    assert!(room.received(3).is_empty(), "someone on another map must not");
    assert!(!room.chat(99, "Nobody", &ChatTarget::Local, "hello"));
}

#[test]
fn global_chat_reaches_other_maps() {
    let mut room = Room::new();
    room.add(1, "Ash", 0, 0);
    let mut b = room.presence(2, "Misty", 0, 0);
    b.pose.map = MapId::new(0, 9);
    room.join(2, b);
    room.inbox.clear();

    let ok = room.chat(1, "Ash", &ChatTarget::Global, "hello");
    assert!(ok);
    assert!(!room.received(1).is_empty());
    assert!(!room.received(2).is_empty(), "global must cross maps");
}

#[test]
fn a_private_message_to_an_offline_player_reports_failure() {
    let mut room = Room::new();
    room.add(1, "Ash", 0, 0);
    let ok = room.chat(1, "Ash", &ChatTarget::Private("Nobody".into()), "hey");
    assert!(!ok);
}

#[test]
fn a_block_reaches_the_opponent_with_the_senders_slot() {
    let mut room = Room::new();
    room.add(1, "Ash", 0, 0);
    room.add(2, "Misty", 0, 0);
    room.invite(1, 2).unwrap();
    room.answer(2, 1, true).unwrap();
    room.inbox.clear();

    assert!(room.block(1, vec![7, 8, 9]));
    match &room.received(2)[..] {
        [ServerControl::LinkBlock { from_slot, bytes }] => {
            assert_eq!(*from_slot, 0, "the challenger is slot 0");
            assert_eq!(*bytes, vec![7, 8, 9]);
        }
        other => panic!("expected a block, got {other:?}"),
    }

    // And the other way, from slot 1.
    assert!(room.block(2, vec![1]));
    match &room.received(1)[..] {
        [ServerControl::LinkBlock { from_slot, .. }] => assert_eq!(*from_slot, 1),
        other => panic!("expected a block, got {other:?}"),
    }
}

#[test]
fn a_block_from_nobodys_battle_is_dropped() {
    let mut room = Room::new();
    room.add(1, "Ash", 0, 0);
    room.add(2, "Misty", 0, 0);
    room.inbox.clear();

    assert!(!room.block(1, vec![1, 2, 3]));
    assert!(
        room.received(2).is_empty(),
        "an unseated player must not reach anyone"
    );
}

#[test]
fn declining_leaves_both_players_unseated() {
    let mut room = Room::new();
    room.add(1, "Ash", 0, 0);
    room.add(2, "Misty", 0, 0);
    room.invite(1, 2).unwrap();
    room.answer(2, 1, false).unwrap();

    assert!(!room.block(1, vec![1]));
    assert!(!room.block(2, vec![1]));
}

#[test]
fn ending_a_battle_unseats_both() {
    let mut room = Room::new();
    room.add(1, "Ash", 0, 0);
    room.add(2, "Misty", 0, 0);
    room.invite(1, 2).unwrap();
    room.answer(2, 1, true).unwrap();
    assert!(room.block(1, vec![1]), "seated to begin with");

    room.world.clear_battle(1);
    assert!(!room.block(1, vec![1]), "the ender is unseated");
    assert!(!room.block(2, vec![1]), "and so is the opponent");
}

#[test]
fn leaving_unseats_the_opponent() {
    let mut room = Room::new();
    let session_a = room.add(1, "Ash", 0, 0);
    room.add(2, "Misty", 0, 0);
    room.invite(1, 2).unwrap();
    room.answer(2, 1, true).unwrap();

    room.world.leave(1, session_a);
    assert!(
        !room.block(2, vec![1]),
        "the survivor should no longer be in a battle"
    );
}

#[test]
fn leaving_announces_departure_to_others() {
    let mut room = Room::new();
    room.add(1, "Ash", 0, 0);
    let b_session = room.add(2, "Misty", 0, 0);
    room.inbox.clear();

    let left = room.world.leave(2, b_session).unwrap();
    room.send(left);
    match &room.received(1)[..] {
        [ServerControl::PlayerLeft { player_id }] => assert_eq!(*player_id, 2),
        other => panic!("expected PlayerLeft, got {other:?}"),
    }
    assert_eq!(room.world.online_count(), 1);
}

#[test]
fn a_stale_connection_cannot_evict_the_reconnected_one() {
    let mut room = Room::new();
    let stale_session = room.add(1, "Ash", 0, 0);
    let live_session = room.add(1, "Ash", 5, 5);
    assert_ne!(stale_session, live_session);

    assert!(room.world.leave(1, stale_session).is_none());

    assert_eq!(room.world.online_count(), 1, "live session must survive");
    assert!(room.world.session_is_current(1, live_session));
    assert!(!room.world.session_is_current(1, stale_session));
}

#[test]
fn a_battle_invitation_reaches_the_target_and_can_be_accepted() {
    let mut room = Room::new();
    room.add(1, "Ash", 0, 0);
    room.add(2, "Misty", 1, 0);
    room.inbox.clear();

    room.invite(1, 2).unwrap();
    match &room.received(2)[..] {
        [ServerControl::BattleInvitation { from, from_name }] => {
            assert_eq!(*from, 1);
            assert_eq!(from_name, "Ash");
        }
        other => panic!("expected BattleInvitation, got {other:?}"),
    }

    room.answer(2, 1, true).unwrap();
    match &room.received(1)[0] {
        ServerControl::BattleInvitationAnswered { accepted, from_name, .. } => {
            assert!(*accepted);
            assert_eq!(from_name, "Misty");
        }
        other => panic!("expected BattleInvitationAnswered, got {other:?}"),
    }
}

#[test]
fn battle_invitations_are_refused_across_maps_and_to_yourself() {
    let mut room = Room::new();
    room.add(1, "Ash", 0, 0);
    let mut b = room.presence(2, "Misty", 0, 0);
    b.pose.map = MapId::new(9, 9);
    room.join(2, b);

    assert!(room.invite(1, 1).is_err(), "self-challenge");
    assert!(room.invite(1, 2).is_err(), "different map");
    assert!(room.invite(1, 99).is_err(), "not online");
}

#[test]
fn a_player_cannot_be_challenged_twice_at_once() {
    let mut room = Room::new();
    room.add(1, "Ash", 0, 0);
    room.add(2, "Misty", 1, 0);
    room.add(3, "Brock", 2, 0);

    room.invite(1, 2).unwrap();
    assert!(
        room.invite(3, 2).is_err(),
        "a second challenger must be refused while one is outstanding"
    );
}

#[test]
fn a_stale_answer_cannot_cancel_a_newer_challenge() {
    let mut room = Room::new();
    room.add(1, "Ash", 0, 0);
    room.add(2, "Misty", 1, 0);

    room.invite(1, 2).unwrap();
    // Answering an invitation that was never sent must not clear the real one.
    assert!(room.answer(2, 99, true).is_err());
    assert!(room.answer(2, 1, true).is_ok(), "real one survives");
}

#[test]
fn a_superseded_connection_cannot_move_the_character() {
    let mut room = Room::new();
    let stale_session = room.add(1, "Ash", 0, 0);
    room.add(1, "Ash", 5, 5);

    room.world.update_pose(1, stale_session, at(1, 4, 99, 99));

    assert_eq!(room.world.pose_of(1).unwrap().x, 5, "stale report ignored");
}

#[test]
fn deadman_players_fight_within_two_badges() {
    let mut room = Room::new();
    for (id, badges) in [(1, 0u8), (2, 3), (3, 2)] {
        let mut p = room.presence(id, "P", 0, 0);
        p.mode = "deadman".to_string();
        p.badges = badges;
        room.join(id as PlayerId, p);
    }
    assert_eq!(room.invite(1, 2), Err(BattleRefusal::BadgeRank));
    assert_eq!(room.invite(1, 3), Ok(()));
    room.world.set_badges(1, 1);
    assert_eq!(room.invite(1, 2), Ok(()));
}

#[test]
fn every_refusal_of_a_battle_says_why() {
    let mut room = Room::new();
    room.add(1, "Ash", 0, 0);
    room.add(2, "Misty", 0, 0);
    assert_eq!(room.invite(1, 1), Err(BattleRefusal::Yourself));
    assert_eq!(room.invite(99, 1), Err(BattleRefusal::NotOnline));
    assert_eq!(room.invite(1, 99), Err(BattleRefusal::TheyAreGone));
    room.invite(1, 2).unwrap();
    assert_eq!(room.invite(1, 2), Err(BattleRefusal::AlreadyChallenged));
    room.add(3, "Brock", 0, 0);
    assert_eq!(
        room.invite(2, 3),
        Err(BattleRefusal::YouAreChallenged),
        "one who was challenged answers first"
    );
    assert_eq!(room.answer(1, 2, true), Err(BattleRefusal::Expired));
    assert_eq!(
        room.world.invitation_sent(1, 2, false),
        Err(BattleRefusal::NotResponding)
    );
}

#[test]
fn party_counts_show_in_snapshots() {
    let mut room = Room::new();
    room.add(1, "Ash", 0, 0);
    room.add(2, "Misty", 0, 0);
    room.world.set_party_count(2, 4);
    let seen = room.world.snapshot(1, MapId::new(1, 4), Pose::default());
    assert_eq!(seen[0].party_count, 4);
    assert_eq!(seen[0].player_id, 2);
}

#[test]
fn chat_from_outside_is_cleaned() {
    let mut room = Room::new();
    room.add(1, "Ash", 0, 0);
    room.inbox.clear();
    let b = room.world.inject_chat("nick\u{1}", " hi\n").unwrap();
    room.send(b);
    match &room.received(1)[..] {
        [ServerControl::Chat { from, target, text }] => {
            assert_eq!(from, "nick");
            assert_eq!(*target, ChatTarget::Global);
            assert_eq!(text, "hi");
        }
        other => panic!("expected chat, got {other:?}"),
    }
    assert!(room.world.inject_chat("nick", "\n\t").is_none());
    assert!(room.world.inject_chat("\u{2}", "hi").is_none());
}

#[test]
fn a_message_for_someone_offline_goes_nowhere() {
    let mut room = Room::new();
    room.add(1, "Ash", 0, 0);
    assert!(room.world.tell(1, ServerControl::LoginPending).is_some());
    assert!(room.world.tell(2, ServerControl::LoginPending).is_none());
}
