//! Frames and messages between the game and its sidecar.

use pokeplanet::proto::ipc::{
    decode_game_message, encode_battle_answered, encode_battle_failed, encode_battle_invite,
    encode_battle_starting, encode_chat, encode_correction, encode_link_block, encode_profile,
    encode_save_image, encode_snapshot, encode_status, frame, take_frame, GameMessage, IpcError,
    SnapshotEntry, AUTH_ONLINE, CHAT_GLOBAL, MAX_FRAME, MSG_BATTLE_ENDED, MSG_BATTLE_REQUEST,
    MSG_BATTLE_RESPOND, MSG_BEGIN_LOGIN, MSG_CANCEL_LOGIN, MSG_CHAT, MSG_CHAT_SEND,
    MSG_LINK_BLOCK_SEND, MSG_LOGOUT, MSG_SAVE_CHUNK, MSG_SELF_STATE, MSG_STATUS, NAME_LEN,
    REMOTE_PLAYER_SIZE, SENDER_LEN, TEXT_LEN, URL_LEN,
};
use pokeplanet::proto::quic::{version_is_compatible, CharacterProfile};
use pokeplanet::proto::{MapId, Pose, PROTOCOL_VERSION};

#[test]
fn frames_round_trip_through_a_split_stream() {
    let mut stream = Vec::new();
    stream.extend_from_slice(&encode_status(AUTH_ONLINE, "Ash", "https://x/y"));
    stream.extend_from_slice(&encode_chat(CHAT_GLOBAL, "Brock", "hi"));

    // Feed it a byte at a time; nothing should surface until a frame is whole.
    let mut buf = Vec::new();
    let mut frames = Vec::new();
    for byte in stream {
        buf.push(byte);
        while let Some(f) = take_frame(&mut buf).unwrap() {
            frames.push(f);
        }
    }
    assert_eq!(frames.len(), 2);
    assert_eq!(frames[0][0], MSG_STATUS);
    assert_eq!(frames[1][0], MSG_CHAT);
}

#[test]
fn self_state_survives_the_round_trip() {
    let pose = Pose {
        map: MapId::new(3, 7),
        x: -12,
        y: 340,
        facing: 2,
        elevation: 3,
        moving: true,
    };
    let mut b = vec![MSG_SELF_STATE, pose.map.group, pose.map.num];
    b.extend_from_slice(&pose.x.to_le_bytes());
    b.extend_from_slice(&pose.y.to_le_bytes());
    b.push(pose.facing);
    b.push(1);
    b.push(42);
    b.push(pose.elevation);

    match decode_game_message(&b).unwrap() {
        GameMessage::SelfState { pose: got, graphics_id } => {
            assert_eq!(got, pose);
            assert_eq!(graphics_id, 42);
        }
        other => panic!("decoded as {other:?}"),
    }
}

#[test]
fn snapshot_entries_use_the_fixed_stride() {
    let entry = SnapshotEntry {
        player_id: 9,
        name: "Nurse Joy".into(),
        graphics_id: 5,
        pose: Pose::default(),
    };
    let f = encode_snapshot(std::slice::from_ref(&entry));
    // 4 length + 1 type + 2 count + one padded entry
    assert_eq!(f.len(), 4 + 1 + 2 + REMOTE_PLAYER_SIZE);
}

#[test]
fn oversized_names_are_truncated_not_overflowed() {
    let entry = SnapshotEntry {
        player_id: 1,
        name: "A".repeat(200),
        graphics_id: 0,
        pose: Pose::default(),
    };
    let f = encode_snapshot(std::slice::from_ref(&entry));
    assert_eq!(f.len(), 4 + 1 + 2 + REMOTE_PLAYER_SIZE);
}

#[test]
fn a_nonsense_length_is_rejected_rather_than_allocated() {
    let mut buf = u32::MAX.to_le_bytes().to_vec();
    buf.extend_from_slice(&[0u8; 8]);
    assert!(take_frame(&mut buf).is_err());
}

#[test]
fn a_frame_is_its_length_and_its_body() {
    assert_eq!(frame(vec![7, 8, 9]), vec![3, 0, 0, 0, 7, 8, 9]);
    let mut buf = frame(vec![7, 8, 9]);
    buf.extend(frame(vec![1]));
    assert_eq!(take_frame(&mut buf), Ok(Some(vec![7, 8, 9])));
    assert_eq!(buf, vec![1, 0, 0, 0, 1]);
    assert_eq!(take_frame(&mut buf), Ok(Some(vec![1])));
    assert_eq!(take_frame(&mut buf), Ok(None));
}

#[test]
fn an_empty_frame_and_one_over_the_limit_are_refused() {
    let mut empty = vec![0, 0, 0, 0, 1];
    assert_eq!(take_frame(&mut empty), Err(IpcError::ImplausibleLength(0)));
    let over = MAX_FRAME as u32 + 1;
    let mut large = over.to_le_bytes().to_vec();
    assert_eq!(take_frame(&mut large), Err(IpcError::ImplausibleLength(over)));
    let mut largest = (MAX_FRAME as u32).to_le_bytes().to_vec();
    assert_eq!(take_frame(&mut largest), Ok(None));
    assert_eq!(
        IpcError::ImplausibleLength(0).message(),
        "implausible IPC frame length 0"
    );
}

#[test]
fn fixed_fields_end_in_a_zero_and_never_split_a_character() {
    // Fifteen two-byte characters: seven fit in front of the final zero of a field of sixteen.
    let f = encode_status(AUTH_ONLINE, &"\u{e9}".repeat(15), "u");
    assert_eq!(f.len(), 4 + 2 + NAME_LEN + URL_LEN);
    let name = &f[6..6 + NAME_LEN];
    assert_eq!(&name[..14], "\u{e9}".repeat(7).as_bytes());
    assert_eq!(&name[14..], &[0, 0]);
    assert_eq!(f[6 + NAME_LEN], b'u');
    assert_eq!(f[6 + NAME_LEN + 1], 0);
}

#[test]
fn every_message_to_the_game_has_its_layout() {
    assert_eq!(encode_battle_invite(0x0102_0304, "Ash")[4..9], [5, 4, 3, 2, 1]);
    assert_eq!(encode_battle_answered(7, "Ash", true)[4..10], [6, 1, 7, 0, 0, 0]);
    assert_eq!(encode_battle_failed("no").len(), 4 + 1 + TEXT_LEN);
    assert_eq!(
        encode_save_image(0x10, 0x20, &[9, 8]),
        vec![13, 0, 0, 0, 8, 0x10, 0, 0, 0, 0x20, 0, 0, 0, 2, 0, 9, 8]
    );
    assert_eq!(encode_battle_starting(7, "Ash", 1)[4..10], [9, 1, 7, 0, 0, 0]);
    let pose = Pose { map: MapId::new(1, 2), x: -1, y: 3, facing: 4, elevation: 5, moving: false };
    assert_eq!(
        encode_correction(&pose),
        vec![9, 0, 0, 0, 0x0A, 1, 2, 0xFF, 0xFF, 3, 0, 4, 5]
    );
    assert_eq!(encode_chat(2, "a", "b").len(), 4 + 2 + SENDER_LEN + TEXT_LEN);
    assert_eq!(encode_link_block(1, &[5, 6]), vec![6, 0, 0, 0, 0x0B, 1, 2, 0, 5, 6]);
    let profile = CharacterProfile {
        name: "Ash".into(),
        graphics_id: 89,
        play_time_seconds: 0x0102,
        badges: 3,
        pokedex_caught: 4,
        pokedex_seen: 5,
        money: 6,
        map_group: 7,
        map_num: 8,
        x: 9,
        y: -1,
    };
    let f = encode_profile(&profile);
    assert_eq!(
        f[4..25],
        [4, 89, 3, 4, 0, 5, 0, 2, 1, 0, 0, 6, 0, 0, 0, 7, 8, 9, 0, 0xFF, 0xFF]
    );
    assert_eq!(&f[25..29], b"Ash\0");
}

#[test]
fn every_message_of_the_game_is_understood() {
    assert!(matches!(decode_game_message(&[MSG_BEGIN_LOGIN]), Ok(GameMessage::BeginLogin)));
    assert!(matches!(decode_game_message(&[MSG_CANCEL_LOGIN]), Ok(GameMessage::CancelLogin)));
    assert!(matches!(decode_game_message(&[MSG_LOGOUT]), Ok(GameMessage::Logout)));
    assert!(matches!(decode_game_message(&[MSG_BATTLE_ENDED]), Ok(GameMessage::BattleEnded)));
    assert!(matches!(
        decode_game_message(&[MSG_BATTLE_REQUEST, 1, 0, 0, 0]),
        Ok(GameMessage::RequestBattle { target: 1 })
    ));
    assert!(matches!(
        decode_game_message(&[MSG_BATTLE_RESPOND, 2, 0, 0, 0, 1]),
        Ok(GameMessage::RespondToBattle { from: 2, accepted: true })
    ));
    match decode_game_message(&[MSG_SAVE_CHUNK, 0, 0, 0, 0, 9, 0, 0, 0, 2, 0, 5, 6, 7]) {
        Ok(GameMessage::SaveChunk { offset: 0, total: 9, bytes }) => assert_eq!(bytes, vec![5, 6]),
        other => panic!("decoded as {other:?}"),
    }
    match decode_game_message(&[MSG_LINK_BLOCK_SEND, 2, 0, 5, 6]) {
        Ok(GameMessage::LinkBlock { bytes }) => assert_eq!(bytes, vec![5, 6]),
        other => panic!("decoded as {other:?}"),
    }
}

#[test]
fn text_from_the_game_is_read_up_to_its_zero_and_repaired() {
    let mut b = vec![MSG_CHAT_SEND, 2];
    let mut target = vec![0u8; SENDER_LEN];
    target[..3].copy_from_slice(b"Ash");
    target[4] = b'x';
    b.extend(target);
    let mut text = vec![0u8; TEXT_LEN];
    text[..4].copy_from_slice(&[b'h', 0xFF, b'i', 0]);
    b.extend(text);
    match decode_game_message(&b) {
        Ok(GameMessage::ChatSend { kind, target, text }) => {
            assert_eq!(kind, 2);
            assert_eq!(target, "Ash");
            assert_eq!(text, "h\u{FFFD}i");
        }
        other => panic!("decoded as {other:?}"),
    }
}

#[test]
fn text_from_the_game_is_decoded_as_utf8() {
    let mut b = vec![MSG_CHAT_SEND, 0];
    let mut target = vec![0u8; SENDER_LEN];
    target[..5].copy_from_slice("No\u{e9}l".as_bytes());
    b.extend(target);
    let mut text = vec![0u8; TEXT_LEN];
    text[..7].copy_from_slice("\u{20ac}\u{1f600}".as_bytes());
    b.extend(text);
    match decode_game_message(&b) {
        Ok(GameMessage::ChatSend { target, text, .. }) => {
            assert_eq!(target, "No\u{e9}l");
            assert_eq!(text, "\u{20ac}\u{1f600}");
        }
        other => panic!("decoded as {other:?}"),
    }
}

#[test]
fn malformed_messages_of_the_game_say_what_is_wrong() {
    let of = |b: &[u8]| decode_game_message(b).err();
    assert_eq!(of(&[]), Some(IpcError::Empty));
    assert_eq!(of(&[MSG_SELF_STATE, 1]), Some(IpcError::ShortSelfState(1)));
    assert_eq!(of(&[MSG_BATTLE_REQUEST, 1]), Some(IpcError::ShortBattleRequest(1)));
    assert_eq!(of(&[MSG_BATTLE_RESPOND, 1]), Some(IpcError::ShortBattleRespond(1)));
    assert_eq!(of(&[MSG_SAVE_CHUNK, 1]), Some(IpcError::ShortSaveChunk(1)));
    assert_eq!(
        of(&[MSG_SAVE_CHUNK, 0, 0, 0, 0, 9, 0, 0, 0, 2, 0, 5]),
        Some(IpcError::SaveChunkClaims { len: 2, carries: 1 })
    );
    assert_eq!(
        of(&[MSG_SAVE_CHUNK, 8, 0, 0, 0, 9, 0, 0, 0, 2, 0, 5, 6]),
        Some(IpcError::SaveChunkExceeds { offset: 8, len: 2, total: 9 })
    );
    assert_eq!(of(&[MSG_CHAT_SEND, 1]), Some(IpcError::ShortChatSend(1)));
    assert_eq!(of(&[MSG_LINK_BLOCK_SEND, 1]), Some(IpcError::ShortLinkBlock));
    assert_eq!(of(&[MSG_LINK_BLOCK_SEND, 9, 0, 1]), Some(IpcError::TruncatedLinkBlock));
    assert_eq!(of(&[0x7F]), Some(IpcError::UnknownType(0x7F)));
    assert_eq!(IpcError::UnknownType(0x7F).message(), "unknown IPC message type 0x7F");
}

#[test]
fn only_the_servers_own_version_is_compatible() {
    assert!(version_is_compatible(PROTOCOL_VERSION));
    assert!(!version_is_compatible(PROTOCOL_VERSION + 1));
    assert!(!version_is_compatible(0));
}
