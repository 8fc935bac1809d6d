//! A connection to the server: greeting, signing in, messages, reports; and the chat bridge.

use pokeplanet::proto::quic::{ChatTarget, CharacterProfile, ClientControl, ServerControl};
use pokeplanet::proto::{MapId, Pose};
use pokeplanet::server::db::Character;
use pokeplanet::server::economy::{
    credit, image_with_money, money, transfer, try_deduct, Transfer,
};
use pokeplanet::server::irc::{
    backoff, is_loopback, parse_privmsg, relay_to_irc, Beat, Bridge, LineStep,
};
use pokeplanet::server::quic::chunks::{
    cut, take_block_chunk, take_save_slice, BlockBuffer, BlockStep, Upload, MAX_SAVE_BYTES,
    TAIL_BLOCK, TAIL_LEN,
};
use pokeplanet::server::quic::control::{
    correction, gate, is_heavy_control, read_control, resynced, Ask, Gate,
};
use pokeplanet::server::quic::handshake::{
    after_claim, bank_on_entering, carried_money, control_frame_len, frame_len_message, greet, mode_of,
    player_id_of, plays_elsewhere, presence_of, seed_party_count, unfit_id_message, Claimed,
    Greeting, LoginAnswer, LoginPolls, LoginStep,
};
use pokeplanet::server::quic::progress::{
    paced, propose, settle, take_first_save, Accepted, FirstSave, Report, Settled,
};
use pokeplanet::server::quic::reports::{
    first_save, move_money, over_caps, pin_encryption_key, report_block, report_item,
    report_money, report_party, report_region, report_tail, CapRefusal, Refusal,
};
use pokeplanet::server::save_parse::image::{
    checksum, read_block, NUM_SECTORS, SAVEBLOCK1_SECTORS, SAVEBLOCK2_SECTORS, SECTORS_PER_SLOT,
    SECTOR_DATA_SIZE, SECTOR_SIGNATURE, SECTOR_SIZE, STORAGE_SECTORS,
};
use pokeplanet::server::save_parse::judge::MAX_MONEY;
use pokeplanet::server::save_parse::state::{parse, OFFSET_FLAGS, OFFSET_MONEY};

// Chat bridge ---------------------------------------------------------------------------------

#[test]
fn parses_a_channel_message() {
    let got = parse_privmsg(":ash!~a@host PRIVMSG #pokeplanet :hello there").unwrap();
    assert_eq!(got.0, "ash");
    assert_eq!(got.1, "#pokeplanet");
    assert_eq!(got.2, "hello there");
}

#[test]
fn a_message_containing_a_colon_keeps_its_text_intact() {
    let got = parse_privmsg(":a!b@c PRIVMSG #x :see: this").unwrap();
    assert_eq!(got.2, "see: this");
}

#[test]
fn non_privmsg_lines_are_ignored() {
    assert!(parse_privmsg(":server 001 nick :Welcome").is_none());
    assert!(parse_privmsg("PING :abc").is_none());
}

#[test]
fn a_sender_without_a_host_is_all_nick() {
    assert_eq!(
        parse_privmsg(":ash PRIVMSG #x :a :b"),
        Some(("ash".to_string(), "#x".to_string(), "a :b".to_string()))
    );
    assert!(parse_privmsg(":ash PRIVMSG #x hello").is_none());
    assert!(parse_privmsg("").is_none());
}

#[test]
fn only_global_chat_crosses_the_bridge() {
    assert_eq!(
        relay_to_irc("ash", &ChatTarget::Global, "hi"),
        Some("<ash> hi".to_string())
    );
    assert_eq!(relay_to_irc("ash", &ChatTarget::Local, "hi"), None);
    assert_eq!(relay_to_irc("ash", &ChatTarget::Private("x".to_string()), "hi"), None);
}

fn written(step: LineStep) -> String {
    match step {
        LineStep::Write(s) => s,
        _ => panic!("nothing was written"),
    }
}

#[test]
fn the_bridge_registers_joins_and_stays_alive() {
    let mut b = Bridge::new();
    assert_eq!(
        b.registration(),
        "NICK PokePlanet\r\nUSER pokeplanet 0 * :PokePlanet game bridge\r\n"
    );
    assert_eq!(b.outbound("<a> hi", "#c"), None, "the channel was not joined yet");
    assert_eq!(written(b.line(":s 433 * PokePlanet :in use", "#c")), "NICK PokePlanet_\r\n");
    assert_eq!(written(b.line(":s 001 PokePlanet_ :Welcome", "#c")), "JOIN #c\r\n");
    assert_eq!(written(b.line("PING :abc", "#c")), "PONG :abc\r\n");
    assert_eq!(b.outbound("<a> hi", "#c"), Some("PRIVMSG #c :<a> hi\r\n".to_string()));
    assert!(matches!(b.heartbeat(60), Beat::Write(s) if s == "PING :pokeplanet-keepalive\r\n"));
    assert!(matches!(b.heartbeat(90), Beat::Silent));
    b.line(":s PONG s", "#c");
    assert!(matches!(b.heartbeat(90), Beat::Write(_)));
    let mut slow = Bridge::new();
    assert!(matches!(slow.heartbeat(30), Beat::Unregistered));
    assert!(matches!(slow.heartbeat(29), Beat::Write(_)));
}

#[test]
fn only_other_peoples_lines_in_the_channel_reach_the_game() {
    let mut b = Bridge::new();
    match b.line(":ash!a@h PRIVMSG #C :hello", "#c") {
        LineStep::Inject { sender, text } => {
            assert_eq!(sender, "ash");
            assert_eq!(text, "hello");
        }
        _ => panic!("the line was not handed on"),
    }
    assert!(matches!(b.line(":PokePlanet!a@h PRIVMSG #c :hello", "#c"), LineStep::Nothing));
    assert!(matches!(b.line(":ash!a@h PRIVMSG #d :hello", "#c"), LineStep::Nothing));
    assert!(is_loopback("127.0.0.1") && is_loopback("::1") && is_loopback("localhost"));
    assert!(!is_loopback("127.0.0.2") && !is_loopback("example.com"));
}

#[test]
fn the_bridge_waits_up_to_a_minute() {
    let mut wait = 2;
    let mut waits = vec![];
    for _ in 0..7 {
        let (now, next) = backoff(wait, false);
        waits.push(now);
        wait = next;
    }
    assert_eq!(waits, vec![2, 4, 8, 16, 32, 60, 60]);
    assert_eq!(backoff(60, true), (2, 4));
}

// Greeting ------------------------------------------------------------------------------------

fn hello(version: u16, mode: &str) -> ClientControl {
    ClientControl::Hello {
        protocol_version: version,
        token: Some("t".to_string()),
        client_version: "x".to_string(),
        mode: mode.to_string(),
    }
}

#[test]
fn a_greeting_opens_one_of_two_worlds() {
    match greet(hello(1, "deadman")) {
        Greeting::Enter { token, mode } => {
            assert_eq!(token, Some("t".to_string()));
            assert_eq!(mode, "deadman");
        }
        _ => panic!("was turned away"),
    }
    assert!(matches!(greet(hello(1, "third")), Greeting::Enter { mode, .. } if mode == "normal"));
    assert!(matches!(greet(ClientControl::Goodbye), Greeting::NotHello));
    match greet(hello(2, "normal")) {
        Greeting::Outdated { reason } => assert_eq!(
            reason,
            "This client speaks protocol 2; the server needs 1. Please update."
        ),
        _ => panic!("was let in"),
    }
    assert_eq!(mode_of("Deadman"), "normal");
}

#[test]
fn control_frames_have_a_plausible_length() {
    assert_eq!(control_frame_len(&[1, 0, 0, 0]), Ok(1));
    assert_eq!(control_frame_len(&[0, 0, 1, 0]), Ok(65536));
    assert_eq!(control_frame_len(&[1, 0, 1, 0]), Err(65537));
    assert_eq!(control_frame_len(&[0, 0, 0, 0]), Err(0));
    assert_eq!(frame_len_message(65537), "implausible control frame length 65537");
}

#[test]
fn polls_reach_the_database_once_a_second() {
    let poll = || ClientControl::PollLogin { ticket: "t".to_string() };
    let mut p = LoginPolls::new();
    assert!(matches!(p.step(poll(), 5), LoginStep::Claim { ticket } if ticket == "t"));
    assert!(matches!(p.step(poll(), 1004), LoginStep::Pending));
    assert!(matches!(p.step(poll(), 1005), LoginStep::Claim { .. }));
    assert!(matches!(p.step(ClientControl::BeginLogin, 1006), LoginStep::Resend));
    assert!(matches!(p.step(ClientControl::Resync, 1006), LoginStep::Ignore));
    assert!(matches!(p.step(ClientControl::Goodbye, 1006), LoginStep::End));
}

fn character(id: i64, mode: &str) -> Character {
    Character {
        id,
        account_id: 2,
        mode: mode.to_string(),
        name: "Ash".to_string(),
        graphics_id: 89,
        map_group: 1,
        map_num: 2,
        x: 3,
        y: 4,
        facing: 1,
        elevation: 3,
        play_time_s: 0,
        money: 77,
        badges: 5,
        pokedex_caught: 0,
        pokedex_seen: 0,
    }
}

#[test]
fn a_finished_login_leads_into_the_world() {
    assert!(matches!(
        after_claim(Claimed::NotYet),
        LoginAnswer::Tell(ServerControl::LoginPending)
    ));
    assert!(matches!(
        after_claim(Claimed::NoCharacter),
        LoginAnswer::TellAndEnd(ServerControl::Rejected { reason })
            if reason == "Login completed but the session was already gone."
    ));
    assert!(matches!(
        after_claim(Claimed::Character(character(9, "normal"))),
        LoginAnswer::Enter(c) if c.id == 9
    ));
}

#[test]
fn a_character_enters_where_the_row_says() {
    let c = character(9, "deadman");
    let p = presence_of(&c, 4, 2);
    assert_eq!(p.session, 4);
    assert_eq!(p.character_id, 9);
    assert_eq!(p.name, "Ash");
    assert_eq!(p.mode, "deadman");
    assert_eq!((p.party_count, p.badges, p.graphics_id), (2, 5, 89));
    assert_eq!(
        p.pose,
        Pose { map: MapId::new(1, 2), x: 3, y: 4, facing: 1, elevation: 3, moving: false }
    );
    assert!(p.position_unknown && p.pending_invite.is_none() && p.battle.is_none());
    assert!(plays_elsewhere(&c, "normal"));
    assert!(!plays_elsewhere(&c, "deadman"));
    assert_eq!(player_id_of(9), Some(9));
    assert_eq!(player_id_of(u32::MAX as i64), Some(u32::MAX));
    assert_eq!(player_id_of(u32::MAX as i64 + 1), None);
    assert_eq!(player_id_of(-1), None);
    assert_eq!(
        unfit_id_message(-1),
        "character id -1 does not fit the wire's player id; refusing"
    );
}

// Messages ------------------------------------------------------------------------------------

#[test]
fn only_save_work_is_paced() {
    assert!(is_heavy_control(&ClientControl::Resync));
    assert!(is_heavy_control(&ClientControl::BankDeposit));
    assert!(is_heavy_control(&ClientControl::MoneyChanged { amount: 1 }));
    assert!(!is_heavy_control(&ClientControl::BattleEnded));
    assert!(!is_heavy_control(&ClientControl::Keys { frames: vec![] }));
    assert_eq!(gate(false, true, true), Gate::Superseded);
    assert_eq!(gate(true, true, false), Gate::Throttled);
    assert_eq!(gate(true, true, true), Gate::Open { locked: true });
    assert_eq!(gate(true, false, false), Gate::Open { locked: false });
}

#[test]
fn messages_are_read_and_bounded() {
    let chat = |text: &str| ClientControl::Chat {
        target: ChatTarget::Global,
        text: text.to_string(),
    };
    assert!(matches!(read_control(chat(" hi\n"), "normal"), Ask::Say { text, .. } if text == "hi"));
    assert!(matches!(read_control(chat("\n"), "normal"), Ask::Ignore));
    let keys = |n: usize| ClientControl::Keys { frames: vec![0; n] };
    assert!(matches!(read_control(keys(600), "normal"), Ask::Replay { .. }));
    assert!(matches!(read_control(keys(601), "normal"), Ask::Refused));
    let region = |n: usize| ClientControl::RegionChanged { offset: 0, bytes: vec![0; n] };
    assert!(matches!(read_control(region(0x400), "normal"), Ask::Region { .. }));
    assert!(matches!(read_control(region(0x401), "normal"), Ask::Refused));
    let party = |c: u8, n: usize| ClientControl::PartyChanged { count: c, mons: vec![0; n] };
    assert!(matches!(read_control(party(6, 600), "normal"), Ask::Party { .. }));
    assert!(matches!(read_control(party(7, 600), "normal"), Ask::Refused));
    assert!(matches!(read_control(party(6, 599), "normal"), Ask::Refused));
    let block = |n: usize| ClientControl::LinkBlock { bytes: vec![0; n] };
    assert!(matches!(read_control(block(256), "normal"), Ask::Forward { .. }));
    assert!(matches!(read_control(block(257), "normal"), Ask::Stop));
    assert!(matches!(read_control(ClientControl::HardReset, "normal"), Ask::Ignore));
    assert!(matches!(read_control(ClientControl::HardReset, "deadman"), Ask::Wipe));
    assert!(matches!(
        read_control(ClientControl::BankDeposit, "deadman"),
        Ask::Bank { deposit: true }
    ));
    assert!(matches!(
        read_control(ClientControl::BankWithdraw, "deadman"),
        Ask::Bank { deposit: false }
    ));
    assert!(matches!(read_control(ClientControl::Goodbye, "normal"), Ask::Stop));
    assert!(matches!(read_control(hello(1, "normal"), "normal"), Ask::Ignore));
}

#[test]
fn a_client_is_put_back_only_where_it_is_wrong() {
    let here = Pose { x: 1, ..Pose::default() };
    let there = Pose { x: 2, ..Pose::default() };
    assert_eq!(correction(here, Some(here)), None);
    assert_eq!(correction(here, Some(there)), Some(there));
    assert_eq!(correction(here, None), None);
    let profile = CharacterProfile::default();
    let r = resynced(profile.clone(), Some(Pose { map: MapId::new(3, 4), x: 5, y: 6, ..here }));
    assert_eq!((r.map_group, r.map_num, r.x, r.y), (3, 4, 5, 6));
    assert_eq!(resynced(profile, None).x, 0);
}

// Slices --------------------------------------------------------------------------------------

#[test]
fn an_upload_is_put_back_together() {
    let image: Vec<u8> = (0..5000u32).map(|i| i as u8).collect();
    let mut buf = vec![];
    let slices = cut(&image, 2000);
    assert_eq!(slices.len(), 3);
    for (i, s) in slices.iter().enumerate() {
        match take_save_slice(&mut buf, s.offset, 5000, &s.bytes) {
            Upload::Complete(whole) => {
                assert_eq!(i, 2);
                assert_eq!(whole, image);
            }
            Upload::More => assert!(i < 2),
            _ => panic!("a slice was refused"),
        }
    }
    assert!(buf.is_empty());
    let over = MAX_SAVE_BYTES as u32 + 1;
    assert!(matches!(take_save_slice(&mut buf, 0, over, &[1]), Upload::Oversized));
    assert!(matches!(take_save_slice(&mut buf, 4, 5, &[1, 2]), Upload::Malformed));
    assert!(matches!(take_save_slice(&mut buf, 4, 5, &[1]), Upload::More));
    assert!(buf.is_empty(), "a slice that continues nothing is not kept");
}

#[test]
fn a_block_arrives_in_chunks_of_its_own() {
    let mut buf = BlockBuffer { block: None, data: vec![] };
    assert!(matches!(take_block_chunk(&mut buf, 9, 0, 4, &[1]), BlockStep::Unknown));
    assert!(matches!(take_block_chunk(&mut buf, 0, 0, 4, &[1, 2]), BlockStep::More));
    assert!(matches!(
        take_block_chunk(&mut buf, 0, 2, 4, &[3, 4]),
        BlockStep::Complete(b) if b == vec![1, 2, 3, 4]
    ));
    // Another block in between starts over.
    take_block_chunk(&mut buf, 0, 0, 4, &[1, 2]);
    assert!(matches!(take_block_chunk(&mut buf, 1, 2, 4, &[3, 4]), BlockStep::More));
    assert!(matches!(take_block_chunk(&mut buf, 0, 2, 4, &[3, 4]), BlockStep::More));
    // A chunk that is too large, runs past its total, or has a total past the block.
    assert!(matches!(take_block_chunk(&mut buf, 1, 0, 2000, &[0; 0x401]), BlockStep::Malformed));
    assert!(matches!(take_block_chunk(&mut buf, 0, 3, 4, &[1, 2]), BlockStep::Malformed));
    assert!(matches!(take_block_chunk(&mut buf, 0, 0, 3969, &[1]), BlockStep::Malformed));
    assert!(matches!(take_block_chunk(&mut buf, TAIL_BLOCK, 0, 5, &[1]), BlockStep::Malformed));
    let tail = TAIL_LEN as u32;
    assert!(matches!(take_block_chunk(&mut buf, TAIL_BLOCK, 0, tail, &[1]), BlockStep::More));
}

// Reports -------------------------------------------------------------------------------------

/// A save with money, story flags and one Pokemon of this level.
fn save(amount: u32, flags: &[u8], level: u8) -> Vec<u8> {
    let mut block = vec![0u8; SAVEBLOCK1_SECTORS.len() * SECTOR_DATA_SIZE];
    block[OFFSET_MONEY..OFFSET_MONEY + 4].copy_from_slice(&amount.to_le_bytes());
    block[OFFSET_FLAGS..OFFSET_FLAGS + flags.len()].copy_from_slice(flags);
    block[0x234] = 1;
    block[0x238] = 9;
    block[0x238 + 0x54] = level;
    let mut image = vec![0u8; NUM_SECTORS * SECTOR_SIZE];
    for i in 0..SECTORS_PER_SLOT {
        let start = i * SECTOR_SIZE;
        let id = ((i + 5) % SECTORS_PER_SLOT) as u16;
        if let Some(n) = SAVEBLOCK1_SECTORS.iter().position(|s| *s == id) {
            image[start..start + SECTOR_DATA_SIZE]
                .copy_from_slice(&block[n * SECTOR_DATA_SIZE..(n + 1) * SECTOR_DATA_SIZE]);
        }
        let footer = start + SECTOR_DATA_SIZE + 116;
        let sum = checksum(&image[start..start + SECTOR_DATA_SIZE], SECTOR_DATA_SIZE);
        image[footer..footer + 2].copy_from_slice(&id.to_le_bytes());
        image[footer + 2..footer + 4].copy_from_slice(&sum.to_le_bytes());
        image[footer + 4..footer + 8].copy_from_slice(&SECTOR_SIGNATURE.to_le_bytes());
        image[footer + 8..footer + 12].copy_from_slice(&1u32.to_le_bytes());
    }
    image
}

fn refusal<T>(r: Result<T, Refusal>) -> Refusal {
    match r {
        Ok(_) => panic!("was accepted"),
        Err(e) => e,
    }
}

#[test]
fn reported_money_becomes_a_save_or_is_refused() {
    let stored = save(100, &[], 10);
    let c = report_money(&stored, 250).ok().unwrap();
    assert_eq!(c.before.money(), 100);
    assert_eq!(c.after.money(), 250);
    assert_eq!(parse(&c.image).unwrap().money(), 250);
    assert!(matches!(refusal(report_money(&[], 250)), Refusal::Unreadable));
    match refusal(report_money(&stored, 1_000_000)) {
        Refusal::Rule(why) => {
            assert_eq!(why, "money is 1000000, above the 999999 the game clamps to")
        }
        _ => panic!("refused for another reason"),
    }
    // A sector that no size explains cannot be authored.
    let mut broken = stored.clone();
    for i in 0..SECTORS_PER_SLOT {
        let footer = i * SECTOR_SIZE + SECTOR_DATA_SIZE + 116;
        if broken[footer] == 2 {
            broken[i * SECTOR_SIZE + 8] = 0x11;
            broken[footer + 2..footer + 4].copy_from_slice(&0xBEEFu16.to_le_bytes());
        }
    }
    assert!(matches!(refusal(report_money(&broken, 1)), Refusal::Unbuildable));
}

#[test]
fn reported_items_and_parties_become_saves_or_are_refused() {
    let stored = save(100, &[], 10);
    let c = report_item(&stored, 0, 13, 5).ok().unwrap();
    assert_eq!(c.after.bag, vec![(0, 13, 5)]);
    assert!(matches!(refusal(report_item(&stored, 9, 13, 5)), Refusal::NoPlace));
    assert!(matches!(refusal(report_item(&stored, 0, 13, 100)), Refusal::Rule(_)));
    let mut mons = vec![0u8; 600];
    mons[0] = 9;
    mons[0x54] = 12;
    let c = report_party(&stored, 1, &mons).ok().unwrap();
    assert_eq!(c.after.party[0].level, 12);
    mons[0x54] = 101;
    assert!(matches!(refusal(report_party(&stored, 1, &mons)), Refusal::Rule(_)));
    assert!(matches!(refusal(report_party(&stored, 1, &mons[1..])), Refusal::Malformed));
    assert!(matches!(refusal(report_party(&stored, 7, &mons)), Refusal::Malformed));
    assert!(matches!(refusal(report_party(&[], 1, &mons)), Refusal::Unreadable));
}

#[test]
fn a_reported_region_may_not_take_a_badge() {
    let mut flags = vec![0u8; 300];
    flags[2151 / 8] |= 1 << (2151 % 8);
    let stored = save(100, &flags, 10);
    let old = parse(&stored).unwrap();
    let (at, len) = (0x1048usize, 0x400usize);
    let mut chunk = old.block1[at..at + len].to_vec();
    assert!(report_region(&stored, at as u32, &chunk).is_ok());
    chunk[OFFSET_FLAGS - at + 2151 / 8] = 0;
    match refusal(report_region(&stored, at as u32, &chunk)) {
        Refusal::Rule(why) => {
            assert_eq!(why, "a badge already earned was cleared (flag 2151)")
        }
        _ => panic!("refused for another reason"),
    }
    assert!(matches!(refusal(report_region(&stored, 1, &chunk)), Refusal::NoPlace));
    assert!(matches!(refusal(report_region(&stored, 0, &[0; 0x401])), Refusal::Malformed));
}

#[test]
fn a_reported_block_keeps_the_key_and_the_money() {
    let stored = save(100, &[], 10);
    let mut block2 = vec![0u8; 0x200];
    block2[0] = 0x42;
    block2[0xAC..0xB0].copy_from_slice(&0xFFFF_FFFFu32.to_le_bytes());
    let r = report_block(&stored, 0, &block2).ok().unwrap();
    assert_eq!(r.candidate.after.encryption_key, 0);
    assert_eq!(r.candidate.after.money(), 100);
    let written = read_block(&r.candidate.image, &SAVEBLOCK2_SECTORS).unwrap();
    assert_eq!(written[0], 0x42);
    assert_eq!(&written[0xAC..0xB0], &[0, 0, 0, 0]);
    assert_eq!(r.held, read_block(&stored, &SAVEBLOCK2_SECTORS).unwrap());
    let boxes = vec![7u8; 100];
    let r = report_block(&stored, 1, &boxes).ok().unwrap();
    let written = read_block(&r.candidate.image, &STORAGE_SECTORS).unwrap();
    assert_eq!(&written[..100], &boxes[..]);
    assert!(written[100..].iter().all(|b| *b == 0));
    assert_eq!(r.block, written);
    assert!(report_block(&stored, 2, &boxes).is_err());
    let mut pinned = block2.clone();
    pin_encryption_key(&mut pinned, 5);
    assert_eq!(&pinned[0xAC..0xB0], &[5, 0, 0, 0]);
    assert_eq!(&pinned[..0xAC], &block2[..0xAC]);
}

#[test]
fn a_reported_tail_must_leave_the_save_readable() {
    let stored = save(100, &[], 10);
    let out = report_tail(&stored, &vec![3u8; TAIL_LEN]).unwrap();
    assert_eq!(out[28 * SECTOR_SIZE], 3);
    assert_eq!(parse(&out).unwrap().money(), 100);
    assert!(report_tail(&stored, &[3u8; 5]).is_none());
    assert!(report_tail(&vec![0; NUM_SECTORS * SECTOR_SIZE], &vec![3u8; TAIL_LEN]).is_none());
}

#[test]
fn a_first_save_is_judged_alone() {
    assert!(first_save(&save(100, &[], 10)).is_ok());
    assert!(matches!(refusal(first_save(&save(1_000_000, &[], 10))), Refusal::Rule(_)));
    assert!(matches!(refusal(first_save(&[1, 2, 3])), Refusal::Unreadable));
}

#[test]
fn the_permadeath_world_caps_levels_and_parties() {
    let at_cap = parse(&save(0, &[], 15)).unwrap();
    assert!(over_caps(&at_cap).is_none());
    let over = parse(&save(0, &[], 16)).unwrap();
    assert_eq!(over_caps(&over), Some(CapRefusal::Level { level: 16, cap: 15 }));
    let mut many = at_cap.clone();
    for _ in 0..2 {
        many.party.push(at_cap.party[0].clone());
    }
    assert_eq!(over_caps(&many), Some(CapRefusal::Size { size: 3, cap: 2 }));
}

#[test]
fn the_bank_moves_the_whole_wallet() {
    let stored = save(100, &[], 10);
    let m = move_money(&stored, 5, true).unwrap();
    assert_eq!((m.carried, m.bank), (0, 105));
    assert_eq!(money(&m.image), Some(0));
    let back = move_money(&m.image, m.bank, false).unwrap();
    assert_eq!((back.carried, back.bank), (105, 0));
    assert_eq!(money(&back.image), Some(105));
    assert!(move_money(&[], 5, true).is_none());
}

#[test]
fn stored_money_is_taken_given_and_moved() {
    let a = save(100, &[], 10);
    let b = save(MAX_MONEY - 30, &[], 10);
    assert_eq!(money(&a), Some(100));
    assert_eq!(money(&[]), None);
    let (left, rest) = try_deduct(&a, 40).unwrap();
    assert_eq!(rest, 60);
    assert_eq!(money(&left), Some(60));
    assert!(try_deduct(&a, 101).is_none());
    let (up, total) = credit(&b, 100).unwrap();
    assert_eq!(total, MAX_MONEY);
    assert_eq!(money(&up), Some(MAX_MONEY));
    match transfer(&a, &b, 50) {
        Transfer::Moved { from_image, to_image, from_left, to_total } => {
            assert_eq!((from_left, to_total), (70, MAX_MONEY));
            assert_eq!(money(&from_image), Some(70));
            assert_eq!(money(&to_image), Some(MAX_MONEY));
        }
        _ => panic!("nothing moved"),
    }
    assert!(matches!(transfer(&save(0, &[], 1), &b, 50), Transfer::Nothing));
    // A receiver whose save cannot be authored: nothing moves, on either side.
    let mut broken = save(10, &[], 1);
    for i in 0..SECTORS_PER_SLOT {
        let footer = i * SECTOR_SIZE + SECTOR_DATA_SIZE + 116;
        if broken[footer] == 2 {
            broken[i * SECTOR_SIZE + 8] = 0x11;
            broken[footer + 2..footer + 4].copy_from_slice(&0xBEEFu16.to_le_bytes());
        }
    }
    assert_eq!(money(&broken), Some(10));
    assert!(matches!(transfer(&a, &broken, 50), Transfer::Nothing));
    assert!(matches!(transfer(&broken, &a, 5), Transfer::Nothing));
    assert_eq!(money(&image_with_money(&a, 1).unwrap()), Some(1));
    assert_eq!(seed_party_count(Some(&a)), 1);
    assert_eq!(seed_party_count(None), 0);
    assert_eq!(carried_money(Some(&a), 7), 100);
    assert_eq!(carried_money(Some(&vec![]), 7), 7);
    assert_eq!(carried_money(None, 7), 7);
}

// Settling ------------------------------------------------------------------------------------

fn stored_of(s: Settled) -> Accepted {
    match s {
        Settled::Stored(a) => a,
        Settled::TooFast => panic!("too fast"),
        Settled::OverCaps(_) => panic!("over the caps"),
    }
}

fn taken(report: &Report, stored: &[u8], mode: &str) -> Accepted {
    let c = propose(report, stored).ok().unwrap();
    stored_of(settle(report, c, mode, true))
}

fn party_of(level: u8) -> Report {
    let mut mons = vec![0u8; 600];
    mons[0] = 9;
    mons[0x54] = level;
    Report::Party { count: 1, mons }
}

#[test]
fn each_report_keeps_what_it_can_have_changed() {
    let mut flags = vec![0u8; 300];
    flags[2151 / 8] |= 1 << (2151 % 8);
    let stored = save(100, &flags, 10);
    let a = taken(&Report::Money { amount: 7 }, &stored, "normal");
    assert_eq!(a.after.money(), 7);
    assert_eq!(parse(&a.image).unwrap().money(), 7);
    assert_eq!((a.bag, a.story, a.party_count, a.badges), (false, false, None, None));
    let a = taken(&Report::Item { pocket: 0, item: 13, quantity: 5 }, &stored, "normal");
    assert_eq!(a.after.bag, vec![(0, 13, 5)]);
    assert_eq!((a.bag, a.story, a.party_count, a.badges), (true, false, None, None));
    let a = taken(&party_of(12), &stored, "normal");
    assert_eq!((a.bag, a.story, a.party_count, a.badges), (true, false, Some(1), Some(1)));
    let at = 0x1048usize;
    let bytes = parse(&stored).unwrap().block1[at..at + 0x400].to_vec();
    let a = taken(&Report::Region { offset: at as u32, bytes }, &stored, "normal");
    assert_eq!((a.bag, a.story, a.party_count, a.badges), (false, true, None, Some(1)));
    let a = taken(&Report::Block { block: 0, bytes: vec![1; 0x20] }, &stored, "normal");
    assert_eq!((a.bag, a.story, a.party_count, a.badges), (false, false, None, Some(1)));
}

#[test]
fn a_report_that_gains_too_fast_is_not_stored() {
    let stored = save(100, &[], 10);
    let money = Report::Money { amount: 7 };
    let c = propose(&money, &stored).ok().unwrap();
    assert!(paced(&money));
    assert!(matches!(settle(&money, c, "normal", false), Settled::TooFast));
    // An item carries neither money nor experience.
    let item = Report::Item { pocket: 0, item: 13, quantity: 5 };
    let c = propose(&item, &stored).ok().unwrap();
    assert!(!paced(&item));
    assert!(stored_of(settle(&item, c, "normal", false)).bag);
    assert!(paced(&party_of(1)));
    assert!(paced(&Report::Region { offset: 0, bytes: vec![] }));
    assert!(paced(&Report::Block { block: 0, bytes: vec![] }));
}

#[test]
fn only_the_permadeath_world_caps_a_party() {
    let stored = save(100, &[], 10);
    let report = party_of(16);
    assert_eq!(taken(&report, &stored, "normal").party_count, Some(1));
    let c = propose(&report, &stored).ok().unwrap();
    match settle(&report, c, "deadman", true) {
        Settled::OverCaps(why) => assert_eq!(why, CapRefusal::Level { level: 16, cap: 15 }),
        _ => panic!("the party was let through"),
    }
    assert_eq!(taken(&party_of(15), &stored, "deadman").party_count, Some(1));
}

#[test]
fn a_block_meets_the_rules_of_every_report() {
    // The save already holds more money than the game allows: no block can be laid over it.
    let rich = save(1_000_000, &[], 10);
    let report = Report::Block { block: 0, bytes: vec![1; 0x20] };
    match refusal(propose(&report, &rich)) {
        Refusal::Rule(why) => {
            assert_eq!(why, "money is 1000000, above the 999999 the game clamps to")
        }
        _ => panic!("refused for another reason"),
    }
    let unknown = Report::Block { block: 2, bytes: vec![] };
    assert!(matches!(refusal(propose(&unknown, &rich)), Refusal::Malformed));
}

#[test]
fn a_whole_save_is_taken_once() {
    let image = save(100, &[], 10);
    assert!(matches!(take_first_save(true, &image), FirstSave::Held));
    match take_first_save(false, &image) {
        FirstSave::Stored(s) => assert_eq!(s.money(), 100),
        _ => panic!("the first save was refused"),
    }
    assert!(matches!(
        take_first_save(false, &[1, 2, 3]),
        FirstSave::Refused(Refusal::Unreadable)
    ));
    assert!(matches!(
        take_first_save(false, &save(1_000_000, &[], 10)),
        FirstSave::Refused(Refusal::Rule(_))
    ));
}

#[test]
fn only_the_permadeath_world_has_a_bank() {
    let image = save(100, &[], 10);
    assert!(bank_on_entering(&character(9, "normal"), Some(&image), 5).is_none());
    match bank_on_entering(&character(9, "deadman"), Some(&image), 5) {
        Some(ServerControl::BankState { bank, carried }) => assert_eq!((bank, carried), (5, 100)),
        _ => panic!("the bank was not told of"),
    }
    let row = character(9, "deadman").money as u32;
    match bank_on_entering(&character(9, "deadman"), None, 5) {
        Some(ServerControl::BankState { bank, carried }) => assert_eq!((bank, carried), (5, row)),
        _ => panic!("the bank was not told of"),
    }
}
