//! The sidecar: settings, the browser, the link to the game, the session.

use pokeplanet::net::browser::{open, UrlRefusal};
use pokeplanet::net::ghost;
use pokeplanet::net::ghost::{parse_options, OptionError};
use pokeplanet::net::ipc::{is_ours, GameLink};
use pokeplanet::net::session::{
    backoff, hello, save_frames, save_len, snapshot_frame, Relay, Step,
};
use pokeplanet::net::settings::{
    ArgError, ArgsEnd, Settings, DEFAULT_IPC_PORT, DEFAULT_SERVER_HOST, DEFAULT_SERVER_PORT,
    DEFAULT_TOKEN_PATH,
};
use pokeplanet::net::token::TokenStore;
use pokeplanet::proto::ipc::{
    encode_battle_answered, encode_battle_failed, encode_battle_invite, encode_battle_starting,
    encode_chat, encode_correction, encode_link_block, encode_profile, encode_save_image,
    encode_snapshot, encode_status, GameMessage, SnapshotEntry, AUTH_AWAITING_BROWSER,
    AUTH_NEEDS_LOGIN, AUTH_OFFLINE, AUTH_ONLINE, AUTH_SUPERSEDED,
};
use pokeplanet::proto::quic::{
    ChatTarget, CharacterProfile, ClientControl, RemotePlayer, ServerControl,
};
use pokeplanet::proto::{MapId, Pose};

#[test]
fn non_http_schemes_are_refused() {
    assert!(open("file:///etc/passwd").is_err());
    assert!(open("javascript:alert(1)").is_err());
}

#[test]
fn quoting_tricks_are_refused() {
    assert!(open("https://example.com/\" & calc.exe &\"").is_err());
}

#[test]
fn ordinary_addresses_are_opened() {
    assert_eq!(open("https://example.com/login?t=abc"), Ok(()));
    assert_eq!(open("http://127.0.0.1:8790/"), Ok(()));
    assert_eq!(open("ftp://example.com"), Err(UrlRefusal::NotHttp));
    assert_eq!(open("https://example.com/\""), Err(UrlRefusal::Quotes));
}

// Settings ------------------------------------------------------------------------------------

fn args(list: &[&str]) -> Vec<String> {
    list.iter().map(|a| a.to_string()).collect()
}

fn parse(list: &[&str]) -> Settings {
    let mut s = Settings::default();
    s.apply_args(&args(list)).unwrap();
    s
}

#[test]
fn a_host_with_a_port_is_split() {
    let s = parse(&["--server", "example.com:9999"]);
    assert_eq!(s.server_host, "example.com");
    assert_eq!(s.server_port, 9999);
}

#[test]
fn a_bare_host_keeps_the_default_port() {
    let s = parse(&["--server", "example.com"]);
    assert_eq!(s.server_host, "example.com");
    assert_eq!(s.server_port, DEFAULT_SERVER_PORT);
}

#[test]
fn ipc_stays_on_loopback() {
    let s = parse(&["--ipc-port", "40000"]);
    assert!(s.ipc_addr.is_loopback());
    assert_eq!(s.ipc_addr.port, 40000);
}

#[test]
fn unknown_arguments_are_an_error_rather_than_ignored() {
    let mut s = Settings::default();
    assert!(s.apply_args(&args(&["--nonsense"])).is_err());
}

#[test]
fn every_option_is_understood() {
    let s = parse(&[
        "--port", "1", "--token", "t.json", "--log", "l.txt", "--insecure", "--fixed-token",
    ]);
    assert_eq!(s.server_host, DEFAULT_SERVER_HOST);
    assert_eq!(s.server_port, 1);
    assert_eq!(s.ipc_addr.port, DEFAULT_IPC_PORT);
    assert_eq!(s.token_path, "t.json");
    assert_eq!(s.log_path, Some("l.txt".to_string()));
    assert!(s.insecure && s.fixed_token);
    let d = Settings::default();
    assert_eq!(d.token_path, DEFAULT_TOKEN_PATH);
    assert!(!d.insecure && !d.fixed_token);
    let mut h = Settings::default();
    assert_eq!(h.apply_args(&args(&["--help", "--nonsense"])).ok(), Some(ArgsEnd::Help));
}

#[test]
fn bad_arguments_say_what_is_wrong() {
    let of = |list: &[&str]| Settings::default().apply_args(&args(list)).err().unwrap();
    assert!(matches!(of(&["--server"]), ArgError::NeedsHost));
    assert!(matches!(of(&["--port"]), ArgError::NeedsPort));
    assert!(matches!(of(&["--ipc-port"]), ArgError::NeedsIpcPort));
    assert!(matches!(of(&["--token"]), ArgError::NeedsTokenPath));
    assert!(matches!(of(&["--log"]), ArgError::NeedsLogPath));
    assert!(matches!(of(&["--port", "x"]), ArgError::BadNumber(_)));
    assert!(matches!(of(&["--server", "h:99999"]), ArgError::BadNumber(_)));
    assert_eq!(of(&["--nonsense"]).message(), "unrecognised argument --nonsense");
    assert_eq!(of(&["--server"]).message(), "--server needs a host[:port]");
}

#[test]
fn an_address_with_colons_and_no_port_is_all_host() {
    let s = parse(&["--server", "::1x"]);
    assert_eq!(s.server_host, "::1x");
    assert_eq!(s.server_port, DEFAULT_SERVER_PORT);
}

#[test]
fn the_games_own_file_is_read_and_the_rest_of_it_ignored() {
    let mut s = Settings::default();
    s.apply_config_file(
        "fullscreen=1\n server = play.example \nserverPort=77\r\nsidecarPort=nope\nserver=\nx\n",
    );
    assert_eq!(s.server_host, "play.example");
    assert_eq!(s.server_port, 77);
    assert_eq!(s.ipc_addr.port, DEFAULT_IPC_PORT);
    s.apply_config_file("sidecarPort = 40001");
    assert_eq!(s.ipc_addr.port, 40001);
    assert!(s.ipc_addr.is_loopback());
}

// The headless player -------------------------------------------------------------------------

#[test]
fn a_headless_player_is_set_up_from_its_command_line() {
    let o = parse_options(&args(&[
        "--token", "t", "--server", "h:9", "--map", "3:4", "--at", "-5,6", "--still",
        "--challenge", "7", "--say", "hi",
    ]))
    .unwrap();
    assert_eq!(o.token, "t");
    assert_eq!((o.host.as_str(), o.port), ("h", 9));
    assert_eq!(o.map, MapId::new(3, 4));
    assert_eq!((o.x, o.y), (-5, 6));
    assert!(o.still);
    assert_eq!(o.challenge, Some(7));
    assert_eq!(o.say, Some("hi".to_string()));
    let d = parse_options(&args(&["--token", "t"])).unwrap();
    assert_eq!((d.host.as_str(), d.port), ("pokeplanet.obby.ca", 4433));
    assert_eq!((d.map, d.x, d.y), (MapId::new(0, 9), 17, 18));
}

#[test]
fn a_headless_player_refuses_what_it_does_not_understand() {
    let of = |list: &[&str]| parse_options(&args(list)).err().unwrap();
    assert!(matches!(of(&[]), OptionError::NoToken));
    assert_eq!(of(&["--say"]).message(), "--say needs a value");
    assert_eq!(of(&["--map", "3"]).message(), "--map wants GROUP:NUM");
    assert_eq!(of(&["--at", "3"]).message(), "--at wants X,Y");
    assert!(matches!(of(&["--map", "300:1"]), OptionError::BadNumber(_)));
    assert!(matches!(of(&["--at", "1,40000"]), OptionError::BadNumber(_)));
    assert!(matches!(of(&["--challenge", "-1"]), OptionError::BadNumber(_)));
    assert_eq!(of(&["-x"]).message(), "unrecognised argument -x");
    assert_eq!(of(&["--still"]).message(), "--token is required");
}

#[test]
fn eight_steps_lead_back() {
    let o = parse_options(&args(&["--token", "t"])).unwrap();
    let start = ghost::start(&o);
    assert_eq!((start.x, start.y, start.facing, start.elevation), (17, 18, 1, 3));
    let mut pose = start;
    let mut seen = vec![];
    for k in 0..8 {
        pose = ghost::walk(pose, k);
        seen.push((pose.x, pose.y, pose.facing));
    }
    assert_eq!(
        seen,
        vec![
            (18, 18, 4), (19, 18, 4), (19, 19, 1), (19, 20, 1), (18, 20, 3), (17, 20, 3),
            (17, 19, 2), (17, 18, 2),
        ]
    );
}

// The link to the game ------------------------------------------------------------------------

#[test]
fn a_game_that_attaches_late_is_told_what_it_missed() {
    let mut link = GameLink::new();
    assert!(link.attach().is_empty());
    link.send_status(&vec![1]);
    link.send_mode_profiles(&vec![3]);
    let replay = link.attach();
    assert!(replay.contains(&vec![1]));
    assert!(replay.contains(&vec![3]));
}

#[test]
fn a_game_that_comes_back_keeps_its_sidecar() {
    let mut link = GameLink::new();
    assert!(link.never_attached());
    link.attach();
    assert!(!link.never_attached());
    let left = link.detach();
    assert!(link.gone(left));
    link.attach();
    assert!(!link.gone(left), "another game has attached since");
}

#[test]
fn a_sidecar_serves_its_own_game() {
    assert!(is_ours("", "anything"));
    assert!(is_ours("a", "a"));
    assert!(!is_ours("a", "b"));
    assert!(!is_ours("a", ""));
}

#[test]
fn a_token_is_kept_until_it_is_dropped() {
    let mut t = TokenStore::open(None);
    assert_eq!(t.load(), None);
    t.store("abc");
    assert_eq!(t.load(), Some("abc".to_string()));
    t.clear();
    assert_eq!(t.load(), None);
    assert_eq!(TokenStore::open(Some("kept".to_string())).load(), Some("kept".to_string()));
}

// The session ---------------------------------------------------------------------------------

fn profile(name: &str) -> CharacterProfile {
    CharacterProfile {
        name: name.to_string(),
        graphics_id: 89,
        play_time_seconds: 1,
        badges: 2,
        pokedex_caught: 3,
        pokedex_seen: 4,
        money: 5,
        map_group: 0,
        map_num: 9,
        x: 17,
        y: 18,
    }
}

fn welcome(name: &str) -> ServerControl {
    ServerControl::Welcome { player_id: 1, profile: profile(name), token: "new".to_string() }
}

fn status(step: &Step) -> Vec<u8> {
    match step {
        Step::Status(f) => f.clone(),
        _ => panic!("not a status"),
    }
}

fn to_game(step: &Step) -> Vec<u8> {
    match step {
        Step::Game(f) => f.clone(),
        _ => panic!("not a frame for the game"),
    }
}

#[test]
fn the_profile_reaches_the_game_before_the_state() {
    let mut r = Relay::new(false);
    let steps = r.server(welcome("Ash"));
    assert_eq!(steps.len(), 3);
    assert!(matches!(&steps[0], Step::StoreToken(t) if t == "new"));
    assert!(matches!(&steps[1], Step::Profile(f) if *f == encode_profile(&profile("Ash"))));
    assert_eq!(status(&steps[2]), encode_status(AUTH_ONLINE, "Ash", ""));
    assert_eq!(r.player_name, "Ash");
}

fn login(ticket: &str) -> ServerControl {
    ServerControl::AuthRequired { ticket: ticket.to_string(), login_url: "https://x".to_string() }
}

#[test]
fn the_browser_opens_once_for_a_ticket() {
    let mut r = Relay::new(false);
    let steps = r.server(login("a"));
    assert_eq!(steps.len(), 3);
    assert_eq!(status(&steps[0]), encode_status(AUTH_NEEDS_LOGIN, "", "https://x"));
    assert!(matches!(&steps[1], Step::Browse(u) if u == "https://x"));
    assert_eq!(status(&steps[2]), encode_status(AUTH_AWAITING_BROWSER, "", "https://x"));
    assert_eq!(r.server(login("a")).len(), 1);
    assert_eq!(r.server(login("b")).len(), 3);
    assert!(matches!(
        r.login_poll(),
        Some(ClientControl::PollLogin { ticket }) if ticket == "b"
    ));
    r.server(welcome("Ash"));
    assert!(r.login_poll().is_none());
}

#[test]
fn a_fixed_token_is_never_replaced() {
    let mut r = Relay::new(true);
    assert_eq!(r.server(welcome("Ash")).len(), 2);
    let steps = r.server(login("a"));
    assert_eq!(status(&steps[0]), encode_status(AUTH_OFFLINE, "", ""));
    assert!(matches!(&steps[1], Step::Fail(why) if why == "fixed token refused"));
    let steps = r.server(ServerControl::Rejected { reason: "no".to_string() });
    assert_eq!(steps.len(), 1);
    assert!(matches!(&steps[0], Step::Fail(why) if why == "no"));
    // Logging out says goodbye, and keeps the only identity there is.
    let steps = r.game(GameMessage::Logout);
    assert_eq!(steps.len(), 2);
    assert!(matches!(sent(&steps[0]), ClientControl::Goodbye));
    assert!(matches!(&steps[1], Step::End));
}

#[test]
fn a_refusal_drops_the_token_and_a_takeover_ends_the_sidecar() {
    let mut r = Relay::new(false);
    let steps = r.server(ServerControl::Rejected { reason: "no".to_string() });
    assert!(matches!(&steps[0], Step::ClearToken));
    assert!(matches!(&steps[1], Step::Fail(why) if why == "no"));
    let steps = r.server(ServerControl::Superseded { reason: "elsewhere".to_string() });
    assert_eq!(status(&steps[0]), encode_status(AUTH_SUPERSEDED, "", "elsewhere"));
    assert!(matches!(&steps[1], Step::Quit));
}

#[test]
fn what_the_server_says_reaches_the_game() {
    let mut r = Relay::new(false);
    let pose = Pose { map: MapId::new(1, 2), x: 3, y: 4, facing: 1, elevation: 3, moving: false };
    let cases = vec![
        (
            ServerControl::Chat {
                from: "a".to_string(),
                target: ChatTarget::Private("b".to_string()),
                text: "t".to_string(),
            },
            encode_chat(2, "a", "t"),
        ),
        (
            ServerControl::BattleInvitation { from: 7, from_name: "a".to_string() },
            encode_battle_invite(7, "a"),
        ),
        (
            ServerControl::BattleInvitationAnswered {
                from: 7,
                from_name: "a".to_string(),
                accepted: false,
            },
            encode_battle_answered(7, "a", false),
        ),
        (
            ServerControl::BattleInvitationFailed { reason: "r".to_string() },
            encode_battle_failed("r"),
        ),
        (
            ServerControl::BattleStarting {
                opponent: 7,
                opponent_name: "a".to_string(),
                link_id: 1,
            },
            encode_battle_starting(7, "a", 1),
        ),
        (ServerControl::Correction { pose }, encode_correction(&pose)),
        (
            ServerControl::LinkBlock { from_slot: 1, bytes: vec![1, 2] },
            encode_link_block(1, &[1, 2]),
        ),
    ];
    for (msg, frame) in cases {
        let steps = r.server(msg);
        assert_eq!(steps.len(), 1);
        assert_eq!(to_game(&steps[0]), frame);
    }
    assert!(r.server(ServerControl::LoginPending).is_empty());
    assert!(r.server(ServerControl::PlayerLeft { player_id: 1 }).is_empty());
    assert!(r.server(ServerControl::BankState { bank: 1, carried: 2 }).is_empty());
}

fn sent(step: &Step) -> &ClientControl {
    match step {
        Step::Server(c) => c,
        _ => panic!("not a message for the server"),
    }
}

#[test]
fn what_the_game_says_reaches_the_server() {
    let mut r = Relay::new(false);
    assert!(r.movement().is_none());
    let pose = Pose { map: MapId::new(1, 2), x: 3, y: 4, facing: 1, elevation: 3, moving: false };
    assert!(r.game(GameMessage::SelfState { pose, graphics_id: 1 }).is_empty());
    assert_eq!(r.movement(), Some(pose));

    for (kind, want) in [
        (0, ChatTarget::Global),
        (1, ChatTarget::Local),
        (2, ChatTarget::Private("m".to_string())),
        (9, ChatTarget::Global),
    ] {
        let steps = r.game(GameMessage::ChatSend {
            kind,
            target: "m".to_string(),
            text: "t".to_string(),
        });
        match sent(&steps[0]) {
            ClientControl::Chat { target, text } => {
                assert_eq!(*target, want);
                assert_eq!(text, "t");
            }
            other => panic!("sent {other:?}"),
        }
    }
    let steps = r.game(GameMessage::RequestBattle { target: 7 });
    assert!(matches!(sent(&steps[0]), ClientControl::RequestBattle { target: 7 }));
    let steps = r.game(GameMessage::RespondToBattle { from: 7, accepted: true });
    assert!(matches!(sent(&steps[0]), ClientControl::RespondToBattle { from: 7, accepted: true }));
    let steps = r.game(GameMessage::LinkBlock { bytes: vec![1] });
    assert!(matches!(sent(&steps[0]), ClientControl::LinkBlock { .. }));
    let steps = r.game(GameMessage::BattleEnded);
    assert!(matches!(sent(&steps[0]), ClientControl::BattleEnded));
}

#[test]
fn signing_in_and_out_from_the_game() {
    let mut r = Relay::new(false);
    assert!(r.game(GameMessage::Attached).is_empty(), "nobody is signed in yet");
    let steps = r.game(GameMessage::BeginLogin);
    assert_eq!(status(&steps[0]), encode_status(AUTH_ONLINE, "", ""));
    r.server(login("a"));
    let steps = r.game(GameMessage::BeginLogin);
    assert!(matches!(sent(&steps[0]), ClientControl::BeginLogin));
    r.server(welcome("Ash"));
    let steps = r.game(GameMessage::BeginLogin);
    assert_eq!(status(&steps[0]), encode_status(AUTH_ONLINE, "Ash", ""));
    let steps = r.game(GameMessage::Attached);
    assert!(matches!(sent(&steps[0]), ClientControl::Resync));
    let steps = r.game(GameMessage::CancelLogin);
    assert_eq!(status(&steps[0]), encode_status(AUTH_OFFLINE, "", ""));
    let steps = r.game(GameMessage::Logout);
    assert_eq!(steps.len(), 3);
    assert!(matches!(&steps[0], Step::ClearToken));
    assert!(matches!(sent(&steps[1]), ClientControl::Goodbye));
    assert!(matches!(&steps[2], Step::End));
}

#[test]
fn a_whole_save_goes_up_in_slices() {
    let mut r = Relay::new(false);
    let image: Vec<u8> = (0..20_000u32).map(|i| i as u8).collect();
    let total = image.len() as u32;
    let mut steps = vec![];
    for (i, piece) in image.chunks(1000).enumerate() {
        let last = r.game(GameMessage::SaveChunk {
            offset: (i * 1000) as u32,
            total,
            bytes: piece.to_vec(),
        });
        if i < 19 {
            assert!(last.is_empty());
        }
        steps = last;
    }
    assert_eq!(steps.len(), 3);
    let mut up = vec![];
    for (i, s) in steps.iter().enumerate() {
        match sent(s) {
            ClientControl::SaveUpload { offset, total: t, bytes } => {
                assert_eq!(*offset as usize, i * 8192);
                assert_eq!(*t, total);
                up.extend_from_slice(bytes);
            }
            other => panic!("sent {other:?}"),
        }
    }
    assert_eq!(up, image);
    assert!(r.save_image.is_empty());
}

#[test]
fn a_save_that_starts_over_drops_the_half_collected_one() {
    let mut r = Relay::new(false);
    r.game(GameMessage::SaveChunk { offset: 0, total: 4, bytes: vec![1, 2] });
    assert!(r.game(GameMessage::SaveChunk { offset: 3, total: 4, bytes: vec![9] }).is_empty());
    r.game(GameMessage::SaveChunk { offset: 0, total: 2, bytes: vec![5] });
    let steps = r.game(GameMessage::SaveChunk { offset: 1, total: 2, bytes: vec![6] });
    assert!(matches!(
        sent(&steps[0]),
        ClientControl::SaveUpload { offset: 0, total: 2, bytes } if *bytes == vec![5, 6]
    ));
}

#[test]
fn the_stored_save_goes_down_in_slices() {
    let image: Vec<u8> = (0..2500u32).map(|i| i as u8).collect();
    let frames = save_frames(&image);
    assert_eq!(frames.len(), 3);
    assert_eq!(frames[0], encode_save_image(0, 2500, &image[..1024]));
    assert_eq!(frames[2], encode_save_image(2048, 2500, &image[2048..]));
    assert!(save_frames(&vec![]).is_empty());
    assert_eq!(save_len(&[0, 0, 2, 0]), Ok(128 * 1024));
    assert_eq!(save_len(&[1, 0, 2, 0]), Err(128 * 1024 + 1));
}

#[test]
fn a_snapshot_is_handed_on() {
    let p = RemotePlayer {
        player_id: 4,
        name: "a".to_string(),
        graphics_id: 5,
        pose: Pose::default(),
        party_count: 6,
    };
    let e = SnapshotEntry {
        player_id: 4,
        name: "a".to_string(),
        graphics_id: 5,
        pose: Pose::default(),
    };
    assert_eq!(snapshot_frame(&vec![p]), encode_snapshot(&[e]));
}

#[test]
fn waits_grow_to_half_a_minute_and_start_over() {
    let mut wait = 1;
    let mut waits = vec![];
    for _ in 0..7 {
        let (now, next) = backoff(wait, false);
        waits.push(now);
        wait = next;
    }
    assert_eq!(waits, vec![1, 2, 4, 8, 16, 30, 30]);
    assert_eq!(backoff(30, true), (1, 2));
}

#[test]
fn the_greeting_carries_the_token_and_the_world() {
    match hello(Some("t".to_string()), "0.1.0", "normal") {
        ClientControl::Hello { protocol_version, token, client_version, mode } => {
            assert_eq!(protocol_version, 1);
            assert_eq!(token, Some("t".to_string()));
            assert_eq!(client_version, "0.1.0");
            assert_eq!(mode, "normal");
        }
        other => panic!("said {other:?}"),
    }
}
