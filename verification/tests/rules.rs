//! The small rules: caps, money, flags, drops, chat, pages, names.

use pokeplanet::server::auth::{
    authorize_url, find_role, grant_url, guild_roles_url, random_sprite, random_token, sprite_of,
    token_char_of, token_of, DiscordUser, GuildRole, ALPHABET_LEN, PLAYER_SPRITES, TOKEN_LEN,
};
use pokeplanet::server::chat::sanitize_chat;
use pokeplanet::server::config::{Config, ConfigError, Vars};
use pokeplanet::server::db::{
    candidate_name, hash_token, name_step, no_name_message, pack_vars, storable, to_hex, Character,
    NameStep,
};
use pokeplanet::server::deadman::{combat_level, level_cap, party_cap, pvp_in_badge_range};
use pokeplanet::server::economy::{
    after_credit, after_deduct, deposit_all, movable, withdraw_all,
};
use pokeplanet::server::http::{
    health, home, html_escape, ladder, ladder_failed, login_end, login_page, page, read_callback,
    Callback, LadderRow, LoginEnd, LoginEvent,
};
use pokeplanet::server::instances::{Instances, Start};
use pokeplanet::server::quest_flags::{
    badge_count, badge_regressed, flag_set, monotonic_cleared, BADGE_FLAGS,
};
use pokeplanet::server::rates::{
    bad_rate_message, experience_gained, money_gained, not_pair_message, rate_key, read_lines,
    unknown_rate_message, ModeRates, RateKey, RateLine,
};
use pokeplanet::server::save_parse::judge::MAX_MONEY;
use pokeplanet::server::save_parse::mon::PartyMon;
use pokeplanet::server::save_parse::state::SaveState;
use pokeplanet::server::tls::{
    cert_chain, chain_of, key_of, private_key, ChainError, FoundKey, KeyError, KeyKind,
};
use pokeplanet::server::world_items::{can_pick_up, is_expired, Pickup, EXPIRE_S};
use pokeplanet::text;

// Deadman -------------------------------------------------------------------------------------

#[test]
fn level_cap_rises_with_badges_and_saturates() {
    assert_eq!(
        level_cap(0),
        15,
        "a fresh character is capped at the first gym"
    );
    assert_eq!(level_cap(4), 31);
    assert_eq!(
        level_cap(8),
        58,
        "eight badges caps at the Elite Four's level"
    );
    assert_eq!(
        level_cap(9),
        58,
        "an impossible ninth badge does not overflow the table"
    );
    assert_eq!(level_cap(255), 58);
    // Monotonic non-decreasing: more badges never lowers the cap.
    for b in 1..=8u8 {
        assert!(level_cap(b) >= level_cap(b - 1));
    }
}

#[test]
fn party_cap_grows_from_two_to_six() {
    assert_eq!(party_cap(0), 2, "early deadman is two mons");
    assert_eq!(party_cap(8), 6, "a full team only at the end");
    assert_eq!(party_cap(200), 6, "never overflows the table");
    for b in 1..=8u8 {
        assert!(party_cap(b) >= party_cap(b - 1));
        assert!(party_cap(b) <= 6);
    }
}

#[test]
fn pvp_range_is_two_badges_either_way() {
    assert!(pvp_in_badge_range(3, 5), "two up is in range");
    assert!(pvp_in_badge_range(5, 3), "two down is in range");
    assert!(pvp_in_badge_range(4, 4), "same badges is in range");
    assert!(!pvp_in_badge_range(1, 4), "three apart is out of range");
    assert!(!pvp_in_badge_range(8, 0));
}

// Money ---------------------------------------------------------------------------------------

#[test]
fn a_transfer_conserves_money() {
    assert_eq!(
        movable(1000, 0, 400),
        400,
        "a plain move takes the asked amount"
    );
    assert_eq!(movable(300, 0, 400), 300, "capped by what the sender holds");
    assert_eq!(
        movable(1000, MAX_MONEY - 100, 400),
        100,
        "capped by the room left under the receiver's cap"
    );
    assert_eq!(
        movable(1000, MAX_MONEY, 400),
        0,
        "a full receiver takes nothing"
    );
    assert_eq!(movable(0, 0, 400), 0, "a broke sender moves nothing");
}

#[test]
fn cannot_escrow_more_than_held() {
    assert_eq!(after_deduct(1000, 400), Some(600));
    assert_eq!(
        after_deduct(1000, 1000),
        Some(0),
        "staking your whole balance is fine"
    );
    assert_eq!(
        after_deduct(1000, 1001),
        None,
        "a stake you can't cover takes nothing"
    );
    assert_eq!(after_deduct(0, 1), None);
}

#[test]
fn the_bank_never_loses_money() {
    // Deposit all: wallet emptied, bank grows by exactly the wallet.
    assert_eq!(deposit_all(5000, 0), (0, 5000));
    assert_eq!(deposit_all(3000, 5000), (0, 8000));
    assert_eq!(
        deposit_all(0, 8000),
        (0, 8000),
        "depositing nothing changes nothing"
    );

    // Withdraw all: fills the wallet, surplus over the cap stays in the bank.
    assert_eq!(withdraw_all(0, 5000), (5000, 0));
    let over_cap = MAX_MONEY as u64 + 12_345;
    let (carried, bank) = withdraw_all(0, over_cap);
    assert_eq!(carried, MAX_MONEY, "the wallet fills only to the money cap");
    assert_eq!(bank, 12_345, "the surplus stays banked, not lost");

    // A full round-trip conserves the total no matter the cap.
    let (c1, b1) = deposit_all(MAX_MONEY, 900_000); // bank now well over the cap
    let (c2, b2) = withdraw_all(c1, b1);
    assert_eq!(
        c2 as u64 + b2,
        MAX_MONEY as u64 + 900_000,
        "no money created or destroyed"
    );
}

#[test]
fn a_payout_clamps_at_the_money_cap() {
    assert_eq!(after_credit(1000, 500), 1500);
    assert_eq!(
        after_credit(MAX_MONEY - 10, 100),
        MAX_MONEY,
        "clamped to the cap"
    );
    assert_eq!(after_credit(MAX_MONEY, 1), MAX_MONEY);
    assert_eq!(
        after_credit(u32::MAX - 5, 100),
        MAX_MONEY,
        "saturating, no wrap"
    );
}

#[test]
fn a_wallet_over_the_cap_withdraws_nothing() {
    assert_eq!(withdraw_all(MAX_MONEY + 5, 100), (MAX_MONEY + 5, 100));
}

// Story flags ---------------------------------------------------------------------------------

const MONOTONIC_FLAGS: [u16; 3] = [0x74, 0x80, 0x121];

fn state_with_flags(bytes: usize, set: &[u16]) -> SaveState {
    let mut flags = vec![0u8; bytes];
    for &id in set {
        flags[(id / 8) as usize] |= 1 << (id % 8);
    }
    SaveState {
        flags,
        vars: vec![],
        money_raw: 0,
        coins_raw: 0,
        encryption_key: 0,
        bag: vec![],
        seen: vec![],
        game_stats: vec![],
        block1: vec![],
        berry_trees: vec![],
        rematches: vec![],
        party: vec![],
    }
}

#[test]
fn losing_a_badge_is_refused_gaining_one_is_not() {
    let b0 = BADGE_FLAGS[0];
    let with = state_with_flags(300, &[b0]);
    let without = state_with_flags(300, &[]);

    assert!(
        badge_regressed(&with, &without).is_some(),
        "clearing a held badge must be refused"
    );
    assert!(
        badge_regressed(&without, &with).is_none(),
        "earning a badge is not a regression"
    );
    assert!(
        badge_regressed(&with, &with).is_none(),
        "leaving badges untouched is not a regression"
    );
}

#[test]
fn a_cleared_monotonic_flag_is_detected() {
    assert!(
        !MONOTONIC_FLAGS.is_empty(),
        "the derived set must not be empty"
    );
    let f = MONOTONIC_FLAGS[0];
    let with = state_with_flags(300, &[f]);
    let without = state_with_flags(300, &[]);

    assert_eq!(monotonic_cleared(&with, &without, &MONOTONIC_FLAGS), Some(f));
    assert_eq!(
        monotonic_cleared(&without, &with, &MONOTONIC_FLAGS),
        None,
        "gaining a flag is fine"
    );
    assert_eq!(
        monotonic_cleared(&with, &with, &MONOTONIC_FLAGS),
        None,
        "no change is fine"
    );
}

#[test]
fn badges_are_the_eight_expected_system_flags() {
    // SYSTEM_FLAGS 0x860 + 0x7..0xE = 0x867..0x86E = 2151..2158.
    assert_eq!(
        BADGE_FLAGS,
        [2151, 2152, 2153, 2154, 2155, 2156, 2157, 2158]
    );
}

#[test]
fn badges_are_counted_from_the_flags() {
    assert_eq!(badge_count(&state_with_flags(300, &[])), 0);
    assert_eq!(badge_count(&state_with_flags(300, &[2151, 2158, 2150, 2159])), 2);
    assert_eq!(badge_count(&state_with_flags(300, &BADGE_FLAGS)), 8);
    // A short bitfield has none of them.
    assert_eq!(badge_count(&state_with_flags(10, &[])), 0);
    assert!(flag_set(&[0b100], 2));
    assert!(!flag_set(&[0b100], 1));
    assert!(!flag_set(&[0b100], 10));
}

// Drops ---------------------------------------------------------------------------------------

#[test]
fn a_free_drop_is_anyones_at_once() {
    assert_eq!(can_pick_up(0, None, 7), Pickup::Allowed);
    assert_eq!(can_pick_up(1, None, 999), Pickup::Allowed);
}

#[test]
fn a_death_drop_is_the_killers_first_then_public_then_gone() {
    let killer = 10u64;
    let stranger = 20u64;
    // 0..60s: killer only.
    assert_eq!(can_pick_up(0, Some(killer), killer), Pickup::Allowed);
    assert_eq!(can_pick_up(0, Some(killer), stranger), Pickup::Reserved);
    assert_eq!(can_pick_up(59, Some(killer), stranger), Pickup::Reserved);
    // 60..180s: anyone.
    assert_eq!(can_pick_up(60, Some(killer), stranger), Pickup::Allowed);
    assert_eq!(can_pick_up(179, Some(killer), stranger), Pickup::Allowed);
    assert_eq!(can_pick_up(60, Some(killer), killer), Pickup::Allowed);
    // 180s+: gone for everyone, even the killer.
    assert_eq!(can_pick_up(180, Some(killer), killer), Pickup::Expired);
    assert_eq!(can_pick_up(180, Some(killer), stranger), Pickup::Expired);
    assert_eq!(can_pick_up(5000, None, stranger), Pickup::Expired);
}

#[test]
fn expiry_matches_the_window() {
    assert!(!is_expired(0));
    assert!(!is_expired(EXPIRE_S - 1));
    assert!(is_expired(EXPIRE_S));
    assert!(is_expired(EXPIRE_S + 100));
}

// Rates ---------------------------------------------------------------------------------------

struct Rates {
    experience: f32,
}

#[test]
fn for_mode_selects_the_right_world() {
    let rates = ModeRates {
        normal: Rates { experience: 2.5 },
        deadman: Rates { experience: 0.8 },
    };
    assert_eq!(rates.for_mode("normal").experience, 2.5);
    assert_eq!(rates.for_mode("deadman").experience, 0.8);
    assert_eq!(
        rates.for_mode("nonsense").experience,
        2.5,
        "an unknown mode must fall back to the normal set"
    );
    assert_eq!(rates.for_mode("").experience, 2.5);
}

fn pair(line: &RateLine) -> (String, String) {
    match line {
        RateLine::Pair { key, value } => (key.clone(), value.clone()),
        _ => panic!("not a pair"),
    }
}

#[test]
fn comments_and_blank_lines_are_ignored() {
    let lines = read_lines("# tuning\n\nexperience = 2 # double\n\n");
    assert_eq!(lines.len(), 4);
    assert!(matches!(lines[0], RateLine::Blank));
    assert!(matches!(lines[1], RateLine::Blank));
    let (key, value) = pair(&lines[2]);
    assert_eq!(rate_key(&key), Some(RateKey::Experience));
    assert_eq!(value.trim().parse::<f32>(), Ok(2.0));
    assert!(matches!(lines[3], RateLine::Blank));
}

#[test]
fn reads_every_rate() {
    let lines =
        read_lines("experience = 2.0\nencounter = 0.1\nmoney = 3\nitems = 0.5\ncatch = 1.5\n");
    let read: Vec<(Option<RateKey>, f32)> = lines
        .iter()
        .map(|l| {
            let (key, value) = pair(l);
            (rate_key(&key), value.trim().parse().unwrap())
        })
        .collect();
    assert_eq!(
        read,
        vec![
            (Some(RateKey::Experience), 2.0),
            (Some(RateKey::Encounter), 0.1),
            (Some(RateKey::Money), 3.0),
            (Some(RateKey::Items), 0.5),
            (Some(RateKey::Catch), 1.5),
        ]
    );
}

#[test]
fn keys_are_known_or_refused() {
    assert_eq!(rate_key("shop_price"), Some(RateKey::ShopPrice));
    assert_eq!(
        rate_key("ceiling_money_per_second"),
        Some(RateKey::CeilingMoneyPerSecond)
    );
    assert_eq!(
        rate_key("ceiling_experience_per_second"),
        Some(RateKey::CeilingExperiencePerSecond)
    );
    assert_eq!(
        rate_key("ceiling_burst_seconds"),
        Some(RateKey::CeilingBurstSeconds)
    );
    assert_eq!(rate_key("species.25"), Some(RateKey::Species(25)));
    assert_eq!(rate_key("species.65535"), Some(RateKey::Species(65535)));
    assert_eq!(rate_key("species.65536"), None);
    assert_eq!(rate_key("species."), None);
    assert_eq!(rate_key("expreience"), None, "a misspelt key is a typo");
    assert!(
        matches!(read_lines("experience 2\n")[0], RateLine::NotPair),
        "missing the equals"
    );
    assert_eq!(not_pair_message(3), "line 3: expected key = value");
    assert_eq!(unknown_rate_message(4, "x"), "line 4: unknown rate x");
    assert_eq!(
        bad_rate_message(5, "money", "not a number: x"),
        "line 5: money: not a number: x"
    );
}

fn state_of(money_raw: u32, mons: &[(u32, u32, bool)]) -> SaveState {
    let mut s = state_with_flags(0, &[]);
    s.money_raw = money_raw;
    s.party = mons
        .iter()
        .map(|&(personality, experience, checksum_ok)| PartyMon {
            personality,
            ot_id: 7,
            species: 1,
            level: 5,
            experience,
            evs: [0; 6],
            checksum_ok,
        })
        .collect();
    s
}

#[test]
fn gains_are_counted_and_losses_are_not() {
    assert_eq!(money_gained(&state_of(100, &[]), &state_of(350, &[])), 250);
    assert_eq!(money_gained(&state_of(900_000, &[]), &state_of(10, &[])), 0);
    let before = state_of(0, &[(1, 100, true), (2, 100, true), (3, 100, false), (4, 100, true)]);
    let after = state_of(0, &[(4, 50, true), (2, 160, true), (3, 900, true), (1, 101, true)]);
    assert_eq!(experience_gained(&before, &after), vec![1, 60]);
}

// Instances -----------------------------------------------------------------------------------

/// Starts an instance that comes up.
fn start(instances: &mut Instances, id: i64) -> bool {
    match instances.start(id) {
        Start::Running => true,
        Start::Full => false,
        Start::Spawn => instances.started(id, true),
    }
}

#[test]
fn the_cap_is_enforced_and_is_not_a_blanket_refusal() {
    let mut instances = Instances::new().with_max(2);

    assert!(start(&mut instances, 1), "the first should start");
    assert!(start(&mut instances, 2), "the second should start");
    assert_eq!(instances.count(), 2);

    assert!(!start(&mut instances, 3), "the third is over the cap and must be refused");
    assert_eq!(instances.count(), 2, "a refusal must not be recorded as running");

    assert!(start(&mut instances, 1), "an existing instance counts as running");
    assert_eq!(instances.count(), 2, "and does not start another");

    instances.stop(1);
    assert_eq!(instances.count(), 1, "stopping frees a slot");
    assert!(start(&mut instances, 3), "which the next character can then use");
}

#[test]
fn stopping_an_absent_instance_is_harmless() {
    let mut instances = Instances::new();
    instances.stop(99);
    assert_eq!(instances.count(), 0);
}

#[test]
fn reaping_frees_capacity() {
    let mut instances = Instances::new().with_max(1);
    assert!(start(&mut instances, 1));

    instances.reap(&[1]);

    assert_eq!(instances.count(), 0, "an exited instance must not hold a slot");
    assert!(start(&mut instances, 2), "and its capacity must be reusable");
}

#[test]
fn an_instance_that_does_not_come_up_is_not_counted() {
    let mut instances = Instances::new();
    assert_eq!(instances.start(1), Start::Spawn);
    assert!(!instances.started(1, false));
    assert_eq!(instances.count(), 0);
    assert!(!instances.is_running(1));
}

// Chat ----------------------------------------------------------------------------------------

#[test]
fn chat_is_cleaned_clipped_and_trimmed() {
    assert_eq!(sanitize_chat("  hi\u{7}\nthere\u{85}  "), "hithere");
    assert_eq!(sanitize_chat("\t \r\n"), "");
    assert_eq!(sanitize_chat(&"a".repeat(500)), "a".repeat(199));
    // The clip comes before the trim.
    let long = format!("{}   b", "a".repeat(197));
    assert_eq!(sanitize_chat(&long), "a".repeat(197));
}

// Characters and numbers ----------------------------------------------------------------------

#[test]
fn character_classes_are_those_of_the_language() {
    for n in 0..=0x10FFFFu32 {
        if let Some(c) = char::from_u32(n) {
            assert_eq!(text::control(c), c.is_control(), "{n:#x}");
            assert_eq!(text::space(c), c.is_whitespace(), "{n:#x}");
            assert_eq!(text::ascii_digit(c), c.is_ascii_digit(), "{n:#x}");
        }
    }
}

#[test]
fn numbers_are_read_as_the_language_reads_them() {
    for s in ["0", "00", "255", "256", "+7", "-7", "", "+", "-", " 1", "1 ", "1_0", "65535", "65536",
        "4294967295", "4294967296", "-32768", "-32769", "32767", "32768", "+-1", "\u{0661}"]
    {
        let cs = text::chars_of(s);
        assert_eq!(text::parse_unsigned(&cs, 255).map(|n| n as u8), s.parse::<u8>().ok(), "{s}");
        assert_eq!(
            text::parse_unsigned(&cs, 65535).map(|n| n as u16),
            s.parse::<u16>().ok(),
            "{s}"
        );
        assert_eq!(text::parse_unsigned(&cs, u32::MAX), s.parse::<u32>().ok(), "{s}");
        assert_eq!(text::parse_i16(&cs), s.parse::<i16>().ok(), "{s}");
    }
}

#[test]
fn lines_and_trimming_are_those_of_the_language() {
    for s in ["", "a", "a\n", "a\nb", "a\r\nb\r", "\n\n", "\r\n", "a\rb\n\r\n", "\n"] {
        let got: Vec<String> =
            text::lines(&text::chars_of(s)).iter().map(|l| text::string_of(l)).collect();
        let want: Vec<String> = s.lines().map(|l| l.to_string()).collect();
        assert_eq!(got, want, "{s:?}");
    }
    for s in ["", " ", " a ", "\u{2003}a b\u{85}", "\u{feff}a"] {
        assert_eq!(text::string_of(text::trimmed(&text::chars_of(s))), s.trim(), "{s:?}");
    }
}

#[test]
fn numbers_are_printed_in_decimal() {
    let mut s = String::new();
    text::push_dec(&mut s, 0);
    text::push_text(&mut s, ",");
    text::push_dec(&mut s, u64::MAX);
    text::push_text(&mut s, ",");
    text::push_signed(&mut s, i64::MIN);
    text::push_text(&mut s, ",");
    text::push_signed(&mut s, 42);
    assert_eq!(s, "0,18446744073709551615,-9223372036854775808,42");
}

// Pages ---------------------------------------------------------------------------------------

#[test]
fn markup_is_escaped() {
    assert_eq!(
        html_escape("<a href=\"x\">&amp;'</a>"),
        "&lt;a href=&quot;x&quot;&gt;&amp;amp;'&lt;/a&gt;"
    );
}

#[test]
fn a_page_escapes_its_title_and_not_its_body() {
    let p = page("<T>", "<b>B</b>", Some(true));
    assert!(p.starts_with("<!doctype html>\n<html lang=\"en\"><head><meta charset=\"utf-8\">\n"));
    assert!(p.contains("<title>&lt;T&gt; &middot; PokePlanet</title>"));
    assert!(p.contains("<main><h1>&lt;T&gt;</h1><b>B</b></main>"));
    assert!(p.contains("background:#160a0a; color:#e8f5ee;"));
    assert!(p.contains("background:#20100f;\n"));
    assert!(p.ends_with("a server-authoritative Pokemon MMO</footer>\n</body></html>"));
    let neutral = page("T", "", None);
    assert!(neutral.contains("background:#101a14; color:#e8f5ee;"));
    assert_eq!(neutral, page("T", "", Some(false)));
}

#[test]
fn health_and_home_count_who_is_online() {
    assert_eq!(health(3), "ok, 3 online\n");
    assert!(home(1).contains("<p class=\"online\">1 trainer online right now.</p>"));
    assert!(home(2).contains("<p class=\"online\">2 trainers online right now.</p>"));
}

#[test]
fn a_ladder_lists_its_rows_or_says_there_are_none() {
    let rows = vec![LadderRow {
        rank: 1,
        name: "A&B".into(),
        combat_level: 99,
        badges: 8,
        pokedex_caught: 200,
        play_hours: 12,
    }];
    let deadman = ladder("deadman", &rows);
    assert!(deadman.contains(
        "<tr><td class=\"rank\">1</td><td>A&amp;B</td><td>99</td><td>8</td><td>200</td><td>12</td></tr></tbody></table>"
    ));
    assert!(deadman.contains("<h1>Deadman ladder</h1>"));
    assert!(deadman.contains("<a href=\"/ladder/normal\">standard ladder</a>"));
    let empty = ladder("nonsense", &vec![]);
    assert!(empty.contains("No one has set out in this world yet. Be the first."));
    assert!(empty.contains("<h1>Standard ladder</h1>"));
    assert!(empty.contains("The open world's trainers, by how far they've come."));
    assert!(ladder_failed().contains("<p>The ladder is having a moment. Try again shortly.</p>"));
}

#[test]
fn the_callback_needs_its_code_and_its_ticket() {
    assert!(matches!(
        read_callback(Some("c".into()), Some("t".into()), None),
        Callback::Proceed { .. }
    ));
    assert!(matches!(read_callback(None, Some("t".into()), None), Callback::Incomplete));
    assert!(matches!(read_callback(Some("c".into()), None, None), Callback::Incomplete));
    assert!(matches!(
        read_callback(Some("c".into()), Some("t".into()), Some("denied".into())),
        Callback::Cancelled { .. }
    ));
}

#[test]
fn each_end_of_a_login_has_its_page() {
    let (status, body) = login_page(&LoginEnd::Cancelled { error: "<no>".into() });
    assert_eq!(status, 200);
    assert!(body.contains("<p>Discord said: &lt;no&gt;</p>"));
    assert_eq!(login_page(&LoginEnd::Incomplete).0, 400);
    assert_eq!(login_page(&LoginEnd::Unverified).0, 502);
    assert_eq!(login_page(&LoginEnd::Refused).0, 403);
    let (status, body) = login_page(&LoginEnd::Done { name: "A<".into() });
    assert_eq!(status, 200);
    assert!(body.contains("<p>Welcome, A&lt;. Head back to PokePlanet &mdash; the game is already picking this up.</p>"));
    assert_eq!(login_page(&LoginEnd::Expired).0, 410);
    assert_eq!(login_page(&LoginEnd::Failed).0, 500);
}

#[test]
fn each_event_of_a_login_has_its_end() {
    assert!(matches!(login_end(LoginEvent::ExchangeFailed), LoginEnd::Unverified));
    assert!(matches!(login_end(LoginEvent::Rejected), LoginEnd::Refused));
    let ticket = |found| LoginEvent::Ticket { name: "Ash".into(), found };
    assert!(matches!(login_end(ticket(true)), LoginEnd::Done { name } if name == "Ash"));
    assert!(matches!(login_end(ticket(false)), LoginEnd::Expired));
    assert!(matches!(login_end(LoginEvent::TicketFailed), LoginEnd::Failed));
}

// Certificates --------------------------------------------------------------------------------

fn section(label: &str, body: &str) -> String {
    format!("-----BEGIN {label}-----\n{body}\n-----END {label}-----\n")
}

#[test]
fn a_chain_is_the_certificates_of_a_file_in_order() {
    let file = format!(
        "a comment\n{}{}{}",
        section("CERTIFICATE", "AQID"),
        section("PUBLIC KEY", "BwcH"),
        section("CERTIFICATE", "BAUGBw==")
    );
    assert_eq!(cert_chain(file.as_bytes()), Ok(vec![vec![1, 2, 3], vec![4, 5, 6, 7]]));
    let none = section("PUBLIC KEY", "BwcH");
    assert_eq!(cert_chain(none.as_bytes()), Err(ChainError::Empty));
    assert_eq!(cert_chain(b""), Err(ChainError::Empty));
    assert_eq!(
        cert_chain(section("CERTIFICATE", "A*ID").as_bytes()),
        Err(ChainError::Unreadable)
    );
    assert_eq!(cert_chain(b"-----BEGIN CERTIFICATE-----\nAQID\n"), Err(ChainError::Unreadable));
    assert_eq!(chain_of(None), Err(ChainError::Unreadable));
    assert_eq!(chain_of(Some(vec![])), Err(ChainError::Empty));
    assert_eq!(chain_of(Some(vec![vec![9]])), Ok(vec![vec![9]]));
    assert_eq!(ChainError::Unreadable.message("c.pem"), "parsing certificate chain");
    assert_eq!(ChainError::Empty.message("c.pem"), "no certificates in c.pem");
}

#[test]
fn a_key_is_the_first_of_a_file() {
    for (label, kind) in [
        ("RSA PRIVATE KEY", KeyKind::Pkcs1),
        ("EC PRIVATE KEY", KeyKind::Sec1),
        ("PRIVATE KEY", KeyKind::Pkcs8),
    ] {
        let file = format!(
            "{}{}{}",
            section("CERTIFICATE", "BwcH"),
            section(label, "AQID"),
            section("PRIVATE KEY", "BAUG")
        );
        assert_eq!(private_key(file.as_bytes()), Ok((kind, vec![1, 2, 3])));
    }
    assert_eq!(private_key(section("CERTIFICATE", "AQID").as_bytes()), Err(KeyError::Absent));
    assert_eq!(private_key(b""), Err(KeyError::Absent));
    assert_eq!(
        private_key(section("PRIVATE KEY", "A*ID").as_bytes()),
        Err(KeyError::Unreadable)
    );
    assert_eq!(key_of(FoundKey::Unreadable), Err(KeyError::Unreadable));
    assert_eq!(key_of(FoundKey::Absent), Err(KeyError::Absent));
    let found = FoundKey::Present { kind: KeyKind::Sec1, der: vec![8] };
    assert_eq!(key_of(found), Ok((KeyKind::Sec1, vec![8])));
    assert_eq!(KeyError::Unreadable.message("k.pem"), "parsing private key");
    assert_eq!(KeyError::Absent.message("k.pem"), "no private key in k.pem");
}

// Identities ----------------------------------------------------------------------------------

#[test]
fn a_token_is_stored_as_its_digest() {
    assert_eq!(
        hash_token("abc"),
        "ba7816bf8f01cfea414140de5dae2223b00361a396177a9cb410ff61f20015ad"
    );
    assert_eq!(
        hash_token(""),
        "e3b0c44298fc1c149afbf4c8996fb92427ae41e4649b934ca495991b7852b855"
    );
    assert_eq!(to_hex(&[0, 0x0F, 0xA5, 0xFF]), "000fa5ff");
}

#[test]
fn names_get_a_number_when_taken() {
    assert_eq!(candidate_name("Ash", 0), "Ash");
    assert_eq!(candidate_name("Ash", 1), "Ash1");
    assert_eq!(candidate_name("Ash", 999), "Ash999");
    assert_eq!(
        no_name_message("Ash"),
        "no free character name for Ash after 1000 attempts"
    );
}

#[test]
fn a_taken_name_is_followed_by_the_next_until_none_is_left() {
    let tries = |step: NameStep| match step {
        NameStep::Try { attempt, name } => (attempt, name),
        _ => panic!("no name was tried"),
    };
    assert_eq!(tries(name_step("Ash", None, false)), (0, "Ash".to_string()));
    assert_eq!(tries(name_step("Ash", Some(0), false)), (1, "Ash1".to_string()));
    assert_eq!(tries(name_step("Ash", Some(998), false)), (999, "Ash999".to_string()));
    for tried in [Some(999), Some(u32::MAX)] {
        match name_step("Ash", tried, false) {
            NameStep::GiveUp { message } => {
                assert_eq!(message, "no free character name for Ash after 1000 attempts")
            }
            _ => panic!("went on trying"),
        }
    }
    for tried in [None, Some(0), Some(999)] {
        assert!(matches!(name_step("Ash", tried, true), NameStep::UseExisting));
    }
}

#[test]
fn random_identifiers_are_made_of_the_alphabet() {
    for _ in 0..50 {
        let t = random_token();
        assert_eq!(t.len(), TOKEN_LEN);
        assert!(t.chars().all(|c| c.is_ascii_alphanumeric()));
        assert!(PLAYER_SPRITES.contains(&random_sprite()));
    }
    assert_ne!(random_token(), random_token());
    let all: String = (0..ALPHABET_LEN).map(token_char_of).collect();
    assert_eq!(all, "abcdefghijklmnopqrstuvwxyzABCDEFGHIJKLMNOPQRSTUVWXYZ0123456789");
    assert_eq!(token_of(&[0, 26, 52, 61]), "aA09");
    assert_eq!(token_of(&[]), "");
    assert_eq!(sprite_of(0), 0);
    assert_eq!(sprite_of(1), 89);
}

fn vars() -> Vars {
    Vars {
        quic_addr: None,
        http_addr: None,
        cert_chain: None,
        private_key: None,
        database_url: None,
        public_url: None,
        discord_client_id: Some("id 1".into()),
        discord_client_secret: Some("hush".into()),
        discord_bot_token: Some("".into()),
        discord_guild_id: Some("42".into()),
        discord_role_name: None,
        irc_host: None,
        irc_port: None,
        irc_channel: None,
        irc_enabled: None,
    }
}

#[test]
fn configuration_falls_back_to_its_defaults() {
    let cfg = Config::from_env(vars()).ok().unwrap();
    assert_eq!(cfg.quic_addr, "0.0.0.0:4433");
    assert_eq!(cfg.http_addr, "127.0.0.1:8790");
    assert_eq!(cfg.cert_chain, "/etc/letsencrypt/live/obby.ca/fullchain.pem");
    assert_eq!(cfg.private_key, "/etc/letsencrypt/live/obby.ca/privkey.pem");
    assert_eq!(cfg.database_url, "postgres://pokeplanet@%2Frun%2Fpostgresql/pokeplanet");
    assert_eq!(cfg.public_url, "https://pokeplanet.obby.ca");
    assert_eq!(cfg.discord_bot_token, None, "an empty optional is no value");
    assert_eq!(cfg.discord_guild_id, Some("42".to_string()));
    assert_eq!(cfg.discord_role_name, "PokePlanet");
    assert_eq!(cfg.irc_host, "127.0.0.1");
    assert_eq!(cfg.irc_port, 6697);
    assert_eq!(cfg.irc_channel, "#pokeplanet");
    assert!(cfg.irc_enabled);
}

#[test]
fn configuration_refuses_what_is_missing_or_wrong() {
    let mut v = vars();
    v.discord_client_id = None;
    assert_eq!(Config::from_env(v).err(), Some(ConfigError::NoClientId));
    let mut v = vars();
    v.discord_client_secret = None;
    assert_eq!(Config::from_env(v).err(), Some(ConfigError::NoClientSecret));
    let mut v = vars();
    v.irc_port = Some("99999".into());
    assert_eq!(Config::from_env(v).err(), Some(ConfigError::BadPort));
    assert_eq!(ConfigError::NoClientId.message(), "DISCORD_CLIENT_ID must be set");
    let mut v = vars();
    v.irc_enabled = Some("0".into());
    assert!(!Config::from_env(v).ok().unwrap().irc_enabled);
}

#[test]
fn addresses_are_built_and_percent_encoded() {
    let mut v = vars();
    v.public_url = Some("https://example.com//".into());
    let cfg = Config::from_env(v).ok().unwrap();
    assert_eq!(cfg.redirect_uri(), "https://example.com/auth/callback");
    assert_eq!(cfg.login_url("a b/\u{e9}"), "https://example.com/login?t=a%20b%2F%C3%A9");
    assert_eq!(
        authorize_url(&cfg, "s&t"),
        "https://discord.com/api/oauth2/authorize?client_id=id%201&redirect_uri=https%3A%2F%2Fexample.com%2Fauth%2Fcallback&response_type=code&scope=identify&state=s%26t&prompt=none"
    );
    assert_eq!(guild_roles_url("7"), "https://discord.com/api/v10/guilds/7/roles");
    assert_eq!(
        grant_url("7", "8", "9"),
        "https://discord.com/api/v10/guilds/7/members/8/roles/9"
    );
}

#[test]
fn display_names_are_cleaned_and_capped() {
    let user = |username: &str, global: Option<&str>| DiscordUser {
        id: "1".into(),
        username: username.into(),
        global_name: global.map(|s| s.to_string()),
    };
    assert_eq!(user("ash", None).display_name(), "ash");
    assert_eq!(user("ash", Some("Ash\u{7} Ketchum of Pallet")).display_name(), "Ash Ketchum of ");
    assert_eq!(user("ash_ketchum_of", Some("\n \t")).display_name(), "ash_ketchu");
    // The field counts bytes, and a character is never cut in two.
    let wide = user("ash", Some(&"\u{e9}".repeat(15))).display_name();
    assert_eq!(wide, "\u{e9}".repeat(7));
    assert_eq!(user("ash", Some("abcdefghijklm\u{20ac}")).display_name(), "abcdefghijklm");
    assert_eq!(user("ash", Some("abcdefghijkl\u{20ac}")).display_name(), "abcdefghijkl\u{20ac}");
    assert_eq!(user("ash", Some("abcdefghijk\u{1f600}x")).display_name(), "abcdefghijk\u{1f600}");
    // The user name that stands in is cleaned and cut likewise.
    assert_eq!(user("a\u{7}s\u{1b}h", Some(" ")).display_name(), "ash");
    assert_eq!(user(&"\u{1f600}".repeat(10), Some("")).display_name(), "\u{1f600}".repeat(3));
}

#[test]
fn a_role_is_found_whatever_its_case() {
    let roles = [
        GuildRole { id: "1".into(), name: "Mods".into() },
        GuildRole { id: "2".into(), name: "POKEplanet".into() },
    ];
    assert_eq!(find_role(&roles, "PokePlanet"), Some(1));
    assert_eq!(find_role(&roles, "nobody"), None);
}

#[test]
fn a_character_is_summed_up_for_the_sign_in_screen() {
    let c = Character {
        id: 1,
        account_id: 2,
        mode: "normal".into(),
        name: "Ash".into(),
        graphics_id: 89,
        map_group: 0,
        map_num: 9,
        x: 17,
        y: 18,
        facing: 1,
        elevation: 3,
        play_time_s: -5,
        money: -1,
        badges: 2,
        pokedex_caught: 3,
        pokedex_seen: 4,
    };
    let p = c.profile();
    assert_eq!(p.name, "Ash");
    assert_eq!(p.play_time_seconds, 0, "a negative time counts as none");
    assert_eq!(p.money, 0, "and so does a negative balance");
    assert_eq!((p.graphics_id, p.badges, p.pokedex_caught, p.pokedex_seen), (89, 2, 3, 4));
    assert_eq!((p.map_group, p.map_num, p.x, p.y), (0, 9, 17, 18));
}

#[test]
fn only_decoded_records_are_stored_in_the_slots_they_stand_in() {
    let party = state_of(0, &[(1, 1, true), (2, 1, false), (3, 1, true)]).party;
    assert_eq!(storable(&party), vec![0, 2]);
    assert_eq!(pack_vars(&[0x0102, 0xFFFE]), vec![2, 1, 0xFE, 0xFF]);
}

// Combat level --------------------------------------------------------------------------------

/// The combat level as the formula reads.
fn combat_formula(party_levels: &[u8], badges: u8) -> u16 {
    if party_levels.is_empty() {
        return 3;
    }
    let max = *party_levels.iter().max().unwrap() as f32;
    let avg = party_levels.iter().map(|&l| l as f32).sum::<f32>() / party_levels.len() as f32;
    let raw = (max * 0.9 + avg * 0.4 + badges as f32 * 4.0).round() as i32;
    raw.clamp(3, 126) as u16
}

#[test]
fn combat_level_is_bounded_and_ordered() {
    assert_eq!(combat_level(&[], 0), 3, "no party is the floor");
    let low = combat_level(&[5, 5], 0);
    let high = combat_level(&[50, 48, 45], 6);
    assert!((3..=126).contains(&low) && (3..=126).contains(&high));
    assert!(high > low, "a stronger, further-along team ranks higher");
    // Never exceeds the ceiling even at an absurd input.
    assert_eq!(combat_level(&[100, 100, 100, 100, 100, 100], 8), 126);
}

#[test]
fn combat_level_follows_its_formula() {
    // Parties of every size and level: one strong Pokemon and the rest of one kind.
    for size in 1..=6usize {
        for top in 0..=100u8 {
            for other in 0..=top {
                let mut party = vec![other; size];
                party[0] = top;
                for badges in [0u8, 3, 8] {
                    assert_eq!(
                        combat_level(&party, badges),
                        combat_formula(&party, badges),
                        "{party:?} {badges}"
                    );
                }
            }
        }
    }
    // Sums that do not divide evenly.
    let mut seed = 12345u32;
    for _ in 0..200_000 {
        let mut next = || {
            seed = seed.wrapping_mul(1_664_525).wrapping_add(1_013_904_223);
            (seed >> 24) as u8
        };
        let size = 1 + (next() % 9) as usize;
        let party: Vec<u8> = (0..size).map(|_| next()).collect();
        let badges = next();
        for b in [badges, badges % 9] {
            assert_eq!(combat_level(&party, b), combat_formula(&party, b), "{party:?} {b}");
        }
    }
    // Exactly half-way in tenths, where the two shares are not exact.
    assert_eq!(combat_level(&[5], 0), 7);
    assert_eq!(combat_level(&[15, 10, 10], 1), combat_formula(&[15, 10, 10], 1));
}

#[test]
fn combat_level_of_a_party_too_large_to_add_exactly() {
    let party = vec![255u8; 40_000_000];
    assert_eq!(combat_level(&party, 0), combat_formula(&party, 0));
    let mut odd = vec![1u8; 17_000_000];
    odd[0] = 2;
    assert_eq!(combat_level(&odd, 1), combat_formula(&odd, 1));
}
