//! What is read out of lines, and what is written into addresses, pages, names and rows.

use super::auth;
use super::auth::{DiscordUser, GuildRole};
use super::chat;
use super::config;
use super::config::{Config, Vars};
use super::db;
use super::http;
use super::http::LadderRow;
use super::irc;
use super::rates;
use super::rates::{RateKey, RateLineView};
use super::rule_laws::{all_showable, lemma_all_showable, unshowable};
use super::save_parse::mon::PartyMon;
use super::save_parse::parse_laws::num;
use crate::bytes;
use crate::text;
use crate::text_laws::{
    all_blank, blank, by_place, is_bare, is_decimal, law_as_much_as_fits,
    law_natural_numbers_are_read_by_place, law_the_first_place_is_found,
    law_trimming_takes_the_blanks_around,
};
use vstd::arithmetic::power::{lemma_pow0, lemma_pow1, lemma_pow_adds, pow};
use vstd::prelude::*;
use vstd::utf8;

verus! {

// ---------------------------------------------------------------------------------------------
// Chat from the other side
// ---------------------------------------------------------------------------------------------

/// A message of someone to a channel, as it stands on the wire.
pub open spec fn message(
    nick: Seq<char>,
    host: Seq<char>,
    target: Seq<char>,
    said: Seq<char>,
) -> Seq<char> {
    seq![':'] + nick + seq!['!'] + host + seq![' '] + "PRIVMSG "@ + target + " :"@ + said
}

/// A message is taken apart into who said it, where, and what, whatever was said.
pub proof fn law_messages_are_taken_apart(
    nick: Seq<char>,
    host: Seq<char>,
    target: Seq<char>,
    said: Seq<char>,
)
    requires
        !nick.contains('!') && !nick.contains(' '),
        !host.contains(' '),
        !target.contains(' '),
    ensures
        irc::privmsg_of(message(nick, host, target, said)) == Some((nick, target, said)),
{
    reveal_strlit("PRIVMSG ");
    reveal_strlit(" :");
    let line = message(nick, host, target, said);
    let from = nick + seq!['!'] + host;
    let args = target + " :"@ + said;
    let command = "PRIVMSG "@ + args;
    let rest = line.drop_first();
    assert(line[0] == ':');
    assert(rest =~= from + seq![' '] + command);
    assert(!from.contains(' ')) by {
        assert forall|i: int| 0 <= i < from.len() implies from[i] != ' ' by {
            if i < nick.len() {
                assert(nick.contains(nick[i]));
            } else if i > nick.len() {
                assert(host.contains(host[i - nick.len() - 1]));
            }
        }
    }
    law_the_first_place_is_found(from, ' ', command);
    let k = from.len() as int;
    assert(rest.subrange(0, k) =~= from);
    assert(rest.subrange(k + 1, rest.len() as int) =~= command);
    assert(command.subrange(0, 8) =~= "PRIVMSG "@);
    assert(command.subrange(8, command.len() as int) =~= args);
    law_the_first_place_is_found(nick, '!', host);
    assert(from.subrange(0, nick.len() as int) =~= nick);
    let j = target.len() as int;
    assert(args.subrange(j, j + 2) =~= " :"@);
    text::law_text_is_found(args, " :"@, 0, j);
    let at = text::text_from(args, " :"@, 0)->0;
    if at < j {
        assert(args.subrange(at, at + 2)[0] == ' ');
        assert(target.contains(target[at]));
    }
    assert(args.subrange(0, j) =~= target);
    assert(args.subrange(j + 2, args.len() as int) =~= said);
}

/// A message goes into the game if and only if it is from someone else and to the channel, whose
/// name may be written in letters of either case.
pub proof fn law_only_what_others_say_in_the_channel_is_for_the_game(
    nick: Seq<char>,
    host: Seq<char>,
    target: Seq<char>,
    said: Seq<char>,
    own: Seq<char>,
    channel: Seq<char>,
)
    requires
        !nick.contains('!') && !nick.contains(' '),
        !host.contains(' '),
        !target.contains(' '),
    ensures
        irc::for_game(message(nick, host, target, said), own, channel) <==> nick != own
            && text::same_ignoring_case(target, channel),
{
    law_messages_are_taken_apart(nick, host, target, said);
}

/// A line contains a text if and only if the text stands somewhere in it.
pub proof fn law_a_text_is_in_a_line_where_it_stands(
    a: Seq<char>,
    p: Seq<char>,
    b: Seq<char>,
    line: Seq<char>,
)
    ensures
        irc::contains_text(a + p + b, p),
        irc::contains_text(line, p) ==> exists|i: int|
            0 <= i && i + p.len() <= line.len() && #[trigger] line.subrange(i, i + p.len()) == p,
{
    let all = a + p + b;
    let k = a.len() as int;
    assert(all.subrange(k, k + p.len()) =~= p);
    text::law_text_is_found(all, p, 0, k);
    if irc::contains_text(line, p) {
        lemma_found(line, p, 0);
    }
}

proof fn lemma_found(s: Seq<char>, p: Seq<char>, i: int)
    requires
        0 <= i,
        text::text_from(s, p, i) is Some,
    ensures
        exists|j: int| 0 <= j && j + p.len() <= s.len() && #[trigger] s.subrange(j, j + p.len()) == p,
    decreases s.len() - i,
{
    if !text::has_at(s, p, i) && i < s.len() && i + p.len() <= s.len() {
        lemma_found(s, p, i + 1);
    } else {
        assert(s.subrange(i, i + p.len()) == p);
    }
}

// ---------------------------------------------------------------------------------------------
// Rates
// ---------------------------------------------------------------------------------------------

/// What stands behind a number sign says nothing.
pub proof fn law_comments_say_nothing(a: Seq<char>, b: Seq<char>)
    requires
        !a.contains('#'),
    ensures
        rates::rate_line_of(a + seq!['#'] + b) == rates::rate_line_of(a),
{
    let all = a + seq!['#'] + b;
    law_the_first_place_is_found(a, '#', b);
    assert(all.subrange(0, a.len() as int) =~= a);
}

/// A line without a comment is a key, an equals sign and a value, blanks around them or not.
pub proof fn law_rates_are_pairs(
    a: Seq<char>,
    key: Seq<char>,
    b: Seq<char>,
    value: Seq<char>,
    c: Seq<char>,
)
    requires
        all_blank(a) && all_blank(b) && all_blank(c),
        key.len() > 0 && is_bare(key),
        value.len() > 0 ==> !blank(value[value.len() - 1]),
        !(key + b).contains('='),
        !(a + (key + b + seq!['='] + value) + c).contains('#'),
    ensures
        rates::rate_line_of(a + (key + b + seq!['='] + value) + c) == (RateLineView::Pair {
            key,
            value,
        }),
{
    let said = key + b + seq!['='] + value;
    let line = a + said + c;
    law_the_first_place_is_found(line, '#', Seq::empty());
    assert(!blank('=')) by {
        assert('=' as u32 == 61);
    }
    assert(said[0] == key[0]);
    if value.len() > 0 {
        assert(said[said.len() - 1] == value[value.len() - 1]);
    } else {
        assert(said[said.len() - 1] == '=');
    }
    law_trimming_takes_the_blanks_around(a, said, c);
    law_the_first_place_is_found(key + b, '=', value);
    let k = (key + b).len() as int;
    assert(said.subrange(0, k) =~= Seq::<char>::empty() + key + b);
    assert(said.subrange(k + 1, said.len() as int) =~= value);
    law_trimming_takes_the_blanks_around(Seq::empty(), key, b);
}

/// A line of blanks says nothing, and one with no equals sign is no pair.
pub proof fn law_other_lines_are_told_apart(a: Seq<char>, said: Seq<char>, b: Seq<char>)
    requires
        all_blank(a) && all_blank(b),
        is_bare(said),
        !(a + said + b).contains('#'),
        !said.contains('='),
    ensures
        rates::rate_line_of(a + said + b) == (if said.len() == 0 {
            RateLineView::Blank
        } else {
            RateLineView::NotPair
        }),
{
    law_the_first_place_is_found(a + said + b, '#', Seq::empty());
    law_trimming_takes_the_blanks_around(a, said, b);
    law_the_first_place_is_found(said, '=', Seq::empty());
}

/// The rate of a species is named by its number in decimal, and only a number of a species is.
pub proof fn law_species_are_named_by_number(digits: Seq<char>)
    requires
        digits.len() == 0 || digits[0] != '+',
    ensures
        rates::key_of("species."@ + digits) == (if is_decimal(digits) && by_place(digits) <= 65535 {
            Some(RateKey::Species(by_place(digits) as u16))
        } else {
            None
        }),
{
    reveal_strlit("experience");
    reveal_strlit("encounter");
    reveal_strlit("money");
    reveal_strlit("items");
    reveal_strlit("catch");
    reveal_strlit("shop_price");
    reveal_strlit("ceiling_money_per_second");
    reveal_strlit("ceiling_experience_per_second");
    reveal_strlit("ceiling_burst_seconds");
    reveal_strlit("species.");
    let key = "species."@ + digits;
    assert(key[1] == 'p' && key[0] == 's');
    assert("experience"@[0] == 'e' && "encounter"@[0] == 'e' && "money"@[0] == 'm' && "items"@[0]
        == 'i' && "catch"@[0] == 'c' && "shop_price"@[1] == 'h');
    assert("ceiling_money_per_second"@[0] == 'c' && "ceiling_experience_per_second"@[0] == 'c'
        && "ceiling_burst_seconds"@[0] == 'c');
    assert(key.subrange(0, 8) =~= "species."@);
    assert(key.subrange(8, key.len() as int) =~= digits);
    law_natural_numbers_are_read_by_place(digits, 65535);
}

/// Each rate has a name of its own.
pub proof fn law_rates_are_named(key: Seq<char>)
    ensures
        rates::key_of(key) == Some(RateKey::Experience) <==> key == "experience"@,
        rates::key_of(key) == Some(RateKey::Encounter) <==> key == "encounter"@,
        rates::key_of(key) == Some(RateKey::Money) <==> key == "money"@,
        rates::key_of(key) == Some(RateKey::Items) <==> key == "items"@,
        rates::key_of(key) == Some(RateKey::Catch) <==> key == "catch"@,
        rates::key_of(key) == Some(RateKey::ShopPrice) <==> key == "shop_price"@,
        rates::key_of(key) == Some(RateKey::CeilingMoneyPerSecond) <==> key
            == "ceiling_money_per_second"@,
        rates::key_of(key) == Some(RateKey::CeilingExperiencePerSecond) <==> key
            == "ceiling_experience_per_second"@,
        rates::key_of(key) == Some(RateKey::CeilingBurstSeconds) <==> key
            == "ceiling_burst_seconds"@,
{
    reveal_strlit("experience");
    reveal_strlit("encounter");
    reveal_strlit("money");
    reveal_strlit("items");
    reveal_strlit("catch");
    reveal_strlit("shop_price");
    reveal_strlit("ceiling_money_per_second");
    reveal_strlit("ceiling_experience_per_second");
    reveal_strlit("ceiling_burst_seconds");
    assert("experience"@.len() == 10 && "encounter"@.len() == 9 && "money"@.len() == 5);
    assert("items"@.len() == 5 && "catch"@.len() == 5 && "shop_price"@.len() == 10);
    assert("ceiling_money_per_second"@.len() == 24 && "ceiling_experience_per_second"@.len() == 29
        && "ceiling_burst_seconds"@.len() == 21);
    assert("money"@[0] == 'm' && "items"@[0] == 'i' && "catch"@[0] == 'c');
    assert("experience"@[0] == 'e' && "shop_price"@[0] == 's');
}

// ---------------------------------------------------------------------------------------------
// Configuration
// ---------------------------------------------------------------------------------------------

/// A variable that is set is taken as it is, and one that is not leaves what holds without it.
pub open spec fn taken_or(r: Seq<char>, v: Option<String>, without: Seq<char>) -> bool {
    &&& v is Some ==> r == v->0@
    &&& v is None ==> r == without
}

/// Every variable sets what it names, and what is not set holds as it does without it. The bot and
/// the guild are there only where they are named; the bridge to the other chat is off only where it
/// is switched off.
pub proof fn law_variables_set_what_they_name(c: Config, v: Vars)
    requires
        config::configured(c, v),
    ensures
        taken_or(c.quic_addr@, v.quic_addr, "0.0.0.0:4433"@),
        taken_or(c.http_addr@, v.http_addr, "127.0.0.1:8790"@),
        taken_or(
            c.cert_chain@,
            v.cert_chain,
            "/etc/letsencrypt/live/obby.ca/fullchain.pem"@,
        ),
        taken_or(c.private_key@, v.private_key, "/etc/letsencrypt/live/obby.ca/privkey.pem"@),
        taken_or(
            c.database_url@,
            v.database_url,
            "postgres://pokeplanet@%2Frun%2Fpostgresql/pokeplanet"@,
        ),
        taken_or(c.public_url@, v.public_url, "https://pokeplanet.obby.ca"@),
        taken_or(c.discord_role_name@, v.discord_role_name, "PokePlanet"@),
        taken_or(c.irc_host@, v.irc_host, "127.0.0.1"@),
        taken_or(c.irc_channel@, v.irc_channel, "#pokeplanet"@),
        v.discord_client_id is Some ==> c.discord_client_id@ == v.discord_client_id->0@,
        v.discord_client_secret is Some ==> c.discord_client_secret@ == v.discord_client_secret->0@,
        c.discord_bot_token is Some <==> v.discord_bot_token is Some
            && v.discord_bot_token->0@.len() > 0,
        c.discord_bot_token is Some ==> c.discord_bot_token->0@ == v.discord_bot_token->0@,
        c.discord_guild_id is Some <==> v.discord_guild_id is Some && v.discord_guild_id->0@.len()
            > 0,
        c.discord_guild_id is Some ==> c.discord_guild_id->0@ == v.discord_guild_id->0@,
        !c.irc_enabled <==> v.irc_enabled is Some && v.irc_enabled->0@ == "0"@,
{
    reveal_strlit("0");
    reveal_strlit("1");
    assert("0"@[0] == '0' && "1"@[0] == '1');
}

/// The configuration is refused if and only if the client's id or secret is not set, or the port of
/// the other chat is set to what is no port.
pub proof fn law_what_configuration_is_refused(v: Vars)
    requires
        v.irc_port matches Some(s) ==> s@.len() == 0 || s@[0] != '+',
    ensures
        config::config_error(v) is Some <==> {
            ||| v.discord_client_id is None
            ||| v.discord_client_secret is None
            ||| v.irc_port is Some && !(is_decimal(v.irc_port->0@) && by_place(v.irc_port->0@)
                <= 65535)
        },
{
    reveal_strlit("6697");
    let port = "6697"@;
    assert(port.len() == 4 && port[0] == '6' && port[1] == '6' && port[2] == '9' && port[3] == '7');
    law_natural_numbers_are_read_by_place(port, 65535);
    assert(is_decimal(port)) by {
        assert('6' as u32 == 54 && '9' as u32 == 57 && '7' as u32 == 55);
    }
    assert(by_place(port) <= 65535) by {
        reveal_with_fuel(by_place, 5);
        lemma_small_powers();
        assert('6' as u32 == 54 && '9' as u32 == 57 && '7' as u32 == 55);
    }
    match v.irc_port {
        Some(s) => {
            law_natural_numbers_are_read_by_place(s@, 65535);
        },
        None => {},
    }
}

proof fn lemma_small_powers()
    ensures
        pow(10, 0) == 1 && pow(10, 1) == 10 && pow(10, 2) == 100 && pow(10, 3) == 1000,
{
    lemma_pow0(10);
    lemma_pow1(10);
    lemma_pow_adds(10, 1, 1);
    lemma_pow_adds(10, 2, 1);
}

// ---------------------------------------------------------------------------------------------
// Addresses and digests
// ---------------------------------------------------------------------------------------------

/// What a hexadecimal digit of either case stands for.
pub open spec fn hex_value(c: char) -> int {
    if c as u32 >= 97 {
        c as u32 - 97 + 10
    } else if c as u32 >= 65 {
        c as u32 - 65 + 10
    } else {
        c as u32 - 48
    }
}

proof fn lemma_percent_parts(a: Seq<u8>, b: Seq<u8>)
    ensures
        auth::percent(a + b) == auth::percent(a) + auth::percent(b),
    decreases b.len(),
{
    if b.len() == 0 {
        assert(a + b =~= a);
        assert(auth::percent(a) + auth::percent(b) =~= auth::percent(a));
    } else {
        assert((a + b).drop_last() =~= a + b.drop_last());
        lemma_percent_parts(a, b.drop_last());
        assert(auth::percent(a + b) =~= auth::percent(a) + auth::percent(b));
    }
}

/// Bytes are encoded one by one. A letter, a digit, a hyphen, a full stop, an underscore or a tilde
/// stands for itself; of any other byte the two digits behind a per cent sign say which it is.
pub proof fn law_each_byte_is_encoded_by_itself(a: Seq<u8>, x: u8, b: Seq<u8>)
    ensures
        auth::percent(a + seq![x] + b) == auth::percent(a) + auth::percent(seq![x]) + auth::percent(
            b,
        ),
        auth::percent(Seq::empty()).len() == 0,
        ({
            let p = auth::percent(seq![x]);
            let plain = {
                ||| 'a' as u8 <= x <= 'z' as u8
                ||| 'A' as u8 <= x <= 'Z' as u8
                ||| '0' as u8 <= x <= '9' as u8
                ||| x == '-' as u8 || x == '.' as u8 || x == '_' as u8 || x == '~' as u8
            };
            if plain {
                p.len() == 1 && p[0] as u32 == x
            } else {
                &&& p.len() == 3
                &&& p[0] == '%'
                &&& 16 * hex_value(p[1]) + hex_value(p[2]) == x
                &&& 0 <= hex_value(p[1]) < 16 && 0 <= hex_value(p[2]) < 16
                &&& (p[1] as u32) < 97 && (p[2] as u32) < 97
            }
        }),
{
    lemma_percent_parts(a + seq![x], b);
    lemma_percent_parts(a, seq![x]);
    assert(seq![x].drop_last() =~= Seq::<u8>::empty());
    assert(auth::percent(Seq::<u8>::empty()) =~= Seq::<char>::empty());
    let p = auth::percent(seq![x]);
    if auth::is_unreserved(x) {
        assert(p =~= seq![x as char]);
    } else {
        assert(p =~= seq![
            '%',
            auth::hex_digit(x as int / 16),
            auth::hex_digit(x as int % 16),
        ]);
    }
    assert('a' as u8 == 0x61 && 'z' as u8 == 0x7A && 'A' as u8 == 0x41 && 'Z' as u8 == 0x5A);
    assert('0' as u8 == 0x30 && '9' as u8 == 0x39 && '-' as u8 == 0x2D && '.' as u8 == 0x2E);
    assert('_' as u8 == 0x5F && '~' as u8 == 0x7E);
}

proof fn lemma_hex_parts(a: Seq<u8>, b: Seq<u8>)
    ensures
        db::hex(a + b) == db::hex(a) + db::hex(b),
    decreases b.len(),
{
    if b.len() == 0 {
        assert(a + b =~= a);
        assert(db::hex(a) + db::hex(b) =~= db::hex(a));
    } else {
        assert((a + b).drop_last() =~= a + b.drop_last());
        lemma_hex_parts(a, b.drop_last());
        assert(db::hex(a + b) =~= db::hex(a) + db::hex(b));
    }
}

/// A digest is written byte by byte, from the first to the last, the higher digit of each first, in
/// lower case.
pub proof fn law_digests_are_written_byte_by_byte(b: Seq<u8>, i: int)
    requires
        0 <= i < b.len(),
    ensures
        ({
            let h = db::hex(b);
            &&& h.len() == 2 * b.len()
            &&& 16 * hex_value(h[2 * i]) + hex_value(h[2 * i + 1]) == b[i]
            &&& 0 <= hex_value(h[2 * i]) < 16 && 0 <= hex_value(h[2 * i + 1]) < 16
            &&& !(65 <= h[2 * i] as u32 <= 90) && !(65 <= h[2 * i + 1] as u32 <= 90)
        }),
    decreases b.len(),
{
    db::law_hex_is_twice_as_long(b);
    db::law_hex_is_twice_as_long(b.drop_last());
    if i < b.len() - 1 {
        law_digests_are_written_byte_by_byte(b.drop_last(), i);
    }
}

/// No two numbers are drawn as the same character of a random identifier.
pub proof fn law_drawn_characters_are_distinct(m: int, n: int)
    requires
        0 <= m < n < 62,
    ensures
        auth::token_char(m) != auth::token_char(n),
        auth::is_token_char(auth::token_char(m)),
        auth::is_token_char(auth::token_char(n)),
{
    assert(auth::token_char(m) as u32 != auth::token_char(n) as u32);
}

/// Where Discord sends the player back to does not depend on slashes at the end of the address.
pub proof fn law_slashes_at_the_end_make_no_difference(url: Seq<char>)
    ensures
        config::redirect_of(url.push('/')) == config::redirect_of(url),
        url.len() == 0 || url.last() != '/' ==> config::redirect_of(url) == url
            + "/auth/callback"@,
{
    assert(url.push('/').drop_last() =~= url);
}

// ---------------------------------------------------------------------------------------------
// Names
// ---------------------------------------------------------------------------------------------

/// A player is shown under the name they chose, or, where they chose none, under their user name,
/// as it is where it can be shown, is not blank and takes up at most fifteen bytes.
pub proof fn law_players_are_shown_under_their_own_name(u: DiscordUser, name: Seq<char>)
    requires
        name == (match u.global_name {
            Some(s) => s@,
            None => u.username@,
        }),
        all_showable(name),
        name.len() > 0,
        is_bare(name),
        utf8::encode_utf8(name).len() <= 15,
    ensures
        auth::shown_name(u) == name,
{
    lemma_all_showable(name);
    assert(name.subrange(0, name.len() as int) =~= name);
    law_as_much_as_fits(name, 15, name.len() as int);
    assert(text::within_bytes(name, 15) =~= name);
    law_trimming_takes_the_blanks_around(Seq::empty(), name, Seq::empty());
    assert(Seq::<char>::empty() + name + Seq::<char>::empty() =~= name);
}

/// Whatever a player is called, the name that is shown takes up at most fifteen bytes and holds
/// nothing that cannot be shown.
pub proof fn law_shown_names_fit_and_can_be_shown(u: DiscordUser)
    ensures
        utf8::encode_utf8(auth::shown_name(u)).len() <= 15,
        all_showable(auth::shown_name(u)),
{
    let raw = auth::raw_name(u);
    let first = chat::first_chars(chat::printable(u.username@), 10);
    lemma_part(chat::printable(raw), 15);
    lemma_part(first, 15);
    chat::lemma_printable(raw);
    chat::lemma_printable(u.username@);
    let shown = auth::shown_name(u);
    assert forall|i: int| 0 <= i < shown.len() implies !unshowable(#[trigger] shown[i]) by {
        let cleaned = text::within_bytes(chat::printable(raw), 15);
        if shown == cleaned {
            assert(shown[i] == chat::printable(raw)[i]);
            assert(!text::is_control(chat::printable(raw)[i]));
        } else {
            assert(shown[i] == first[i]);
            assert(first[i] == chat::printable(u.username@)[i]);
            assert(!text::is_control(chat::printable(u.username@)[i]));
        }
    }
}

proof fn lemma_part(s: Seq<char>, n: nat)
    ensures
        text::within_bytes(s, n).is_prefix_of(s),
        utf8::encode_utf8(text::within_bytes(s, n)).len() <= n,
{
    text::lemma_within_bytes_fits(s, n);
}

/// A role is found by its name, in letters of either case, and the first one of that name; none is
/// found only where there is none of that name.
pub proof fn law_roles_are_found_by_name(roles: Seq<GuildRole>, name: Seq<char>)
    ensures
        match auth::role_from(roles, name, 0) {
            Some(i) => {
                &&& 0 <= i < roles.len()
                &&& text::same_ignoring_case(roles[i].name@, name)
                &&& forall|k: int|
                    0 <= k < i ==> !text::same_ignoring_case((#[trigger] roles[k]).name@, name)
            },
            None => forall|k: int|
                0 <= k < roles.len() ==> !text::same_ignoring_case(
                    (#[trigger] roles[k]).name@,
                    name,
                ),
        },
{
    lemma_role(roles, name, 0);
}

proof fn lemma_role(roles: Seq<GuildRole>, name: Seq<char>, i: int)
    requires
        0 <= i,
    ensures
        match auth::role_from(roles, name, i) {
            Some(j) => {
                &&& i <= j < roles.len()
                &&& text::same_ignoring_case(roles[j].name@, name)
                &&& forall|k: int|
                    i <= k < j ==> !text::same_ignoring_case((#[trigger] roles[k]).name@, name)
            },
            None => forall|k: int|
                i <= k < roles.len() ==> !text::same_ignoring_case(
                    (#[trigger] roles[k]).name@,
                    name,
                ),
        },
    decreases roles.len() - i,
{
    if i < roles.len() && !text::same_ignoring_case(roles[i].name@, name) {
        lemma_role(roles, name, i + 1);
    }
}

// ---------------------------------------------------------------------------------------------
// Pages
// ---------------------------------------------------------------------------------------------

proof fn lemma_escape_parts(a: Seq<char>, b: Seq<char>)
    ensures
        http::escape(a + b) == http::escape(a) + http::escape(b),
    decreases b.len(),
{
    if b.len() == 0 {
        assert(a + b =~= a);
        assert(http::escape(a) + http::escape(b) =~= http::escape(a));
    } else {
        assert((a + b).drop_last() =~= a + b.drop_last());
        lemma_escape_parts(a, b.drop_last());
        assert(http::escape(a + b) =~= http::escape(a) + http::escape(b));
    }
}

/// A text is escaped character by character: each of the four that mean something in a page is named,
/// and every other one stays as it is.
pub proof fn law_each_character_is_escaped_by_itself(a: Seq<char>, c: char, b: Seq<char>)
    ensures
        http::escape(a + seq![c] + b) == http::escape(a) + http::escape(seq![c]) + http::escape(b),
        http::escape(Seq::empty()).len() == 0,
        http::escape(seq!['&']) == "&amp;"@,
        http::escape(seq!['<']) == "&lt;"@,
        http::escape(seq!['>']) == "&gt;"@,
        http::escape(seq!['"']) == "&quot;"@,
        c != '&' && c != '<' && c != '>' && c != '"' ==> http::escape(seq![c]) == seq![c],
{
    lemma_escape_parts(a + seq![c], b);
    lemma_escape_parts(a, seq![c]);
    lemma_one(c);
    lemma_one('&');
    lemma_one('<');
    lemma_one('>');
    lemma_one('"');
}

proof fn lemma_one(c: char)
    ensures
        http::escape(seq![c]) == http::escape_char(c),
{
    assert(seq![c].drop_last() =~= Seq::<char>::empty());
    assert(http::escape(Seq::<char>::empty()) =~= Seq::<char>::empty());
    assert(Seq::<char>::empty() + http::escape_char(c) =~= http::escape_char(c));
}

/// A cell of a table.
pub open spec fn cell(said: Seq<char>) -> Seq<char> {
    "<td>"@ + said + "</td>"@
}

/// The row of a trainer has a cell for the rank, the name, the combat level, the badges, the Pokedex
/// and the hours, in this order, the name escaped.
pub proof fn law_rows_have_a_cell_for_each_column(r: LadderRow)
    ensures
        http::row_of(r) == "<tr><td class=\"rank\">"@ + text::dec(r.rank as nat) + "</td>"@ + cell(
            http::escape(r.name@),
        ) + cell(text::dec(r.combat_level as nat)) + cell(text::dec(r.badges as nat)) + cell(
            text::dec(r.pokedex_caught as nat),
        ) + cell(text::dec(r.play_hours as nat)) + "</tr>"@,
{
    reveal_strlit("</td><td>");
    reveal_strlit("</td></tr>");
    reveal_strlit("<td>");
    reveal_strlit("</td>");
    reveal_strlit("</tr>");
    assert("</td><td>"@ =~= "</td>"@ + "<td>"@);
    assert("</td></tr>"@ =~= "</td>"@ + "</tr>"@);
    assert(http::row_of(r) =~= "<tr><td class=\"rank\">"@ + text::dec(r.rank as nat) + "</td>"@
        + cell(http::escape(r.name@)) + cell(text::dec(r.combat_level as nat)) + cell(
        text::dec(r.badges as nat),
    ) + cell(text::dec(r.pokedex_caught as nat)) + cell(text::dec(r.play_hours as nat)) + "</tr>"@);
}

proof fn lemma_rows_parts(a: Seq<LadderRow>, b: Seq<LadderRow>)
    ensures
        http::rows_of(a + b) == http::rows_of(a) + http::rows_of(b),
    decreases b.len(),
{
    if b.len() == 0 {
        assert(a + b =~= a);
        assert(http::rows_of(a) + http::rows_of(b) =~= http::rows_of(a));
    } else {
        assert((a + b).drop_last() =~= a + b.drop_last());
        lemma_rows_parts(a, b.drop_last());
        assert(http::rows_of(a + b) =~= http::rows_of(a) + http::rows_of(b));
    }
}

/// Every trainer of a ladder has a row, and the rows stand in the order of the ladder.
pub proof fn law_every_trainer_has_a_row(a: Seq<LadderRow>, r: LadderRow, b: Seq<LadderRow>)
    ensures
        http::rows_of(a + seq![r] + b) == http::rows_of(a) + http::row_of(r) + http::rows_of(b),
{
    lemma_rows_parts(a + seq![r], b);
    lemma_rows_parts(a, seq![r]);
    assert(seq![r].drop_last() =~= Seq::<LadderRow>::empty());
    assert(http::rows_of(Seq::<LadderRow>::empty()) =~= Seq::<char>::empty());
    assert(http::rows_of(seq![r]) =~= http::row_of(r));
}

// ---------------------------------------------------------------------------------------------
// Rows
// ---------------------------------------------------------------------------------------------

/// The places that get a row are those whose record was decoded, each once, in the order of the
/// party.
pub proof fn law_decoded_records_get_a_row(party: Seq<PartyMon>, i: int)
    requires
        0 <= i < party.len() <= usize::MAX,
    ensures
        ({
            let rows = db::stored_places(party, party.len());
            &&& party[i].checksum_ok <==> rows.contains(i as usize)
            &&& forall|a: int, b: int| 0 <= a < b < rows.len() ==> rows[a] < rows[b]
        }),
{
    lemma_rows(party, party.len(), i);
}

proof fn lemma_rows(party: Seq<PartyMon>, n: nat, i: int)
    requires
        n <= party.len() <= usize::MAX,
        0 <= i < party.len(),
    ensures
        ({
            let rows = db::stored_places(party, n);
            &&& party[i].checksum_ok && i < n <==> rows.contains(i as usize)
            &&& forall|a: int| 0 <= a < rows.len() ==> (#[trigger] rows[a]) < n
            &&& forall|a: int, b: int| 0 <= a < b < rows.len() ==> rows[a] < rows[b]
        }),
    decreases n,
{
    if n > 0 {
        lemma_rows(party, (n - 1) as nat, i);
        let less = db::stored_places(party, (n - 1) as nat);
        let rows = db::stored_places(party, n);
        if party[n - 1].checksum_ok {
            assert(rows[rows.len() - 1] == n - 1);
            assert forall|x: usize| rows.contains(x) <==> less.contains(x) || x == n - 1 by {
                if less.contains(x) {
                    let k = choose|k: int| 0 <= k < less.len() && less[k] == x;
                    assert(rows[k] == x);
                }
            }
        }
    }
}

/// The variables of the story are stored two bytes each, in order, the low byte first.
pub proof fn law_variables_are_stored_in_order(vars: Seq<u16>, i: int)
    requires
        0 <= i < vars.len(),
    ensures
        db::vars_bytes(vars).len() == 2 * vars.len(),
        num(db::vars_bytes(vars), 2 * i, 2) == vars[i],
    decreases vars.len(),
{
    let less = vars.drop_last();
    let all = db::vars_bytes(vars);
    lemma_vars(less);
    reveal_with_fuel(num, 3);
    if i < less.len() {
        law_variables_are_stored_in_order(less, i);
        assert(all[2 * i] == db::vars_bytes(less)[2 * i]);
        assert(all[2 * i + 1] == db::vars_bytes(less)[2 * i + 1]);
    } else {
        assert(all[2 * i] == bytes::bytes16(vars[i])[0]);
        assert(all[2 * i + 1] == bytes::bytes16(vars[i])[1]);
    }
}

proof fn lemma_vars(vars: Seq<u16>)
    ensures
        db::vars_bytes(vars).len() == 2 * vars.len(),
    decreases vars.len(),
{
    if vars.len() > 0 {
        lemma_vars(vars.drop_last());
    }
}

/// A count that a client can be shown is shown as it is, and one below zero as none.
pub proof fn law_counts_are_shown_as_they_are(n: int)
    ensures
        0 <= n < 0x1_0000_0000 ==> db::shown_count(n) == n,
        n < 0 ==> db::shown_count(n) == 0,
{
}

} // verus!
