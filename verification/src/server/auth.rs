//! Discord OAuth2, session tokens, and the guild role grant.

use super::chat;
use super::config;
use super::config::Config;
use crate::text;
use rand::Rng;
use vstd::prelude::*;
use vstd::utf8;

verus! {

/// The two overworld sprites a player can be: Brendan and May, the only overworld graphics with
/// complete frame sets. Players are told apart by colour rather than by sprite.
pub const PLAYER_SPRITES: [u8; 2] = [0, 89];

/// How long a random identifier is.
pub const TOKEN_LEN: usize = 40;

/// How many characters a random identifier is made of: the letters of both cases and the digits.
pub const ALPHABET_LEN: usize = 62;

// ---------------------------------------------------------------------------------------------
// Chance
// ---------------------------------------------------------------------------------------------

/// `rand::Rng::gen_range` on the generator of the thread: some number of the range `0 .. n`, which
/// must not be empty. Which one is left to chance.
#[verifier::external_body]
fn random_below(n: usize) -> (r: usize)
    requires
        n > 0,
    ensures
        r < n,
{
    rand::thread_rng().gen_range(0..n)
}

/// The sprite of a new character, for a number that was drawn.
pub fn sprite_of(drawn: usize) -> (r: u8)
    requires
        drawn < 2,
    ensures
        r == PLAYER_SPRITES@[drawn as int],
{
    PLAYER_SPRITES[drawn]
}

/// The sprite of a new character.
pub fn random_sprite() -> (r: u8)
    ensures
        PLAYER_SPRITES@.contains(r),
{
    let drawn: usize = random_below(2);
    let r: u8 = sprite_of(drawn);
    assert(PLAYER_SPRITES@[drawn as int] == r);
    r
}

/// The character of a random identifier that a number stands for.
pub open spec fn token_char(n: int) -> char {
    if n < 26 {
        (0x61 + n) as char
    } else if n < 52 {
        (0x41 + n - 26) as char
    } else {
        (0x30 + n - 52) as char
    }
}

/// A letter or a digit of ASCII.
pub open spec fn is_token_char(c: char) -> bool {
    0x61 <= c as u32 <= 0x7A || 0x41 <= c as u32 <= 0x5A || 0x30 <= c as u32 <= 0x39
}

/// The character of a random identifier that a number stands for.
pub fn token_char_of(n: usize) -> (r: char)
    requires
        n < 62,
    ensures
        r == token_char(n as int),
        is_token_char(r),
{
    if n < 26 {
        (0x61u8 + n as u8) as char
    } else if n < 52 {
        (0x41u8 + (n - 26) as u8) as char
    } else {
        (0x30u8 + (n - 52) as u8) as char
    }
}

/// The random identifier that these numbers stand for.
pub fn token_of(drawn: &[usize]) -> (r: String)
    requires
        forall|i: int| 0 <= i < drawn@.len() ==> #[trigger] drawn@[i] < 62,
    ensures
        r@ == Seq::new(drawn@.len(), |i: int| token_char(drawn@[i] as int)),
        forall|i: int| 0 <= i < r@.len() ==> is_token_char(#[trigger] r@[i]),
{
    let mut s = String::new();
    let mut i: usize = 0;
    while i < drawn.len()
        invariant
            i <= drawn@.len(),
            forall|k: int| 0 <= k < drawn@.len() ==> #[trigger] drawn@[k] < 62,
            s@ =~= Seq::new(i as nat, |k: int| token_char(drawn@[k] as int)),
            forall|k: int| 0 <= k < s@.len() ==> is_token_char(#[trigger] s@[k]),
        decreases drawn@.len() - i,
    {
        s.push(token_char_of(drawn[i]));
        i = i + 1;
    }
    s
}

/// URL-safe random identifier used for both login tickets and session tokens.
pub fn random_token() -> (r: String)
    ensures
        r@.len() == TOKEN_LEN,
        forall|i: int| 0 <= i < r@.len() ==> is_token_char(#[trigger] r@[i]),
{
    let mut drawn: Vec<usize> = Vec::new();
    while drawn.len() < TOKEN_LEN
        invariant
            drawn@.len() <= 40,
            forall|k: int| 0 <= k < drawn@.len() ==> #[trigger] drawn@[k] < 62,
        decreases 40 - drawn@.len(),
    {
        drawn.push(random_below(ALPHABET_LEN));
    }
    token_of(&drawn)
}

// ---------------------------------------------------------------------------------------------
// Addresses
// ---------------------------------------------------------------------------------------------

/// A byte that stands for itself in a URL: a letter, a digit, `-`, `.`, `_` or `~`.
pub open spec fn is_unreserved(b: u8) -> bool {
    ||| 0x30 <= b <= 0x39
    ||| 0x41 <= b <= 0x5A
    ||| 0x61 <= b <= 0x7A
    ||| b == 0x2D
    ||| b == 0x2E
    ||| b == 0x5F
    ||| b == 0x7E
}

/// An upper-case hexadecimal digit.
pub open spec fn hex_digit(d: int) -> char {
    if d < 10 {
        (0x30 + d) as char
    } else {
        (0x41 + d - 10) as char
    }
}

/// Bytes as they stand in a URL: what is not unreserved is a per cent sign and two digits.
pub open spec fn percent(b: Seq<u8>) -> Seq<char>
    decreases b.len(),
{
    if b.len() == 0 {
        Seq::empty()
    } else if is_unreserved(b.last()) {
        percent(b.drop_last()).push(b.last() as char)
    } else {
        percent(b.drop_last()).push('%').push(hex_digit(b.last() as int / 16)).push(
            hex_digit(b.last() as int % 16),
        )
    }
}

/// `urlencoding::encode`: percent-encodes every byte of the text's UTF-8 except letters, digits
/// and `-`, `_`, `.`, `~`.
#[verifier::external_body]
pub(crate) fn url_encode(s: &str) -> (r: String)
    ensures
        r@ == percent(utf8::encode_utf8(s@)),
{
    urlencoding::encode(s).into_owned()
}

/// Where a player is sent to tell Discord who they are.
pub fn authorize_url(cfg: &Config, state: &str) -> (r: String)
    ensures
        r@ == "https://discord.com/api/oauth2/authorize?client_id="@ + percent(
            utf8::encode_utf8(cfg.discord_client_id@),
        ) + "&redirect_uri="@ + percent(
            utf8::encode_utf8(config::redirect_of(cfg.public_url@)),
        ) + "&response_type=code&scope=identify&state="@ + percent(utf8::encode_utf8(state@))
            + "&prompt=none"@,
{
    let mut s = "https://discord.com/api/oauth2/authorize?client_id=".to_owned();
    text::push_text(&mut s, &url_encode(&cfg.discord_client_id));
    text::push_text(&mut s, "&redirect_uri=");
    text::push_text(&mut s, &url_encode(&cfg.redirect_uri()));
    text::push_text(&mut s, "&response_type=code&scope=identify&state=");
    text::push_text(&mut s, &url_encode(state));
    text::push_text(&mut s, "&prompt=none");
    s
}

/// Where the roles of a guild are listed.
pub fn guild_roles_url(guild: &str) -> (r: String)
    ensures
        r@ == "https://discord.com/api/v10/guilds/"@ + guild@ + "/roles"@,
{
    let mut s = "https://discord.com/api/v10/guilds/".to_owned();
    text::push_text(&mut s, guild);
    text::push_text(&mut s, "/roles");
    s
}

/// Where a role is granted to a member of a guild.
pub fn grant_url(guild: &str, user: &str, role: &str) -> (r: String)
    ensures
        r@ == "https://discord.com/api/v10/guilds/"@ + guild@ + "/members/"@ + user@ + "/roles/"@
            + role@,
{
    let mut s = "https://discord.com/api/v10/guilds/".to_owned();
    text::push_text(&mut s, guild);
    text::push_text(&mut s, "/members/");
    text::push_text(&mut s, user);
    text::push_text(&mut s, "/roles/");
    text::push_text(&mut s, role);
    s
}

/// Every character of a percent-encoded text may stand in a query without a meaning of its own.
pub proof fn law_percent_encoding_is_url_safe(b: Seq<u8>)
    ensures
        forall|i: int|
            0 <= i < percent(b).len() ==> {
                let v = #[trigger] percent(b)[i] as u32;
                v == 0x25 || (v < 0x80 && is_unreserved(v as u8))
            },
    decreases b.len(),
{
    if b.len() > 0 {
        law_percent_encoding_is_url_safe(b.drop_last());
        let rest = percent(b.drop_last());
        assert forall|i: int| 0 <= i < percent(b).len() implies {
            let v = #[trigger] percent(b)[i] as u32;
            v == 0x25 || (v < 0x80 && is_unreserved(v as u8))
        } by {
            if i < rest.len() {
                assert(percent(b)[i] == rest[i]);
            }
        }
    }
}

// ---------------------------------------------------------------------------------------------
// Identities
// ---------------------------------------------------------------------------------------------

/// Who Discord says a player is.
pub struct DiscordUser {
    pub id: String,
    pub username: String,
    pub global_name: Option<String>,
}

/// The name that a player would like to be shown under.
pub open spec fn raw_name(u: DiscordUser) -> Seq<char> {
    match u.global_name {
        Some(name) => name@,
        None => u.username@,
    }
}

/// How many bytes of a name the game's field holds: it is of 16, and a zero ends the name.
pub const NAME_BYTES: usize = 15;

/// The name other players see: the raw name without control codes, cut to what the game's name
/// field holds; where nothing is left of it, the start of the user name, likewise.
pub open spec fn shown_name(u: DiscordUser) -> Seq<char> {
    let cleaned = text::within_bytes(chat::printable(raw_name(u)), NAME_BYTES as nat);
    if text::trim(cleaned).len() == 0 {
        text::within_bytes(
            chat::first_chars(chat::printable(u.username@), 10),
            NAME_BYTES as nat,
        )
    } else {
        cleaned
    }
}

impl DiscordUser {
    /// The name other players see. Capped to the game's 16-byte name field, and stripped of
    /// control characters so it can't corrupt the text renderer.
    pub fn display_name(&self) -> (r: String)
        ensures
            r@ == shown_name(*self),
            utf8::encode_utf8(r@).len() <= NAME_BYTES,
            forall|i: int| 0 <= i < r@.len() ==> !text::is_control(#[trigger] r@[i]),
    {
        let raw: &String = match &self.global_name {
            Some(name) => name,
            None => &self.username,
        };
        proof {
            let p = chat::printable(raw@);
            let q = chat::first_chars(chat::printable(self.username@), 10);
            chat::lemma_printable(raw@);
            chat::lemma_printable(self.username@);
            text::lemma_within_bytes_fits(p, NAME_BYTES as nat);
            text::lemma_within_bytes_fits(q, NAME_BYTES as nat);
        }
        let printable: Vec<char> = chat::strip(raw);
        let cleaned: &[char] = text::fitting(&printable, NAME_BYTES);
        if text::trimmed(cleaned).len() == 0 {
            text::string_of(text::fitting(&chat::clip(&self.username, 10), NAME_BYTES))
        } else {
            text::string_of(cleaned)
        }
    }
}

/// A role of a guild.
pub struct GuildRole {
    pub id: String,
    pub name: String,
}

/// The first role, from `i` on, with this name, but for the case of letters.
pub open spec fn role_from(roles: Seq<GuildRole>, name: Seq<char>, i: int) -> Option<int>
    decreases roles.len() - i,
{
    if i >= roles.len() {
        None
    } else if text::same_ignoring_case(roles[i].name@, name) {
        Some(i)
    } else {
        role_from(roles, name, i + 1)
    }
}

/// Which role is granted. Case-insensitive: role names are display strings that get renamed and
/// recapitalised.
pub fn find_role(roles: &[GuildRole], name: &str) -> (r: Option<usize>)
    ensures
        match r {
            Some(i) => i < roles@.len() && role_from(roles@, name@, 0) == Some(i as int),
            None => role_from(roles@, name@, 0) is None,
        },
{
    let mut i: usize = 0;
    while i < roles.len()
        invariant
            i <= roles@.len(),
            role_from(roles@, name@, 0) == role_from(roles@, name@, i as int),
        decreases roles@.len() - i,
    {
        if text::eq_ignoring_case(&roles[i].name, name) {
            return Some(i);
        }
        i = i + 1;
    }
    None
}

} // verus!
