//! Runtime configuration, all from the environment.

use super::auth;
use crate::text;
use vstd::prelude::*;
use vstd::utf8;

verus! {

/// What the server is configured with.
pub struct Config {
    pub quic_addr: String,
    pub http_addr: String,
    pub cert_chain: String,
    pub private_key: String,
    pub database_url: String,
    /// Externally reachable base URL, used to build the Discord redirect.
    pub public_url: String,
    pub discord_client_id: String,
    pub discord_client_secret: String,
    pub discord_bot_token: Option<String>,
    pub discord_guild_id: Option<String>,
    /// Role granted to a player on first successful login.
    pub discord_role_name: String,
    pub irc_host: String,
    pub irc_port: u16,
    pub irc_channel: String,
    pub irc_enabled: bool,
}

/// The variables of the environment that are read, each where it is set.
pub struct Vars {
    pub quic_addr: Option<String>,
    pub http_addr: Option<String>,
    pub cert_chain: Option<String>,
    pub private_key: Option<String>,
    pub database_url: Option<String>,
    pub public_url: Option<String>,
    pub discord_client_id: Option<String>,
    pub discord_client_secret: Option<String>,
    pub discord_bot_token: Option<String>,
    pub discord_guild_id: Option<String>,
    pub discord_role_name: Option<String>,
    pub irc_host: Option<String>,
    pub irc_port: Option<String>,
    pub irc_channel: Option<String>,
    pub irc_enabled: Option<String>,
}

/// Why the environment does not configure the server.
#[derive(Debug, Clone, Copy, PartialEq, Eq, Structural)]
pub enum ConfigError {
    NoClientId,
    NoClientSecret,
    BadPort,
}

impl ConfigError {
    /// What is reported.
    pub fn message(&self) -> (r: String)
        ensures
            r@ == (match *self {
                ConfigError::NoClientId => "DISCORD_CLIENT_ID must be set"@,
                ConfigError::NoClientSecret => "DISCORD_CLIENT_SECRET must be set"@,
                ConfigError::BadPort => "POKEPLANET_IRC_PORT is not a port"@,
            }),
    {
        match *self {
            ConfigError::NoClientId => "DISCORD_CLIENT_ID must be set".to_owned(),
            ConfigError::NoClientSecret => "DISCORD_CLIENT_SECRET must be set".to_owned(),
            ConfigError::BadPort => "POKEPLANET_IRC_PORT is not a port".to_owned(),
        }
    }
}

/// A variable, or what stands for it where it is not set.
pub open spec fn set_or(v: Option<String>, fallback: Seq<char>) -> Seq<char> {
    match v {
        Some(s) => s@,
        None => fallback,
    }
}

/// A variable that counts as set only where it is not empty.
pub open spec fn set_and_filled(v: Option<String>) -> Option<Seq<char>> {
    match v {
        Some(s) => if s@.len() > 0 {
            Some(s@)
        } else {
            None
        },
        None => None,
    }
}

/// The text in an optional string.
pub open spec fn opt_text(v: Option<String>) -> Option<Seq<char>> {
    match v {
        Some(s) => Some(s@),
        None => None,
    }
}

fn var_or(v: Option<String>, fallback: &str) -> (r: String)
    ensures
        r@ == set_or(v, fallback@),
{
    match v {
        Some(s) => s,
        None => fallback.to_owned(),
    }
}

fn opt(v: Option<String>) -> (r: Option<String>)
    ensures
        opt_text(r) == set_and_filled(v),
{
    match v {
        Some(s) => if s.as_str().is_empty() {
            None
        } else {
            Some(s)
        },
        None => None,
    }
}

/// What stands against these variables.
pub open spec fn config_error(v: Vars) -> Option<ConfigError> {
    if v.discord_client_id is None {
        Some(ConfigError::NoClientId)
    } else if v.discord_client_secret is None {
        Some(ConfigError::NoClientSecret)
    } else if text::unsigned_of(set_or(v.irc_port, "6697"@), 65535) is None {
        Some(ConfigError::BadPort)
    } else {
        None
    }
}

/// The configuration is the one that these variables give.
pub open spec fn configured(c: Config, v: Vars) -> bool {
    &&& c.quic_addr@ == set_or(v.quic_addr, "0.0.0.0:4433"@)
    &&& c.http_addr@ == set_or(v.http_addr, "127.0.0.1:8790"@)
    &&& c.cert_chain@ == set_or(v.cert_chain, "/etc/letsencrypt/live/obby.ca/fullchain.pem"@)
    &&& c.private_key@ == set_or(v.private_key, "/etc/letsencrypt/live/obby.ca/privkey.pem"@)
    &&& c.database_url@ == set_or(
        v.database_url,
        "postgres://pokeplanet@%2Frun%2Fpostgresql/pokeplanet"@,
    )
    &&& c.public_url@ == set_or(v.public_url, "https://pokeplanet.obby.ca"@)
    &&& c.discord_client_id@ == v.discord_client_id->0@
    &&& c.discord_client_secret@ == v.discord_client_secret->0@
    &&& opt_text(c.discord_bot_token) == set_and_filled(v.discord_bot_token)
    &&& opt_text(c.discord_guild_id) == set_and_filled(v.discord_guild_id)
    &&& c.discord_role_name@ == set_or(v.discord_role_name, "PokePlanet"@)
    &&& c.irc_host@ == set_or(v.irc_host, "127.0.0.1"@)
    &&& text::unsigned_of(set_or(v.irc_port, "6697"@), 65535) == Some(c.irc_port as nat)
    &&& c.irc_channel@ == set_or(v.irc_channel, "#pokeplanet"@)
    &&& c.irc_enabled == (set_or(v.irc_enabled, "1"@) != "0"@)
}

/// A text without the slashes after it.
pub open spec fn without_slashes(s: Seq<char>) -> Seq<char>
    decreases s.len(),
{
    if s.len() > 0 && s.last() == '/' {
        without_slashes(s.drop_last())
    } else {
        s
    }
}

fn cut_slashes(s: &str) -> (r: String)
    ensures
        r@ == without_slashes(s@),
{
    let cs: Vec<char> = text::chars_of(s);
    let mut n: usize = cs.len();
    assert(cs@.subrange(0, n as int) =~= cs@);
    while n > 0 && cs[n - 1] == '/'
        invariant
            cs@ == s@,
            n <= cs@.len(),
            without_slashes(s@) == without_slashes(cs@.subrange(0, n as int)),
        decreases n,
    {
        assert(cs@.subrange(0, n as int).drop_last() =~= cs@.subrange(0, n - 1));
        n = n - 1;
    }
    text::string_of(text::part(&cs, 0, n))
}

impl Config {
    /// Reads the configuration out of the environment.
    pub fn from_env(vars: Vars) -> (r: Result<Self, ConfigError>)
        ensures
            match r {
                Ok(c) => config_error(vars) is None && configured(c, vars),
                Err(e) => config_error(vars) == Some(e),
            },
    {
        let discord_client_id: String = match vars.discord_client_id {
            Some(s) => s,
            None => {
                return Err(ConfigError::NoClientId);
            },
        };
        let discord_client_secret: String = match vars.discord_client_secret {
            Some(s) => s,
            None => {
                return Err(ConfigError::NoClientSecret);
            },
        };
        let port: String = var_or(vars.irc_port, "6697");
        let irc_port: u16 = match text::parse_unsigned(&text::chars_of(&port), 65535) {
            Some(n) => n as u16,
            None => {
                return Err(ConfigError::BadPort);
            },
        };
        let enabled: String = var_or(vars.irc_enabled, "1");
        Ok(
            Config {
                quic_addr: var_or(vars.quic_addr, "0.0.0.0:4433"),
                http_addr: var_or(vars.http_addr, "127.0.0.1:8790"),
                cert_chain: var_or(
                    vars.cert_chain,
                    "/etc/letsencrypt/live/obby.ca/fullchain.pem",
                ),
                private_key: var_or(
                    vars.private_key,
                    "/etc/letsencrypt/live/obby.ca/privkey.pem",
                ),
                database_url: var_or(
                    vars.database_url,
                    "postgres://pokeplanet@%2Frun%2Fpostgresql/pokeplanet",
                ),
                public_url: var_or(vars.public_url, "https://pokeplanet.obby.ca"),
                discord_client_id,
                discord_client_secret,
                discord_bot_token: opt(vars.discord_bot_token),
                discord_guild_id: opt(vars.discord_guild_id),
                discord_role_name: var_or(vars.discord_role_name, "PokePlanet"),
                irc_host: var_or(vars.irc_host, "127.0.0.1"),
                irc_port,
                irc_channel: var_or(vars.irc_channel, "#pokeplanet"),
                irc_enabled: !text::is_text(&enabled, "0"),
            },
        )
    }

    /// Where Discord sends the player back to.
    pub fn redirect_uri(&self) -> (r: String)
        ensures
            r@ == redirect_of(self.public_url@),
    {
        let mut s = cut_slashes(&self.public_url);
        text::push_text(&mut s, "/auth/callback");
        s
    }

    /// Where the game sends the player to sign in.
    pub fn login_url(&self, ticket: &str) -> (r: String)
        ensures
            r@ == without_slashes(self.public_url@) + "/login?t="@ + auth::percent(
                utf8::encode_utf8(ticket@),
            ),
    {
        let mut s = cut_slashes(&self.public_url);
        text::push_text(&mut s, "/login?t=");
        text::push_text(&mut s, &auth::url_encode(ticket));
        s
    }
}

/// Where Discord sends the player back to.
pub open spec fn redirect_of(public_url: Seq<char>) -> Seq<char> {
    without_slashes(public_url) + "/auth/callback"@
}

} // verus!
