//! Bridge between in-game chat and an IRC channel.
//!
//! A single relay bot joins the configured channel. In-game global chat is echoed to IRC and IRC
//! channel traffic is injected back into the game.

use crate::proto::quic::ChatTarget;
use crate::text;
use vstd::prelude::*;

verus! {

/// How long registration may take, in seconds.
pub const REGISTER_DEADLINE_S: u64 = 30;

/// The line that an in-game message becomes in the IRC channel, if it crosses the bridge.
///
/// Only global chat does. Local chat is map-scoped and would be noise, and private messages must
/// not be echoed into a public channel.
pub fn relay_to_irc(from: &str, target: &ChatTarget, said: &str) -> (r: Option<String>)
    ensures
        match r {
            Some(line) => target is Global && line@ == "<"@ + from@ + "> "@ + said@,
            None => !(target is Global),
        },
{
    match target {
        ChatTarget::Global => {
            let mut s = "<".to_owned();
            text::push_text(&mut s, from);
            text::push_text(&mut s, "> ");
            text::push_text(&mut s, said);
            Some(s)
        },
        _ => None,
    }
}

/// Whether the daemon is another process on this machine, whose certificate need not be known.
pub fn is_loopback(host: &str) -> (r: bool)
    ensures
        r == (host@ == "127.0.0.1"@ || host@ == "::1"@ || host@ == "localhost"@),
{
    text::is_text(host, "127.0.0.1") || text::is_text(host, "::1") || text::is_text(
        host,
        "localhost",
    )
}

/// How long to wait after an attempt, and how long after the next: a connection that closed
/// cleanly starts over at two seconds, and each wait is twice the last, up to a minute.
pub fn backoff(wait: u64, closed: bool) -> (r: (u64, u64))
    requires
        wait <= 60,
    ensures
        r.0 == (if closed {
            2
        } else {
            wait
        }),
        r.1 == (if r.0 * 2 <= 60 {
            (r.0 * 2) as u64
        } else {
            60
        }),
{
    let now: u64 = if closed {
        2
    } else {
        wait
    };
    let next: u64 = now * 2;
    if next <= 60 {
        (now, next)
    } else {
        (now, 60)
    }
}

// ---------------------------------------------------------------------------------------------
// Lines
// ---------------------------------------------------------------------------------------------

/// What stands before the first exclamation mark.
pub open spec fn nick_of(prefix: Seq<char>) -> Seq<char> {
    match text::index_from(prefix, '!', 0) {
        Some(k) => prefix.subrange(0, k),
        None => prefix,
    }
}

/// Sender, target and text of `:nick!user@host PRIVMSG #chan :message`.
pub open spec fn privmsg_of(line: Seq<char>) -> Option<(Seq<char>, Seq<char>, Seq<char>)> {
    if !(line.len() > 0 && line[0] == ':') {
        None
    } else {
        let rest = line.drop_first();
        match text::index_from(rest, ' ', 0) {
            None => None,
            Some(k) => {
                let command = rest.subrange(k + 1, rest.len() as int);
                if !text::has_at(command, "PRIVMSG "@, 0) {
                    None
                } else {
                    let args = command.subrange(8, command.len() as int);
                    match text::text_from(args, " :"@, 0) {
                        None => None,
                        Some(j) => Some(
                            (
                                nick_of(rest.subrange(0, k)),
                                args.subrange(0, j),
                                args.subrange(j + 2, args.len() as int),
                            ),
                        ),
                    }
                }
            },
        }
    }
}

/// Pulls sender, target and text out of `:nick!user@host PRIVMSG #chan :message`.
pub fn parse_privmsg(line: &str) -> (r: Option<(String, String, String)>)
    ensures
        match r {
            Some((sender, target, said)) => privmsg_of(line@) == Some(
                (sender@, target@, said@),
            ),
            None => privmsg_of(line@) is None,
        },
{
    proof {
        reveal_strlit("PRIVMSG ");
        reveal_strlit(" :");
    }
    let cs: Vec<char> = text::chars_of(line);
    if cs.len() == 0 || cs[0] != ':' {
        return None;
    }
    let rest: &[char] = text::part(&cs, 1, cs.len());
    assert(rest@ =~= line@.drop_first());
    let k: usize = match text::find_char(rest, ' ') {
        Some(k) => k,
        None => {
            return None;
        },
    };
    let prefix: &[char] = text::part(rest, 0, k);
    let command: &[char] = text::part(rest, k + 1, rest.len());
    if !text::starts_with(command, "PRIVMSG ") {
        return None;
    }
    let args: &[char] = text::part(command, 8, command.len());
    let j: usize = match text::find_text(args, " :") {
        Some(j) => j,
        None => {
            return None;
        },
    };
    let sender: String = match text::find_char(prefix, '!') {
        Some(n) => text::string_of(text::part(prefix, 0, n)),
        None => text::string_of(prefix),
    };
    Some(
        (
            sender,
            text::string_of(text::part(args, 0, j)),
            text::string_of(text::part(args, j + 2, args.len())),
        ),
    )
}

// ---------------------------------------------------------------------------------------------
// A connection
// ---------------------------------------------------------------------------------------------

/// Where a connection to the daemon stands.
pub struct Bridge {
    /// The nick can change if the server says it is taken.
    pub nick: String,
    pub joined: bool,
    /// A heartbeat was sent, and nothing has arrived since.
    pub awaiting_pong: bool,
}

/// What is to be done about a line.
pub enum LineStep {
    Nothing,
    Write(String),
    /// A line for the game.
    Inject { sender: String, text: String },
}

/// What a heartbeat comes to.
pub enum Beat {
    Write(String),
    /// Registration did not complete in time.
    Unregistered,
    /// A heartbeat went unanswered: the link is dead.
    Silent,
}

/// A line ends like this on the wire.
pub open spec fn wire(s: Seq<char>) -> Seq<char> {
    s + "\r\n"@
}

/// The line contains this text.
pub open spec fn contains_text(line: Seq<char>, p: Seq<char>) -> bool {
    text::text_from(line, p, 0) is Some
}

/// The line is a message for the game: from someone else, in the bridged channel.
pub open spec fn for_game(line: Seq<char>, nick: Seq<char>, channel: Seq<char>) -> bool {
    match privmsg_of(line) {
        Some((sender, target, said)) => sender != nick && text::same_ignoring_case(target, channel),
        None => false,
    }
}

impl Bridge {
    /// A connection that was just opened.
    pub fn new() -> (r: Self)
        ensures
            r.nick@ == "PokePlanet"@,
            !r.joined,
            !r.awaiting_pong,
    {
        Bridge { nick: "PokePlanet".to_owned(), joined: false, awaiting_pong: false }
    }

    /// What is said first.
    pub fn registration(&self) -> (r: String)
        ensures
            r@ == "NICK "@ + self.nick@ + "\r\nUSER pokeplanet 0 * :PokePlanet game bridge\r\n"@,
    {
        let mut s = "NICK ".to_owned();
        text::push_text(&mut s, &self.nick);
        text::push_text(&mut s, "\r\nUSER pokeplanet 0 * :PokePlanet game bridge\r\n");
        s
    }

    /// Decides what to do about a line. Any line proves the link alive. A ping is answered; a nick
    /// that is taken is varied and tried again; a welcome is followed by joining the channel; and
    /// a message in the channel from someone else goes to the game.
    pub fn line(&mut self, line: &str, channel: &str) -> (r: LineStep)
        ensures
            !final(self).awaiting_pong,
            if text::has_at(line@, "PING "@, 0) {
                &&& r matches LineStep::Write(s) && s@ == wire(
                    "PONG "@ + line@.subrange(5, line@.len() as int),
                )
                &&& final(self).nick@ == old(self).nick@
                &&& final(self).joined == old(self).joined
            } else if contains_text(line@, " 433 "@) {
                &&& final(self).nick@ == old(self).nick@.push('_')
                &&& r matches LineStep::Write(s) && s@ == wire("NICK "@ + final(self).nick@)
                &&& final(self).joined == old(self).joined
            } else if !old(self).joined && contains_text(line@, " 001 "@) {
                &&& r matches LineStep::Write(s) && s@ == wire("JOIN "@ + channel@)
                &&& final(self).joined
                &&& final(self).nick@ == old(self).nick@
            } else {
                &&& final(self).nick@ == old(self).nick@
                &&& final(self).joined == old(self).joined
                &&& if for_game(line@, old(self).nick@, channel@) {
                    r matches LineStep::Inject { sender, text } && sender@ == (privmsg_of(
                        line@,
                    )->0).0 && text@ == (privmsg_of(line@)->0).2
                } else {
                    r is Nothing
                }
            },
    {
        proof {
            reveal_strlit("PING ");
        }
        self.awaiting_pong = false;
        let cs: Vec<char> = text::chars_of(line);
        if text::starts_with(&cs, "PING ") {
            let mut s = "PONG ".to_owned();
            let payload: String = text::string_of(text::part(&cs, 5, cs.len()));
            text::push_text(&mut s, &payload);
            text::push_text(&mut s, "\r\n");
            return LineStep::Write(s);
        }
        if text::find_text(&cs, " 433 ").is_some() {
            self.nick.push('_');
            let mut s = "NICK ".to_owned();
            text::push_text(&mut s, &self.nick);
            text::push_text(&mut s, "\r\n");
            return LineStep::Write(s);
        }
        if !self.joined && text::find_text(&cs, " 001 ").is_some() {
            self.joined = true;
            let mut s = "JOIN ".to_owned();
            text::push_text(&mut s, channel);
            text::push_text(&mut s, "\r\n");
            return LineStep::Write(s);
        }
        match parse_privmsg(line) {
            Some((sender, target, said)) => {
                // Our own echoes, and anything outside the bridged channel, are ignored.
                if !text::is_text(&sender, &self.nick) && text::eq_ignoring_case(&target, channel) {
                    LineStep::Inject { sender, text: said }
                } else {
                    LineStep::Nothing
                }
            },
            None => LineStep::Nothing,
        }
    }

    /// What is written for a message out of the game; nothing before the channel was joined.
    pub fn outbound(&self, msg: &str, channel: &str) -> (r: Option<String>)
        ensures
            match r {
                Some(s) => self.joined && s@ == wire("PRIVMSG "@ + channel@ + " :"@ + msg@),
                None => !self.joined,
            },
    {
        if !self.joined {
            return None;
        }
        let mut s = "PRIVMSG ".to_owned();
        text::push_text(&mut s, channel);
        text::push_text(&mut s, " :");
        text::push_text(&mut s, msg);
        text::push_text(&mut s, "\r\n");
        Some(s)
    }

    /// Sends a ping when the link has been quiet, and gives up if the last one was not answered
    /// or if registration takes too long.
    pub fn heartbeat(&mut self, elapsed_s: u64) -> (r: Beat)
        ensures
            final(self).nick@ == old(self).nick@,
            final(self).joined == old(self).joined,
            if !old(self).joined && elapsed_s >= REGISTER_DEADLINE_S {
                r is Unregistered && final(self).awaiting_pong == old(self).awaiting_pong
            } else if old(self).awaiting_pong {
                r is Silent && final(self).awaiting_pong
            } else {
                &&& r matches Beat::Write(s) && s@ == "PING :pokeplanet-keepalive\r\n"@
                &&& final(self).awaiting_pong
            },
    {
        if !self.joined && elapsed_s >= REGISTER_DEADLINE_S {
            return Beat::Unregistered;
        }
        if self.awaiting_pong {
            return Beat::Silent;
        }
        self.awaiting_pong = true;
        Beat::Write("PING :pokeplanet-keepalive\r\n".to_owned())
    }
}

} // verus!
