//! The pages of the browser half of the login, and of the ladders.

use super::quic::handshake;
use crate::text;
use vstd::prelude::*;

verus! {

// ---------------------------------------------------------------------------------------------
// Escaping
// ---------------------------------------------------------------------------------------------

/// A character as it stands in the text of a page.
pub open spec fn escape_char(c: char) -> Seq<char> {
    if c == '&' {
        "&amp;"@
    } else if c == '<' {
        "&lt;"@
    } else if c == '>' {
        "&gt;"@
    } else if c == '"' {
        "&quot;"@
    } else {
        seq![c]
    }
}

/// A text as it stands in a page.
pub open spec fn escape(s: Seq<char>) -> Seq<char>
    decreases s.len(),
{
    if s.len() == 0 {
        Seq::empty()
    } else {
        escape(s.drop_last()) + escape_char(s.last())
    }
}

/// A text as it stands in a page: nothing in it is taken for markup.
pub fn html_escape(s: &str) -> (r: String)
    ensures
        r@ == escape(s@),
{
    let cs: Vec<char> = text::chars_of(s);
    let mut out = String::new();
    let mut i: usize = 0;
    while i < cs.len()
        invariant
            cs@ == s@,
            i <= cs@.len(),
            out@ == escape(s@.subrange(0, i as int)),
        decreases cs@.len() - i,
    {
        let ghost before = out@;
        assert(s@.subrange(0, i + 1).drop_last() =~= s@.subrange(0, i as int));
        let c: char = cs[i];
        if c == '&' {
            text::push_text(&mut out, "&amp;");
        } else if c == '<' {
            text::push_text(&mut out, "&lt;");
        } else if c == '>' {
            text::push_text(&mut out, "&gt;");
        } else if c == '"' {
            text::push_text(&mut out, "&quot;");
        } else {
            out.push(c);
            assert(out@ =~= before + seq![c]);
        }
        i = i + 1;
    }
    assert(s@.subrange(0, i as int) =~= s@);
    out
}

/// No character of an escaped text opens or closes a tag or an attribute.
pub proof fn law_escaped_text_holds_no_markup(s: Seq<char>)
    ensures
        forall|i: int|
            0 <= i < escape(s).len() ==> {
                let c = #[trigger] escape(s)[i];
                c != '<' && c != '>' && c != '"'
            },
    decreases s.len(),
{
    if s.len() > 0 {
        law_escaped_text_holds_no_markup(s.drop_last());
        reveal_strlit("&amp;");
        reveal_strlit("&lt;");
        reveal_strlit("&gt;");
        reveal_strlit("&quot;");
        let rest = escape(s.drop_last());
        let last = escape_char(s.last());
        assert forall|i: int| 0 <= i < escape(s).len() implies {
            let c = #[trigger] escape(s)[i];
            c != '<' && c != '>' && c != '"'
        } by {
            if i < rest.len() {
                assert(escape(s)[i] == rest[i]);
            } else {
                assert(escape(s)[i] == last[i - rest.len()]);
            }
        }
    }
}

// ---------------------------------------------------------------------------------------------
// The shell
// ---------------------------------------------------------------------------------------------

/// The shell of every page, cut where a title, a colour or the body goes in.
pub const PAGE_0: &'static str = r#"<!doctype html>
<html lang="en"><head><meta charset="utf-8">
<meta name="viewport" content="width=device-width,initial-scale=1">
<title>"#;

pub const PAGE_1: &'static str = r#" &middot; PokePlanet</title>
<style>
  :root { color-scheme: dark; }
  * { box-sizing:border-box; }
  body { margin:0; min-height:100vh; font:16px/1.6 system-ui,sans-serif;
         background:"#;

pub const PAGE_2: &'static str = r#"; color:#e8f5ee; display:flex; flex-direction:column; }
  header { padding:1rem 1.5rem; border-bottom:1px solid #ffffff14; }
  header a.brand { color:"#;

pub const PAGE_3: &'static str = r#"; font-weight:700; text-decoration:none; letter-spacing:.02em; }
  main { width:100%; max-width:44rem; margin:0 auto; padding:2.5rem 1.5rem; flex:1; }
  footer { padding:1.25rem 1.5rem; border-top:1px solid #ffffff14; opacity:.5; font-size:.85rem; }
  h1 { font-size:1.6rem; margin:0 0 1rem; color:"#;

pub const PAGE_4: &'static str = r#"; }
  h2 { font-size:1.1rem; margin:0 0 .35rem; color:"#;

pub const PAGE_5: &'static str = r#"; }
  a { color:"#;

pub const PAGE_6: &'static str = r#"; }
  p { opacity:.9; }
  .lede { font-size:1.1rem; opacity:.95; }
  .online { color:"#;

pub const PAGE_7: &'static str = r#"; font-weight:600; }
  .nav { font-size:.9rem; opacity:.8; }
  .cards { display:grid; gap:1rem; grid-template-columns:1fr; margin-top:1.5rem; }
  @media (min-width:34rem) { .cards { grid-template-columns:1fr 1fr; } }
  .card { display:block; padding:1.25rem; border-radius:.75rem; background:"#;

pub const PAGE_8: &'static str = r#";
          border:1px solid #ffffff14; text-decoration:none; color:inherit; transition:border-color .15s; }
  .card:hover { border-color:"#;

pub const PAGE_9: &'static str = r#"; }
  .card.deadman h2 { color:#ff8a80; }
  .card p { margin:0; opacity:.75; font-size:.92rem; }
  table.ladder { width:100%; border-collapse:collapse; margin-top:1.25rem; }
  table.ladder th, table.ladder td { padding:.5rem .6rem; text-align:left; border-bottom:1px solid #ffffff12; }
  table.ladder th { color:"#;

pub const PAGE_10: &'static str = r#"; font-size:.8rem; text-transform:uppercase; letter-spacing:.04em; opacity:.8; }
  table.ladder td.rank { color:"#;

pub const PAGE_11: &'static str = r#"; font-variant-numeric:tabular-nums; font-weight:600; }
  table.ladder td.empty { text-align:center; opacity:.6; padding:2rem; }
</style></head>
<body>
<header><a class="brand" href="/">PokePlanet</a></header>
<main><h1>"#;

pub const PAGE_12: &'static str = r#"</h1>"#;

pub const PAGE_13: &'static str = r#"</main>
<footer>PokePlanet &middot; a server-authoritative Pokemon MMO</footer>
</body></html>"#;

/// The colours of a page: background, panel, accent, second accent.
pub open spec fn palette_of(deadman: Option<bool>) -> (Seq<char>, Seq<char>, Seq<char>, Seq<char>) {
    if deadman == Some(true) {
        ("#160a0a"@, "#20100f"@, "#ef5350"@, "#ff8a80"@)
    } else {
        ("#101a14"@, "#132018"@, "#6ee7a8"@, "#34d399"@)
    }
}

struct Palette {
    bg: &'static str,
    panel: &'static str,
    accent: &'static str,
    accent2: &'static str,
}

fn palette(deadman: Option<bool>) -> (r: Palette)
    ensures
        (r.bg@, r.panel@, r.accent@, r.accent2@) == palette_of(deadman),
{
    let red: bool = match deadman {
        Some(d) => d,
        None => false,
    };
    if red {
        Palette { bg: "#160a0a", panel: "#20100f", accent: "#ef5350", accent2: "#ff8a80" }
    } else {
        Palette { bg: "#101a14", panel: "#132018", accent: "#6ee7a8", accent2: "#34d399" }
    }
}

/// A page: the title escaped, the body as it is.
pub open spec fn page_of(title: Seq<char>, body: Seq<char>, deadman: Option<bool>) -> Seq<char> {
    let p = palette_of(deadman);
    PAGE_0@ + escape(title) + PAGE_1@ + p.0 + PAGE_2@ + p.2 + PAGE_3@ + p.2 + PAGE_4@ + p.3
        + PAGE_5@ + p.3 + PAGE_6@ + p.2 + PAGE_7@ + p.1 + PAGE_8@ + p.2 + PAGE_9@ + p.3 + PAGE_10@
        + p.2 + PAGE_11@ + escape(title) + PAGE_12@ + body + PAGE_13@
}

/// The shared site shell. `deadman` selects the palette: `Some(true)` the blood-red Deadman theme,
/// else the standard green. `body` is placed raw inside `<main>` (callers escape any user data),
/// so it may contain block markup like tables.
pub fn page(title: &str, body: &str, deadman: Option<bool>) -> (r: String)
    ensures
        r@ == page_of(title@, body@, deadman),
{
    let p = palette(deadman);
    let mut s = PAGE_0.to_owned();
    text::push_text(&mut s, &html_escape(title));
    text::push_text(&mut s, PAGE_1);
    text::push_text(&mut s, p.bg);
    text::push_text(&mut s, PAGE_2);
    text::push_text(&mut s, p.accent);
    text::push_text(&mut s, PAGE_3);
    text::push_text(&mut s, p.accent);
    text::push_text(&mut s, PAGE_4);
    text::push_text(&mut s, p.accent2);
    text::push_text(&mut s, PAGE_5);
    text::push_text(&mut s, p.accent2);
    text::push_text(&mut s, PAGE_6);
    text::push_text(&mut s, p.accent);
    text::push_text(&mut s, PAGE_7);
    text::push_text(&mut s, p.panel);
    text::push_text(&mut s, PAGE_8);
    text::push_text(&mut s, p.accent);
    text::push_text(&mut s, PAGE_9);
    text::push_text(&mut s, p.accent2);
    text::push_text(&mut s, PAGE_10);
    text::push_text(&mut s, p.accent);
    text::push_text(&mut s, PAGE_11);
    text::push_text(&mut s, &html_escape(title));
    text::push_text(&mut s, PAGE_12);
    text::push_text(&mut s, body);
    text::push_text(&mut s, PAGE_13);
    s
}

// ---------------------------------------------------------------------------------------------
// Home and health
// ---------------------------------------------------------------------------------------------

/// The landing page, cut where the count of who is online goes in.
pub const HOME_0: &'static str = r#"<p class="lede">A server-authoritative Pokemon MMO. Explore one world together --
or step into <strong>Deadman</strong>, where a fainted Pokemon dies forever, progress is capped to
your next gym, and everything you carry is on the line.</p>
<p class="online">"#;

pub const HOME_1: &'static str = r#" trainer"#;

pub const HOME_2: &'static str = r#" online right now.</p>
<div class="cards">
  <a class="card deadman" href="/ladder/deadman"><h2>Deadman ladder</h2><p>The survivors, by how far
they have pushed a life they can lose in an instant.</p></a>
  <a class="card normal" href="/ladder/normal"><h2>Standard ladder</h2><p>The trainers of the open
world, ranked by badges and Pokedex.</p></a>
</div>"#;

/// Whether the server is up, and how many are online.
pub fn health(online: usize) -> (r: String)
    ensures
        r@ == "ok, "@ + text::dec(online as nat) + " online\n"@,
{
    let mut s = "ok, ".to_owned();
    text::push_dec(&mut s, online as u64);
    text::push_text(&mut s, " online\n");
    s
}

/// The landing page: who's online, and the way into each world's ladder.
pub fn home(online: usize) -> (r: String)
    ensures
        r@ == page_of(
            "PokePlanet"@,
            HOME_0@ + text::dec(online as nat) + HOME_1@ + (if online == 1 {
                ""@
            } else {
                "s"@
            }) + HOME_2@,
            None,
        ),
{
    let mut body = HOME_0.to_owned();
    text::push_dec(&mut body, online as u64);
    text::push_text(&mut body, HOME_1);
    let plural: &str = if online == 1 {
        ""
    } else {
        "s"
    };
    text::push_text(&mut body, plural);
    text::push_text(&mut body, HOME_2);
    page("PokePlanet", &body, None)
}

// ---------------------------------------------------------------------------------------------
// Ladders
// ---------------------------------------------------------------------------------------------

/// One row of a ladder.
pub struct LadderRow {
    pub rank: u64,
    pub name: String,
    pub combat_level: u16,
    pub badges: u8,
    pub pokedex_caught: u16,
    pub play_hours: u64,
}

/// The parts of a ladder that are the same for everyone.
pub const LADDER_HEAD: &'static str = "<table class=\"ladder\"><thead><tr><th>#</th><th>Trainer</th><th>Combat</th><th>Badges</th><th>Pokedex</th><th>Hours</th></tr></thead><tbody>";

pub const LADDER_EMPTY: &'static str = "<tr><td colspan=\"6\" class=\"empty\">No one has set out in this world yet. Be the first.</td></tr>";

pub const DEADMAN_LEDE: &'static str = "Every name here is a life still going. Progress is capped to the next gym; a single death can end a run.";

pub const NORMAL_LEDE: &'static str = "The open world's trainers, by how far they've come.";

/// A row of a ladder as it stands in the table.
pub open spec fn row_of(r: LadderRow) -> Seq<char> {
    "<tr><td class=\"rank\">"@ + text::dec(r.rank as nat) + "</td><td>"@ + escape(r.name@)
        + "</td><td>"@ + text::dec(r.combat_level as nat) + "</td><td>"@ + text::dec(
        r.badges as nat,
    ) + "</td><td>"@ + text::dec(r.pokedex_caught as nat) + "</td><td>"@ + text::dec(
        r.play_hours as nat,
    ) + "</td></tr>"@
}

/// The rows of a ladder, one after the other.
pub open spec fn rows_of(rows: Seq<LadderRow>) -> Seq<char>
    decreases rows.len(),
{
    if rows.len() == 0 {
        Seq::empty()
    } else {
        rows_of(rows.drop_last()) + row_of(rows.last())
    }
}

/// A ladder as a table.
pub open spec fn table_of(rows: Seq<LadderRow>) -> Seq<char> {
    LADDER_HEAD@ + (if rows.len() == 0 {
        LADDER_EMPTY@
    } else {
        rows_of(rows)
    }) + "</tbody></table>"@
}

fn push_row(s: &mut String, r: &LadderRow)
    ensures
        final(s)@ == old(s)@ + row_of(*r),
{
    let ghost before = s@;
    text::push_text(s, "<tr><td class=\"rank\">");
    text::push_dec(s, r.rank);
    text::push_text(s, "</td><td>");
    text::push_text(s, &html_escape(&r.name));
    text::push_text(s, "</td><td>");
    text::push_dec(s, r.combat_level as u64);
    text::push_text(s, "</td><td>");
    text::push_dec(s, r.badges as u64);
    text::push_text(s, "</td><td>");
    text::push_dec(s, r.pokedex_caught as u64);
    text::push_text(s, "</td><td>");
    text::push_dec(s, r.play_hours);
    text::push_text(s, "</td></tr>");
    assert(s@ =~= before + row_of(*r));
}

fn table(rows: &Vec<LadderRow>) -> (r: String)
    ensures
        r@ == table_of(rows@),
{
    let mut s = LADDER_HEAD.to_owned();
    if rows.len() == 0 {
        text::push_text(&mut s, LADDER_EMPTY);
    }
    let ghost head = s@;
    let mut i: usize = 0;
    while i < rows.len()
        invariant
            i <= rows@.len(),
            s@ =~= head + rows_of(rows@.subrange(0, i as int)),
        decreases rows@.len() - i,
    {
        assert(rows@.subrange(0, i + 1).drop_last() =~= rows@.subrange(0, i as int));
        push_row(&mut s, &rows[i]);
        i = i + 1;
    }
    assert(rows@.subrange(0, i as int) =~= rows@);
    if rows.len() == 0 {
        assert(s@ =~= LADDER_HEAD@ + LADDER_EMPTY@);
    }
    text::push_text(&mut s, "</tbody></table>");
    s
}

/// The page of a world's ladder.
pub open spec fn ladder_of(deadman: bool, rows: Seq<LadderRow>) -> Seq<char> {
    let lede = if deadman { DEADMAN_LEDE@ } else { NORMAL_LEDE@ };
    let other = if deadman { "normal"@ } else { "deadman"@ };
    let link = if deadman { "standard ladder"@ } else { "deadman ladder"@ };
    let title = if deadman { "Deadman ladder"@ } else { "Standard ladder"@ };
    page_of(
        title,
        "<p class=\"lede\">"@ + lede
            + "</p><p class=\"nav\"><a href=\"/\">&larr; home</a> &middot; <a href=\"/ladder/"@
            + other + "\">"@ + link + "</a></p>"@ + table_of(rows),
        Some(deadman),
    )
}

/// A world's ladder: the top trainers by badges, Pokedex and time played. A name that is not one
/// of the two worlds stands for the open one.
pub fn ladder(mode: &str, rows: &Vec<LadderRow>) -> (r: String)
    ensures
        r@ == ladder_of(handshake::world_of(mode@) == "deadman"@, rows@),
{
    proof {
        reveal_strlit("deadman");
        reveal_strlit("normal");
    }
    let deadman = text::is_text(mode, "deadman");
    assert("deadman"@.len() != "normal"@.len());
    let mut body = "<p class=\"lede\">".to_owned();
    text::push_text(
        &mut body,
        if deadman {
            DEADMAN_LEDE
        } else {
            NORMAL_LEDE
        },
    );
    text::push_text(
        &mut body,
        "</p><p class=\"nav\"><a href=\"/\">&larr; home</a> &middot; <a href=\"/ladder/",
    );
    text::push_text(
        &mut body,
        if deadman {
            "normal"
        } else {
            "deadman"
        },
    );
    text::push_text(&mut body, "\">");
    text::push_text(
        &mut body,
        if deadman {
            "standard ladder"
        } else {
            "deadman ladder"
        },
    );
    text::push_text(&mut body, "</a></p>");
    text::push_text(&mut body, &table(rows));
    if deadman {
        page("Deadman ladder", &body, Some(true))
    } else {
        page("Standard ladder", &body, Some(false))
    }
}

/// What is shown where the ladder cannot be read.
pub fn ladder_failed() -> (r: String)
    ensures
        r@ == page_of(
            "Ladder"@,
            "<p>The ladder is having a moment. Try again shortly.</p>"@,
            None,
        ),
{
    page("Ladder", "<p>The ladder is having a moment. Try again shortly.</p>", None)
}

// ---------------------------------------------------------------------------------------------
// The end of a login
// ---------------------------------------------------------------------------------------------

/// What the browser came back from Discord with.
pub enum Callback {
    /// The player, or Discord, said no.
    Cancelled { error: String },
    /// The link lacks its code or its ticket.
    Incomplete,
    Proceed { code: String, ticket: String },
}

/// Decides what the browser came back with.
pub fn read_callback(code: Option<String>, state: Option<String>, error: Option<String>) -> (r:
    Callback)
    ensures
        match error {
            Some(e) => r == (Callback::Cancelled { error: e }),
            None => match (code, state) {
                (Some(c), Some(t)) => r == (Callback::Proceed { code: c, ticket: t }),
                _ => r is Incomplete,
            },
        },
{
    match error {
        Some(error) => Callback::Cancelled { error },
        None => match (code, state) {
            (Some(code), Some(ticket)) => Callback::Proceed { code, ticket },
            _ => Callback::Incomplete,
        },
    }
}

/// How a login ended.
pub enum LoginEnd {
    Cancelled { error: String },
    Incomplete,
    /// Discord did not confirm who the player is.
    Unverified,
    /// The account may not sign in.
    Refused,
    /// The game was told, and picks it up.
    Done { name: String },
    /// The ticket had expired.
    Expired,
    /// The login could not be stored.
    Failed,
}

/// What a login came to, once Discord was asked who the player is.
pub enum LoginEvent {
    /// Discord did not take the code, or could not be asked.
    ExchangeFailed,
    /// The account was not let in.
    Rejected,
    /// The ticket was looked for, to be completed for a character of this name.
    Ticket { name: String, found: bool },
    /// The ticket could not be written to.
    TicketFailed,
}

/// Decides how a login ends.
pub fn login_end(event: LoginEvent) -> (r: LoginEnd)
    ensures
        r == (match event {
            LoginEvent::ExchangeFailed => LoginEnd::Unverified,
            LoginEvent::Rejected => LoginEnd::Refused,
            LoginEvent::Ticket { name, found } => if found {
                LoginEnd::Done { name }
            } else {
                LoginEnd::Expired
            },
            LoginEvent::TicketFailed => LoginEnd::Failed,
        }),
{
    match event {
        LoginEvent::ExchangeFailed => LoginEnd::Unverified,
        LoginEvent::Rejected => LoginEnd::Refused,
        LoginEvent::Ticket { name, found } => if found {
            LoginEnd::Done { name }
        } else {
            LoginEnd::Expired
        },
        LoginEvent::TicketFailed => LoginEnd::Failed,
    }
}

/// The status that a login's end is answered with.
pub open spec fn status_of(end: LoginEnd) -> u16 {
    match end {
        LoginEnd::Cancelled { .. } => 200,
        LoginEnd::Incomplete => 400,
        LoginEnd::Unverified => 502,
        LoginEnd::Refused => 403,
        LoginEnd::Done { .. } => 200,
        LoginEnd::Expired => 410,
        LoginEnd::Failed => 500,
    }
}

/// The page that a login's end is answered with.
pub open spec fn login_page_of(end: LoginEnd) -> Seq<char> {
    match end {
        LoginEnd::Cancelled { error } => page_of(
            "Login cancelled"@,
            "<p>Discord said: "@ + escape(error@) + "</p>"@,
            None,
        ),
        LoginEnd::Incomplete => page_of(
            "Bad request"@,
            "<p>That login link is missing its code.</p>"@,
            None,
        ),
        LoginEnd::Unverified => page_of(
            "Discord error"@,
            "<p>Could not verify that login with Discord.</p>"@,
            None,
        ),
        LoginEnd::Refused => page_of(
            "Login refused"@,
            "<p>This account cannot sign in.</p>"@,
            None,
        ),
        LoginEnd::Done { name } => page_of(
            "You're signed in"@,
            "<p>Welcome, "@ + escape(name@)
                + ". Head back to PokePlanet &mdash; the game is already picking this up.</p>"@,
            None,
        ),
        LoginEnd::Expired => page_of(
            "Login expired"@,
            "<p>That login took too long. Start it again from the game.</p>"@,
            None,
        ),
        LoginEnd::Failed => page_of(
            "Server error"@,
            "<p>Something went wrong storing that login.</p>"@,
            None,
        ),
    }
}

/// Status and page that a login's end is answered with.
pub fn login_page(end: &LoginEnd) -> (r: (u16, String))
    ensures
        r.0 == status_of(*end),
        r.1@ == login_page_of(*end),
{
    match end {
        LoginEnd::Cancelled { error } => {
            let mut body = "<p>Discord said: ".to_owned();
            text::push_text(&mut body, &html_escape(error));
            text::push_text(&mut body, "</p>");
            (200, page("Login cancelled", &body, None))
        },
        LoginEnd::Incomplete => (
            400,
            page("Bad request", "<p>That login link is missing its code.</p>", None),
        ),
        LoginEnd::Unverified => (
            502,
            page("Discord error", "<p>Could not verify that login with Discord.</p>", None),
        ),
        LoginEnd::Refused => (403, page("Login refused", "<p>This account cannot sign in.</p>", None)),
        LoginEnd::Done { name } => {
            let mut body = "<p>Welcome, ".to_owned();
            text::push_text(&mut body, &html_escape(name));
            text::push_text(
                &mut body,
                ". Head back to PokePlanet &mdash; the game is already picking this up.</p>",
            );
            (200, page("You're signed in", &body, None))
        },
        LoginEnd::Expired => (
            410,
            page(
                "Login expired",
                "<p>That login took too long. Start it again from the game.</p>",
                None,
            ),
        ),
        LoginEnd::Failed => (
            500,
            page("Server error", "<p>Something went wrong storing that login.</p>", None),
        ),
    }
}

} // verus!
