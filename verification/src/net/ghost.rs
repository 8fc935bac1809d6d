//! A headless player: what its command line says, and how it walks.

use crate::net::settings;
use crate::net::settings::only_digits;
use crate::proto::{MapId, Pose};
use crate::text;
use vstd::prelude::*;

verus! {

/// How a headless player is set up.
#[derive(Debug, Clone)]
pub struct Options {
    pub token: String,
    pub host: String,
    pub port: u16,
    pub map: MapId,
    pub x: i16,
    pub y: i16,
    pub still: bool,
    /// Challenge this player a few seconds after signing in.
    pub challenge: Option<u32>,
    /// Say this in global chat shortly after signing in.
    pub say: Option<String>,
}

/// Why a command line is refused.
#[derive(Debug, Clone)]
pub enum OptionError {
    NeedsValue(String),
    MapFormat,
    AtFormat,
    /// This is not a number that fits where it stands.
    BadNumber(String),
    Unrecognised(String),
    NoToken,
}

/// `Options` as a value of the specification.
#[verifier::ext_equal]
pub struct OptionsView {
    pub token: Seq<char>,
    pub host: Seq<char>,
    pub port: u16,
    pub map: MapId,
    pub x: i16,
    pub y: i16,
    pub still: bool,
    pub challenge: Option<u32>,
    pub say: Option<Seq<char>>,
}

/// An `OptionError` as a value of the specification.
pub enum OptionErrorView {
    NeedsValue(Seq<char>),
    MapFormat,
    AtFormat,
    BadNumber(Seq<char>),
    Unrecognised(Seq<char>),
    NoToken,
}

impl View for Options {
    type V = OptionsView;

    open spec fn view(&self) -> OptionsView {
        OptionsView {
            token: self.token@,
            host: self.host@,
            port: self.port,
            map: self.map,
            x: self.x,
            y: self.y,
            still: self.still,
            challenge: self.challenge,
            say: match self.say {
                Some(s) => Some(s@),
                None => None,
            },
        }
    }
}

impl View for OptionError {
    type V = OptionErrorView;

    open spec fn view(&self) -> OptionErrorView {
        match *self {
            OptionError::NeedsValue(s) => OptionErrorView::NeedsValue(s@),
            OptionError::MapFormat => OptionErrorView::MapFormat,
            OptionError::AtFormat => OptionErrorView::AtFormat,
            OptionError::BadNumber(s) => OptionErrorView::BadNumber(s@),
            OptionError::Unrecognised(s) => OptionErrorView::Unrecognised(s@),
            OptionError::NoToken => OptionErrorView::NoToken,
        }
    }
}

impl OptionError {
    /// What is reported.
    pub fn message(&self) -> (r: String)
        ensures
            r@ == (match *self {
                OptionError::NeedsValue(s) => s@ + " needs a value"@,
                OptionError::MapFormat => "--map wants GROUP:NUM"@,
                OptionError::AtFormat => "--at wants X,Y"@,
                OptionError::BadNumber(s) => "not a number that fits: "@ + s@,
                OptionError::Unrecognised(s) => "unrecognised argument "@ + s@,
                OptionError::NoToken => "--token is required"@,
            }),
    {
        match self {
            OptionError::NeedsValue(s) => {
                let mut m = s.clone();
                text::push_text(&mut m, " needs a value");
                m
            },
            OptionError::MapFormat => "--map wants GROUP:NUM".to_owned(),
            OptionError::AtFormat => "--at wants X,Y".to_owned(),
            OptionError::BadNumber(s) => {
                let mut m = "not a number that fits: ".to_owned();
                text::push_text(&mut m, s);
                m
            },
            OptionError::Unrecognised(s) => {
                let mut m = "unrecognised argument ".to_owned();
                text::push_text(&mut m, s);
                m
            },
            OptionError::NoToken => "--token is required".to_owned(),
        }
    }
}

// ---------------------------------------------------------------------------------------------
// The command line
// ---------------------------------------------------------------------------------------------

/// What holds where nothing is set: Littleroot Town.
pub open spec fn defaults() -> OptionsView {
    OptionsView {
        token: Seq::empty(),
        host: "pokeplanet.obby.ca"@,
        port: 4433,
        map: MapId { group: 0, num: 9 },
        x: 17,
        y: 18,
        still: false,
        challenge: None,
        say: None,
    }
}

/// A text cut at the first such character, which belongs to neither part.
pub open spec fn cut_at(s: Seq<char>, c: char) -> Option<(Seq<char>, Seq<char>)> {
    match text::index_from(s, c, 0) {
        Some(k) => Some((s.subrange(0, k), s.subrange(k + 1, s.len() as int))),
        None => None,
    }
}

/// What names a server: "host" or "host:port". What follows the last colon is a port if it is
/// made of digits alone.
pub open spec fn with_server(o: OptionsView, value: Seq<char>) -> Result<
    OptionsView,
    OptionErrorView,
> {
    match text::last_index(value, ':', value.len()) {
        Some(k) => {
            let port = value.subrange(k + 1, value.len() as int);
            if !text::all_digits(port) {
                Ok(OptionsView { host: value, ..o })
            } else {
                match settings::port_of(port) {
                    Some(p) => Ok(OptionsView { host: value.subrange(0, k), port: p, ..o }),
                    None => Err(OptionErrorView::BadNumber(port)),
                }
            }
        },
        None => Ok(OptionsView { host: value, ..o }),
    }
}

/// What names a map: two numbers with a colon between them.
pub open spec fn with_map(o: OptionsView, value: Seq<char>) -> Result<
    OptionsView,
    OptionErrorView,
> {
    match cut_at(value, ':') {
        None => Err(OptionErrorView::MapFormat),
        Some((g, n)) => match (text::unsigned_of(g, 255), text::unsigned_of(n, 255)) {
            (None, _) => Err(OptionErrorView::BadNumber(g)),
            (_, None) => Err(OptionErrorView::BadNumber(n)),
            (Some(group), Some(num)) => Ok(
                OptionsView { map: MapId { group: group as u8, num: num as u8 }, ..o },
            ),
        },
    }
}

/// What names a tile: two numbers with a comma between them.
pub open spec fn with_tile(o: OptionsView, value: Seq<char>) -> Result<
    OptionsView,
    OptionErrorView,
> {
    match cut_at(value, ',') {
        None => Err(OptionErrorView::AtFormat),
        Some((x, y)) => match (text::signed_of(x, 32767), text::signed_of(y, 32767)) {
            (None, _) => Err(OptionErrorView::BadNumber(x)),
            (_, None) => Err(OptionErrorView::BadNumber(y)),
            (Some(x), Some(y)) => Ok(OptionsView { x: x as i16, y: y as i16, ..o }),
        },
    }
}

/// The option takes a value.
pub open spec fn takes_value(option: Seq<char>) -> bool {
    ||| option == "--token"@
    ||| option == "--server"@
    ||| option == "--map"@
    ||| option == "--at"@
    ||| option == "--challenge"@
    ||| option == "--say"@
}

/// What an option that takes a value comes to with this one.
pub open spec fn with_value(o: OptionsView, option: Seq<char>, value: Seq<char>) -> Result<
    OptionsView,
    OptionErrorView,
> {
    if option == "--token"@ {
        Ok(OptionsView { token: value, ..o })
    } else if option == "--server"@ {
        with_server(o, value)
    } else if option == "--map"@ {
        with_map(o, value)
    } else if option == "--at"@ {
        with_tile(o, value)
    } else if option == "--challenge"@ {
        match text::unsigned_of(value, 0xFFFF_FFFF) {
            Some(n) => Ok(OptionsView { challenge: Some(n as u32), ..o }),
            None => Err(OptionErrorView::BadNumber(value)),
        }
    } else {
        Ok(OptionsView { say: Some(value), ..o })
    }
}

/// What the arguments from `i` on come to.
pub open spec fn with_args(o: OptionsView, args: Seq<Seq<char>>, i: int) -> Result<
    OptionsView,
    OptionErrorView,
>
    decreases args.len() - i,
{
    if i >= args.len() {
        if o.token.len() == 0 {
            Err(OptionErrorView::NoToken)
        } else {
            Ok(o)
        }
    } else if takes_value(args[i]) {
        if i + 1 >= args.len() {
            Err(OptionErrorView::NeedsValue(args[i]))
        } else {
            match with_value(o, args[i], args[i + 1]) {
                Ok(next) => with_args(next, args, i + 2),
                Err(e) => Err(e),
            }
        }
    } else if args[i] == "--still"@ {
        with_args(OptionsView { still: true, ..o }, args, i + 1)
    } else {
        Err(OptionErrorView::Unrecognised(args[i]))
    }
}

/// A result, its parts taken by their views.
pub open spec fn result_view(r: Result<Options, OptionError>) -> Result<
    OptionsView,
    OptionErrorView,
> {
    match r {
        Ok(o) => Ok(o@),
        Err(e) => Err(e@),
    }
}

fn needs_value(option: &str) -> (r: bool)
    ensures
        r == takes_value(option@),
{
    text::is_text(option, "--token") || text::is_text(option, "--server") || text::is_text(
        option,
        "--map",
    ) || text::is_text(option, "--at") || text::is_text(option, "--challenge") || text::is_text(
        option,
        "--say",
    )
}

impl Options {
    fn set_server(self, value: String) -> (r: Result<Self, OptionError>)
        ensures
            result_view(r) == with_server(self@, value@),
    {
        let mut o = self;
        let cs: Vec<char> = text::chars_of(&value);
        if let Some(k) = text::rfind_char(&cs, ':') {
            let port: &[char] = text::part(&cs, k + 1, cs.len());
            if only_digits(port) {
                return match text::parse_unsigned(port, 65535) {
                    Some(p) => {
                        o.host = text::string_of(text::part(&cs, 0, k));
                        o.port = p as u16;
                        Ok(o)
                    },
                    None => Err(OptionError::BadNumber(text::string_of(port))),
                };
            }
        }
        o.host = value;
        Ok(o)
    }

    fn set_map(self, value: &str) -> (r: Result<Self, OptionError>)
        ensures
            result_view(r) == with_map(self@, value@),
    {
        let mut o = self;
        let cs: Vec<char> = text::chars_of(value);
        let k: usize = match text::find_char(&cs, ':') {
            Some(k) => k,
            None => {
                return Err(OptionError::MapFormat);
            },
        };
        let group: &[char] = text::part(&cs, 0, k);
        let num: &[char] = text::part(&cs, k + 1, cs.len());
        match (text::parse_unsigned(group, 255), text::parse_unsigned(num, 255)) {
            (None, _) => Err(OptionError::BadNumber(text::string_of(group))),
            (_, None) => Err(OptionError::BadNumber(text::string_of(num))),
            (Some(g), Some(n)) => {
                o.map = MapId { group: g as u8, num: n as u8 };
                Ok(o)
            },
        }
    }

    fn set_tile(self, value: &str) -> (r: Result<Self, OptionError>)
        ensures
            result_view(r) == with_tile(self@, value@),
    {
        let mut o = self;
        let cs: Vec<char> = text::chars_of(value);
        let k: usize = match text::find_char(&cs, ',') {
            Some(k) => k,
            None => {
                return Err(OptionError::AtFormat);
            },
        };
        let x: &[char] = text::part(&cs, 0, k);
        let y: &[char] = text::part(&cs, k + 1, cs.len());
        match (text::parse_i16(x), text::parse_i16(y)) {
            (None, _) => Err(OptionError::BadNumber(text::string_of(x))),
            (_, None) => Err(OptionError::BadNumber(text::string_of(y))),
            (Some(x), Some(y)) => {
                o.x = x;
                o.y = y;
                Ok(o)
            },
        }
    }

    fn set(self, option: &str, value: &String) -> (r: Result<Self, OptionError>)
        ensures
            result_view(r) == with_value(self@, option@, value@),
    {
        let mut o = self;
        if text::is_text(option, "--token") {
            o.token = value.clone();
            Ok(o)
        } else if text::is_text(option, "--server") {
            o.set_server(value.clone())
        } else if text::is_text(option, "--map") {
            o.set_map(value)
        } else if text::is_text(option, "--at") {
            o.set_tile(value)
        } else if text::is_text(option, "--challenge") {
            match text::parse_unsigned(&text::chars_of(value), 0xFFFF_FFFF) {
                Some(n) => {
                    o.challenge = Some(n);
                    Ok(o)
                },
                None => Err(OptionError::BadNumber(value.clone())),
            }
        } else {
            o.say = Some(value.clone());
            Ok(o)
        }
    }
}

/// Reads the command line, without the program's own name.
pub fn parse_options(args: &Vec<String>) -> (r: Result<Options, OptionError>)
    ensures
        result_view(r) == with_args(defaults(), settings::strings(args@), 0),
{
    let mut o = Options {
        token: String::new(),
        host: "pokeplanet.obby.ca".to_owned(),
        port: 4433,
        map: MapId { group: 0, num: 9 },
        x: 17,
        y: 18,
        still: false,
        challenge: None,
        say: None,
    };
    assert(o@ =~= defaults());
    let ghost all = settings::strings(args@);
    let mut i: usize = 0;
    while i < args.len()
        invariant
            all == settings::strings(args@),
            i <= args@.len(),
            with_args(defaults(), all, 0) == with_args(o@, all, i as int),
        decreases args@.len() - i,
    {
        let arg: &String = &args[i];
        assert(all[i as int] == arg@);
        if needs_value(arg) {
            if i + 1 >= args.len() {
                return Err(OptionError::NeedsValue(arg.clone()));
            }
            assert(all[i + 1] == args@[i + 1]@);
            match o.set(arg, &args[i + 1]) {
                Ok(next) => {
                    o = next;
                },
                Err(e) => {
                    return Err(e);
                },
            }
            i = i + 2;
        } else if text::is_text(arg, "--still") {
            o.still = true;
            i = i + 1;
        } else {
            return Err(OptionError::Unrecognised(arg.clone()));
        }
    }
    if o.token.as_str().is_empty() {
        Err(OptionError::NoToken)
    } else {
        Ok(o)
    }
}

// ---------------------------------------------------------------------------------------------
// Walking
// ---------------------------------------------------------------------------------------------

/// A square, two tiles a side: each step east, south, west or north, and the direction faced.
pub const LOOP_PATH: [(i16, i16, u8); 8] = [
    (1, 0, 4),
    (1, 0, 4),
    (0, 1, 1),
    (0, 1, 1),
    (-1, 0, 3),
    (-1, 0, 3),
    (0, -1, 2),
    (0, -1, 2),
];

/// Where a headless player stands at first.
pub fn start(o: &Options) -> (r: Pose)
    ensures
        r == (Pose { map: o.map, x: o.x, y: o.y, facing: 1, elevation: 3, moving: false }),
{
    Pose { map: o.map, x: o.x, y: o.y, facing: 1, elevation: 3, moving: false }
}

/// The pose after step `k` of the path.
pub open spec fn stepped(pose: Pose, k: int) -> Pose {
    let (dx, dy, facing) = LOOP_PATH@[k];
    Pose { x: (pose.x + dx) as i16, y: (pose.y + dy) as i16, facing, ..pose }
}

/// Walks one step of the path.
pub fn walk(pose: Pose, k: usize) -> (r: Pose)
    requires
        k < 8,
        -32768 <= pose.x + LOOP_PATH@[k as int].0 <= 32767,
        -32768 <= pose.y + LOOP_PATH@[k as int].1 <= 32767,
    ensures
        r == stepped(pose, k as int),
{
    let (dx, dy, facing): (i16, i16, u8) = LOOP_PATH[k];
    Pose { x: pose.x + dx, y: pose.y + dy, facing, ..pose }
}

// ---------------------------------------------------------------------------------------------
// Laws
// ---------------------------------------------------------------------------------------------

/// The pose after the first `n` steps of the path.
pub open spec fn walked(pose: Pose, n: nat) -> Pose
    decreases n,
{
    if n == 0 {
        pose
    } else {
        stepped(walked(pose, (n - 1) as nat), n - 1)
    }
}

/// The path is a loop: it leads back to the tile it started on, and every tile of it lies at most
/// two east and two south.
pub proof fn law_the_path_is_a_loop(pose: Pose, n: nat)
    requires
        pose.x <= 32765,
        pose.y <= 32765,
        n <= 8,
    ensures
        walked(pose, 8).x == pose.x,
        walked(pose, 8).y == pose.y,
        pose.x <= walked(pose, n).x <= pose.x + 2,
        pose.y <= walked(pose, n).y <= pose.y + 2,
        walked(pose, n).map == pose.map,
{
    reveal_with_fuel(walked, 9);
}

} // verus!
