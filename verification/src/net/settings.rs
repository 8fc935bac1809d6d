//! Sidecar configuration: command line, then `pokeemerald.cfg`, then defaults.
//!
//! Sharing `pokeemerald.cfg` with the game means a player edits one file to point at a different
//! server, and the in-game options menu can write it back.

use crate::text;
use vstd::prelude::*;

verus! {

pub const DEFAULT_SERVER_HOST: &'static str = "pokeplanet.obby.ca";

pub const DEFAULT_SERVER_PORT: u16 = 4433;

pub const DEFAULT_IPC_PORT: u16 = 38400;

pub const DEFAULT_TOKEN_PATH: &'static str = "pokeplanet-auth.json";

/// An address and a port.
#[derive(Debug, Clone, Copy, PartialEq, Eq)]
pub struct IpcAddr {
    pub ip: [u8; 4],
    pub port: u16,
}

impl IpcAddr {
    /// Whether the address is one of this machine's own.
    pub fn is_loopback(&self) -> (r: bool)
        ensures
            r == (self.ip@[0] == 127),
    {
        self.ip[0] == 127
    }
}

/// How the sidecar is set up.
#[derive(Debug, Clone)]
pub struct Settings {
    pub server_host: String,
    pub server_port: u16,
    /// Loopback address the game connects to. Always on 127.0.0.1 so the IPC channel is never
    /// reachable from the network.
    pub ipc_addr: IpcAddr,
    /// Where the session token is cached between launches.
    pub token_path: String,
    /// Skip certificate verification. For pointing a dev build at a self-signed server.
    pub insecure: bool,
    /// Sign in as whoever the cached token already is, and refuse to become anyone else: no
    /// browser login, and the cache is never rewritten.
    pub fixed_token: bool,
    /// Where to write diagnostics.
    pub log_path: Option<String>,
}

/// A `Settings` as a value of the specification.
#[verifier::ext_equal]
pub struct SettingsView {
    pub server_host: Seq<char>,
    pub server_port: u16,
    pub ipc_ip: Seq<u8>,
    pub ipc_port: u16,
    pub token_path: Seq<char>,
    pub insecure: bool,
    pub fixed_token: bool,
    pub log_path: Option<Seq<char>>,
}

impl View for Settings {
    type V = SettingsView;

    open spec fn view(&self) -> SettingsView {
        SettingsView {
            server_host: self.server_host@,
            server_port: self.server_port,
            ipc_ip: self.ipc_addr.ip@,
            ipc_port: self.ipc_addr.port,
            token_path: self.token_path@,
            insecure: self.insecure,
            fixed_token: self.fixed_token,
            log_path: match self.log_path {
                Some(p) => Some(p@),
                None => None,
            },
        }
    }
}

/// What holds where nothing is set.
pub open spec fn defaults() -> SettingsView {
    SettingsView {
        server_host: DEFAULT_SERVER_HOST@,
        server_port: DEFAULT_SERVER_PORT,
        ipc_ip: seq![127u8, 0, 0, 1],
        ipc_port: DEFAULT_IPC_PORT,
        token_path: DEFAULT_TOKEN_PATH@,
        insecure: false,
        fixed_token: false,
        log_path: None,
    }
}

impl Default for Settings {
    fn default() -> (r: Self)
        ensures
            r@ == defaults(),
    {
        let r = Settings {
            server_host: DEFAULT_SERVER_HOST.to_owned(),
            server_port: DEFAULT_SERVER_PORT,
            ipc_addr: IpcAddr { ip: [127, 0, 0, 1], port: DEFAULT_IPC_PORT },
            token_path: DEFAULT_TOKEN_PATH.to_owned(),
            insecure: false,
            fixed_token: false,
            log_path: None,
        };
        assert(r@ =~= defaults());
        r
    }
}

// ---------------------------------------------------------------------------------------------
// The file
// ---------------------------------------------------------------------------------------------

/// A port in decimal.
pub open spec fn port_of(s: Seq<char>) -> Option<u16> {
    match text::unsigned_of(s, 65535) {
        Some(n) => Some(n as u16),
        None => None,
    }
}

/// What a line of the file sets. Unknown keys are the game's own display settings and are
/// ignored, as is a port that is not a number.
pub open spec fn with_line(s: SettingsView, line: Seq<char>) -> SettingsView {
    match text::index_from(line, '=', 0) {
        None => s,
        Some(k) => {
            let key = text::trim(line.subrange(0, k));
            let value = text::trim(line.subrange(k + 1, line.len() as int));
            if key == "server"@ && value.len() > 0 {
                SettingsView { server_host: value, ..s }
            } else if key == "serverPort"@ && port_of(value) is Some {
                SettingsView { server_port: port_of(value)->0, ..s }
            } else if key == "sidecarPort"@ && port_of(value) is Some {
                SettingsView { ipc_port: port_of(value)->0, ..s }
            } else {
                s
            }
        },
    }
}

/// What the first `n` lines of the file set.
pub open spec fn with_lines(s: SettingsView, lines: Seq<Seq<char>>, n: nat) -> SettingsView
    decreases n,
{
    if n == 0 {
        s
    } else {
        with_line(with_lines(s, lines, (n - 1) as nat), lines[n - 1])
    }
}

fn parse_port(s: &[char]) -> (r: Option<u16>)
    ensures
        r == port_of(s@),
{
    match text::parse_unsigned(s, 65535) {
        Some(n) => Some(n as u16),
        None => None,
    }
}

impl Settings {
    fn apply_line(&mut self, line: &[char])
        ensures
            final(self)@ == with_line(old(self)@, line@),
    {
        proof {
            reveal_strlit("server");
            reveal_strlit("serverPort");
            reveal_strlit("sidecarPort");
            assert("server"@.len() != "serverPort"@.len());
            assert("server"@.len() != "sidecarPort"@.len());
            assert("serverPort"@.len() != "sidecarPort"@.len());
        }
        assert(line.len() == line@.len());
        let k: usize = match text::find_char(line, '=') {
            Some(k) => k,
            None => {
                return ;
            },
        };
        let key: &[char] = text::trimmed(text::part(line, 0, k));
        let value: &[char] = text::trimmed(text::part(line, k + 1, line.len()));
        if text::equals(key, "server") {
            if value.len() > 0 {
                self.server_host = text::string_of(value);
            }
        } else if text::equals(key, "serverPort") {
            match parse_port(value) {
                Some(p) => {
                    self.server_port = p;
                },
                None => {},
            }
        } else if text::equals(key, "sidecarPort") {
            match parse_port(value) {
                Some(p) => {
                    self.ipc_addr.port = p;
                },
                None => {},
            }
        }
    }

    /// Reads the `key=value` lines the game already uses.
    pub fn apply_config_file(&mut self, file: &str)
        ensures
            final(self)@ == with_lines(
                old(self)@,
                text::lines_of(file@),
                text::lines_of(file@).len(),
            ),
    {
        let lines: Vec<Vec<char>> = text::lines(&text::chars_of(file));
        let ghost all = text::lines_of(file@);
        let ghost start = self@;
        let mut i: usize = 0;
        assert(all.len() == lines@.len());
        while i < lines.len()
            invariant
                text::texts(lines@) == all,
                all.len() == lines@.len(),
                i <= lines@.len(),
                self@ == with_lines(start, all, i as nat),
            decreases lines@.len() - i,
        {
            assert(all[i as int] == lines@[i as int]@);
            self.apply_line(&lines[i]);
            i = i + 1;
        }
    }
}

// ---------------------------------------------------------------------------------------------
// The command line
// ---------------------------------------------------------------------------------------------

/// Why a command line is refused.
#[derive(Debug, Clone)]
pub enum ArgError {
    NeedsHost,
    NeedsPort,
    NeedsIpcPort,
    NeedsTokenPath,
    NeedsLogPath,
    /// This is not a port.
    BadNumber(String),
    Unrecognised(String),
}

/// An `ArgError` as a value of the specification.
pub enum ArgErrorView {
    NeedsHost,
    NeedsPort,
    NeedsIpcPort,
    NeedsTokenPath,
    NeedsLogPath,
    BadNumber(Seq<char>),
    Unrecognised(Seq<char>),
}

impl View for ArgError {
    type V = ArgErrorView;

    open spec fn view(&self) -> ArgErrorView {
        match *self {
            ArgError::NeedsHost => ArgErrorView::NeedsHost,
            ArgError::NeedsPort => ArgErrorView::NeedsPort,
            ArgError::NeedsIpcPort => ArgErrorView::NeedsIpcPort,
            ArgError::NeedsTokenPath => ArgErrorView::NeedsTokenPath,
            ArgError::NeedsLogPath => ArgErrorView::NeedsLogPath,
            ArgError::BadNumber(s) => ArgErrorView::BadNumber(s@),
            ArgError::Unrecognised(s) => ArgErrorView::Unrecognised(s@),
        }
    }
}

impl ArgError {
    /// What is reported.
    pub fn message(&self) -> (r: String)
        ensures
            r@ == (match *self {
                ArgError::NeedsHost => "--server needs a host[:port]"@,
                ArgError::NeedsPort => "--port needs a number"@,
                ArgError::NeedsIpcPort => "--ipc-port needs a number"@,
                ArgError::NeedsTokenPath => "--token needs a path"@,
                ArgError::NeedsLogPath => "--log needs a path"@,
                ArgError::BadNumber(s) => "not a port: "@ + s@,
                ArgError::Unrecognised(s) => "unrecognised argument "@ + s@,
            }),
    {
        match self {
            ArgError::NeedsHost => "--server needs a host[:port]".to_owned(),
            ArgError::NeedsPort => "--port needs a number".to_owned(),
            ArgError::NeedsIpcPort => "--ipc-port needs a number".to_owned(),
            ArgError::NeedsTokenPath => "--token needs a path".to_owned(),
            ArgError::NeedsLogPath => "--log needs a path".to_owned(),
            ArgError::BadNumber(s) => {
                let mut m = "not a port: ".to_owned();
                text::push_text(&mut m, s);
                m
            },
            ArgError::Unrecognised(s) => {
                let mut m = "unrecognised argument ".to_owned();
                text::push_text(&mut m, s);
                m
            },
        }
    }
}

/// How a command line ends, where it is not refused.
#[derive(Debug, Clone, Copy, PartialEq, Eq, Structural)]
pub enum ArgsEnd {
    Done,
    /// The usage is to be shown, and nothing else done.
    Help,
}

/// What a command line comes to, and the settings it leaves.
pub struct ArgsOutcome {
    pub end: Result<ArgsEnd, ArgErrorView>,
    pub settings: SettingsView,
}

/// The texts of a list of strings.
pub open spec fn strings(v: Seq<String>) -> Seq<Seq<char>> {
    Seq::new(v.len(), |i: int| v[i]@)
}

/// What names a server: "host" or "host:port". What follows the last colon is a port if it is
/// made of digits alone.
pub open spec fn with_server(s: SettingsView, value: Seq<char>) -> ArgsOutcome {
    match text::last_index(value, ':', value.len()) {
        Some(k) => {
            let host = value.subrange(0, k);
            let port = value.subrange(k + 1, value.len() as int);
            let named = SettingsView { server_host: host, ..s };
            if !text::all_digits(port) {
                ArgsOutcome {
                    end: Ok(ArgsEnd::Done),
                    settings: SettingsView { server_host: value, ..s },
                }
            } else {
                match port_of(port) {
                    Some(p) => ArgsOutcome {
                        end: Ok(ArgsEnd::Done),
                        settings: SettingsView { server_port: p, ..named },
                    },
                    None => ArgsOutcome {
                        end: Err(ArgErrorView::BadNumber(port)),
                        settings: named,
                    },
                }
            }
        },
        None => ArgsOutcome {
            end: Ok(ArgsEnd::Done),
            settings: SettingsView { server_host: value, ..s },
        },
    }
}

/// What an option that takes a value comes to with this one.
pub open spec fn with_value(s: SettingsView, option: Seq<char>, value: Seq<char>) -> ArgsOutcome {
    let fine = Ok::<ArgsEnd, ArgErrorView>(ArgsEnd::Done);
    if option == "--server"@ {
        with_server(s, value)
    } else if option == "--port"@ {
        match port_of(value) {
            Some(p) => ArgsOutcome {
                end: fine,
                settings: SettingsView { server_port: p, ..s },
            },
            None => ArgsOutcome { end: Err(ArgErrorView::BadNumber(value)), settings: s },
        }
    } else if option == "--ipc-port"@ {
        match port_of(value) {
            Some(p) => ArgsOutcome { end: fine, settings: SettingsView { ipc_port: p, ..s } },
            None => ArgsOutcome { end: Err(ArgErrorView::BadNumber(value)), settings: s },
        }
    } else if option == "--token"@ {
        ArgsOutcome { end: fine, settings: SettingsView { token_path: value, ..s } }
    } else {
        ArgsOutcome { end: fine, settings: SettingsView { log_path: Some(value), ..s } }
    }
}

/// What is said where the value of an option is missing; nothing for what takes no value.
pub open spec fn missing(option: Seq<char>) -> Option<ArgErrorView> {
    if option == "--server"@ {
        Some(ArgErrorView::NeedsHost)
    } else if option == "--port"@ {
        Some(ArgErrorView::NeedsPort)
    } else if option == "--ipc-port"@ {
        Some(ArgErrorView::NeedsIpcPort)
    } else if option == "--token"@ {
        Some(ArgErrorView::NeedsTokenPath)
    } else if option == "--log"@ {
        Some(ArgErrorView::NeedsLogPath)
    } else {
        None
    }
}

/// What the arguments from `i` on come to.
pub open spec fn with_args(s: SettingsView, args: Seq<Seq<char>>, i: int) -> ArgsOutcome
    decreases args.len() - i,
{
    if i >= args.len() {
        ArgsOutcome { end: Ok(ArgsEnd::Done), settings: s }
    } else if missing(args[i]) is Some {
        if i + 1 >= args.len() {
            ArgsOutcome { end: Err(missing(args[i])->0), settings: s }
        } else {
            let next = with_value(s, args[i], args[i + 1]);
            if next.end is Err {
                next
            } else {
                with_args(next.settings, args, i + 2)
            }
        }
    } else if args[i] == "--insecure"@ {
        with_args(SettingsView { insecure: true, ..s }, args, i + 1)
    } else if args[i] == "--fixed-token"@ {
        with_args(SettingsView { fixed_token: true, ..s }, args, i + 1)
    } else if args[i] == "--help"@ || args[i] == "-h"@ {
        ArgsOutcome { end: Ok(ArgsEnd::Help), settings: s }
    } else {
        ArgsOutcome { end: Err(ArgErrorView::Unrecognised(args[i])), settings: s }
    }
}

/// The result of a step, its error taken by its view.
pub open spec fn end_view(r: Result<ArgsEnd, ArgError>) -> Result<ArgsEnd, ArgErrorView> {
    match r {
        Ok(e) => Ok(e),
        Err(e) => Err(e@),
    }
}

/// Whether every character is a decimal digit.
pub fn only_digits(s: &[char]) -> (r: bool)
    ensures
        r == text::all_digits(s@),
{
    let mut i: usize = 0;
    while i < s.len()
        invariant
            i <= s@.len(),
            forall|k: int| 0 <= k < i ==> text::is_digit(#[trigger] s@[k]),
        decreases s@.len() - i,
    {
        if !text::ascii_digit(s[i]) {
            assert(!text::is_digit(s@[i as int]));
            return false;
        }
        i = i + 1;
    }
    true
}

fn missing_of(option: &str) -> (r: Option<ArgError>)
    ensures
        match r {
            Some(e) => missing(option@) == Some(e@),
            None => missing(option@) is None,
        },
{
    if text::is_text(option, "--server") {
        Some(ArgError::NeedsHost)
    } else if text::is_text(option, "--port") {
        Some(ArgError::NeedsPort)
    } else if text::is_text(option, "--ipc-port") {
        Some(ArgError::NeedsIpcPort)
    } else if text::is_text(option, "--token") {
        Some(ArgError::NeedsTokenPath)
    } else if text::is_text(option, "--log") {
        Some(ArgError::NeedsLogPath)
    } else {
        None
    }
}

impl Settings {
    fn apply_server(&mut self, value: &String) -> (r: Result<ArgsEnd, ArgError>)
        ensures
            end_view(r) == with_server(old(self)@, value@).end,
            final(self)@ == with_server(old(self)@, value@).settings,
    {
        let cs: Vec<char> = text::chars_of(value);
        match text::rfind_char(&cs, ':') {
            Some(k) => {
                let port: &[char] = text::part(&cs, k + 1, cs.len());
                if only_digits(port) {
                    self.server_host = text::string_of(text::part(&cs, 0, k));
                    match parse_port(port) {
                        Some(p) => {
                            self.server_port = p;
                            Ok(ArgsEnd::Done)
                        },
                        None => Err(ArgError::BadNumber(text::string_of(port))),
                    }
                } else {
                    self.server_host = value.clone();
                    Ok(ArgsEnd::Done)
                }
            },
            None => {
                self.server_host = value.clone();
                Ok(ArgsEnd::Done)
            },
        }
    }

    fn apply_value(&mut self, option: &str, value: &String) -> (r: Result<ArgsEnd, ArgError>)
        ensures
            end_view(r) == with_value(old(self)@, option@, value@).end,
            final(self)@ == with_value(old(self)@, option@, value@).settings,
    {
        if text::is_text(option, "--server") {
            self.apply_server(value)
        } else if text::is_text(option, "--port") {
            match parse_port(&text::chars_of(value)) {
                Some(p) => {
                    self.server_port = p;
                    Ok(ArgsEnd::Done)
                },
                None => Err(ArgError::BadNumber(value.clone())),
            }
        } else if text::is_text(option, "--ipc-port") {
            match parse_port(&text::chars_of(value)) {
                Some(p) => {
                    self.ipc_addr.port = p;
                    Ok(ArgsEnd::Done)
                },
                None => Err(ArgError::BadNumber(value.clone())),
            }
        } else if text::is_text(option, "--token") {
            self.token_path = value.clone();
            Ok(ArgsEnd::Done)
        } else {
            self.log_path = Some(value.clone());
            Ok(ArgsEnd::Done)
        }
    }

    /// Lets the command line override what is set.
    pub fn apply_args(&mut self, args: &Vec<String>) -> (r: Result<ArgsEnd, ArgError>)
        ensures
            end_view(r) == with_args(old(self)@, strings(args@), 0).end,
            final(self)@ == with_args(old(self)@, strings(args@), 0).settings,
    {
        let ghost start = self@;
        let ghost all = strings(args@);
        let mut i: usize = 0;
        while i < args.len()
            invariant
                start == old(self)@,
                all == strings(args@),
                i <= args@.len(),
                with_args(start, all, 0) == with_args(self@, all, i as int),
            decreases args@.len() - i,
        {
            let arg: &String = &args[i];
            assert(all[i as int] == arg@);
            match missing_of(arg) {
                Some(e) => {
                    if i + 1 >= args.len() {
                        return Err(e);
                    }
                    assert(all[i + 1] == args@[i + 1]@);
                    match self.apply_value(arg, &args[i + 1]) {
                        Ok(_) => {},
                        Err(e) => {
                            return Err(e);
                        },
                    }
                    i = i + 2;
                },
                None => {
                    if text::is_text(arg, "--insecure") {
                        self.insecure = true;
                    } else if text::is_text(arg, "--fixed-token") {
                        self.fixed_token = true;
                    } else if text::is_text(arg, "--help") || text::is_text(arg, "-h") {
                        return Ok(ArgsEnd::Help);
                    } else {
                        return Err(ArgError::Unrecognised(arg.clone()));
                    }
                    i = i + 1;
                },
            }
        }
        Ok(ArgsEnd::Done)
    }
}

// ---------------------------------------------------------------------------------------------
// Laws
// ---------------------------------------------------------------------------------------------

/// No command line moves the link to the game off the loopback address.
pub proof fn law_the_game_link_stays_on_loopback(s: SettingsView, args: Seq<Seq<char>>, i: int)
    requires
        0 <= i,
    ensures
        with_args(s, args, i).settings.ipc_ip == s.ipc_ip,
    decreases args.len() - i,
{
    if i < args.len() {
        if missing(args[i]) is Some {
            if i + 1 < args.len() {
                let next = with_value(s, args[i], args[i + 1]);
                law_the_game_link_stays_on_loopback(next.settings, args, i + 2);
            }
        } else if args[i] == "--insecure"@ {
            law_the_game_link_stays_on_loopback(
                SettingsView { insecure: true, ..s },
                args,
                i + 1,
            );
        } else if args[i] == "--fixed-token"@ {
            law_the_game_link_stays_on_loopback(
                SettingsView { fixed_token: true, ..s },
                args,
                i + 1,
            );
        }
    }
}

/// Nor does any file.
pub proof fn law_no_file_moves_the_game_link(s: SettingsView, lines: Seq<Seq<char>>, n: nat)
    ensures
        with_lines(s, lines, n).ipc_ip == s.ipc_ip,
    decreases n,
{
    if n > 0 {
        law_no_file_moves_the_game_link(s, lines, (n - 1) as nat);
    }
}

} // verus!
