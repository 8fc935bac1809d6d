//! What configuration lines and command lines come to, and where a headless player walks.

use crate::net::ghost;
use crate::net::ghost::{OptionErrorView, OptionsView};
use crate::net::settings;
use crate::net::settings::{ArgsEnd, SettingsView};
use crate::proto::{MapId, Pose};
use crate::text;
use crate::text_laws::{
    all_blank, by_place, is_bare, is_decimal, law_natural_numbers_are_read_by_place,
    law_signed_numbers_are_read_by_place, law_the_first_place_is_found,
    law_the_last_place_is_found, law_trimming_takes_the_blanks_around,
};
use vstd::prelude::*;

verus! {

// ---------------------------------------------------------------------------------------------
// The file
// ---------------------------------------------------------------------------------------------

/// A line of the file: a key, an equals sign and a value, with blanks around both or not.
pub open spec fn line(
    a: Seq<char>,
    key: Seq<char>,
    b: Seq<char>,
    c: Seq<char>,
    value: Seq<char>,
    d: Seq<char>,
) -> Seq<char> {
    (a + key + b) + seq!['='] + (c + value + d)
}

/// The parts make up a line: blanks where there may be blanks, and no equals sign before the one
/// that is meant.
pub open spec fn is_line(
    a: Seq<char>,
    key: Seq<char>,
    b: Seq<char>,
    c: Seq<char>,
    value: Seq<char>,
    d: Seq<char>,
) -> bool {
    &&& all_blank(a) && all_blank(b) && all_blank(c) && all_blank(d)
    &&& is_bare(key) && is_bare(value)
    &&& !(a + key + b).contains('=')
}

/// A port as it is written: decimal digits of a number that fits.
pub open spec fn writes_port(s: Seq<char>, port: u16) -> bool {
    is_decimal(s) && by_place(s) == port
}

proof fn lemma_port(s: Seq<char>)
    requires
        s.len() == 0 || s[0] != '+',
    ensures
        settings::port_of(s) == (if is_decimal(s) && by_place(s) <= 65535 {
            Some(by_place(s) as u16)
        } else {
            None
        }),
        is_decimal(s) ==> by_place(s) >= 0,
{
    law_natural_numbers_are_read_by_place(s, 65535);
}

/// A line of the file sets what its key names and nothing else: the server where it names one, a
/// port where it is a number that fits. A line of another key, or without an equals sign, sets
/// nothing.
pub proof fn law_a_line_sets_what_its_key_names(
    s: SettingsView,
    a: Seq<char>,
    key: Seq<char>,
    b: Seq<char>,
    c: Seq<char>,
    value: Seq<char>,
    d: Seq<char>,
)
    requires
        is_line(a, key, b, c, value, d),
        value.len() == 0 || value[0] != '+',
    ensures
        ({
            let t = settings::with_line(s, line(a, key, b, c, value, d));
            let fits = is_decimal(value) && by_place(value) <= 65535;
            &&& t.server_host == (if key == "server"@ && value.len() > 0 {
                value
            } else {
                s.server_host
            })
            &&& t.server_port == (if key == "serverPort"@ && fits {
                by_place(value)
            } else {
                s.server_port as int
            })
            &&& t.ipc_port == (if key == "sidecarPort"@ && fits {
                by_place(value)
            } else {
                s.ipc_port as int
            })
            &&& t.ipc_ip == s.ipc_ip && t.token_path == s.token_path && t.insecure == s.insecure
            &&& t.fixed_token == s.fixed_token && t.log_path == s.log_path
        }),
{
    reveal_strlit("server");
    reveal_strlit("serverPort");
    reveal_strlit("sidecarPort");
    let before = a + key + b;
    let after = c + value + d;
    let all = line(a, key, b, c, value, d);
    law_the_first_place_is_found(before, '=', after);
    assert(all.subrange(0, before.len() as int) =~= before);
    assert(all.subrange(before.len() + 1 as int, all.len() as int) =~= after);
    law_trimming_takes_the_blanks_around(a, key, b);
    law_trimming_takes_the_blanks_around(c, value, d);
    lemma_port(value);
    assert("server"@.len() == 6 && "serverPort"@.len() == 10 && "sidecarPort"@.len() == 11);
}

/// A line without an equals sign sets nothing.
pub proof fn law_a_line_without_a_value_sets_nothing(s: SettingsView, said: Seq<char>)
    requires
        !said.contains('='),
    ensures
        settings::with_line(s, said) == s,
{
    law_the_first_place_is_found(said, '=', Seq::empty());
}

/// The lines of a file count one after the other, from the first to the last.
pub proof fn law_lines_count_in_order(s: SettingsView, lines: Seq<Seq<char>>, last: Seq<char>)
    ensures
        settings::with_lines(s, Seq::empty(), 0) == s,
        settings::with_lines(s, lines.push(last), (lines.len() + 1) as nat) == settings::with_line(
            settings::with_lines(s, lines, lines.len()),
            last,
        ),
{
    lemma_more_lines(s, lines, last, lines.len());
}

proof fn lemma_more_lines(s: SettingsView, lines: Seq<Seq<char>>, last: Seq<char>, n: nat)
    requires
        n <= lines.len(),
    ensures
        settings::with_lines(s, lines.push(last), n) == settings::with_lines(s, lines, n),
    decreases n,
{
    if n > 0 {
        lemma_more_lines(s, lines, last, (n - 1) as nat);
        assert(lines.push(last)[n - 1] == lines[n - 1]);
    }
}

// ---------------------------------------------------------------------------------------------
// The sidecar's command line
// ---------------------------------------------------------------------------------------------

proof fn lemma_shift(s: SettingsView, front: Seq<Seq<char>>, args: Seq<Seq<char>>, i: int)
    requires
        0 <= i,
    ensures
        settings::with_args(s, front + args, front.len() + i) == settings::with_args(s, args, i),
    decreases args.len() - i,
{
    let all = front + args;
    let j = front.len() + i;
    if i < args.len() {
        assert(all[j] == args[i]);
        if settings::missing(args[i]) is Some {
            if i + 1 < args.len() {
                assert(all[j + 1] == args[i + 1]);
                lemma_shift(
                    settings::with_value(s, args[i], args[i + 1]).settings,
                    front,
                    args,
                    i + 2,
                );
            }
        } else if args[i] == "--insecure"@ {
            lemma_shift(SettingsView { insecure: true, ..s }, front, args, i + 1);
        } else if args[i] == "--fixed-token"@ {
            lemma_shift(SettingsView { fixed_token: true, ..s }, front, args, i + 1);
        }
    }
}

proof fn lemma_options()
    ensures
        "--server"@.len() == 8 && "--port"@.len() == 6 && "--ipc-port"@.len() == 10,
        "--token"@.len() == 7 && "--log"@.len() == 5 && "--insecure"@.len() == 10,
        "--fixed-token"@.len() == 13 && "--help"@.len() == 6 && "-h"@.len() == 2,
        "--still"@.len() == 7 && "--map"@.len() == 5 && "--at"@.len() == 4,
        "--challenge"@.len() == 11 && "--say"@.len() == 5,
        "--port"@[2] == 'p' && "--help"@[2] == 'h' && "--insecure"@[3] == 'n' && "--ipc-port"@[3]
            == 'p',
        "--token"@[2] == 't' && "--still"@[2] == 's' && "--log"@[2] == 'l' && "--map"@[2] == 'm'
            && "--say"@[2] == 's',
{
    reveal_strlit("--server");
    reveal_strlit("--port");
    reveal_strlit("--ipc-port");
    reveal_strlit("--token");
    reveal_strlit("--log");
    reveal_strlit("--insecure");
    reveal_strlit("--fixed-token");
    reveal_strlit("--help");
    reveal_strlit("-h");
    reveal_strlit("--still");
    reveal_strlit("--map");
    reveal_strlit("--at");
    reveal_strlit("--challenge");
    reveal_strlit("--say");
}

proof fn lemma_two(s: SettingsView, option: Seq<char>, value: Seq<char>, rest: Seq<Seq<char>>)
    requires
        settings::missing(option) is Some,
    ensures
        settings::with_args(s, seq![option, value] + rest, 0) == ({
            let next = settings::with_value(s, option, value);
            if next.end is Err {
                next
            } else {
                settings::with_args(next.settings, rest, 0)
            }
        }),
{
    let all = seq![option, value] + rest;
    assert(all[0] == option && all[1] == value);
    lemma_shift(settings::with_value(s, option, value).settings, seq![option, value], rest, 0);
}

proof fn lemma_one(s: SettingsView, option: Seq<char>, rest: Seq<Seq<char>>)
    ensures
        ({
            let all = seq![option] + rest;
            &&& all.len() > 0 && all[0] == option
            &&& settings::with_args(
                SettingsView { insecure: true, ..s },
                all,
                1,
            ) == settings::with_args(SettingsView { insecure: true, ..s }, rest, 0)
            &&& settings::with_args(
                SettingsView { fixed_token: true, ..s },
                all,
                1,
            ) == settings::with_args(SettingsView { fixed_token: true, ..s }, rest, 0)
        }),
{
    lemma_shift(SettingsView { insecure: true, ..s }, seq![option], rest, 0);
    lemma_shift(SettingsView { fixed_token: true, ..s }, seq![option], rest, 0);
}

/// Each option sets what it names, and nothing else, and then the rest of the command line counts as
/// if it stood alone.
pub proof fn law_options_set_what_they_name(
    s: SettingsView,
    value: Seq<char>,
    port: u16,
    rest: Seq<Seq<char>>,
)
    ensures
        ({
            let then = |t: SettingsView| settings::with_args(t, rest, 0);
            let said = |option: Seq<char>| settings::with_args(s, seq![option, value] + rest, 0);
            let alone = |option: Seq<char>| settings::with_args(s, seq![option] + rest, 0);
            &&& writes_port(value, port) ==> said("--port"@) == then(
                SettingsView { server_port: port, ..s },
            )
            &&& writes_port(value, port) ==> said("--ipc-port"@) == then(
                SettingsView { ipc_port: port, ..s },
            )
            &&& said("--token"@) == then(SettingsView { token_path: value, ..s })
            &&& said("--log"@) == then(SettingsView { log_path: Some(value), ..s })
            &&& !value.contains(':') ==> said("--server"@) == then(
                SettingsView { server_host: value, ..s },
            )
            &&& alone("--insecure"@) == then(SettingsView { insecure: true, ..s })
            &&& alone("--fixed-token"@) == then(SettingsView { fixed_token: true, ..s })
            &&& alone("--help"@).end == Ok::<ArgsEnd, settings::ArgErrorView>(ArgsEnd::Help)
            &&& alone("--help"@).settings == s
            &&& alone("-h"@) == alone("--help"@)
        }),
{
    lemma_options();
    lemma_two(s, "--port"@, value, rest);
    lemma_two(s, "--ipc-port"@, value, rest);
    lemma_two(s, "--token"@, value, rest);
    lemma_two(s, "--log"@, value, rest);
    lemma_two(s, "--server"@, value, rest);
    lemma_one(s, "--insecure"@, rest);
    lemma_one(s, "--fixed-token"@, rest);
    lemma_one(s, "--help"@, rest);
    lemma_one(s, "-h"@, rest);
    if is_decimal(value) {
        assert(48 <= value[0] as u32 <= 57);
        lemma_port(value);
    }
    if !value.contains(':') {
        law_the_last_place_is_found(Seq::empty(), ':', value);
    }
}

/// A server is named with a port behind its last colon, or without one; what does not look like a
/// port is part of the name.
pub proof fn law_a_server_may_name_its_port(
    s: SettingsView,
    o: OptionsView,
    host: Seq<char>,
    end: Seq<char>,
    port: u16,
)
    requires
        !end.contains(':'),
    ensures
        ({
            let named = host + seq![':'] + end;
            let t = settings::with_server(s, named);
            let g = ghost::with_server(o, named);
            &&& writes_port(end, port) ==> {
                &&& t.end is Ok
                &&& t.settings == SettingsView { server_host: host, server_port: port, ..s }
                &&& g == Ok::<OptionsView, OptionErrorView>(OptionsView { host, port, ..o })
            }
            &&& !is_decimal(end) && end.len() > 0 ==> {
                &&& t.end is Ok
                &&& t.settings == SettingsView { server_host: named, ..s }
                &&& g == Ok::<OptionsView, OptionErrorView>(OptionsView { host: named, ..o })
            }
        }),
{
    let named = host + seq![':'] + end;
    law_the_last_place_is_found(host, ':', end);
    assert(named.subrange(0, host.len() as int) =~= host);
    assert(named.subrange(host.len() + 1 as int, named.len() as int) =~= end);
    assert(named.len() == host.len() + 1 + end.len());
    assert(is_decimal(end) <==> text::all_digits(end) && end.len() > 0) by {
        if text::all_digits(end) {
            assert forall|i: int| 0 <= i < end.len() implies 48 <= #[trigger] end[i] as u32
                <= 57 by {
                assert(text::is_digit(end[i]));
            }
        }
    }
    if is_decimal(end) {
        assert(end[0] as u32 <= 57 && end[0] as u32 >= 48);
        lemma_port(end);
    }
}

// ---------------------------------------------------------------------------------------------
// The headless player
// ---------------------------------------------------------------------------------------------

/// A map is named by its group and its number, in this order, and a tile by how far it is to the
/// right and how far down.
pub proof fn law_maps_and_tiles_are_two_numbers(
    o: OptionsView,
    a: Seq<char>,
    b: Seq<char>,
)
    requires
        is_decimal(a),
        is_decimal(b),
    ensures
        by_place(a) <= 255 && by_place(b) <= 255 ==> ghost::with_map(o, a + seq![':'] + b) == Ok::<
            OptionsView,
            OptionErrorView,
        >(
            OptionsView {
                map: MapId { group: by_place(a) as u8, num: by_place(b) as u8 },
                ..o
            },
        ),
        by_place(a) > 255 || by_place(b) > 255 ==> ghost::with_map(o, a + seq![':'] + b) is Err,
        by_place(a) <= 32767 && by_place(b) <= 32767 ==> {
            let (x, y) = (by_place(a), by_place(b));
            &&& ghost::with_tile(o, a + seq![','] + b) == Ok::<OptionsView, OptionErrorView>(
                OptionsView { x: x as i16, y: y as i16, ..o },
            )
            &&& ghost::with_tile(o, seq!['-'] + a + seq![','] + b) == Ok::<
                OptionsView,
                OptionErrorView,
            >(OptionsView { x: (-x) as i16, y: y as i16, ..o })
            &&& ghost::with_tile(o, a + seq![','] + (seq!['-'] + b)) == Ok::<
                OptionsView,
                OptionErrorView,
            >(OptionsView { x: x as i16, y: (-y) as i16, ..o })
        },
{
    lemma_plain(a);
    lemma_plain(b);
    law_natural_numbers_are_read_by_place(a, 255);
    law_natural_numbers_are_read_by_place(b, 255);
    law_natural_numbers_are_read_by_place(a, 32767);
    law_natural_numbers_are_read_by_place(b, 32767);
    law_signed_numbers_are_read_by_place(a, 32767);
    law_signed_numbers_are_read_by_place(b, 32767);
    lemma_cut(a, ':', b);
    lemma_cut(a, ',', b);
    assert(!(seq!['-'] + a).contains(',')) by {
        assert forall|i: int| 0 <= i < (seq!['-'] + a).len() implies (seq!['-'] + a)[i] != ',' by {
            if i > 0 {
                assert(a.contains(a[i - 1]));
            }
        }
    }
    lemma_cut(seq!['-'] + a, ',', b);
    lemma_cut(a, ',', seq!['-'] + b);
}

proof fn lemma_plain(s: Seq<char>)
    requires
        is_decimal(s),
    ensures
        s[0] != '+' && s[0] != '-',
        !s.contains(':'),
        !s.contains(','),
{
    assert(48 <= s[0] as u32 <= 57);
    if s.contains(':') {
        let i = choose|i: int| 0 <= i < s.len() && s[i] == ':';
        assert(48 <= s[i] as u32 <= 57);
    }
    if s.contains(',') {
        let i = choose|i: int| 0 <= i < s.len() && s[i] == ',';
        assert(48 <= s[i] as u32 <= 57);
    }
}

proof fn lemma_cut(a: Seq<char>, c: char, b: Seq<char>)
    requires
        !a.contains(c),
    ensures
        ghost::cut_at(a + seq![c] + b, c) == Some((a, b)),
{
    let s = a + seq![c] + b;
    law_the_first_place_is_found(a, c, b);
    assert(s.subrange(0, a.len() as int) =~= a);
    assert(s.subrange(a.len() + 1 as int, s.len() as int) =~= b);
}

proof fn lemma_ghost_shift(
    o: OptionsView,
    front: Seq<Seq<char>>,
    args: Seq<Seq<char>>,
    i: int,
)
    requires
        0 <= i,
    ensures
        ghost::with_args(o, front + args, front.len() + i) == ghost::with_args(o, args, i),
    decreases args.len() - i,
{
    let all = front + args;
    let j = front.len() + i;
    if i < args.len() {
        assert(all[j] == args[i]);
        if ghost::takes_value(args[i]) {
            if i + 1 < args.len() {
                assert(all[j + 1] == args[i + 1]);
                match ghost::with_value(o, args[i], args[i + 1]) {
                    Ok(next) => {
                        lemma_ghost_shift(next, front, args, i + 2);
                    },
                    Err(_) => {},
                }
            }
        } else if args[i] == "--still"@ {
            lemma_ghost_shift(OptionsView { still: true, ..o }, front, args, i + 1);
        }
    }
}

proof fn lemma_ghost_two(o: OptionsView, option: Seq<char>, value: Seq<char>, rest: Seq<Seq<char>>)
    requires
        ghost::takes_value(option),
    ensures
        ghost::with_args(o, seq![option, value] + rest, 0) == (match ghost::with_value(
            o,
            option,
            value,
        ) {
            Ok(next) => ghost::with_args(next, rest, 0),
            Err(e) => Err(e),
        }),
{
    let all = seq![option, value] + rest;
    assert(all[0] == option && all[1] == value);
    match ghost::with_value(o, option, value) {
        Ok(next) => {
            lemma_ghost_shift(next, seq![option, value], rest, 0);
        },
        Err(_) => {},
    }
}

/// Each option of the headless player sets what it names, and nothing else, and then the rest of the
/// command line counts as if it stood alone. A command line is enough if and only if, at its end, a
/// token was named.
pub proof fn law_headless_options_set_what_they_name(
    o: OptionsView,
    value: Seq<char>,
    rest: Seq<Seq<char>>,
)
    ensures
        ({
            let then = |t: OptionsView| ghost::with_args(t, rest, 0);
            let said = |option: Seq<char>| ghost::with_args(o, seq![option, value] + rest, 0);
            &&& said("--token"@) == then(OptionsView { token: value, ..o })
            &&& said("--say"@) == then(OptionsView { say: Some(value), ..o })
            &&& is_decimal(value) && by_place(value) <= 0xFFFF_FFFF ==> said("--challenge"@) == then(
                OptionsView { challenge: Some(by_place(value) as u32), ..o },
            )
            &&& !value.contains(':') ==> said("--server"@) == then(
                OptionsView { host: value, ..o },
            )
            &&& said("--map"@) == (match ghost::with_map(o, value) {
                Ok(t) => then(t),
                Err(e) => Err(e),
            })
            &&& said("--at"@) == (match ghost::with_tile(o, value) {
                Ok(t) => then(t),
                Err(e) => Err(e),
            })
            &&& ghost::with_args(o, seq!["--still"@] + rest, 0) == then(
                OptionsView { still: true, ..o },
            )
            &&& ghost::with_args(o, Seq::empty(), 0) is Ok <==> o.token.len() > 0
            &&& o.token.len() > 0 ==> ghost::with_args(o, Seq::empty(), 0) == Ok::<
                OptionsView,
                OptionErrorView,
            >(o)
        }),
{
    lemma_options();
    lemma_ghost_two(o, "--token"@, value, rest);
    lemma_ghost_two(o, "--say"@, value, rest);
    lemma_ghost_two(o, "--challenge"@, value, rest);
    lemma_ghost_two(o, "--server"@, value, rest);
    lemma_ghost_two(o, "--map"@, value, rest);
    lemma_ghost_two(o, "--at"@, value, rest);
    lemma_ghost_shift(OptionsView { still: true, ..o }, seq!["--still"@], rest, 0);
    assert((seq!["--still"@] + rest)[0] == "--still"@);
    if is_decimal(value) {
        lemma_plain(value);
        law_natural_numbers_are_read_by_place(value, 0xFFFF_FFFF);
    }
    if !value.contains(':') {
        law_the_last_place_is_found(Seq::empty(), ':', value);
    }
}

/// Each step of the path is one tile in the direction that the player then faces: down, up, left or
/// right for one, two, three or four.
pub proof fn law_steps_go_where_the_player_faces(pose: Pose, k: int)
    requires
        0 <= k < 8,
        -32768 < pose.x < 32767,
        -32768 < pose.y < 32767,
    ensures
        ({
            let to = ghost::stepped(pose, k);
            &&& to.map == pose.map && to.elevation == pose.elevation && to.moving == pose.moving
            &&& to.facing == 1 ==> to.x == pose.x && to.y == pose.y + 1
            &&& to.facing == 2 ==> to.x == pose.x && to.y == pose.y - 1
            &&& to.facing == 3 ==> to.x == pose.x - 1 && to.y == pose.y
            &&& to.facing == 4 ==> to.x == pose.x + 1 && to.y == pose.y
            &&& 1 <= to.facing <= 4
        }),
{
}

} // verus!
