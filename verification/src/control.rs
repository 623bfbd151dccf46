//! The line-based local control socket that `0xinctl` talks to.
//!
//! A request is one line: `quit`, `workspaces`, `config-error`,
//! `wallpaper PATH`, `wallpaper clear`, or `rotate NAME normal|90|180|270`.
//! The socket itself, and carrying a request out, are the shell's; which
//! request a line is, what `0xinctl` sends for its arguments, and the text
//! of the replies, are decided here.

use vstd::prelude::*;
use crate::desk::{wf, Desk, DeskV, OutputEntry, WorkspaceV};
use crate::plugins::{append_lit, strings_view};
use crate::text::{chars_of, digits_val, eq_lit, parse_uint, rsplit_once, rsplit_once_exec, string_of};

verus! {

/// What a request line asks for.
#[derive(Debug, PartialEq, Eq)]
pub enum Request {
    /// The session is locked: nothing is done.
    Locked,
    Quit,
    /// Which workspace each output shows and which workspaces hold windows.
    Workspaces,
    /// Why the configuration failed to load, if it did.
    ConfigError,
    /// Rotate the named output to a `wl_output` transform (0 to 3).
    Rotate { name: String, transform: u32 },
    /// `rotate` with an argument that is not `NAME normal|90|180|270`.
    BadRotate,
    WallpaperClear,
    /// `wallpaper` with nothing after it.
    WallpaperEmpty,
    Wallpaper(String),
    /// Not a request this socket knows.
    Unknown,
}

/// The mathematical form of a [`Request`]: its strings as characters.
pub ghost enum RequestV {
    Locked,
    Quit,
    Workspaces,
    ConfigError,
    Rotate { name: Seq<char>, transform: u32 },
    BadRotate,
    WallpaperClear,
    WallpaperEmpty,
    Wallpaper(Seq<char>),
    Unknown,
}

impl View for Request {
    type V = RequestV;

    open spec fn view(&self) -> RequestV {
        match self {
            Request::Locked => RequestV::Locked,
            Request::Quit => RequestV::Quit,
            Request::Workspaces => RequestV::Workspaces,
            Request::ConfigError => RequestV::ConfigError,
            Request::Rotate { name, transform } => RequestV::Rotate { name: name@, transform: *transform },
            Request::BadRotate => RequestV::BadRotate,
            Request::WallpaperClear => RequestV::WallpaperClear,
            Request::WallpaperEmpty => RequestV::WallpaperEmpty,
            Request::Wallpaper(p) => RequestV::Wallpaper(p@),
            Request::Unknown => RequestV::Unknown,
        }
    }
}

/// The rest of `s` after `prefix`, if it starts with it.
pub open spec fn strip_prefix(s: Seq<char>, prefix: Seq<char>) -> Option<Seq<char>> {
    if prefix.len() <= s.len() && s.take(prefix.len() as int) == prefix {
        Some(s.skip(prefix.len() as int))
    } else {
        None
    }
}

fn strip_prefix_exec(s: &Vec<char>, prefix: &str) -> (r: Option<Vec<char>>)
    ensures
        match strip_prefix(s@, prefix@) {
            Some(rest) => r matches Some(x) && x@ == rest,
            None => r is None,
        },
{
    let p = chars_of(prefix);
    if p.len() > s.len() {
        return None;
    }
    let mut i: usize = 0;
    while i < p.len()
        invariant
            p.len() <= s.len(),
            p@ == prefix@,
            i <= p.len(),
            forall|k: int| 0 <= k < i ==> s@[k] == p@[k],
        decreases p.len() - i,
    {
        if s[i] != p[i] {
            proof {
                assert(s@.take(p.len() as int)[i as int] != p@[i as int]);
            }
            return None;
        }
        i += 1;
    }
    assert(s@.take(p.len() as int) =~= p@);
    let mut rest: Vec<char> = Vec::new();
    let mut j = p.len();
    while j < s.len()
        invariant
            p.len() <= j <= s.len(),
            rest@ == s@.subrange(p.len() as int, j as int),
        decreases s.len() - j,
    {
        rest.push(s[j]);
        assert(rest@ =~= s@.subrange(p.len() as int, j + 1));
        j += 1;
    }
    assert(rest@ =~= s@.skip(p.len() as int));
    Some(rest)
}

/// The `wl_output` transform a rotation names.
pub open spec fn spec_transform(t: Seq<char>) -> Option<u32> {
    if t == "normal"@ {
        Some(0)
    } else if t == "90"@ {
        Some(1)
    } else if t == "180"@ {
        Some(2)
    } else if t == "270"@ {
        Some(3)
    } else {
        None
    }
}

/// `NAME normal|90|180|270`: the output's name (everything before the last
/// space, not empty) and the transform. Only the four unflipped rotations.
pub open spec fn spec_parse_rotate(arg: Seq<char>) -> Option<(Seq<char>, u32)> {
    match rsplit_once(arg, ' ') {
        Some((name, t)) => match spec_transform(t) {
            Some(x) => if name.len() > 0 {
                Some((name, x))
            } else {
                None
            },
            None => None,
        },
        None => None,
    }
}

/// The rotation word of a `rotate` argument: what follows its last space.
pub open spec fn rotation_word(arg: Seq<char>) -> Seq<char> {
    match rsplit_once(arg, ' ') {
        Some((_, t)) => t,
        None => Seq::empty(),
    }
}

/// A rotation request only ever names one of the four unflipped
/// transforms, a quarter turn per step: `normal` is transform 0, and a
/// rotation by `d` degrees is transform `d / 90`.
pub proof fn law_rotation_is_a_quarter_turn(arg: Seq<char>)
    ensures
        spec_parse_rotate(arg) matches Some((_, x)) ==> {
            &&& x < 4
            &&& (rotation_word(arg) == "normal"@ <==> x == 0)
            &&& x > 0 ==> parse_uint(rotation_word(arg)) == Some(90 * x as int)
        },
{
    reveal_strlit("normal");
    reveal_strlit("90");
    reveal_strlit("180");
    reveal_strlit("270");
    reveal_with_fuel(digits_val, 4);
    let t = rotation_word(arg);
    assert("normal"@.len() == 6 && "90"@.len() == 2 && "180"@.len() == 3 && "270"@.len() == 3);
    assert(digits_val("90"@.drop_last()) == 9);
    assert(digits_val("180"@.drop_last().drop_last()) == 1);
    assert(digits_val("180"@.drop_last()) == 18);
    assert(digits_val("270"@.drop_last().drop_last()) == 2);
    assert(digits_val("270"@.drop_last()) == 27);
}

pub fn parse_rotate(arg: &str) -> (r: Option<(String, u32)>)
    ensures
        match spec_parse_rotate(arg@) {
            Some((name, x)) => r matches Some((n, y)) && n@ == name && y == x,
            None => r is None,
        },
{
    parse_rotate_chars(&chars_of(arg))
}

fn parse_rotate_chars(a: &Vec<char>) -> (r: Option<(String, u32)>)
    ensures
        match spec_parse_rotate(a@) {
            Some((name, x)) => r matches Some((n, y)) && n@ == name && y == x,
            None => r is None,
        },
{
    match rsplit_once_exec(a, ' ') {
        None => None,
        Some((name, t)) => {
            let x: u32 = if eq_lit(&t, "normal") {
                0
            } else if eq_lit(&t, "90") {
                1
            } else if eq_lit(&t, "180") {
                2
            } else if eq_lit(&t, "270") {
                3
            } else {
                return None;
            };
            if name.len() == 0 {
                return None;
            }
            Some((string_of(&name), x))
        },
    }
}

/// What a (trimmed) request line asks for, given whether the session is
/// locked.
pub open spec fn spec_request(locked: bool, req: Seq<char>) -> RequestV {
    if locked {
        RequestV::Locked
    } else if req == "quit"@ {
        RequestV::Quit
    } else if req == "workspaces"@ {
        RequestV::Workspaces
    } else if req == "config-error"@ {
        RequestV::ConfigError
    } else if let Some(arg) = strip_prefix(req, "rotate "@) {
        match spec_parse_rotate(arg) {
            Some((name, x)) => RequestV::Rotate { name, transform: x },
            None => RequestV::BadRotate,
        }
    } else if let Some(arg) = strip_prefix(req, "wallpaper "@) {
        if arg == "clear"@ {
            RequestV::WallpaperClear
        } else if arg.len() == 0 {
            RequestV::WallpaperEmpty
        } else {
            RequestV::Wallpaper(arg)
        }
    } else {
        RequestV::Unknown
    }
}

/// Decide what a request line asks for. The line arrives trimmed.
pub fn decide(locked: bool, request: &str) -> (r: Request)
    ensures
        r@ == spec_request(locked, request@),
{
    if locked {
        return Request::Locked;
    }
    let req = chars_of(request);
    if eq_lit(&req, "quit") {
        return Request::Quit;
    }
    if eq_lit(&req, "workspaces") {
        return Request::Workspaces;
    }
    if eq_lit(&req, "config-error") {
        return Request::ConfigError;
    }
    if let Some(arg) = strip_prefix_exec(&req, "rotate ") {
        return match parse_rotate_chars(&arg) {
            Some((name, transform)) => Request::Rotate { name, transform },
            None => Request::BadRotate,
        };
    }
    if let Some(arg) = strip_prefix_exec(&req, "wallpaper ") {
        if eq_lit(&arg, "clear") {
            return Request::WallpaperClear;
        }
        if arg.len() == 0 {
            return Request::WallpaperEmpty;
        }
        return Request::Wallpaper(string_of(&arg));
    }
    Request::Unknown
}

/// The socket's file name inside `$XDG_RUNTIME_DIR`: the display name with
/// `/` made safe, `default` when there is none.
pub open spec fn spec_socket_name(display: Option<Seq<char>>) -> Seq<char> {
    let d = match display {
        Some(d) => d,
        None => "default"@,
    };
    "0xin-control-"@ + d.map_values(|c: char| if c == '/' { '_' } else { c }) + ".sock"@
}

pub fn socket_name(display: Option<&str>) -> (r: String)
    ensures
        r@ == spec_socket_name(crate::plugins::opt_str(display)),
{
    let d = match display {
        Some(d) => chars_of(d),
        None => chars_of("default"),
    };
    let mut out = chars_of("0xin-control-");
    let ghost base = out@;
    let mut i: usize = 0;
    while i < d.len()
        invariant
            i <= d.len(),
            out@ == base + d@.take(i as int).map_values(|c: char| if c == '/' { '_' } else { c }),
        decreases d.len() - i,
    {
        let c = d[i];
        out.push(if c == '/' { '_' } else { c });
        assert(d@.take(i + 1).map_values(|c: char| if c == '/' { '_' } else { c }) =~= d@.take(i as int).map_values(
            |c: char| if c == '/' { '_' } else { c },
        ).push(if c == '/' { '_' } else { c }));
        assert(out@ =~= base + d@.take(i + 1).map_values(|c: char| if c == '/' { '_' } else { c }));
        i += 1;
    }
    assert(d@.take(d.len() as int) =~= d@);
    let tail = chars_of(".sock");
    let mut j: usize = 0;
    let ghost mid = out@;
    while j < tail.len()
        invariant
            j <= tail.len(),
            out@ == mid + tail@.take(j as int),
        decreases tail.len() - j,
    {
        out.push(tail[j]);
        assert(out@ =~= mid + tail@.take(j + 1));
        j += 1;
    }
    assert(tail@.take(tail.len() as int) =~= tail@);
    string_of(&out)
}

/// The request line `0xinctl` sends for its arguments: `quit`,
/// `workspaces`, `config-error`, `wallpaper clear` or `wallpaper PATH`;
/// `None` means a usage error.
/// `extra` says whether more arguments followed.
pub open spec fn spec_ctl_request(command: Option<Seq<char>>, arg: Option<Seq<char>>, extra: bool) -> Option<Seq<char>> {
    match (command, arg, extra) {
        (Some(c), None, false) => if c == "quit"@ || c == "workspaces"@ || c == "config-error"@ {
            Some(c + "\n"@)
        } else {
            None
        },
        (Some(c), Some(a), false) => if c == "wallpaper"@ {
            Some("wallpaper "@ + a + "\n"@)
        } else {
            None
        },
        _ => None,
    }
}

pub fn ctl_request(command: Option<&str>, arg: Option<&str>, extra: bool) -> (r: Option<String>)
    ensures
        match spec_ctl_request(crate::plugins::opt_str(command), crate::plugins::opt_str(arg), extra) {
            Some(line) => r matches Some(x) && x@ == line,
            None => r is None,
        },
{
    if extra {
        return None;
    }
    let c = match command {
        Some(c) => chars_of(c),
        None => return None,
    };
    match arg {
        None => if eq_lit(&c, "quit") || eq_lit(&c, "workspaces") || eq_lit(&c, "config-error") {
            let mut line = c;
            let ghost base = line@;
            line.push('\n');
            proof {
                reveal_strlit("\n");
                assert(line@ =~= base + "\n"@);
            }
            Some(string_of(&line))
        } else {
            None
        },
        Some(a) => if eq_lit(&c, "wallpaper") {
            let mut line = chars_of("wallpaper ");
            let av = chars_of(a);
            let ghost base = line@;
            let mut i: usize = 0;
            while i < av.len()
                invariant
                    i <= av.len(),
                    line@ == base + av@.take(i as int),
                decreases av.len() - i,
            {
                line.push(av[i]);
                assert(line@ =~= base + av@.take(i + 1));
                i += 1;
            }
            assert(av@.take(av.len() as int) =~= av@);
            line.push('\n');
            proof {
                reveal_strlit("\n");
                assert(line@ =~= "wallpaper "@ + a@ + "\n"@);
            }
            Some(string_of(&line))
        } else {
            None
        },
    }
}

impl Request {
    /// The reply for a request that is answered without doing anything;
    /// `None` for the ones the shell carries out.
    pub fn immediate_reply(&self) -> (r: Option<&'static str>)
        ensures
            r matches Some(x) ==> x@ == spec_immediate_reply(self@),
            r is None <==> spec_immediate_reply(self@).len() == 0,
    {
        proof {
            reveal_strlit("error session is locked\n");
            reveal_strlit("error expected `rotate NAME normal|90|180|270`\n");
            reveal_strlit("error wallpaper path is empty\n");
            reveal_strlit("error expected `quit`, `workspaces`, `config-error`, `wallpaper PATH`, `wallpaper clear`, or `rotate NAME normal|90|180|270`\n");
        }
        match self {
            Request::Locked => Some("error session is locked\n"),
            Request::BadRotate => Some("error expected `rotate NAME normal|90|180|270`\n"),
            Request::WallpaperEmpty => Some("error wallpaper path is empty\n"),
            Request::Unknown => Some(
                "error expected `quit`, `workspaces`, `config-error`, `wallpaper PATH`, `wallpaper clear`, or `rotate NAME normal|90|180|270`\n",
            ),
            _ => None,
        }
    }
}

/// The reply line for a request answered without doing anything; empty for
/// the ones that are carried out.
pub open spec fn spec_immediate_reply(r: RequestV) -> Seq<char> {
    match r {
        RequestV::Locked => "error session is locked\n"@,
        RequestV::BadRotate => "error expected `rotate NAME normal|90|180|270`\n"@,
        RequestV::WallpaperEmpty => "error wallpaper path is empty\n"@,
        RequestV::Unknown => "error expected `quit`, `workspaces`, `config-error`, `wallpaper PATH`, `wallpaper clear`, or `rotate NAME normal|90|180|270`\n"@,
        _ => Seq::empty(),
    }
}

/// The reply line once a request was carried out: `ok`, or `error` and why.
pub open spec fn spec_reply(outcome: Result<(), Seq<char>>) -> Seq<char> {
    match outcome {
        Ok(()) => "ok\n"@,
        Err(e) => "error "@ + e + "\n"@,
    }
}

pub fn reply(outcome: &Result<(), String>) -> (r: String)
    ensures
        r@ == spec_reply(match outcome {
            Ok(()) => Ok(()),
            Err(e) => Err(e@),
        }),
{
    match outcome {
        Ok(()) => string_of(&chars_of("ok\n")),
        Err(e) => {
            let mut line = chars_of("error ");
            let ev = chars_of(e.as_str());
            let ghost base = line@;
            let mut i: usize = 0;
            while i < ev.len()
                invariant
                    i <= ev.len(),
                    line@ == base + ev@.take(i as int),
                decreases ev.len() - i,
            {
                line.push(ev[i]);
                assert(line@ =~= base + ev@.take(i + 1));
                i += 1;
            }
            assert(ev@.take(ev.len() as int) =~= ev@);
            line.push('\n');
            proof {
                reveal_strlit("\n");
                assert(line@ =~= "error "@ + e@ + "\n"@);
            }
            string_of(&line)
        },
    }
}

/// The digit for `n`, from 0 to 9.
pub open spec fn digit_char(n: int) -> char {
    (48 + n) as char
}

/// `output NAME N`: an output and the workspace it shows, counted from 1.
pub open spec fn output_line(name: Seq<char>, o: OutputEntry) -> Seq<char> {
    "output "@ + name + seq![' ', digit_char(o.workspace + 1), '\n']
}

/// `workspace N occupied` or `workspace N empty`, for workspace `n`
/// counted from 0.
pub open spec fn workspace_line(n: int, ws: WorkspaceV) -> Seq<char> {
    "workspace "@ + seq![digit_char(n + 1)] + (if ws.windows.len() > 0 {
        " occupied\n"@
    } else {
        " empty\n"@
    })
}

/// The lines for the first `k` outputs.
pub open spec fn output_lines(names: Seq<Seq<char>>, outs: Seq<OutputEntry>, k: nat) -> Seq<char>
    decreases k,
{
    if k == 0 {
        Seq::empty()
    } else {
        output_lines(names, outs, (k - 1) as nat) + output_line(names[k - 1], outs[k - 1])
    }
}

/// The lines for the first `k` workspaces.
pub open spec fn workspace_lines(wss: Seq<WorkspaceV>, k: nat) -> Seq<char>
    decreases k,
{
    if k == 0 {
        Seq::empty()
    } else {
        workspace_lines(wss, (k - 1) as nat) + workspace_line(k - 1, wss[k - 1])
    }
}

/// The reply to `workspaces`: `ok`, then a line per output naming the
/// workspace it shows, then a line per workspace saying whether it holds a
/// window. `names` are the outputs' connector names, in output order.
pub open spec fn spec_workspaces_reply(names: Seq<Seq<char>>, d: DeskV) -> Seq<char> {
    "ok\n"@ + output_lines(names, d.outputs, d.outputs.len()) + workspace_lines(
        d.workspaces,
        d.workspaces.len(),
    )
}

fn append_chars(v: &mut Vec<char>, s: &Vec<char>)
    ensures
        final(v)@ == old(v)@ + s@,
{
    let mut j: usize = 0;
    while j < s.len()
        invariant
            j <= s.len(),
            v@ == old(v)@ + s@.take(j as int),
        decreases s.len() - j,
    {
        v.push(s[j]);
        assert(v@ =~= old(v)@ + s@.take(j + 1));
        j += 1;
    }
    assert(s@.take(s.len() as int) =~= s@);
}

pub fn workspaces_reply(names: &Vec<String>, desk: &Desk) -> (r: String)
    requires
        wf(desk@),
        names.len() == desk@.outputs.len(),
    ensures
        r@ == spec_workspaces_reply(strings_view(names@), desk@),
{
    let ghost nv = strings_view(names@);
    let mut out: Vec<char> = Vec::new();
    append_lit(&mut out, "ok\n");
    let ghost head = out@;
    let mut i: usize = 0;
    while i < desk.outputs.len()
        invariant
            wf(desk@),
            names.len() == desk@.outputs.len(),
            nv == strings_view(names@),
            i <= desk.outputs.len(),
            out@ == head + output_lines(nv, desk@.outputs, i as nat),
        decreases desk.outputs.len() - i,
    {
        let ghost before = out@;
        append_lit(&mut out, "output ");
        append_chars(&mut out, &chars_of(names[i].as_str()));
        out.push(' ');
        let n: u8 = desk.outputs[i].workspace as u8 + 49;
        out.push(n as char);
        out.push('\n');
        proof {
            assert(nv[i as int] == names@[i as int]@);
            assert(desk@.outputs[i as int].workspace < 9);
            assert(out@ =~= before + output_line(nv[i as int], desk@.outputs[i as int]));
        }
        i += 1;
    }
    let ghost mid = out@;
    let mut k: usize = 0;
    while k < desk.workspaces.len()
        invariant
            wf(desk@),
            k <= desk.workspaces.len(),
            out@ == mid + workspace_lines(desk@.workspaces, k as nat),
        decreases desk.workspaces.len() - k,
    {
        let ghost before = out@;
        append_lit(&mut out, "workspace ");
        let n: u8 = k as u8 + 49;
        out.push(n as char);
        if desk.workspaces[k].windows.len() > 0 {
            append_lit(&mut out, " occupied\n");
        } else {
            append_lit(&mut out, " empty\n");
        }
        proof {
            assert(desk@.workspaces[k as int] == desk.workspaces@[k as int]@);
            assert(out@ =~= before + workspace_line(k as int, desk@.workspaces[k as int]));
        }
        k += 1;
    }
    proof {
        assert(out@ =~= spec_workspaces_reply(nv, desk@));
    }
    string_of(&out)
}

/// The reply to `config-error`: `ok`, then the reason the configuration
/// failed to load, when it did.
pub open spec fn spec_config_error_reply(error: Option<Seq<char>>) -> Seq<char> {
    match error {
        Some(m) => "ok\n"@ + m + "\n"@,
        None => "ok\n"@,
    }
}

pub fn config_error_reply(error: &Option<String>) -> (r: String)
    ensures
        r@ == spec_config_error_reply(match error {
            Some(m) => Some(m@),
            None => None,
        }),
{
    let mut out: Vec<char> = Vec::new();
    append_lit(&mut out, "ok\n");
    if let Some(m) = error {
        append_lit(&mut out, m.as_str());
        append_lit(&mut out, "\n");
    }
    string_of(&out)
}

} // verus!
