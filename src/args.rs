//! The command-line reader: it turns the tokens after the program name into
//! commands, filling each command's slots from the tokens that follow it.
use vstd::prelude::*;

use crate::commands::{
    Cmd, CmdView, ShortPath, appended, keyword_cmd, keyword_to_cmd, with_defaults,
};
use crate::diagnostic::Diagnostic;
use crate::paths::{normal_path, normalize_path};
use crate::text::{chars_of, same_chars, string_of};

verus! {

/// The long name of an option given by an alias; other tokens stand for themselves.
pub open spec fn alias(t: Seq<char>) -> Seq<char> {
    if t == "-a"@ {
        "-add"@
    } else if t == "-rm"@ {
        "-remove"@
    } else if t == "-del"@ {
        "-delete"@
    } else if t == "-decr"@ {
        "-decrement"@
    } else if t == "-p"@ {
        "-pop"@
    } else if t == "?"@ {
        "-state"@
    } else if t == "-nc"@ || t == "!"@ {
        "-noclear"@
    } else if t == "-c"@ {
        "-code"@
    } else if t == "%"@ {
        "-still"@
    } else if t == "-g"@ {
        "-get"@
    } else if t == "-cls"@ {
        "-clear"@
    } else {
        t
    }
}

/// How many arguments an option of the store takes.
pub open spec fn arity(c: Seq<char>) -> Option<nat> {
    if c == "-add"@ || c == "-edit"@ {
        Some(2)
    } else if c == "-remove"@ || c == "-delete"@ || c == "-decrement"@ {
        Some(1)
    } else if c == "-reset"@ {
        Some(0)
    } else {
        None
    }
}

/// The options that do not touch the store.
pub open spec fn is_flag(c: Seq<char>) -> bool {
    c == "-noclear"@ || c == "-code"@ || c == "-still"@ || c == "-pop"@ || c == "-state"@ || c
        == "-clear"@
}

/// What the reader has gathered so far.
pub struct ArgsView {
    pub cmds: Seq<CmdView>,
    pub flags: Seq<Seq<char>>,
    pub get: bool,
    pub issues: Seq<Diagnostic>,
}

/// The last command with its missing add or edit slots taken from `h`.
pub open spec fn fill_last(cmds: Seq<CmdView>, h: Seq<char>) -> Seq<CmdView> {
    if cmds.len() == 0 {
        cmds
    } else {
        cmds.update(cmds.len() - 1, with_defaults(cmds.last(), h))
    }
}

/// The next argument slot of an add or edit is its path.
pub open spec fn wants_path(c: CmdView) -> bool {
    match c {
        CmdView::Add(s, p) | CmdView::Edit(s, p) => s is Some && p is None,
        _ => false,
    }
}

/// One token `t`, with `remaining` tokens after it, the current directory
/// being `h`. An option of the store first completes the command before it
/// with defaults when too few tokens remain for its own arguments; a path
/// for an add or edit is made absolute against `here`.
pub open spec fn token_step(st: ArgsView, t: Seq<char>, remaining: int, here: Seq<char>, h: Seq<char>) -> ArgsView {
    let c = alias(t);
    match arity(c) {
        Some(n) => ArgsView {
            cmds: (if remaining < n {
                fill_last(st.cmds, h)
            } else {
                st.cmds
            }).push(keyword_cmd(c)),
            ..st
        },
        None => if c == "-get"@ {
            ArgsView { cmds: st.cmds.push(CmdView::Get(None, None)), get: true, ..st }
        } else if is_flag(c) {
            ArgsView { flags: st.flags.push(c), ..st }
        } else if st.cmds.len() == 0 {
            ArgsView { cmds: st.cmds.push(CmdView::Get(Some(c), None)), ..st }
        } else {
            let last = st.cmds.last();
            let v = if wants_path(last) {
                normal_path(c, here)
            } else {
                c
            };
            match appended(last, v) {
                Ok(n) => ArgsView { cmds: st.cmds.update(st.cmds.len() - 1, n), ..st },
                Err(e) => ArgsView { issues: st.issues.push(e), ..st },
            }
        },
    }
}

/// The tokens from `i` on; the token `features` ends the reading.
pub open spec fn parse_from(
    toks: Seq<Seq<char>>,
    i: int,
    st: ArgsView,
    here: Seq<char>,
    h: Seq<char>,
) -> ArgsView
    decreases toks.len() - i,
{
    if i < 0 || i >= toks.len() || alias(toks[i]) == "features"@ {
        st
    } else {
        parse_from(toks, i + 1, token_step(st, toks[i], toks.len() - i - 1, here, h), here, h)
    }
}

/// All tokens read: the last command is completed with defaults, and an
/// empty list becomes a lookup of the most used directory.
pub open spec fn parsed_args(toks: Seq<Seq<char>>, here: Seq<char>) -> ArgsView {
    let h = normal_path(here, here);
    let st = parse_from(
        toks,
        0,
        ArgsView { cmds: Seq::empty(), flags: Seq::empty(), get: false, issues: Seq::empty() },
        here,
        h,
    );
    let cmds = fill_last(st.cmds, h);
    ArgsView {
        cmds: if cmds.len() == 0 {
            seq![CmdView::Get(None, None)]
        } else {
            cmds
        },
        ..st
    }
}

pub open spec fn cmd_views(v: Seq<Cmd>) -> Seq<CmdView> {
    v.map_values(|c: Cmd| c@)
}

pub open spec fn string_views(v: Seq<String>) -> Seq<Seq<char>> {
    v.map_values(|s: String| s@)
}

/// The commands, the other options, and whether a bare lookup was asked for.
pub struct ParsedArgs {
    pub cmds: Vec<Cmd>,
    pub flags: Vec<String>,
    pub get: bool,
    pub issues: Vec<Diagnostic>,
}

impl View for ParsedArgs {
    type V = ArgsView;

    open spec fn view(&self) -> ArgsView {
        ArgsView {
            cmds: cmd_views(self.cmds@),
            flags: string_views(self.flags@),
            get: self.get,
            issues: self.issues@,
        }
    }
}

fn is(v: &Vec<char>, lit: &str) -> (b: bool)
    ensures
        b == (v@ == lit@),
{
    same_chars(v, &chars_of(lit))
}

/// The long name of an option given by an alias.
pub fn alias_of(t: &Vec<char>) -> (r: Vec<char>)
    ensures
        r@ == alias(t@),
{
    if is(t, "-a") {
        chars_of("-add")
    } else if is(t, "-rm") {
        chars_of("-remove")
    } else if is(t, "-del") {
        chars_of("-delete")
    } else if is(t, "-decr") {
        chars_of("-decrement")
    } else if is(t, "-p") {
        chars_of("-pop")
    } else if is(t, "?") {
        chars_of("-state")
    } else if is(t, "-nc") || is(t, "!") {
        chars_of("-noclear")
    } else if is(t, "-c") {
        chars_of("-code")
    } else if is(t, "%") {
        chars_of("-still")
    } else if is(t, "-g") {
        chars_of("-get")
    } else if is(t, "-cls") {
        chars_of("-clear")
    } else {
        let mut r: Vec<char> = Vec::new();
        crate::text::extend(&mut r, t);
        r
    }
}

/// How many arguments an option of the store takes.
pub fn arity_of(c: &Vec<char>) -> (r: Option<usize>)
    ensures
        match r {
            Some(n) => arity(c@) == Some(n as nat),
            None => arity(c@) is None,
        },
{
    if is(c, "-add") || is(c, "-edit") {
        Some(2)
    } else if is(c, "-remove") || is(c, "-delete") || is(c, "-decrement") {
        Some(1)
    } else if is(c, "-reset") {
        Some(0)
    } else {
        None
    }
}

/// Whether the option leaves the store alone.
pub fn is_flag_token(c: &Vec<char>) -> (b: bool)
    ensures
        b == is_flag(c@),
{
    is(c, "-noclear") || is(c, "-code") || is(c, "-still") || is(c, "-pop") || is(c, "-state") || is(
        c,
        "-clear",
    )
}

fn fill_last_cmd(cmds: &mut Vec<Cmd>, h: &str)
    ensures
        cmd_views(final(cmds)@) == fill_last(cmd_views(old(cmds)@), h@),
{
    match cmds.pop() {
        Some(mut c) => {
            c.fill_defaults(h);
            cmds.push(c);
            assert(cmd_views(cmds@) == fill_last(cmd_views(old(cmds)@), h@));
        },
        None => {
            assert(cmd_views(cmds@) == fill_last(cmd_views(old(cmds)@), h@));
        },
    }
}

/// Reads the tokens after the program name, `here` being the current
/// directory (see `parsed_args`).
pub fn parse_args(tokens: &Vec<String>, here: &str) -> (r: ParsedArgs)
    ensures
        r@ == parsed_args(string_views(tokens@), here@),
{
    let h = normalize_path(here, here);
    let ghost toks = string_views(tokens@);
    let mut st = ParsedArgs { cmds: Vec::new(), flags: Vec::new(), get: false, issues: Vec::new() };
    assert(cmd_views(st.cmds@) == Seq::<CmdView>::empty());
    assert(string_views(st.flags@) == Seq::<Seq<char>>::empty());
    let ghost start = st@;
    let n = tokens.len();
    let mut i: usize = 0;
    while i < n
        invariant
            i <= n,
            n == tokens.len(),
            toks == string_views(tokens@),
            h@ == normal_path(here@, here@),
            parse_from(toks, 0, start, here@, h@) == parse_from(toks, i as int, st@, here@, h@),
        ensures
            parse_from(toks, 0, start, here@, h@) == st@,
        decreases n - i,
    {
        let t = chars_of(tokens[i].as_str());
        assert(t@ == toks[i as int]);
        let c = alias_of(&t);
        if is(&c, "features") {
            break;
        }
        let ghost st0 = st@;
        let remaining = n - i - 1;
        match arity_of(&c) {
            Some(k) => {
                if remaining < k {
                    fill_last_cmd(&mut st.cmds, h.as_str());
                }
                let ghost mid = st.cmds@;
                match keyword_to_cmd(string_of(&c).as_str()) {
                    Ok(k) => {
                        st.cmds.push(k);
                        assert(cmd_views(st.cmds@) == cmd_views(mid).push(keyword_cmd(c@)));
                    },
                    Err(_) => {},
                }
            },
            None => {
                if is(&c, "-get") {
                    st.get = true;
                    let ghost mid = st.cmds@;
                    st.cmds.push(Cmd::Get(ShortPath { short: None, path: None }));
                    assert(cmd_views(st.cmds@) == cmd_views(mid).push(CmdView::Get(None, None)));
                } else if is_flag_token(&c) {
                    let ghost mid = st.flags@;
                    st.flags.push(string_of(&c));
                    assert(string_views(st.flags@) == string_views(mid).push(c@));
                } else if st.cmds.len() == 0 {
                    let ghost mid = st.cmds@;
                    st.cmds.push(Cmd::Get(ShortPath { short: Some(string_of(&c)), path: None }));
                    assert(cmd_views(st.cmds@) == cmd_views(mid).push(CmdView::Get(Some(c@), None)));
                } else {
                    let ghost pre = st.cmds@;
                    let mut last = st.cmds.pop().unwrap();
                    let ghost mid = st.cmds@;
                    assert(mid == pre.drop_last() && last == pre.last());
                    assert(cmd_views(mid) == st0.cmds.drop_last());
                    assert(last@ == st0.cmds.last());
                    let v = if last.awaits_path() {
                        normalize_path(string_of(&c).as_str(), here)
                    } else {
                        string_of(&c)
                    };
                    match last.append(v) {
                        Ok(()) => {},
                        Err(e) => {
                            st.issues.push(e);
                        },
                    }
                    st.cmds.push(last);
                    assert(st0.cmds.update(st0.cmds.len() - 1, st0.cmds.last()) == st0.cmds);
                    assert(cmd_views(st.cmds@) == cmd_views(mid).push(st.cmds@.last()@));
                    assert(cmd_views(mid).push(st.cmds@.last()@) == st0.cmds.update(
                        st0.cmds.len() - 1,
                        st.cmds@.last()@,
                    ));
                }
            },
        }
        assert(st@ == token_step(st0, toks[i as int], toks.len() - i - 1, here@, h@));
        i = i + 1;
    }
    assert(start == ArgsView {
        cmds: Seq::empty(),
        flags: Seq::empty(),
        get: false,
        issues: Seq::empty(),
    });
    fill_last_cmd(&mut st.cmds, h.as_str());
    if st.cmds.len() == 0 {
        st.cmds.push(Cmd::Get(ShortPath { short: None, path: None }));
        assert(cmd_views(st.cmds@) == seq![CmdView::Get(None, None)]);
    }
    st
}

} // verus!
