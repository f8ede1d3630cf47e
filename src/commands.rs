//! The command model: one command and the argument slots it fills from the
//! command line, left to right.
use vstd::prelude::*;

use crate::diagnostic::Diagnostic;
use crate::text::{chars_of, dec, parse_decimal, parse_u32, same_chars, split, split_on, string_of};

verus! {

/// The shortcut and the path given to a command.
#[derive(Debug, Default)]
pub struct ShortPath {
    /// Shortcut entered by the user.
    pub short: Option<String>,
    /// Path of the directory, or for a lookup a subpath under it.
    pub path: Option<String>,
}

/// A command and its arguments.
#[derive(Debug)]
pub enum Cmd {
    /// Resolve a shortcut to its directory.
    Get(ShortPath),
    /// Give a directory a shortcut.
    Add(ShortPath),
    /// Move a shortcut's directory to a new path.
    Edit(ShortPath),
    /// Remove a shortcut; the empty string stands for "not given yet".
    Rm(String),
    /// Delete the record of a path; the empty string stands for "not given yet".
    Del(String),
    /// Lower every priority by an amount; 0 stands for "not given yet".
    Decr(u32),
    /// Set every priority to 0.
    Reset,
}

/// What a command holds, as plain sequences.
pub enum CmdView {
    Get(Option<Seq<char>>, Option<Seq<char>>),
    Add(Option<Seq<char>>, Option<Seq<char>>),
    Edit(Option<Seq<char>>, Option<Seq<char>>),
    Rm(Seq<char>),
    Del(Seq<char>),
    Decr(u32),
    Reset,
}

pub open spec fn opt_view(o: Option<String>) -> Option<Seq<char>> {
    match o {
        Some(s) => Some(s@),
        None => None,
    }
}

impl View for Cmd {
    type V = CmdView;

    open spec fn view(&self) -> CmdView {
        match self {
            Cmd::Get(sp) => CmdView::Get(opt_view(sp.short), opt_view(sp.path)),
            Cmd::Add(sp) => CmdView::Add(opt_view(sp.short), opt_view(sp.path)),
            Cmd::Edit(sp) => CmdView::Edit(opt_view(sp.short), opt_view(sp.path)),
            Cmd::Rm(s) => CmdView::Rm(s@),
            Cmd::Del(s) => CmdView::Del(s@),
            Cmd::Decr(n) => CmdView::Decr(*n),
            Cmd::Reset => CmdView::Reset,
        }
    }
}

/// The command after one more argument, or why the argument is refused.
pub open spec fn appended(c: CmdView, v: Seq<char>) -> Result<CmdView, Diagnostic> {
    match c {
        CmdView::Reset => Err(Diagnostic::NoArgumentExpected),
        CmdView::Decr(n) => if n == 0 {
            match parse_u32(v) {
                Some(k) => Ok(CmdView::Decr(k)),
                None => Err(Diagnostic::NotANumber),
            }
        } else {
            Err(Diagnostic::TooManyArguments)
        },
        CmdView::Get(s, p) => if s is None {
            Ok(CmdView::Get(Some(v), p))
        } else if p is None {
            Ok(CmdView::Get(s, Some(v)))
        } else {
            Err(Diagnostic::TooManyArguments)
        },
        CmdView::Add(s, p) => if s is None {
            Ok(CmdView::Add(Some(v), p))
        } else if p is None {
            Ok(CmdView::Add(s, Some(v)))
        } else {
            Err(Diagnostic::TooManyArguments)
        },
        CmdView::Edit(s, p) => if s is None {
            Ok(CmdView::Edit(Some(v), p))
        } else if p is None {
            Ok(CmdView::Edit(s, Some(v)))
        } else {
            Err(Diagnostic::TooManyArguments)
        },
        CmdView::Rm(s) => if s.len() == 0 {
            Ok(CmdView::Rm(v))
        } else {
            Err(Diagnostic::TooManyArguments)
        },
        CmdView::Del(s) => if s.len() == 0 {
            Ok(CmdView::Del(v))
        } else {
            Err(Diagnostic::TooManyArguments)
        },
    }
}

/// Every slot of the command holds a value.
pub open spec fn is_complete(c: CmdView) -> bool {
    match c {
        CmdView::Get(s, p) | CmdView::Add(s, p) | CmdView::Edit(s, p) => s is Some && p is Some,
        CmdView::Rm(s) | CmdView::Del(s) => s.len() > 0,
        CmdView::Decr(n) => n != 0,
        CmdView::Reset => true,
    }
}

/// The last segment of a path, after its last `/` or `\`.
pub open spec fn last_segment(path: Seq<char>) -> Seq<char> {
    split(split(path, '/').last(), '\\').last()
}

/// An add or edit whose path is still missing takes the current directory
/// as path and, when its shortcut is missing too, the directory's name.
pub open spec fn with_defaults(c: CmdView, here: Seq<char>) -> CmdView {
    match c {
        CmdView::Add(s, p) => if p is None {
            CmdView::Add(
                if s is None {
                    Some(last_segment(here))
                } else {
                    s
                },
                Some(here),
            )
        } else {
            c
        },
        CmdView::Edit(s, p) => if p is None {
            CmdView::Edit(
                if s is None {
                    Some(last_segment(here))
                } else {
                    s
                },
                Some(here),
            )
        } else {
            c
        },
        _ => c,
    }
}

/// One of the seven keywords that name a command.
pub open spec fn is_keyword(k: Seq<char>) -> bool {
    k == "-get"@ || k == "-add"@ || k == "-edit"@ || k == "-remove"@ || k == "-reset"@ || k
        == "-delete"@ || k == "-decrement"@
}

/// The command named by a keyword (see `is_keyword`), with every slot unset.
pub open spec fn keyword_cmd(k: Seq<char>) -> CmdView {
    if k == "-get"@ {
        CmdView::Get(None, None)
    } else if k == "-add"@ {
        CmdView::Add(None, None)
    } else if k == "-edit"@ {
        CmdView::Edit(None, None)
    } else if k == "-remove"@ {
        CmdView::Rm(Seq::empty())
    } else if k == "-reset"@ {
        CmdView::Reset
    } else if k == "-delete"@ {
        CmdView::Del(Seq::empty())
    } else {
        CmdView::Decr(0)
    }
}

pub open spec fn or_empty(o: Option<Seq<char>>) -> Seq<char> {
    match o {
        Some(s) => s,
        None => Seq::empty(),
    }
}

/// A short human-readable form of the command, such as `<add name /path>`.
pub open spec fn label_of(c: CmdView) -> Seq<char> {
    match c {
        CmdView::Get(s, p) => "<goto "@ + or_empty(s) + " "@ + or_empty(p) + ">"@,
        CmdView::Add(s, p) => "<add "@ + or_empty(s) + " "@ + or_empty(p) + ">"@,
        CmdView::Edit(s, p) => "<edit "@ + or_empty(s) + " "@ + or_empty(p) + ">"@,
        CmdView::Rm(s) => "<rm "@ + s + ">"@,
        CmdView::Del(p) => "<del "@ + p + ">"@,
        CmdView::Decr(n) => "<decr "@ + dec(n as nat) + ">"@,
        CmdView::Reset => "<reset>"@,
    }
}

fn clone_opt(o: &Option<String>) -> (r: Option<String>)
    ensures
        opt_view(r) == opt_view(*o),
{
    match o {
        Some(s) => Some(s.clone()),
        None => None,
    }
}

fn chars_opt(o: &Option<String>) -> (r: Vec<char>)
    ensures
        r@ == or_empty(opt_view(*o)),
{
    match o {
        Some(s) => chars_of(s.as_str()),
        None => Vec::new(),
    }
}

/// The last segment of a path, after its last `/` or `\`.
pub fn path2dir(path: &str) -> (r: String)
    ensures
        r@ == last_segment(path@),
{
    let v = chars_of(path);
    let parts = split_on(&v, '/');
    proof {
        crate::text::lemma_split_len(v@, '/');
    }
    let last = &parts[parts.len() - 1];
    let parts2 = split_on(last, '\\');
    proof {
        crate::text::lemma_split_len(last@, '\\');
    }
    string_of(&parts2[parts2.len() - 1])
}

impl Default for Cmd {
    fn default() -> (r: Self)
        ensures
            r@ == CmdView::Get(None, None),
    {
        Cmd::Get(ShortPath { short: None, path: None })
    }
}

impl Cmd {
    /// The command with `value` in its next empty slot, or why it takes no more.
    fn with_value(&self, value: String) -> (r: Result<Cmd, Diagnostic>)
        ensures
            match (r, appended(self@, value@)) {
                (Ok(c), Ok(v)) => c@ == v,
                (Err(e), Err(f)) => e == f,
                _ => false,
            },
    {
        match self {
            Cmd::Reset => Err(Diagnostic::NoArgumentExpected),
            Cmd::Decr(n) => {
                if *n == 0 {
                    let v = chars_of(value.as_str());
                    match parse_decimal(&v) {
                        Some(k) => Ok(Cmd::Decr(k)),
                        None => Err(Diagnostic::NotANumber),
                    }
                } else {
                    Err(Diagnostic::TooManyArguments)
                }
            },
            Cmd::Get(sp) => {
                if sp.short.is_none() {
                    Ok(Cmd::Get(ShortPath { short: Some(value), path: clone_opt(&sp.path) }))
                } else if sp.path.is_none() {
                    Ok(Cmd::Get(ShortPath { short: clone_opt(&sp.short), path: Some(value) }))
                } else {
                    Err(Diagnostic::TooManyArguments)
                }
            },
            Cmd::Add(sp) => {
                if sp.short.is_none() {
                    Ok(Cmd::Add(ShortPath { short: Some(value), path: clone_opt(&sp.path) }))
                } else if sp.path.is_none() {
                    Ok(Cmd::Add(ShortPath { short: clone_opt(&sp.short), path: Some(value) }))
                } else {
                    Err(Diagnostic::TooManyArguments)
                }
            },
            Cmd::Edit(sp) => {
                if sp.short.is_none() {
                    Ok(Cmd::Edit(ShortPath { short: Some(value), path: clone_opt(&sp.path) }))
                } else if sp.path.is_none() {
                    Ok(Cmd::Edit(ShortPath { short: clone_opt(&sp.short), path: Some(value) }))
                } else {
                    Err(Diagnostic::TooManyArguments)
                }
            },
            Cmd::Rm(s) => {
                if s.as_str().is_empty() {
                    Ok(Cmd::Rm(value))
                } else {
                    Err(Diagnostic::TooManyArguments)
                }
            },
            Cmd::Del(s) => {
                if s.as_str().is_empty() {
                    Ok(Cmd::Del(value))
                } else {
                    Err(Diagnostic::TooManyArguments)
                }
            },
        }
    }

    /// Puts `value` in the next empty slot. A refused value leaves the
    /// command as it was and says why.
    pub fn append(&mut self, value: String) -> (r: Result<(), Diagnostic>)
        ensures
            match appended(old(self)@, value@) {
                Ok(c) => r is Ok && final(self)@ == c,
                Err(e) => r == Err::<(), Diagnostic>(e) && final(self)@ == old(self)@,
            },
    {
        match self.with_value(value) {
            Ok(c) => {
                *self = c;
                Ok(())
            },
            Err(e) => Err(e),
        }
    }

    /// Whether the next argument goes to the path slot of an add or edit.
    pub fn awaits_path(&self) -> (r: bool)
        ensures
            r == match self@ {
                CmdView::Add(s, p) | CmdView::Edit(s, p) => s is Some && p is None,
                _ => false,
            },
    {
        match self {
            Cmd::Add(sp) | Cmd::Edit(sp) => sp.short.is_some() && sp.path.is_none(),
            _ => false,
        }
    }

    /// For an add or edit: whether its path and whether its shortcut are missing.
    fn open_slots(&self) -> (r: (bool, bool))
        ensures
            r.0 == match self@ {
                CmdView::Add(_, p) | CmdView::Edit(_, p) => p is None,
                _ => false,
            },
            r.1 == match self@ {
                CmdView::Add(s, _) | CmdView::Edit(s, _) => s is None,
                _ => false,
            },
    {
        match self {
            Cmd::Add(sp) | Cmd::Edit(sp) => (sp.path.is_none(), sp.short.is_none()),
            _ => (false, false),
        }
    }

    /// Fills the missing slots of an add or edit from the current directory.
    pub fn fill_defaults(&mut self, here: &str)
        ensures
            final(self)@ == with_defaults(old(self)@, here@),
    {
        let (missing, short_missing) = self.open_slots();
        if missing {
            if short_missing {
                let _ = self.append(path2dir(here));
            }
            let _ = self.append(here.to_owned());
        }
    }

    /// A short human-readable form, such as `<add name /path>`.
    pub fn label(&self) -> (r: String)
        ensures
            r@ == label_of(self@),
    {
        let mut v: Vec<char> = Vec::new();
        match self {
            Cmd::Get(sp) => {
                v = chars_of("<goto ");
                crate::text::extend(&mut v, &chars_opt(&sp.short));
                crate::text::extend(&mut v, &chars_of(" "));
                crate::text::extend(&mut v, &chars_opt(&sp.path));
            },
            Cmd::Add(sp) => {
                v = chars_of("<add ");
                crate::text::extend(&mut v, &chars_opt(&sp.short));
                crate::text::extend(&mut v, &chars_of(" "));
                crate::text::extend(&mut v, &chars_opt(&sp.path));
            },
            Cmd::Edit(sp) => {
                v = chars_of("<edit ");
                crate::text::extend(&mut v, &chars_opt(&sp.short));
                crate::text::extend(&mut v, &chars_of(" "));
                crate::text::extend(&mut v, &chars_opt(&sp.path));
            },
            Cmd::Rm(s) => {
                v = chars_of("<rm ");
                crate::text::extend(&mut v, &chars_of(s.as_str()));
            },
            Cmd::Del(p) => {
                v = chars_of("<del ");
                crate::text::extend(&mut v, &chars_of(p.as_str()));
            },
            Cmd::Decr(n) => {
                v = chars_of("<decr ");
                crate::text::extend(&mut v, &crate::text::decimal(*n as u64));
            },
            Cmd::Reset => {
                v = chars_of("<reset");
            },
        }
        crate::text::extend(&mut v, &chars_of(">"));
        proof {
            if self@ is Reset {
                reveal_strlit("<reset>");
                reveal_strlit("<reset");
                reveal_strlit(">");
            }
        }
        string_of(&v)
    }
}

/// The command named by a keyword such as `-add`; any other string is
/// refused as an unknown command.
pub fn keyword_to_cmd(k: &str) -> (r: Result<Cmd, Diagnostic>)
    ensures
        match r {
            Ok(c) => is_keyword(k@) && c@ == keyword_cmd(k@),
            Err(e) => !is_keyword(k@) && e == Diagnostic::UnknownCommand,
        },
{
    let v = chars_of(k);
    if same_chars(&v, &chars_of("-get")) {
        Ok(Cmd::Get(ShortPath { short: None, path: None }))
    } else if same_chars(&v, &chars_of("-add")) {
        Ok(Cmd::Add(ShortPath { short: None, path: None }))
    } else if same_chars(&v, &chars_of("-edit")) {
        Ok(Cmd::Edit(ShortPath { short: None, path: None }))
    } else if same_chars(&v, &chars_of("-remove")) {
        Ok(Cmd::Rm(String::new()))
    } else if same_chars(&v, &chars_of("-reset")) {
        Ok(Cmd::Reset)
    } else if same_chars(&v, &chars_of("-delete")) {
        Ok(Cmd::Del(String::new()))
    } else if same_chars(&v, &chars_of("-decrement")) {
        Ok(Cmd::Decr(0))
    } else {
        Err(Diagnostic::UnknownCommand)
    }
}

/// Conversion of a keyword to the command it names.
pub trait ToCmd {
    fn to_cmd(&self) -> Result<Cmd, Diagnostic>;
}

impl ToCmd for str {
    fn to_cmd(&self) -> (r: Result<Cmd, Diagnostic>)
        ensures
            match r {
                Ok(c) => is_keyword(self@) && c@ == keyword_cmd(self@),
                Err(e) => !is_keyword(self@) && e == Diagnostic::UnknownCommand,
            },
    {
        keyword_to_cmd(self)
    }
}

impl ToCmd for String {
    fn to_cmd(&self) -> (r: Result<Cmd, Diagnostic>)
        ensures
            match r {
                Ok(c) => is_keyword(self@) && c@ == keyword_cmd(self@),
                Err(e) => !is_keyword(self@) && e == Diagnostic::UnknownCommand,
            },
    {
        keyword_to_cmd(self.as_str())
    }
}

/// Filling the defaults of the last command read, if there is one.
pub trait AppendDefault {
    fn append_default(self, value: &str);
}

impl<'a> AppendDefault for Option<&'a mut Cmd> {
    fn append_default(self, value: &str)
        ensures
            match self {
                Some(c) => (*final(c))@ == with_defaults((*c)@, value@),
                None => true,
            },
    {
        match self {
            Some(cmd) => cmd.fill_defaults(value),
            None => {},
        }
    }
}

} // verus!
