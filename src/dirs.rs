//! The shortcut store and the engine that applies one command to it.
//!
//! A store is newline-separated text; each line is `path;short1;...;shortN;priority`.
//! The engine reads every line once, applies the command to the first record
//! it concerns, copies every later line through unchanged, and finally
//! resolves the path the command asks for.
use vstd::prelude::*;

use crate::commands::{Cmd, CmdView, opt_view, or_empty};
use crate::diagnostic::Diagnostic;
use crate::text::{
    chars_of, contains_chars, dec, decimal, extend, join, join_with, parse_decimal, parse_u32,
    same_chars, split, split_on, string_of, trim, trimmed, views,
};

verus! {

// ---------------------------------------------------------------------------
// The model
// ---------------------------------------------------------------------------

/// One record: a directory, its shortcuts in order, and its usage priority.
pub struct RecordView {
    pub path: Seq<char>,
    pub shorts: Seq<Seq<char>>,
    pub priority: u32,
}

/// What a (trimmed) store line holds.
pub enum LineView {
    /// An empty line.
    Blank,
    /// A non-empty line without a `;`.
    Malformed,
    /// A record; the flag tells whether its priority field was a number
    /// (when it is not, the priority reads as 0).
    Entry(RecordView, bool),
}

pub open spec fn record(path: Seq<char>, shorts: Seq<Seq<char>>, priority: u32) -> RecordView {
    RecordView { path, shorts, priority }
}

/// How a trimmed line reads: the first field is the path, the last the
/// priority, those between are the shortcuts.
pub open spec fn parse_line(t: Seq<char>) -> LineView {
    let f = split(t, ';');
    if f.len() < 2 {
        if t.len() == 0 {
            LineView::Blank
        } else {
            LineView::Malformed
        }
    } else {
        let p = parse_u32(f.last());
        LineView::Entry(
            record(
                f[0],
                f.subrange(1, f.len() - 1),
                match p {
                    Some(n) => n,
                    None => 0,
                },
            ),
            p is Some,
        )
    }
}

/// How a record is written: `path;short1;...;shortN;priority`, or
/// `path;priority` for a record without shortcuts.
pub open spec fn line_of(r: RecordView) -> Seq<char> {
    if r.shorts.len() == 0 {
        r.path.push(';') + dec(r.priority as nat)
    } else {
        r.path.push(';') + join(r.shorts, ';').push(';') + dec(r.priority as nat)
    }
}

/// A line followed by its line break.
pub open spec fn nl(s: Seq<char>) -> Seq<char> {
    s.push('\n')
}

/// The shortcuts other than `s`, in order.
pub open spec fn without(ss: Seq<Seq<char>>, s: Seq<char>) -> Seq<Seq<char>>
    decreases ss.len(),
{
    if ss.len() == 0 {
        ss
    } else {
        let w = without(ss.drop_last(), s);
        if ss.last() == s {
            w
        } else {
            w.push(ss.last())
        }
    }
}

/// A command with every slot it needs, as the engine applies it.
pub enum Action {
    /// Shortcut to resolve (none: only the most used directory is sought) and subpath.
    Get(Option<Seq<char>>, Option<Seq<char>>),
    /// Shortcut, path.
    Add(Seq<char>, Seq<char>),
    /// Shortcut, new path.
    Edit(Seq<char>, Seq<char>),
    Rm(Seq<char>),
    Del(Seq<char>),
    Decr(u32),
    Reset,
}

/// The action of a command, or none while a slot it needs is empty.
pub open spec fn action_of(c: CmdView) -> Option<Action> {
    match c {
        CmdView::Get(s, p) => Some(Action::Get(s, p)),
        CmdView::Add(s, p) => if s is Some && p is Some {
            Some(Action::Add(s->0, p->0))
        } else {
            None
        },
        CmdView::Edit(s, p) => if s is Some && p is Some {
            Some(Action::Edit(s->0, p->0))
        } else {
            None
        },
        CmdView::Rm(s) => if s.len() > 0 {
            Some(Action::Rm(s))
        } else {
            None
        },
        CmdView::Del(p) => if p.len() > 0 {
            Some(Action::Del(p))
        } else {
            None
        },
        CmdView::Decr(n) => Some(Action::Decr(n)),
        CmdView::Reset => Some(Action::Reset),
    }
}

/// The state of one scan over the store.
pub struct ScanView {
    /// The command has found its target: later lines are copied through.
    pub success: bool,
    /// The path whose record holds the requested shortcut.
    pub correct: Option<Seq<char>>,
    /// The first path of highest priority among the records without it.
    pub prioritised: Option<Seq<char>>,
    pub max_priority: u32,
    pub issues: Seq<Diagnostic>,
}

pub open spec fn with_issue(st: ScanView, d: Diagnostic) -> ScanView {
    ScanView { issues: st.issues.push(d), ..st }
}

pub open spec fn succeeded(st: ScanView) -> ScanView {
    ScanView { success: true, ..st }
}

/// The priority raised by `incr`, or none where that overflows.
pub open spec fn bumped(p: u32, incr: u32) -> Option<u32> {
    if p + incr <= u32::MAX {
        Some((p + incr) as u32)
    } else {
        None
    }
}

/// The raised priority of the record on line `i` (unchanged on overflow,
/// which is reported).
pub open spec fn raise(st: ScanView, p: u32, incr: u32, i: int) -> (ScanView, u32) {
    match bumped(p, incr) {
        Some(q) => (st, q),
        None => (with_issue(st, Diagnostic::PriorityOverflow(i as usize)), p),
    }
}

pub open spec fn get_step(st: ScanView, r: RecordView, short: Option<Seq<char>>, incr: u32, i: int) -> (
    ScanView,
    Seq<char>,
) {
    if short is Some && r.shorts.contains(short->0) {
        let (st1, p2) = raise(st, r.priority, incr, i);
        (
            ScanView { success: true, correct: Some(r.path), ..st1 },
            nl(line_of(record(r.path, r.shorts, p2))),
        )
    } else if r.priority > st.max_priority {
        (
            ScanView { prioritised: Some(r.path), max_priority: r.priority, ..st },
            nl(line_of(r)),
        )
    } else {
        (st, nl(line_of(r)))
    }
}

pub open spec fn add_step(
    st: ScanView,
    r: RecordView,
    s: Seq<char>,
    p: Seq<char>,
    taken: bool,
    incr: u32,
    i: int,
) -> (ScanView, Seq<char>) {
    if r.shorts.contains(s) {
        (succeeded(with_issue(st, Diagnostic::ShortcutExists)), nl(line_of(r)))
    } else if !taken && r.path == p {
        let (st1, p2) = raise(st, r.priority, incr, i);
        (succeeded(st1), nl(line_of(record(p, r.shorts.push(s), p2))))
    } else {
        (st, nl(line_of(r)))
    }
}

pub open spec fn edit_step(st: ScanView, r: RecordView, s: Seq<char>, p: Seq<char>) -> (
    ScanView,
    Seq<char>,
) {
    if r.path == p {
        (succeeded(with_issue(st, Diagnostic::PathExists)), nl(line_of(r)))
    } else if r.shorts.contains(s) {
        (succeeded(st), nl(line_of(record(p, r.shorts, r.priority))))
    } else {
        (st, nl(line_of(r)))
    }
}

pub open spec fn remove_step(st: ScanView, r: RecordView, s: Seq<char>) -> (ScanView, Seq<char>) {
    if r.shorts.contains(s) {
        if r.shorts.len() == 1 {
            (succeeded(st), Seq::empty())
        } else {
            (succeeded(st), nl(line_of(record(r.path, without(r.shorts, s), r.priority))))
        }
    } else {
        (st, nl(line_of(r)))
    }
}

pub open spec fn delete_step(st: ScanView, r: RecordView, p: Seq<char>) -> (ScanView, Seq<char>) {
    if r.path == p {
        (succeeded(st), Seq::empty())
    } else {
        (st, nl(line_of(r)))
    }
}

/// `p - n`, or 0 where `n` exceeds `p`.
pub open spec fn lowered(p: u32, n: u32) -> u32 {
    if p >= n {
        (p - n) as u32
    } else {
        0
    }
}

/// The effect of the action on one record.
pub open spec fn apply(a: Action, incr: u32, taken: bool, st: ScanView, r: RecordView, i: int) -> (
    ScanView,
    Seq<char>,
) {
    match a {
        Action::Get(s, _) => get_step(st, r, s, incr, i),
        Action::Add(s, p) => add_step(st, r, s, p, taken, incr, i),
        Action::Edit(s, p) => edit_step(st, r, s, p),
        Action::Rm(s) => remove_step(st, r, s),
        Action::Del(p) => delete_step(st, r, p),
        Action::Decr(n) => (st, nl(line_of(record(r.path, r.shorts, lowered(r.priority, n))))),
        Action::Reset => (st, nl(line_of(record(r.path, r.shorts, 0)))),
    }
}

/// What the store's line `i`, `t`, becomes, read as given. Once the
/// command has succeeded the line passes through unchanged, unless it is
/// blank (nothing but whitespace), which is dropped. A record without
/// shortcuts is reported, and kept.
pub open spec fn step(a: Action, incr: u32, taken: bool, st: ScanView, t: Seq<char>, i: int) -> (
    ScanView,
    Seq<char>,
) {
    if st.success {
        (
            st,
            if trim(t).len() == 0 {
                Seq::empty()
            } else {
                nl(t)
            },
        )
    } else {
        match parse_line(t) {
            LineView::Blank => (st, Seq::empty()),
            LineView::Malformed => (with_issue(st, Diagnostic::MalformedLine(i as usize)), Seq::empty()),
            LineView::Entry(r, ok) => {
                let st1 = if ok {
                    st
                } else {
                    with_issue(st, Diagnostic::BadPriority(i as usize))
                };
                let st2 = if r.shorts.len() == 0 {
                    with_issue(st1, Diagnostic::NoShortcut(i as usize))
                } else {
                    st1
                };
                apply(a, incr, taken, st2, r, i)
            },
        }
    }
}

/// The scan of `lines`, the first of which is the store's line `i`: the
/// final state and the text written.
pub open spec fn scan(
    a: Action,
    incr: u32,
    taken: bool,
    st: ScanView,
    lines: Seq<Seq<char>>,
    i: int,
) -> (ScanView, Seq<char>)
    decreases lines.len(),
{
    if lines.len() == 0 {
        (st, Seq::empty())
    } else {
        let (st1, t1) = step(a, incr, taken, st, trim(lines[0]), i);
        let (st2, rest) = scan(a, incr, taken, st1, lines.drop_first(), i + 1);
        (st2, t1 + rest)
    }
}

/// The trimmed line `t` is a record holding shortcut `s`.
pub open spec fn holds_shortcut(t: Seq<char>, s: Seq<char>) -> bool {
    match parse_line(t) {
        LineView::Entry(r, _) => r.shorts.contains(s),
        _ => false,
    }
}

/// Some record of the store holds shortcut `s`.
pub open spec fn has_shortcut(lines: Seq<Seq<char>>, s: Seq<char>) -> bool {
    exists|k: int| 0 <= k < lines.len() && holds_shortcut(trim(#[trigger] lines[k]), s)
}

pub open spec fn start_state(success: bool) -> ScanView {
    ScanView {
        success,
        correct: None,
        prioritised: None,
        max_priority: 0,
        issues: Seq::empty(),
    }
}

/// What follows the scan: the lookup's answer, the record an unmatched add
/// or edit appends, the report of a target not found.
pub open spec fn finish(a: Action, st: ScanView, text: Seq<char>) -> (
    Seq<char>,
    Option<Seq<char>>,
    Seq<Diagnostic>,
) {
    match a {
        Action::Get(s, sub) => {
            let base = match st.correct {
                Some(p) => p,
                None => match st.prioritised {
                    Some(p) => p,
                    None => Seq::empty(),
                },
            };
            (
                text,
                Some(base.push('/') + or_empty(sub)),
                if s is Some && !st.success {
                    st.issues.push(Diagnostic::ShortcutNotFound)
                } else {
                    st.issues
                },
            )
        },
        Action::Add(s, p) | Action::Edit(s, p) => (
            if st.success {
                text
            } else {
                text + nl(line_of(record(p, seq![s], 0)))
            },
            None,
            st.issues,
        ),
        Action::Rm(_) => (
            text,
            None,
            if st.success {
                st.issues
            } else {
                st.issues.push(Diagnostic::NothingRemoved)
            },
        ),
        Action::Del(_) => (
            text,
            None,
            if st.success {
                st.issues
            } else {
                st.issues.push(Diagnostic::NothingDeleted)
            },
        ),
        Action::Decr(_) | Action::Reset => (text, None, st.issues),
    }
}

/// The whole update: the new store text, the resolved path, the problems
/// met, for the store text `data` and the first command of the list.
pub open spec fn store_update(data: Seq<char>, first: Option<CmdView>, incr: u32) -> (
    Seq<char>,
    Option<Seq<char>>,
    Seq<Diagnostic>,
) {
    let lines = split(data, '\n');
    let a = match first {
        Some(c) => action_of(c),
        None => None,
    };
    let act = match a {
        Some(x) => x,
        None => Action::Reset,
    };
    let taken = match act {
        Action::Add(s, _) => has_shortcut(lines, s),
        _ => false,
    };
    let (st, text) = scan(act, incr, taken, start_state(a is None), lines, 0);
    match a {
        None => (
            text,
            None,
            st.issues.push(
                if first is None {
                    Diagnostic::NoCommand
                } else {
                    Diagnostic::MissingArgument
                },
            ),
        ),
        Some(x) => finish(x, st, text),
    }
}

// ---------------------------------------------------------------------------
// Executable types
// ---------------------------------------------------------------------------

pub open spec fn vopt(o: Option<Vec<char>>) -> Option<Seq<char>> {
    match o {
        Some(v) => Some(v@),
        None => None,
    }
}

/// One parsed store line.
pub struct DirsLine {
    pub path: Vec<char>,
    pub shorts: Vec<Vec<char>>,
    pub priory: u32,
}

impl View for DirsLine {
    type V = RecordView;

    open spec fn view(&self) -> RecordView {
        record(self.path@, views(self.shorts@), self.priory)
    }
}

/// A trimmed store line, read.
pub enum ParsedLine {
    Blank,
    Malformed,
    Entry(DirsLine, bool),
}

impl View for ParsedLine {
    type V = LineView;

    open spec fn view(&self) -> LineView {
        match self {
            ParsedLine::Blank => LineView::Blank,
            ParsedLine::Malformed => LineView::Malformed,
            ParsedLine::Entry(d, ok) => LineView::Entry(d@, *ok),
        }
    }
}

/// A command with every slot it needs.
pub enum Op {
    Get(Option<Vec<char>>, Option<Vec<char>>),
    Add(Vec<char>, Vec<char>),
    Edit(Vec<char>, Vec<char>),
    Rm(Vec<char>),
    Del(Vec<char>),
    Decr(u32),
    Reset,
}

impl View for Op {
    type V = Action;

    open spec fn view(&self) -> Action {
        match self {
            Op::Get(s, p) => Action::Get(vopt(*s), vopt(*p)),
            Op::Add(s, p) => Action::Add(s@, p@),
            Op::Edit(s, p) => Action::Edit(s@, p@),
            Op::Rm(s) => Action::Rm(s@),
            Op::Del(p) => Action::Del(p@),
            Op::Decr(n) => Action::Decr(*n),
            Op::Reset => Action::Reset,
        }
    }
}

/// The state of one scan.
pub struct SearchState {
    pub success: bool,
    pub correct: Option<Vec<char>>,
    pub prioritised: Option<Vec<char>>,
    pub max_priory: u32,
    pub issues: Vec<Diagnostic>,
}

impl View for SearchState {
    type V = ScanView;

    open spec fn view(&self) -> ScanView {
        ScanView {
            success: self.success,
            correct: vopt(self.correct),
            prioritised: vopt(self.prioritised),
            max_priority: self.max_priory,
            issues: self.issues@,
        }
    }
}

/// The result of applying a command list to a store.
pub struct StoreUpdate {
    /// The new text of the store.
    pub text: String,
    /// The resolved path, for a lookup.
    pub resolved: Option<String>,
    /// The problems met, in order.
    pub issues: Vec<Diagnostic>,
}

// ---------------------------------------------------------------------------
// Lines and records
// ---------------------------------------------------------------------------

fn copy_chars(v: &Vec<char>) -> (r: Vec<char>)
    ensures
        r@ == v@,
{
    let mut r: Vec<char> = Vec::new();
    extend(&mut r, v);
    r
}

fn copy_opt(o: &Option<Vec<char>>) -> (r: Option<Vec<char>>)
    ensures
        vopt(r) == vopt(*o),
{
    match o {
        Some(v) => Some(copy_chars(v)),
        None => None,
    }
}

/// Reads a trimmed store line.
pub fn parse_dline(t: &Vec<char>) -> (r: ParsedLine)
    ensures
        r@ == parse_line(t@),
{
    let mut f = split_on(t, ';');
    if f.len() < 2 {
        if t.len() == 0 {
            ParsedLine::Blank
        } else {
            ParsedLine::Malformed
        }
    } else {
        let n = f.len();
        let p = parse_decimal(&f[n - 1]);
        let path = copy_chars(&f[0]);
        let mut shorts: Vec<Vec<char>> = Vec::new();
        let mut i: usize = 1;
        while i < n - 1
            invariant
                1 <= i <= n - 1,
                n == f.len(),
                views(shorts@) == views(f@).subrange(1, i as int),
            decreases n - 1 - i,
        {
            let ghost before = shorts@;
            shorts.push(copy_chars(&f[i]));
            assert(views(shorts@) == views(before).push(f@[i as int]@));
            assert(views(f@).subrange(1, i + 1) == views(f@).subrange(1, i as int).push(
                views(f@)[i as int],
            ));
            i = i + 1;
        }
        let ok = p.is_some();
        let priory = match p {
            Some(k) => k,
            None => 0,
        };
        ParsedLine::Entry(DirsLine { path, shorts, priory }, ok)
    }
}

impl DirsLine {
    /// The record as a store line, without the line break.
    pub fn join(&self) -> (r: Vec<char>)
        ensures
            r@ == line_of(self@),
    {
        let mut r = copy_chars(&self.path);
        r.push(';');
        if self.shorts.len() > 0 {
            let body = join_with(&self.shorts, ';');
            extend(&mut r, &body);
            r.push(';');
        }
        extend(&mut r, &decimal(self.priory as u64));
        r
    }
}

/// The record with another path, shortcut list and priority, as a line with its break.
fn record_line(path: &Vec<char>, shorts: &Vec<Vec<char>>, priory: u32) -> (r: Vec<char>)
    ensures
        r@ == nl(line_of(record(path@, views(shorts@), priory))),
{
    let d = DirsLine { path: copy_chars(path), shorts: copy_shorts(shorts), priory };
    let mut r = d.join();
    r.push('\n');
    r
}

fn copy_shorts(v: &Vec<Vec<char>>) -> (r: Vec<Vec<char>>)
    ensures
        views(r@) == views(v@),
{
    let mut r: Vec<Vec<char>> = Vec::new();
    let mut i: usize = 0;
    while i < v.len()
        invariant
            i <= v.len(),
            views(r@) == views(v@).take(i as int),
        decreases v.len() - i,
    {
        let ghost before = r@;
        r.push(copy_chars(&v[i]));
        assert(views(r@) == views(before).push(v@[i as int]@));
        assert(views(v@).take(i + 1) == views(v@).take(i as int).push(views(v@)[i as int]));
        i = i + 1;
    }
    assert(views(v@).take(v.len() as int) == views(v@));
    r
}

fn push_issue(st: &mut SearchState, d: Diagnostic)
    ensures
        final(st)@ == with_issue(old(st)@, d),
{
    st.issues.push(d);
}

/// Raises `p` by `incr`; on overflow reports it and keeps `p`.
fn raise_priority(st: &mut SearchState, p: u32, incr: u32, line: usize) -> (q: u32)
    ensures
        (final(st)@, q) == raise(old(st)@, p, incr, line as int),
{
    if p as u64 + incr as u64 <= u32::MAX as u64 {
        p + incr
    } else {
        push_issue(st, Diagnostic::PriorityOverflow(line));
        p
    }
}

/// A lookup on one record: an exact match takes the priority up by `incr`;
/// any other record may become the fallback.
pub fn get(
    dirline: &DirsLine,
    st: &mut SearchState,
    short: &Option<Vec<char>>,
    incr: u32,
    line: usize,
) -> (r: Vec<char>)
    ensures
        (final(st)@, r@) == get_step(old(st)@, dirline@, vopt(*short), incr, line as int),
{
    let hit = match short {
        Some(s) => contains_chars(&dirline.shorts, s),
        None => false,
    };
    if hit {
        let p2 = raise_priority(st, dirline.priory, incr, line);
        st.success = true;
        st.correct = Some(copy_chars(&dirline.path));
        record_line(&dirline.path, &dirline.shorts, p2)
    } else {
        if dirline.priory > st.max_priory {
            st.max_priory = dirline.priory;
            st.prioritised = Some(copy_chars(&dirline.path));
        }
        let mut r = dirline.join();
        r.push('\n');
        r
    }
}

/// The shortcuts other than `s`.
fn shorts_without(ss: &Vec<Vec<char>>, s: &Vec<char>) -> (r: Vec<Vec<char>>)
    ensures
        views(r@) == without(views(ss@), s@),
{
    let mut r: Vec<Vec<char>> = Vec::new();
    let mut i: usize = 0;
    while i < ss.len()
        invariant
            i <= ss.len(),
            views(r@) == without(views(ss@).take(i as int), s@),
        decreases ss.len() - i,
    {
        let ghost before = r@;
        let ghost pre = views(ss@).take(i as int);
        assert(views(ss@).take(i + 1).drop_last() == pre);
        if !same_chars(&ss[i], s) {
            r.push(copy_chars(&ss[i]));
            assert(views(r@) == views(before).push(ss@[i as int]@));
        }
        i = i + 1;
    }
    assert(views(ss@).take(ss.len() as int) == views(ss@));
    r
}

/// Removing a shortcut from one record; the record goes when it was its last.
pub fn remove(dirline: &DirsLine, st: &mut SearchState, short: &Vec<char>) -> (r: Vec<char>)
    ensures
        (final(st)@, r@) == remove_step(old(st)@, dirline@, short@),
{
    if contains_chars(&dirline.shorts, short) {
        st.success = true;
        if dirline.shorts.len() == 1 {
            return Vec::new();
        }
        record_line(&dirline.path, &shorts_without(&dirline.shorts, short), dirline.priory)
    } else {
        let mut r = dirline.join();
        r.push('\n');
        r
    }
}

/// Adding a shortcut to the record of `path`, unless the shortcut is taken.
pub fn add(
    dirline: &DirsLine,
    st: &mut SearchState,
    new_short: &Vec<char>,
    path: &Vec<char>,
    taken: bool,
    incr: u32,
    line: usize,
) -> (r: Vec<char>)
    ensures
        (final(st)@, r@) == add_step(old(st)@, dirline@, new_short@, path@, taken, incr, line as int),
{
    if contains_chars(&dirline.shorts, new_short) {
        push_issue(st, Diagnostic::ShortcutExists);
        st.success = true;
        let mut r = dirline.join();
        r.push('\n');
        r
    } else if !taken && same_chars(path, &dirline.path) {
        let p2 = raise_priority(st, dirline.priory, incr, line);
        st.success = true;
        let mut shorts = copy_shorts(&dirline.shorts);
        let ghost before = shorts@;
        shorts.push(copy_chars(new_short));
        assert(views(shorts@) == views(before).push(new_short@));
        record_line(path, &shorts, p2)
    } else {
        let mut r = dirline.join();
        r.push('\n');
        r
    }
}

/// Moving the record that holds `short` to `path`, unless `path` has a record.
pub fn edit(dirline: &DirsLine, st: &mut SearchState, short: &Vec<char>, path: &Vec<char>) -> (r: Vec<
    char,
>)
    ensures
        (final(st)@, r@) == edit_step(old(st)@, dirline@, short@, path@),
{
    if same_chars(&dirline.path, path) {
        push_issue(st, Diagnostic::PathExists);
        st.success = true;
        let mut r = dirline.join();
        r.push('\n');
        r
    } else if contains_chars(&dirline.shorts, short) {
        st.success = true;
        record_line(path, &dirline.shorts, dirline.priory)
    } else {
        let mut r = dirline.join();
        r.push('\n');
        r
    }
}

/// What the store's line `line`, `rdline`, becomes, read as given (see `step`).
pub fn read_dline(
    rdline: &Vec<char>,
    op: &Op,
    incr: u32,
    taken: bool,
    st: &mut SearchState,
    line: usize,
) -> (r: Vec<char>)
    ensures
        (final(st)@, r@) == step(op@, incr, taken, old(st)@, rdline@, line as int),
{
    if st.success {
        if trimmed(rdline).len() == 0 {
            return Vec::new();
        }
        let mut r = copy_chars(rdline);
        r.push('\n');
        return r;
    }
    match parse_dline(rdline) {
        ParsedLine::Blank => Vec::new(),
        ParsedLine::Malformed => {
            push_issue(st, Diagnostic::MalformedLine(line));
            Vec::new()
        },
        ParsedLine::Entry(dirline, ok) => {
            if !ok {
                push_issue(st, Diagnostic::BadPriority(line));
            }
            if dirline.shorts.len() == 0 {
                push_issue(st, Diagnostic::NoShortcut(line));
            }
            match op {
                Op::Get(short, _) => get(&dirline, st, short, incr, line),
                Op::Add(s, p) => crate::dirs::add(&dirline, st, s, p, taken, incr, line),
                Op::Edit(s, p) => edit(&dirline, st, s, p),
                Op::Rm(s) => remove(&dirline, st, s),
                Op::Del(p) => {
                    if same_chars(&dirline.path, p) {
                        st.success = true;
                        Vec::new()
                    } else {
                        let mut r = dirline.join();
                        r.push('\n');
                        r
                    }
                },
                Op::Decr(n) => {
                    let q = if dirline.priory >= *n {
                        dirline.priory - *n
                    } else {
                        0
                    };
                    record_line(&dirline.path, &dirline.shorts, q)
                },
                Op::Reset => record_line(&dirline.path, &dirline.shorts, 0),
            }
        },
    }
}

// ---------------------------------------------------------------------------
// The whole store
// ---------------------------------------------------------------------------

fn chars_of_opt(o: &Option<String>) -> (r: Option<Vec<char>>)
    ensures
        vopt(r) == opt_view(*o),
{
    match o {
        Some(s) => Some(chars_of(s.as_str())),
        None => None,
    }
}

/// The action of a command, or none while a slot it needs is empty.
pub fn op_of(c: &Cmd) -> (r: Option<Op>)
    ensures
        match r {
            Some(op) => action_of(c@) == Some(op@),
            None => action_of(c@) is None,
        },
{
    match c {
        Cmd::Get(sp) => Some(Op::Get(chars_of_opt(&sp.short), chars_of_opt(&sp.path))),
        Cmd::Add(sp) => match (&sp.short, &sp.path) {
            (Some(s), Some(p)) => Some(Op::Add(chars_of(s.as_str()), chars_of(p.as_str()))),
            _ => None,
        },
        Cmd::Edit(sp) => match (&sp.short, &sp.path) {
            (Some(s), Some(p)) => Some(Op::Edit(chars_of(s.as_str()), chars_of(p.as_str()))),
            _ => None,
        },
        Cmd::Rm(s) => {
            if s.as_str().is_empty() {
                None
            } else {
                Some(Op::Rm(chars_of(s.as_str())))
            }
        },
        Cmd::Del(p) => {
            if p.as_str().is_empty() {
                None
            } else {
                Some(Op::Del(chars_of(p.as_str())))
            }
        },
        Cmd::Decr(n) => Some(Op::Decr(*n)),
        Cmd::Reset => Some(Op::Reset),
    }
}

/// Whether some record of the store holds shortcut `s`.
fn store_has_shortcut(lines: &Vec<Vec<char>>, s: &Vec<char>) -> (r: bool)
    ensures
        r == has_shortcut(views(lines@), s@),
{
    let mut i: usize = 0;
    while i < lines.len()
        invariant
            i <= lines.len(),
            forall|k: int| 0 <= k < i ==> !holds_shortcut(trim(#[trigger] views(lines@)[k]), s@),
        decreases lines.len() - i,
    {
        let t = trimmed(&lines[i]);
        let hit = match parse_dline(&t) {
            ParsedLine::Entry(d, _) => contains_chars(&d.shorts, s),
            _ => false,
        };
        if hit {
            assert(views(lines@)[i as int] == lines@[i as int]@);
            return true;
        }
        i = i + 1;
    }
    false
}

/// Applies the first command of `cmds` to the store text `data`, raising
/// the priority of a record found by a lookup by `incr`.
///
/// Lines are read in order. Until the command has found its target every
/// record is rewritten as it reads (see `line_of`), blank lines are dropped
/// and malformed ones are dropped and reported; once it has, the remaining
/// lines are copied through, trimmed. An add or edit that found no record
/// appends `path;shortcut;0`. A lookup resolves to the path of the record
/// holding its shortcut, else to the first path of highest non-zero
/// priority, else to the empty path, followed by `/` and the subpath; a
/// lookup whose shortcut no record holds still resolves that way and is
/// reported as `ShortcutNotFound`. An empty list, or a first command that
/// misses an argument, is reported and changes no record: every line is
/// copied through trimmed, and blank lines are dropped.
pub fn update_store(data: &str, cmds: &[Cmd], incr: u32) -> (r: StoreUpdate)
    ensures
        (r.text@, opt_view(r.resolved), r.issues@) == store_update(
            data@,
            if cmds@.len() > 0 {
                Some(cmds@[0]@)
            } else {
                None
            },
            incr,
        ),
{
    let ghost first = if cmds@.len() > 0 {
        Some(cmds@[0]@)
    } else {
        None
    };
    let text = chars_of(data);
    let lines = split_on(&text, '\n');
    let ghost ls = views(lines@);
    let a: Option<Op> = if cmds.len() > 0 {
        op_of(&cmds[0])
    } else {
        None
    };
    let ghost act_view = match first {
        Some(c) => action_of(c),
        None => None,
    };
    assert(act_view == match a {
        Some(op) => Some(op@),
        None => None::<Action>,
    });
    let active = a.is_some();
    let op = match a {
        Some(op) => op,
        None => Op::Reset,
    };
    let taken = match &op {
        Op::Add(s, _) => store_has_shortcut(&lines, s),
        _ => false,
    };
    let mut st = SearchState {
        success: !active,
        correct: None,
        prioritised: None,
        max_priory: 0,
        issues: Vec::new(),
    };
    assert(st@ == start_state(!active));
    let ghost total = scan(op@, incr, taken, st@, ls, 0);
    let mut out: Vec<char> = Vec::new();
    let mut i: usize = 0;
    assert(ls.skip(0) == ls);
    while i < lines.len()
        invariant
            i <= lines.len(),
            ls == views(lines@),
            total == (
                scan(op@, incr, taken, st@, ls.skip(i as int), i as int).0,
                out@ + scan(op@, incr, taken, st@, ls.skip(i as int), i as int).1,
            ),
        decreases lines.len() - i,
    {
        let ghost rest = ls.skip(i as int);
        assert(rest[0] == lines@[i as int]@);
        assert(rest.drop_first() == ls.skip(i + 1));
        let piece = read_dline(&trimmed(&lines[i]), &op, incr, taken, &mut st, i);
        let ghost out0 = out@;
        extend(&mut out, &piece);
        assert(out0 + (piece@ + scan(op@, incr, taken, st@, ls.skip(i + 1), i + 1).1) == out@ + scan(
            op@,
            incr,
            taken,
            st@,
            ls.skip(i + 1),
            i + 1,
        ).1);
        i = i + 1;
    }
    assert(ls.skip(i as int).len() == 0);
    if !active {
        if cmds.len() == 0 {
            push_issue(&mut st, Diagnostic::NoCommand);
        } else {
            push_issue(&mut st, Diagnostic::MissingArgument);
        }
        return StoreUpdate { text: string_of(&out), resolved: None, issues: st.issues };
    }
    let mut resolved: Option<String> = None;
    match &op {
        Op::Get(s, sub) => {
            let mut base = match &st.correct {
                Some(p) => copy_chars(p),
                None => match &st.prioritised {
                    Some(p) => copy_chars(p),
                    None => Vec::new(),
                },
            };
            base.push('/');
            match sub {
                Some(x) => extend(&mut base, x),
                None => {},
            }
            resolved = Some(string_of(&base));
            if s.is_some() && !st.success {
                push_issue(&mut st, Diagnostic::ShortcutNotFound);
            }
        },
        Op::Add(s, p) | Op::Edit(s, p) => {
            if !st.success {
                let mut shorts: Vec<Vec<char>> = Vec::new();
                shorts.push(copy_chars(s));
                assert(views(shorts@) == seq![s@]);
                extend(&mut out, &record_line(p, &shorts, 0));
            }
        },
        Op::Rm(_) => {
            if !st.success {
                push_issue(&mut st, Diagnostic::NothingRemoved);
            }
        },
        Op::Del(_) => {
            if !st.success {
                push_issue(&mut st, Diagnostic::NothingDeleted);
            }
        },
        Op::Decr(_) | Op::Reset => {},
    }
    StoreUpdate { text: string_of(&out), resolved, issues: st.issues }
}

} // verus!
