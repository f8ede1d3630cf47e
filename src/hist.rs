//! The history of visited directories: lines `path;pid;time`, the most
//! recent last.
use vstd::prelude::*;

use crate::text::{chars_of, dec, decimal, extend, split, split_on, string_of, trim, trimmed};

verus! {

/// The history text after a visit of `path` by process `pid` at `secs`
/// seconds since the epoch: the old text trimmed, a line break, the entry.
pub open spec fn pushed_history(old: Seq<char>, path: Seq<char>, pid: u32, secs: u64) -> Seq<char> {
    trim(old).push('\n') + path.push(';') + dec(pid as nat).push(';') + dec(secs as nat)
}

/// The path of a history entry: its first field.
pub open spec fn entry_path(l: Seq<char>) -> Seq<char> {
    split(l, ';')[0]
}

/// Going back: the most recent entry goes, and the path of the one before
/// it is where to return; with fewer than two entries there is nowhere.
pub open spec fn popped(entries: Seq<Seq<char>>) -> Option<(Seq<Seq<char>>, Seq<char>)> {
    if entries.len() < 2 {
        None
    } else {
        Some((entries.drop_last(), entry_path(entries[entries.len() - 2])))
    }
}

/// The history text after a visit (see `pushed_history`).
pub fn push_entry(old: &str, path: &str, pid: u32, secs: u64) -> (r: String)
    ensures
        r@ == pushed_history(old@, path@, pid, secs),
{
    let mut v = trimmed(&chars_of(old));
    v.push('\n');
    extend(&mut v, &chars_of(path));
    v.push(';');
    extend(&mut v, &decimal(pid as u64));
    v.push(';');
    extend(&mut v, &decimal(secs));
    string_of(&v)
}

/// The path of a history entry.
pub fn history_path(line: &str) -> (r: String)
    ensures
        r@ == entry_path(line@),
{
    let v = chars_of(line);
    let f = split_on(&v, ';');
    proof {
        crate::text::lemma_split_len(v@, ';');
    }
    string_of(&f[0])
}

/// The entries to keep and the path to return to (see `popped`).
pub fn pop_history(entries: &Vec<String>) -> (r: Option<(Vec<String>, String)>)
    ensures
        match r {
            Some((kept, path)) => popped(entries@.map_values(|s: String| s@)) == Some(
                (kept@.map_values(|s: String| s@), path@),
            ),
            None => popped(entries@.map_values(|s: String| s@)) is None,
        },
{
    let n = entries.len();
    if n < 2 {
        return None;
    }
    let ghost ev = entries@.map_values(|s: String| s@);
    let mut kept: Vec<String> = Vec::new();
    let mut i: usize = 0;
    while i < n - 1
        invariant
            n == entries.len(),
            2 <= n,
            i <= n - 1,
            ev == entries@.map_values(|s: String| s@),
            kept@.map_values(|s: String| s@) == ev.take(i as int),
        decreases n - 1 - i,
    {
        let ghost before = kept@;
        kept.push(entries[i].clone());
        assert(kept@.map_values(|s: String| s@) == before.map_values(|s: String| s@).push(
            entries@[i as int]@,
        ));
        assert(ev.take(i + 1) == ev.take(i as int).push(ev[i as int]));
        i = i + 1;
    }
    assert(ev.take(n - 1) == ev.drop_last());
    let path = history_path(entries[n - 2].as_str());
    Some((kept, path))
}

} // verus!
