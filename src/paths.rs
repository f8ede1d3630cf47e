//! Path spelling: making a user-typed path absolute, and moving paths
//! between the drive-letter and the mount-point conventions.
use vstd::prelude::*;

use crate::text::{chars_of, extend, string_of};

verus! {

/// Every `a` in `s` written as `b`.
pub open spec fn replace_char(s: Seq<char>, a: char, b: char) -> Seq<char> {
    s.map_values(|c: char| if c == a { b } else { c })
}

/// The index of the last `c` in `s`.
pub open spec fn last_index(s: Seq<char>, c: char) -> Option<int>
    decreases s.len(),
{
    if s.len() == 0 {
        None
    } else if s.last() == c {
        Some(s.len() - 1)
    } else {
        last_index(s.drop_last(), c)
    }
}

/// Every `..` in `s`, from left to right without overlap, written as `rep`.
pub open spec fn replace_dots(s: Seq<char>, rep: Seq<char>) -> Seq<char>
    decreases s.len(),
{
    if s.len() >= 2 && s[0] == '.' && s[1] == '.' {
        rep + replace_dots(s.skip(2), rep)
    } else if s.len() == 0 {
        s
    } else {
        seq![s[0]] + replace_dots(s.skip(1), rep)
    }
}

/// `c` with an ASCII capital made small.
pub open spec fn ascii_lower(c: char) -> char {
    if 65 <= c as u32 && c as u32 <= 90 {
        (c as u32 + 32) as char
    } else {
        c
    }
}

/// While `on`, characters are made small; the first `:` or `/` ends that.
/// A `\` is written as `/` and ends it too.
pub open spec fn lower_head(s: Seq<char>, on: bool) -> Seq<char>
    decreases s.len(),
{
    if s.len() == 0 {
        s
    } else {
        let c = s[0];
        if c == '\\' {
            seq!['/'] + lower_head(s.skip(1), false)
        } else if on && (c == ':' || c == '/') {
            seq![c] + lower_head(s.skip(1), false)
        } else if on {
            seq![ascii_lower(c)] + lower_head(s.skip(1), true)
        } else {
            seq![c] + lower_head(s.skip(1), false)
        }
    }
}

/// The directory above `here` (both with `/` separators): what comes before
/// its last `/`, or nothing.
pub open spec fn father_of(here: Seq<char>) -> Seq<char> {
    match last_index(here, '/') {
        Some(k) => here.take(k),
        None => Seq::empty(),
    }
}

/// A typed path made absolute against the current directory `here`, with
/// `/` separators, `..` standing for the parent of `here`, a leading `.`
/// for that parent too, its first segment made small and no trailing `/`.
pub open spec fn normal_path(ipath: Seq<char>, here0: Seq<char>) -> Seq<char> {
    let here = replace_char(here0, '\\', '/');
    let father = father_of(here);
    let p = replace_dots(replace_char(ipath, '\\', '/'), father);
    let q = if p.len() == 0 {
        here
    } else if p[0] == '.' {
        father + p.skip(1)
    } else if p[0] == '/' {
        p
    } else if p.len() > 1 && p[1] == ':' {
        p
    } else {
        here.push('/') + p
    };
    let r = lower_head(q, true);
    if r.len() > 0 && r.last() == '/' {
        r.drop_last()
    } else {
        r
    }
}

/// `pat` stands in `s` at `i`.
pub open spec fn occurs_at(s: Seq<char>, pat: Seq<char>, i: int) -> bool {
    0 <= i && i + pat.len() <= s.len() && s.subrange(i, i + pat.len()) == pat
}

/// The first place at or after `i` where `pat` stands in `s`.
pub open spec fn find_from(s: Seq<char>, pat: Seq<char>, i: int) -> Option<int>
    decreases s.len() + 1 - i,
{
    if i < 0 || i + pat.len() > s.len() {
        None
    } else if occurs_at(s, pat, i) {
        Some(i)
    } else {
        find_from(s, pat, i + 1)
    }
}

/// What follows the first `k` characters, if there are that many.
pub open spec fn after(s: Seq<char>, k: int) -> Seq<char> {
    if s.len() >= k {
        s.skip(k)
    } else {
        Seq::empty()
    }
}

/// A path in the convention of the system: on unix `X:rest` (after one
/// more character) becomes `/mnt/X/rest` and a network path keeps only what
/// starts at `wsl.localhost`; elsewhere `/mnt/X/rest` becomes `X:/rest`.
pub open spec fn os_path(path: Seq<char>, unix: bool) -> Seq<char> {
    if unix && path.len() > 1 && path[1] == ':' {
        "/mnt/"@.push(path[0]).push('/') + after(path, 3)
    } else if unix && find_from(path, "wsl.localhost"@, 0) is Some {
        path.skip(find_from(path, "wsl.localhost"@, 0)->0)
    } else if !unix && occurs_at(path, "/mnt/"@, 0) {
        seq![
            if path.len() > 5 {
                path[5]
            } else {
                'c'
            },
        ].push(':') + after(path, 6)
    } else {
        path
    }
}

/// Relies on `char::to_ascii_lowercase`: ASCII capitals become small, any
/// other character is kept.
#[verifier::external_body]
fn to_ascii_lower(c: char) -> (r: char)
    ensures
        r == ascii_lower(c),
{
    c.to_ascii_lowercase()
}

fn replaced(s: &Vec<char>, a: char, b: char) -> (r: Vec<char>)
    ensures
        r@ == replace_char(s@, a, b),
{
    let mut r: Vec<char> = Vec::new();
    let mut i: usize = 0;
    while i < s.len()
        invariant
            i <= s.len(),
            r@ == replace_char(s@.take(i as int), a, b),
        decreases s.len() - i,
    {
        let c = s[i];
        r.push(if c == a {
            b
        } else {
            c
        });
        assert(replace_char(s@.take(i + 1), a, b) == replace_char(s@.take(i as int), a, b).push(
            if c == a {
                b
            } else {
                c
            },
        ));
        i = i + 1;
    }
    assert(s@.take(s.len() as int) == s@);
    r
}

fn father(here: &Vec<char>) -> (r: Vec<char>)
    ensures
        r@ == father_of(here@),
{
    let mut k: usize = here.len();
    assert(here@.take(k as int) == here@);
    while k > 0 && here[k - 1] != '/'
        invariant
            k <= here.len(),
            last_index(here@, '/') == last_index(here@.take(k as int), '/'),
        decreases k,
    {
        assert(here@.take(k as int).drop_last() == here@.take(k - 1));
        k = k - 1;
    }
    let mut r: Vec<char> = Vec::new();
    if k > 0 {
        assert(last_index(here@, '/') == Some(k - 1));
        let mut i: usize = 0;
        while i < k - 1
            invariant
                0 < k <= here.len(),
                i <= k - 1,
                r@ == here@.take(i as int),
            decreases k - 1 - i,
        {
            r.push(here[i]);
            assert(here@.take(i + 1) == here@.take(i as int).push(here@[i as int]));
            i = i + 1;
        }
    } else {
        assert(here@.take(0) == Seq::<char>::empty());
    }
    r
}

fn dots_replaced(s: &Vec<char>, rep: &Vec<char>) -> (r: Vec<char>)
    ensures
        r@ == replace_dots(s@, rep@),
{
    let mut r: Vec<char> = Vec::new();
    let mut i: usize = 0;
    assert(s@.skip(0) == s@);
    while i < s.len()
        invariant
            i <= s.len(),
            r@ + replace_dots(s@.skip(i as int), rep@) == replace_dots(s@, rep@),
        decreases s.len() - i,
    {
        let ghost rest = s@.skip(i as int);
        if i + 1 < s.len() && s[i] == '.' && s[i + 1] == '.' {
            assert(rest.skip(2) == s@.skip(i + 2));
            let ghost r0 = r@;
            extend(&mut r, rep);
            assert(r0 + (rep@ + replace_dots(s@.skip(i + 2), rep@)) == r@ + replace_dots(
                s@.skip(i + 2),
                rep@,
            ));
            i = i + 2;
        } else {
            assert(rest.skip(1) == s@.skip(i + 1));
            let ghost r0 = r@;
            r.push(s[i]);
            assert(r0 + (seq![s@[i as int]] + replace_dots(s@.skip(i + 1), rep@)) == r@
                + replace_dots(s@.skip(i + 1), rep@));
            i = i + 1;
        }
    }
    assert(s@.skip(s.len() as int) == Seq::<char>::empty());
    assert(r@ + Seq::<char>::empty() == r@);
    r
}

fn lowered_head(s: &Vec<char>) -> (r: Vec<char>)
    ensures
        r@ == lower_head(s@, true),
{
    let mut r: Vec<char> = Vec::new();
    let mut on = true;
    let mut i: usize = 0;
    assert(s@.skip(0) == s@);
    while i < s.len()
        invariant
            i <= s.len(),
            r@ + lower_head(s@.skip(i as int), on) == lower_head(s@, true),
        decreases s.len() - i,
    {
        let ghost rest = s@.skip(i as int);
        assert(rest.skip(1) == s@.skip(i + 1));
        assert(rest[0] == s@[i as int]);
        let ghost r0 = r@;
        let ghost on0 = on;
        let c = s[i];
        if c == '\\' {
            r.push('/');
            on = false;
        } else if on && (c == ':' || c == '/') {
            r.push(c);
            on = false;
        } else if on {
            r.push(to_ascii_lower(c));
        } else {
            r.push(c);
        }
        assert(lower_head(rest, on0) == seq![r@.last()] + lower_head(s@.skip(i + 1), on));
        assert(r0 + (seq![r@.last()] + lower_head(s@.skip(i + 1), on)) == r@ + lower_head(
            s@.skip(i + 1),
            on,
        ));
        i = i + 1;
    }
    assert(s@.skip(s.len() as int) == Seq::<char>::empty());
    assert(r@ + Seq::<char>::empty() == r@);
    r
}

/// The typed path `ipath` made absolute against the current directory
/// `here` (see `normal_path`).
pub fn normalize_path(ipath: &str, here: &str) -> (r: String)
    ensures
        r@ == normal_path(ipath@, here@),
{
    let here_v = replaced(&chars_of(here), '\\', '/');
    let fath = father(&here_v);
    let p = dots_replaced(&replaced(&chars_of(ipath), '\\', '/'), &fath);
    let mut q: Vec<char> = Vec::new();
    if p.len() == 0 {
        extend(&mut q, &here_v);
    } else if p[0] == '.' {
        extend(&mut q, &fath);
        let mut i: usize = 1;
        while i < p.len()
            invariant
                1 <= i <= p.len(),
                q@ == fath@ + p@.subrange(1, i as int),
            decreases p.len() - i,
        {
            q.push(p[i]);
            assert(p@.subrange(1, i + 1) == p@.subrange(1, i as int).push(p@[i as int]));
            i = i + 1;
        }
        assert(p@.subrange(1, p.len() as int) == p@.skip(1));
    } else if p[0] == '/' || (p.len() > 1 && p[1] == ':') {
        extend(&mut q, &p);
    } else {
        extend(&mut q, &here_v);
        q.push('/');
        extend(&mut q, &p);
    }
    let mut r = lowered_head(&q);
    if r.len() > 0 && r[r.len() - 1] == '/' {
        r.pop();
    }
    string_of(&r)
}

/// Whether `pat` stands in `s` at `i`.
fn stands_at(s: &Vec<char>, pat: &Vec<char>, i: usize) -> (b: bool)
    requires
        i + pat.len() <= s.len(),
    ensures
        b == occurs_at(s@, pat@, i as int),
{
    let mut j: usize = 0;
    while j < pat.len()
        invariant
            j <= pat.len(),
            i + pat.len() <= s.len(),
            s@.subrange(i as int, i + j) == pat@.take(j as int),
        decreases pat.len() - j,
    {
        if s[i + j] != pat[j] {
            assert(s@.subrange(i as int, i + pat.len())[j as int] != pat@[j as int]);
            return false;
        }
        assert(s@.subrange(i as int, i + j + 1) == s@.subrange(i as int, i + j).push(s@[i + j]));
        assert(pat@.take(j + 1) == pat@.take(j as int).push(pat@[j as int]));
        j = j + 1;
    }
    assert(pat@.take(pat.len() as int) == pat@);
    true
}

/// The first place where `pat` stands in `s`.
fn find_first(s: &Vec<char>, pat: &Vec<char>) -> (r: Option<usize>)
    ensures
        match r {
            Some(i) => find_from(s@, pat@, 0) == Some(i as int) && i + pat.len() <= s.len(),
            None => find_from(s@, pat@, 0) is None,
        },
{
    if pat.len() > s.len() {
        return None;
    }
    let mut i: usize = 0;
    let last = s.len() - pat.len();
    loop
        invariant
            pat.len() <= s.len(),
            last == s.len() - pat.len(),
            i <= last,
            find_from(s@, pat@, 0) == find_from(s@, pat@, i as int),
        decreases last - i,
    {
        if stands_at(s, pat, i) {
            return Some(i);
        }
        if i == last {
            return None;
        }
        i = i + 1;
    }
}

fn suffix(s: &Vec<char>, k: usize) -> (r: Vec<char>)
    ensures
        r@ == after(s@, k as int),
{
    let mut r: Vec<char> = Vec::new();
    if k <= s.len() {
        let mut i: usize = k;
        while i < s.len()
            invariant
                k <= i <= s.len(),
                r@ == s@.subrange(k as int, i as int),
            decreases s.len() - i,
        {
            r.push(s[i]);
            assert(s@.subrange(k as int, i + 1) == s@.subrange(k as int, i as int).push(s@[i as int]));
            i = i + 1;
        }
        assert(s@.subrange(k as int, s.len() as int) == s@.skip(k as int));
    }
    r
}

/// The path in the convention of the system (see `os_path`).
pub fn dos2unix(path: String, unix: bool) -> (r: String)
    ensures
        r@ == os_path(path@, unix),
{
    let chars = chars_of(path.as_str());
    if unix && chars.len() > 1 && chars[1] == ':' {
        let mut r = chars_of("/mnt/");
        r.push(chars[0]);
        r.push('/');
        extend(&mut r, &suffix(&chars, 3));
        return string_of(&r);
    }
    if unix {
        match find_first(&chars, &chars_of("wsl.localhost")) {
            Some(i) => {
                return string_of(&suffix(&chars, i));
            },
            None => {},
        }
    }
    if !unix {
        let mnt = chars_of("/mnt/");
        if mnt.len() <= chars.len() && stands_at(&chars, &mnt, 0) {
            let d = if chars.len() > 5 {
                chars[5]
            } else {
                'c'
            };
            let mut r: Vec<char> = Vec::new();
            r.push(d);
            r.push(':');
            extend(&mut r, &suffix(&chars, 6));
            assert(r@ == seq![d].push(':') + after(chars@, 6));
            return string_of(&r);
        }
        assert(!occurs_at(chars@, "/mnt/"@, 0));
    }
    path
}

} // verus!
