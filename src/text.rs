//! Character-level helpers shared by the parsers and serializers: splitting
//! and joining on a separator, decimal numbers, whitespace trimming.
use vstd::prelude::*;

verus! {

// ---------------------------------------------------------------------------
// Specifications
// ---------------------------------------------------------------------------

/// The views of a sequence of character vectors.
pub open spec fn views(v: Seq<Vec<char>>) -> Seq<Seq<char>> {
    v.map_values(|x: Vec<char>| x@)
}

/// The fields of `s` separated by `sep`; there is always at least one field.
pub open spec fn split(s: Seq<char>, sep: char) -> Seq<Seq<char>>
    decreases s.len(),
{
    if s.len() == 0 {
        seq![Seq::empty()]
    } else {
        let init = split(s.drop_last(), sep);
        if s.last() == sep {
            init.push(Seq::empty())
        } else {
            init.update(init.len() - 1, init.last().push(s.last()))
        }
    }
}

/// The parts written one after the other with `sep` between two neighbours.
pub open spec fn join(parts: Seq<Seq<char>>, sep: char) -> Seq<char>
    decreases parts.len(),
{
    if parts.len() == 0 {
        Seq::empty()
    } else if parts.len() == 1 {
        parts[0]
    } else {
        join(parts.drop_last(), sep).push(sep) + parts.last()
    }
}

/// `s` does not hold the character `c`.
pub open spec fn free_of(s: Seq<char>, c: char) -> bool {
    forall|i: int| 0 <= i < s.len() ==> s[i] != c
}

/// The decimal digit character for `d` (`0 <= d < 10`).
pub open spec fn digit(d: int) -> char {
    if d == 0 {
        '0'
    } else if d == 1 {
        '1'
    } else if d == 2 {
        '2'
    } else if d == 3 {
        '3'
    } else if d == 4 {
        '4'
    } else if d == 5 {
        '5'
    } else if d == 6 {
        '6'
    } else if d == 7 {
        '7'
    } else if d == 8 {
        '8'
    } else {
        '9'
    }
}

/// The base-10 writing of `n`, without sign or leading zeros.
pub open spec fn dec(n: nat) -> Seq<char>
    decreases n,
{
    if n < 10 {
        seq![digit(n as int)]
    } else {
        dec(n / 10).push(digit((n % 10) as int))
    }
}

pub open spec fn is_digit(c: char) -> bool {
    48 <= c as u32 && c as u32 <= 57
}

pub open spec fn all_digits(s: Seq<char>) -> bool {
    forall|i: int| 0 <= i < s.len() ==> is_digit(s[i])
}

/// The number written by a sequence of decimal digits.
pub open spec fn digits_value(s: Seq<char>) -> nat
    decreases s.len(),
{
    if s.len() == 0 {
        0
    } else {
        digits_value(s.drop_last()) * 10 + (s.last() as u32 - 48) as nat
    }
}

/// How `u32` reads a decimal string: an optional `+`, then at least one
/// digit, with a value that fits.
pub open spec fn parse_u32(s: Seq<char>) -> Option<u32> {
    let d = if s.len() > 0 && s[0] == '+' {
        s.drop_first()
    } else {
        s
    };
    if d.len() > 0 && all_digits(d) && digits_value(d) <= u32::MAX {
        Some(digits_value(d) as u32)
    } else {
        None
    }
}

/// Characters with the Unicode `White_Space` property.
pub open spec fn is_white(c: char) -> bool {
    let u = c as u32;
    (9 <= u && u <= 13) || u == 32 || u == 0x85 || u == 0xa0 || u == 0x1680 || (0x2000 <= u && u
        <= 0x200a) || u == 0x2028 || u == 0x2029 || u == 0x202f || u == 0x205f || u == 0x3000
}

pub open spec fn trim_start(s: Seq<char>) -> Seq<char>
    decreases s.len(),
{
    if s.len() > 0 && is_white(s[0]) {
        trim_start(s.drop_first())
    } else {
        s
    }
}

pub open spec fn trim_end(s: Seq<char>) -> Seq<char>
    decreases s.len(),
{
    if s.len() > 0 && is_white(s.last()) {
        trim_end(s.drop_last())
    } else {
        s
    }
}

/// `s` without leading and trailing whitespace.
pub open spec fn trim(s: Seq<char>) -> Seq<char> {
    trim_end(trim_start(s))
}

// ---------------------------------------------------------------------------
// Lemmas
// ---------------------------------------------------------------------------

pub proof fn lemma_split_len(s: Seq<char>, sep: char)
    ensures
        split(s, sep).len() >= 1,
    decreases s.len(),
{
    if s.len() > 0 {
        lemma_split_len(s.drop_last(), sep);
    }
}

/// A text free of the separator is a single field.
pub proof fn lemma_split_plain(s: Seq<char>, sep: char)
    requires
        free_of(s, sep),
    ensures
        split(s, sep) == seq![s],
    decreases s.len(),
{
    if s.len() == 0 {
        assert(s == Seq::<char>::empty());
    } else {
        let init = s.drop_last();
        assert forall|i: int| 0 <= i < init.len() implies init[i] != sep by {
            assert(init[i] == s[i]);
        }
        lemma_split_plain(init, sep);
        assert(s[s.len() - 1] != sep);
        assert(init.push(s.last()) == s);
        assert(seq![init].update(0, s) == seq![s]);
    }
}

/// Splitting at a separator splits both sides independently.
pub proof fn lemma_split_at_sep(x: Seq<char>, y: Seq<char>, sep: char)
    ensures
        split(x.push(sep) + y, sep) == split(x, sep) + split(y, sep),
    decreases y.len(),
{
    let s = x.push(sep) + y;
    lemma_split_len(x, sep);
    if y.len() == 0 {
        assert(s == x.push(sep));
        assert(s.drop_last() == x);
        assert(split(x, sep).push(Seq::empty()) == split(x, sep) + split(y, sep));
    } else {
        let y0 = y.drop_last();
        lemma_split_at_sep(x, y0, sep);
        lemma_split_len(y0, sep);
        assert(s.drop_last() == x.push(sep) + y0);
        assert(s.last() == y.last());
        let a = split(x, sep);
        let b = split(y0, sep);
        if y.last() == sep {
            assert((a + b).push(Seq::empty()) == a + b.push(Seq::empty()));
        } else {
            let v = b.last().push(y.last());
            assert((a + b).last() == b.last());
            assert((a + b).update((a + b).len() - 1, v) == a + b.update(b.len() - 1, v));
        }
    }
}

/// Splitting undoes joining, for parts free of the separator.
pub proof fn lemma_split_join(parts: Seq<Seq<char>>, sep: char)
    requires
        parts.len() >= 1,
        forall|i: int| 0 <= i < parts.len() ==> free_of(#[trigger] parts[i], sep),
    ensures
        split(join(parts, sep), sep) == parts,
    decreases parts.len(),
{
    if parts.len() == 1 {
        lemma_split_plain(parts[0], sep);
        assert(parts == seq![parts[0]]);
    } else {
        let init = parts.drop_last();
        lemma_split_join(init, sep);
        lemma_split_at_sep(join(init, sep), parts.last(), sep);
        lemma_split_plain(parts.last(), sep);
        assert(init + seq![parts.last()] == parts);
    }
}

/// A join of parts free of `c`, joined by a separator other than `c`, is free of `c`.
pub proof fn lemma_join_free(parts: Seq<Seq<char>>, sep: char, c: char)
    requires
        sep != c,
        forall|i: int| 0 <= i < parts.len() ==> free_of(#[trigger] parts[i], c),
    ensures
        free_of(join(parts, sep), c),
    decreases parts.len(),
{
    if parts.len() > 1 {
        lemma_join_free(parts.drop_last(), sep, c);
        let a = join(parts.drop_last(), sep).push(sep);
        let b = parts.last();
        assert forall|i: int| 0 <= i < (a + b).len() implies (a + b)[i] != c by {
            if i >= a.len() {
                assert((a + b)[i] == b[i - a.len()]);
            }
        }
    }
}

pub proof fn lemma_digit(d: int)
    requires
        0 <= d < 10,
    ensures
        digit(d) as u32 == d + 48,
{
}

pub proof fn lemma_dec_digits(n: nat)
    ensures
        dec(n).len() >= 1,
        all_digits(dec(n)),
        digits_value(dec(n)) == n,
    decreases n,
{
    if n < 10 {
        lemma_digit(n as int);
        let s = dec(n);
        assert(s.drop_last() == Seq::<char>::empty());
        assert(digits_value(s.drop_last()) == 0);
        assert(s.last() == digit(n as int));
        assert(digits_value(s) == digits_value(s.drop_last()) * 10 + (s.last() as u32 - 48) as nat);
    } else {
        lemma_dec_digits(n / 10);
        lemma_digit((n % 10) as int);
        let s = dec(n);
        assert((n / 10) * 10 + n % 10 == n) by (nonlinear_arith);
        assert(s.drop_last() == dec(n / 10));
        assert(s.last() == digit((n % 10) as int));
        assert(digits_value(s) == digits_value(dec(n / 10)) * 10 + (s.last() as u32 - 48) as nat);
        assert(digits_value(s) == (n / 10) * 10 + n % 10);
        assert forall|i: int| 0 <= i < s.len() implies is_digit(s[i]) by {
            if i < s.len() - 1 {
                assert(s[i] == dec(n / 10)[i]);
            }
        }
    }
}

/// Reading back a written number gives the number.
pub proof fn lemma_parse_dec(n: u32)
    ensures
        parse_u32(dec(n as nat)) == Some(n),
        !is_white(dec(n as nat).last()),
        free_of(dec(n as nat), ';'),
        free_of(dec(n as nat), '\n'),
{
    lemma_dec_digits(n as nat);
    let s = dec(n as nat);
    assert(is_digit(s[0]));
    assert(is_digit(s[s.len() - 1]));
}

pub proof fn lemma_trim_plain(s: Seq<char>)
    requires
        s.len() > 0,
        !is_white(s[0]),
        !is_white(s.last()),
    ensures
        trim(s) == s,
{
}

// ---------------------------------------------------------------------------
// Executable helpers
// ---------------------------------------------------------------------------

/// Relies on `char::is_whitespace`: true exactly for the characters with the
/// Unicode `White_Space` property.
#[verifier::external_body]
fn is_whitespace(c: char) -> (r: bool)
    ensures
        r == is_white(c),
{
    c.is_whitespace()
}

/// Relies on `String::push`: appends one character to the end of the string.
#[verifier::external_body]
fn push_char(s: &mut String, c: char)
    ensures
        final(s)@ == old(s)@.push(c),
{
    s.push(c)
}

/// The characters of `s`, one per element.
pub fn chars_of(s: &str) -> (r: Vec<char>)
    ensures
        r@ == s@,
{
    let mut r: Vec<char> = Vec::new();
    for c in it: s.chars()
        invariant
            r@ == it.seq().take(it.index() as int),
            it.seq() == s@,
    {
        r.push(c);
    }
    r
}

/// A `String` holding exactly the given characters.
pub fn string_of(v: &Vec<char>) -> (r: String)
    ensures
        r@ == v@,
{
    let mut r = String::new();
    let mut i: usize = 0;
    while i < v.len()
        invariant
            i <= v.len(),
            r@ == v@.take(i as int),
        decreases v.len() - i,
    {
        push_char(&mut r, v[i]);
        assert(v@.take(i + 1) == v@.take(i as int).push(v@[i as int]));
        i = i + 1;
    }
    assert(v@.take(v.len() as int) == v@);
    r
}

/// Appends the characters of `src` to `dst`.
pub fn extend(dst: &mut Vec<char>, src: &Vec<char>)
    ensures
        final(dst)@ == old(dst)@ + src@,
{
    let mut i: usize = 0;
    while i < src.len()
        invariant
            i <= src.len(),
            dst@ == old(dst)@ + src@.take(i as int),
        decreases src.len() - i,
    {
        dst.push(src[i]);
        assert(src@.take(i + 1) == src@.take(i as int).push(src@[i as int]));
        i = i + 1;
    }
    assert(src@.take(src.len() as int) == src@);
}

/// Whether two character vectors hold the same characters.
pub fn same_chars(a: &Vec<char>, b: &Vec<char>) -> (r: bool)
    ensures
        r == (a@ == b@),
{
    if a.len() != b.len() {
        return false;
    }
    let mut i: usize = 0;
    while i < a.len()
        invariant
            i <= a.len(),
            a.len() == b.len(),
            a@.take(i as int) == b@.take(i as int),
        decreases a.len() - i,
    {
        if a[i] != b[i] {
            return false;
        }
        assert(a@.take(i + 1) == a@.take(i as int).push(a@[i as int]));
        assert(b@.take(i + 1) == b@.take(i as int).push(b@[i as int]));
        i = i + 1;
    }
    assert(a@.take(a.len() as int) == a@);
    assert(b@.take(b.len() as int) == b@);
    true
}

/// Whether `parts` holds an element equal to `s`.
pub fn contains_chars(parts: &Vec<Vec<char>>, s: &Vec<char>) -> (r: bool)
    ensures
        r == views(parts@).contains(s@),
{
    let mut i: usize = 0;
    while i < parts.len()
        invariant
            i <= parts.len(),
            forall|j: int| 0 <= j < i ==> parts@[j]@ != s@,
        decreases parts.len() - i,
    {
        if same_chars(&parts[i], s) {
            assert(views(parts@)[i as int] == s@);
            return true;
        }
        i = i + 1;
    }
    false
}

/// The fields of `v` separated by `sep`.
pub fn split_on(v: &Vec<char>, sep: char) -> (r: Vec<Vec<char>>)
    ensures
        views(r@) == split(v@, sep),
{
    let mut done: Vec<Vec<char>> = Vec::new();
    let mut cur: Vec<char> = Vec::new();
    let mut i: usize = 0;
    while i < v.len()
        invariant
            i <= v.len(),
            views(done@).push(cur@) == split(v@.take(i as int), sep),
        decreases v.len() - i,
    {
        let c = v[i];
        let ghost before = v@.take(i as int);
        assert(v@.take(i + 1).drop_last() == before);
        proof {
            lemma_split_len(before, sep);
        }
        if c == sep {
            let ghost old_done = done@;
            done.push(cur);
            cur = Vec::new();
            assert(views(done@) == views(old_done).push(views(done@).last()));
        } else {
            cur.push(c);
        }
        i = i + 1;
    }
    let ghost d = done@;
    done.push(cur);
    assert(views(done@) == views(d).push(cur@));
    assert(v@.take(v.len() as int) == v@);
    done
}

/// The parts joined by `sep`.
pub fn join_with(parts: &Vec<Vec<char>>, sep: char) -> (r: Vec<char>)
    ensures
        r@ == join(views(parts@), sep),
{
    let mut r: Vec<char> = Vec::new();
    let mut i: usize = 0;
    while i < parts.len()
        invariant
            i <= parts.len(),
            r@ == join(views(parts@).take(i as int), sep),
        decreases parts.len() - i,
    {
        let ghost pre = views(parts@).take(i as int);
        let ghost next = views(parts@).take(i + 1);
        assert(next.drop_last() == pre);
        if i > 0 {
            r.push(sep);
        }
        extend(&mut r, &parts[i]);
        i = i + 1;
    }
    assert(views(parts@).take(parts.len() as int) == views(parts@));
    r
}

/// The digit character for `d`.
fn digit_char(d: u64) -> (c: char)
    requires
        d < 10,
    ensures
        c == digit(d as int),
{
    if d == 0 {
        '0'
    } else if d == 1 {
        '1'
    } else if d == 2 {
        '2'
    } else if d == 3 {
        '3'
    } else if d == 4 {
        '4'
    } else if d == 5 {
        '5'
    } else if d == 6 {
        '6'
    } else if d == 7 {
        '7'
    } else if d == 8 {
        '8'
    } else {
        '9'
    }
}

/// The base-10 writing of `n`.
pub fn decimal(n: u64) -> (r: Vec<char>)
    ensures
        r@ == dec(n as nat),
    decreases n,
{
    if n < 10 {
        let mut r: Vec<char> = Vec::new();
        r.push(digit_char(n));
        assert(r@ == seq![digit(n as int)]);
        r
    } else {
        let mut r = decimal(n / 10);
        r.push(digit_char(n % 10));
        r
    }
}

/// Reads `s` as an unsigned 32-bit decimal number, as `u32` parsing does.
pub fn parse_decimal(s: &Vec<char>) -> (r: Option<u32>)
    ensures
        r == parse_u32(s@),
{
    let start: usize = if s.len() > 0 && s[0] == '+' {
        1
    } else {
        0
    };
    let ghost d = if s@.len() > 0 && s@[0] == '+' {
        s@.drop_first()
    } else {
        s@
    };
    assert(d == s@.subrange(start as int, s@.len() as int));
    if start >= s.len() {
        return None;
    }
    let mut acc: u64 = 0;
    let mut big = false;
    let mut i: usize = start;
    while i < s.len()
        invariant
            start <= i <= s.len(),
            d == s@.subrange(start as int, s@.len() as int),
            d == (if s@.len() > 0 && s@[0] == '+' {
                s@.drop_first()
            } else {
                s@
            }),
            all_digits(s@.subrange(start as int, i as int)),
            big ==> digits_value(s@.subrange(start as int, i as int)) > u32::MAX,
            !big ==> acc == digits_value(s@.subrange(start as int, i as int)),
            acc <= u32::MAX,
        decreases s.len() - i,
    {
        let c = s[i];
        let ghost pre = s@.subrange(start as int, i as int);
        let ghost next = s@.subrange(start as int, i + 1);
        assert(next.drop_last() == pre);
        assert(next.last() == c);
        if !((c as u32) >= 48 && (c as u32) <= 57) {
            assert(!is_digit(c));
            assert(!all_digits(d)) by {
                assert(d[i - start] == c);
            }
            return None;
        }
        assert(all_digits(next)) by {
            assert forall|j: int| 0 <= j < next.len() implies is_digit(next[j]) by {
                if j < pre.len() {
                    assert(next[j] == pre[j]);
                }
            }
        }
        let dv = (c as u32 - 48) as u64;
        if !big {
            let v = acc * 10 + dv;
            if v > u32::MAX as u64 {
                big = true;
            } else {
                acc = v;
            }
        } else {
            assert(digits_value(next) >= digits_value(pre)) by (nonlinear_arith)
                requires
                    digits_value(next) == digits_value(pre) * 10 + (c as u32 - 48) as nat,
            ;
        }
        i = i + 1;
    }
    assert(s@.subrange(start as int, s@.len() as int) == d);
    if big {
        None
    } else {
        Some(acc as u32)
    }
}

/// The index of the first character of `v` that is not whitespace, or its length.
fn skip_white(v: &Vec<char>) -> (lo: usize)
    ensures
        lo <= v.len(),
        trim_start(v@) == v@.subrange(lo as int, v.len() as int),
{
    let n = v.len();
    let mut lo: usize = 0;
    assert(v@.subrange(0, n as int) == v@);
    while lo < n && is_whitespace(v[lo])
        invariant
            lo <= n,
            n == v.len(),
            trim_start(v@) == trim_start(v@.subrange(lo as int, n as int)),
        decreases n - lo,
    {
        assert(v@.subrange(lo as int, n as int).drop_first() == v@.subrange(lo + 1, n as int));
        lo = lo + 1;
    }
    lo
}

/// The end of `v[lo..]` once trailing whitespace is dropped.
fn skip_white_back(v: &Vec<char>, lo: usize) -> (hi: usize)
    requires
        lo <= v.len(),
    ensures
        lo <= hi <= v.len(),
        trim_end(v@.subrange(lo as int, v.len() as int)) == v@.subrange(lo as int, hi as int),
{
    let n = v.len();
    let mut hi: usize = n;
    while hi > lo && is_whitespace(v[hi - 1])
        invariant
            lo <= hi <= n,
            n == v.len(),
            trim_end(v@.subrange(lo as int, n as int)) == trim_end(v@.subrange(lo as int, hi as int)),
        decreases hi - lo,
    {
        assert(v@.subrange(lo as int, hi as int).drop_last() == v@.subrange(lo as int, hi - 1));
        hi = hi - 1;
    }
    hi
}

/// The characters `v[lo..hi]`.
pub fn slice_of(v: &Vec<char>, lo: usize, hi: usize) -> (r: Vec<char>)
    requires
        lo <= hi <= v.len(),
    ensures
        r@ == v@.subrange(lo as int, hi as int),
{
    let mut r: Vec<char> = Vec::new();
    let mut i: usize = lo;
    while i < hi
        invariant
            lo <= i <= hi,
            hi <= v.len(),
            r@ == v@.subrange(lo as int, i as int),
        decreases hi - i,
    {
        r.push(v[i]);
        assert(v@.subrange(lo as int, i + 1) == v@.subrange(lo as int, i as int).push(v@[i as int]));
        i = i + 1;
    }
    r
}

/// `v` without leading and trailing whitespace.
pub fn trimmed(v: &Vec<char>) -> (r: Vec<char>)
    ensures
        r@ == trim(v@),
{
    let lo = skip_white(v);
    let hi = skip_white_back(v, lo);
    slice_of(v, lo, hi)
}

} // verus!
