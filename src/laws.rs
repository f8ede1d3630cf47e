//! What holds of the engine on stores it wrote itself: reading back,
//! uniqueness of shortcuts, and the effect of each command on the records.
use vstd::prelude::*;

use crate::commands::{CmdView, appended, is_complete, or_empty};
use crate::diagnostic::{Diagnostic, ErrorKind};
use crate::dirs::{
    Action, LineView, RecordView, ScanView, apply, has_shortcut, holds_shortcut,
    line_of, lowered, nl, parse_line, record, scan, start_state, step, store_update, without,
};
use crate::text::{
    dec, free_of, is_white, join, lemma_join_free, lemma_parse_dec, lemma_split_at_sep,
    lemma_split_join, lemma_split_plain, lemma_trim_plain, split, trim,
};

verus! {

// ---------------------------------------------------------------------------
// Well-formed stores
// ---------------------------------------------------------------------------

/// A field that neither ends a field nor a line.
pub open spec fn plain_field(s: Seq<char>) -> bool {
    free_of(s, ';') && free_of(s, '\n')
}

/// A path that survives the trimming of its line.
pub open spec fn plain_path(p: Seq<char>) -> bool {
    plain_field(p) && (p.len() == 0 || !is_white(p[0]))
}

/// A record that its line gives back: plain fields and at least one shortcut.
pub open spec fn well_formed(r: RecordView) -> bool {
    &&& plain_path(r.path)
    &&& r.shorts.len() >= 1
    &&& forall|j: int| 0 <= j < r.shorts.len() ==> plain_field(#[trigger] r.shorts[j])
}

pub open spec fn all_well_formed(rs: Seq<RecordView>) -> bool {
    forall|k: int| 0 <= k < rs.len() ==> well_formed(#[trigger] rs[k])
}

/// No shortcut belongs to two records.
pub open spec fn unique_shortcuts(rs: Seq<RecordView>) -> bool {
    forall|a: int, b: int, x: Seq<char>|
        0 <= a < rs.len() && 0 <= b < rs.len() && a != b && #[trigger] rs[a].shorts.contains(x)
            ==> !#[trigger] rs[b].shorts.contains(x)
}

/// The lines of the records, in order.
pub open spec fn lines_of(rs: Seq<RecordView>) -> Seq<Seq<char>> {
    rs.map_values(|r: RecordView| line_of(r))
}

/// The store text that holds the records, one line each.
pub open spec fn store_text(rs: Seq<RecordView>) -> Seq<char>
    decreases rs.len(),
{
    if rs.len() == 0 {
        Seq::empty()
    } else {
        nl(line_of(rs[0])) + store_text(rs.drop_first())
    }
}

// ---------------------------------------------------------------------------
// Reading back
// ---------------------------------------------------------------------------

proof fn lemma_free_concat(a: Seq<char>, b: Seq<char>, c: char)
    requires
        free_of(a, c),
        free_of(b, c),
    ensures
        free_of(a + b, c),
{
    assert forall|i: int| 0 <= i < (a + b).len() implies (a + b)[i] != c by {
        if i >= a.len() {
            assert((a + b)[i] == b[i - a.len()]);
        } else {
            assert((a + b)[i] == a[i]);
        }
    }
}

proof fn lemma_free_push(a: Seq<char>, x: char, c: char)
    requires
        free_of(a, c),
        x != c,
    ensures
        free_of(a.push(x), c),
{
    assert forall|i: int| 0 <= i < a.push(x).len() implies a.push(x)[i] != c by {
        if i < a.len() {
            assert(a.push(x)[i] == a[i]);
        }
    }
}

/// The line of a well-formed record is its own trimmed form, holds no line
/// break, and reads back as the record.
pub proof fn lemma_line_round_trip(r: RecordView)
    requires
        well_formed(r),
    ensures
        parse_line(line_of(r)) == LineView::Entry(r, true),
        trim(line_of(r)) == line_of(r),
        free_of(line_of(r), '\n'),
        line_of(r).len() > 0,
{
    let j = join(r.shorts, ';');
    let d = dec(r.priority as nat);
    let line = line_of(r);
    lemma_parse_dec(r.priority);
    assert forall|i: int| 0 <= i < r.shorts.len() implies free_of(#[trigger] r.shorts[i], ';') by {
        assert(plain_field(r.shorts[i]));
    }
    assert forall|i: int| 0 <= i < r.shorts.len() implies free_of(#[trigger] r.shorts[i], '\n') by {
        assert(plain_field(r.shorts[i]));
    }
    lemma_split_join(r.shorts, ';');
    lemma_join_free(r.shorts, ';', '\n');
    assert(line == r.path.push(';') + (j.push(';') + d));
    lemma_split_at_sep(r.path, j.push(';') + d, ';');
    lemma_split_at_sep(j, d, ';');
    lemma_split_plain(r.path, ';');
    lemma_split_plain(d, ';');
    let f = split(line, ';');
    assert(f == seq![r.path] + (r.shorts + seq![d]));
    assert(f.len() == r.shorts.len() + 2);
    assert(f[0] == r.path);
    assert(f.last() == d);
    assert(f.subrange(1, f.len() - 1) == r.shorts);
    // trimming
    if r.path.len() > 0 {
        assert(line[0] == r.path[0]);
    } else {
        assert(line[0] == ';');
    }
    assert(line.last() == d.last());
    lemma_trim_plain(line);
    // no line break
    lemma_free_push(r.path, ';', '\n');
    lemma_free_push(j, ';', '\n');
    lemma_free_concat(j.push(';'), d, '\n');
    lemma_free_concat(r.path.push(';'), j.push(';') + d, '\n');
}

/// Splitting a written store at its line breaks gives the records' lines
/// and one empty line after the last break.
pub proof fn lemma_store_lines(rs: Seq<RecordView>)
    requires
        all_well_formed(rs),
    ensures
        split(store_text(rs), '\n') == lines_of(rs).push(Seq::empty()),
    decreases rs.len(),
{
    if rs.len() == 0 {
        assert(lines_of(rs).push(Seq::empty()) == seq![Seq::<char>::empty()]);
    } else {
        let rest = rs.drop_first();
        assert(well_formed(rs[0]));
        assert forall|k: int| 0 <= k < rest.len() implies well_formed(#[trigger] rest[k]) by {
            assert(rest[k] == rs[k + 1]);
        }
        lemma_store_lines(rest);
        lemma_line_round_trip(rs[0]);
        lemma_split_at_sep(line_of(rs[0]), store_text(rest), '\n');
        lemma_split_plain(line_of(rs[0]), '\n');
        assert(lines_of(rs).push(Seq::empty()) == seq![line_of(rs[0])] + lines_of(rest).push(
            Seq::empty(),
        ));
    }
}

/// The text of two stores one after the other.
pub proof fn lemma_store_concat(a: Seq<RecordView>, b: Seq<RecordView>)
    ensures
        store_text(a + b) == store_text(a) + store_text(b),
    decreases a.len(),
{
    if a.len() == 0 {
        assert(a + b == b);
    } else {
        lemma_store_concat(a.drop_first(), b);
        assert((a + b).drop_first() == a.drop_first() + b);
        assert((a + b)[0] == a[0]);
    }
}

// ---------------------------------------------------------------------------
// Scans
// ---------------------------------------------------------------------------

/// A scan over two runs of lines is the scan of the first, then of the second.
pub proof fn lemma_scan_concat(
    a: Action,
    incr: u32,
    taken: bool,
    st: ScanView,
    l1: Seq<Seq<char>>,
    l2: Seq<Seq<char>>,
    i: int,
)
    ensures
        scan(a, incr, taken, st, l1 + l2, i) == ({
            let first = scan(a, incr, taken, st, l1, i);
            let second = scan(a, incr, taken, first.0, l2, i + l1.len());
            (second.0, first.1 + second.1)
        }),
    decreases l1.len(),
{
    if l1.len() == 0 {
        assert(l1 + l2 == l2);
    } else {
        let (st1, t1) = step(a, incr, taken, st, trim(l1[0]), i);
        lemma_scan_concat(a, incr, taken, st1, l1.drop_first(), l2, i + 1);
        assert((l1 + l2).drop_first() == l1.drop_first() + l2);
        assert((l1 + l2)[0] == l1[0]);
        let first_rest = scan(a, incr, taken, st1, l1.drop_first(), i + 1);
        let second = scan(a, incr, taken, first_rest.0, l2, i + l1.len());
        assert(t1 + (first_rest.1 + second.1) == (t1 + first_rest.1) + second.1);
    }
}

/// Once the command has found its target, written records pass through as they are.
pub proof fn lemma_copy_through(
    a: Action,
    incr: u32,
    taken: bool,
    st: ScanView,
    rs: Seq<RecordView>,
    i: int,
)
    requires
        st.success,
        all_well_formed(rs),
    ensures
        scan(a, incr, taken, st, lines_of(rs), i) == (st, store_text(rs)),
    decreases rs.len(),
{
    if rs.len() > 0 {
        let rest = rs.drop_first();
        assert(well_formed(rs[0]));
        assert forall|k: int| 0 <= k < rest.len() implies well_formed(#[trigger] rest[k]) by {
            assert(rest[k] == rs[k + 1]);
        }
        lemma_line_round_trip(rs[0]);
        lemma_copy_through(a, incr, taken, st, rest, i + 1);
        assert(lines_of(rs).drop_first() == lines_of(rest));
        assert(lines_of(rs)[0] == line_of(rs[0]));
    } else {
        assert(lines_of(rs).len() == 0);
    }
}

/// The empty line after the last line break writes nothing.
pub proof fn lemma_scan_blank(a: Action, incr: u32, taken: bool, st: ScanView, i: int)
    ensures
        scan(a, incr, taken, st, seq![Seq::<char>::empty()], i) == (st, Seq::<char>::empty()),
{
    let l = seq![Seq::<char>::empty()];
    assert(l.drop_first().len() == 0);
    assert(trim(l[0]) == Seq::<char>::empty());
    assert(split(Seq::<char>::empty(), ';') == seq![Seq::<char>::empty()]);
    assert(parse_line(Seq::<char>::empty()) == LineView::Blank);
    assert(step(a, incr, taken, st, Seq::<char>::empty(), i) == (st, Seq::<char>::empty()));
    assert(scan(a, incr, taken, st, l.drop_first(), i + 1) == (st, Seq::<char>::empty()));
    assert(Seq::<char>::empty() + Seq::<char>::empty() == Seq::<char>::empty());
}

/// The record is left alone by the action, on a scan that has not yet succeeded.
pub open spec fn untouched(a: Action, taken: bool, r: RecordView) -> bool {
    match a {
        Action::Get(s, _) => !(s is Some && r.shorts.contains(s->0)),
        Action::Add(s, p) => !r.shorts.contains(s) && (taken || r.path != p),
        Action::Edit(s, p) => r.path != p && !r.shorts.contains(s),
        Action::Rm(s) => !r.shorts.contains(s),
        Action::Del(p) => r.path != p,
        Action::Decr(_) | Action::Reset => false,
    }
}

/// Records the action leaves alone are written back as they are; the scan
/// has still not succeeded and reported nothing.
pub proof fn lemma_untouched(
    a: Action,
    incr: u32,
    taken: bool,
    st: ScanView,
    rs: Seq<RecordView>,
    i: int,
)
    requires
        !st.success,
        all_well_formed(rs),
        forall|k: int| 0 <= k < rs.len() ==> untouched(a, taken, #[trigger] rs[k]),
    ensures
        scan(a, incr, taken, st, lines_of(rs), i).1 == store_text(rs),
        !scan(a, incr, taken, st, lines_of(rs), i).0.success,
        scan(a, incr, taken, st, lines_of(rs), i).0.issues == st.issues,
        !(a is Get) ==> scan(a, incr, taken, st, lines_of(rs), i).0 == st,
    decreases rs.len(),
{
    if rs.len() > 0 {
        let rest = rs.drop_first();
        assert(well_formed(rs[0]));
        assert(untouched(a, taken, rs[0]));
        assert forall|k: int| 0 <= k < rest.len() implies well_formed(#[trigger] rest[k]) by {
            assert(rest[k] == rs[k + 1]);
        }
        assert forall|k: int| 0 <= k < rest.len() implies untouched(a, taken, #[trigger] rest[k]) by {
            assert(rest[k] == rs[k + 1]);
        }
        lemma_line_round_trip(rs[0]);
        assert(lines_of(rs).drop_first() == lines_of(rest));
        assert(lines_of(rs)[0] == line_of(rs[0]));
        let (st1, t1) = step(a, incr, taken, st, line_of(rs[0]), i);
        assert(t1 == nl(line_of(rs[0])));
        assert(!st1.success && st1.issues == st.issues);
        assert(!(a is Get) ==> st1 == st);
        lemma_untouched(a, incr, taken, st1, rest, i + 1);
    } else {
        assert(lines_of(rs).len() == 0);
    }
}

/// The lines of records split around the record `k`.
pub proof fn lemma_lines_pivot(rs: Seq<RecordView>, k: int)
    requires
        0 <= k < rs.len(),
    ensures
        lines_of(rs).push(Seq::empty()) == lines_of(rs.take(k)) + (seq![line_of(rs[k])] + (lines_of(
            rs.skip(k + 1),
        ) + seq![Seq::<char>::empty()])),
        rs == rs.take(k) + (seq![rs[k]] + rs.skip(k + 1)),
{
    assert(lines_of(rs).push(Seq::empty()) == lines_of(rs.take(k)) + (seq![line_of(rs[k])] + (
    lines_of(rs.skip(k + 1)) + seq![Seq::<char>::empty()])));
    assert(rs == rs.take(k) + (seq![rs[k]] + rs.skip(k + 1)));
}

pub proof fn lemma_well_formed_parts(rs: Seq<RecordView>, k: int)
    requires
        0 <= k < rs.len(),
        all_well_formed(rs),
    ensures
        all_well_formed(rs.take(k)),
        all_well_formed(rs.skip(k + 1)),
        well_formed(rs[k]),
{
    assert forall|j: int| 0 <= j < rs.take(k).len() implies well_formed(#[trigger] rs.take(k)[j]) by {
        assert(rs.take(k)[j] == rs[j]);
    }
    assert forall|j: int| 0 <= j < rs.skip(k + 1).len() implies well_formed(
        #[trigger] rs.skip(k + 1)[j],
    ) by {
        assert(rs.skip(k + 1)[j] == rs[j + k + 1]);
    }
}

/// A whole scan of a written store whose record `k` is the first the action
/// touches, where touching it ends the search.
pub proof fn lemma_pivot(a: Action, incr: u32, taken: bool, st: ScanView, rs: Seq<RecordView>, k: int)
    requires
        0 <= k < rs.len(),
        !st.success,
        all_well_formed(rs),
        forall|j: int| 0 <= j < k ==> untouched(a, taken, #[trigger] rs[j]),
    ensures
        ({
            let pre = scan(a, incr, taken, st, lines_of(rs.take(k)), 0).0;
            let (s2, t2) = apply(a, incr, taken, pre, rs[k], k);
            &&& !pre.success
            &&& pre.issues == st.issues
            &&& !(a is Get) ==> pre == st
            &&& s2.success ==> scan(a, incr, taken, st, lines_of(rs).push(Seq::empty()), 0) == (
                s2,
                store_text(rs.take(k)) + t2 + store_text(rs.skip(k + 1)),
            )
        }),
{
    lemma_well_formed_parts(rs, k);
    lemma_lines_pivot(rs, k);
    let pre_rs = rs.take(k);
    let post = rs.skip(k + 1);
    assert forall|j: int| 0 <= j < pre_rs.len() implies untouched(a, taken, #[trigger] pre_rs[j]) by {
        assert(pre_rs[j] == rs[j]);
    }
    lemma_untouched(a, incr, taken, st, pre_rs, 0);
    let pre = scan(a, incr, taken, st, lines_of(pre_rs), 0);
    let (s2, t2) = apply(a, incr, taken, pre.0, rs[k], k);
    lemma_line_round_trip(rs[k]);
    let tail = seq![line_of(rs[k])] + (lines_of(post) + seq![Seq::<char>::empty()]);
    lemma_scan_concat(a, incr, taken, st, lines_of(pre_rs), tail, 0);
    assert(lines_of(pre_rs).len() == k);
    if s2.success {
        lemma_scan_concat(a, incr, taken, pre.0, seq![line_of(rs[k])], lines_of(post) + seq![Seq::<char>::empty()], k);
        let one = seq![line_of(rs[k])];
        assert(one.drop_first().len() == 0);
        assert(trim(one[0]) == line_of(rs[k]));
        assert(step(a, incr, taken, pre.0, line_of(rs[k]), k) == (s2, t2));
        assert(scan(a, incr, taken, s2, one.drop_first(), k + 1) == (s2, Seq::<char>::empty()));
        assert(scan(a, incr, taken, pre.0, one, k) == (s2, t2 + Seq::<char>::empty()));
        assert(t2 + Seq::<char>::empty() == t2);
        lemma_scan_concat(a, incr, taken, s2, lines_of(post), seq![Seq::<char>::empty()], k + 1);
        lemma_copy_through(a, incr, taken, s2, post, k + 1);
        lemma_scan_blank(a, incr, taken, s2, k + 1 + post.len());
        assert(store_text(post) + Seq::<char>::empty() == store_text(post));
        assert(store_text(pre_rs) + (t2 + store_text(post)) == store_text(pre_rs) + t2 + store_text(post));
    }
}

/// A whole scan of a written store that the action leaves alone.
pub proof fn lemma_all_untouched(a: Action, incr: u32, taken: bool, st: ScanView, rs: Seq<RecordView>)
    requires
        !st.success,
        all_well_formed(rs),
        forall|j: int| 0 <= j < rs.len() ==> untouched(a, taken, #[trigger] rs[j]),
    ensures
        scan(a, incr, taken, st, lines_of(rs).push(Seq::empty()), 0).1 == store_text(rs),
        !scan(a, incr, taken, st, lines_of(rs).push(Seq::empty()), 0).0.success,
        scan(a, incr, taken, st, lines_of(rs).push(Seq::empty()), 0).0.issues == st.issues,
{
    lemma_untouched(a, incr, taken, st, rs, 0);
    let pre = scan(a, incr, taken, st, lines_of(rs), 0);
    lemma_scan_concat(a, incr, taken, st, lines_of(rs), seq![Seq::<char>::empty()], 0);
    assert(lines_of(rs) + seq![Seq::<char>::empty()] == lines_of(rs).push(Seq::empty()));
    lemma_scan_blank(a, incr, taken, pre.0, lines_of(rs).len() as int);
    assert(pre.1 + Seq::<char>::empty() == pre.1);
}

/// The first record satisfying `p`, given one that does.
pub proof fn first_index(rs: Seq<RecordView>, p: spec_fn(RecordView) -> bool, k: int) -> (m: int)
    requires
        0 <= k < rs.len(),
        p(rs[k]),
    ensures
        0 <= m <= k,
        p(rs[m]),
        forall|j: int| 0 <= j < m ==> !p(#[trigger] rs[j]),
    decreases k,
{
    if exists|j: int| 0 <= j < k && p(#[trigger] rs[j]) {
        let j = choose|j: int| 0 <= j < k && p(#[trigger] rs[j]);
        first_index(rs, p, j)
    } else {
        k
    }
}

/// Over a written store, "some line holds the shortcut" means "some record holds it".
pub proof fn lemma_has_shortcut(rs: Seq<RecordView>, s: Seq<char>)
    requires
        all_well_formed(rs),
    ensures
        has_shortcut(lines_of(rs).push(Seq::empty()), s) <==> exists|k: int|
            0 <= k < rs.len() && #[trigger] rs[k].shorts.contains(s),
{
    let lines = lines_of(rs).push(Seq::empty());
    if has_shortcut(lines, s) {
        let k = choose|k: int| 0 <= k < lines.len() && holds_shortcut(trim(#[trigger] lines[k]), s);
        if k == rs.len() {
            assert(lines[k] == Seq::<char>::empty());
            assert(trim(lines[k]) == Seq::<char>::empty());
            assert(split(Seq::<char>::empty(), ';') == seq![Seq::<char>::empty()]);
            assert(false);
        } else {
            assert(well_formed(rs[k]));
            assert(lines[k] == line_of(rs[k]));
            lemma_line_round_trip(rs[k]);
            assert(rs[k].shorts.contains(s));
        }
    }
    if exists|k: int| 0 <= k < rs.len() && #[trigger] rs[k].shorts.contains(s) {
        let k = choose|k: int| 0 <= k < rs.len() && #[trigger] rs[k].shorts.contains(s);
        assert(well_formed(rs[k]));
        assert(lines[k] == line_of(rs[k]));
        lemma_line_round_trip(rs[k]);
        assert(holds_shortcut(trim(lines[k]), s));
    }
}

/// The text of a store with record `k` replaced, or taken out.
pub proof fn lemma_store_pivot(rs: Seq<RecordView>, k: int, t: Seq<char>)
    requires
        0 <= k < rs.len(),
    ensures
        t == Seq::<char>::empty() ==> store_text(rs.take(k)) + t + store_text(rs.skip(k + 1))
            == store_text(rs.remove(k)),
        forall|r: RecordView|
            t == nl(line_of(r)) ==> store_text(rs.take(k)) + t + store_text(rs.skip(k + 1))
                == store_text(#[trigger] rs.update(k, r)),
{
    lemma_store_concat(rs.take(k), rs.skip(k + 1));
    assert(rs.remove(k) == rs.take(k) + rs.skip(k + 1));
    assert(store_text(rs.take(k)) + Seq::<char>::empty() == store_text(rs.take(k)));
    assert forall|r: RecordView|
        t == nl(line_of(r)) implies store_text(rs.take(k)) + t + store_text(rs.skip(k + 1))
        == store_text(#[trigger] rs.update(k, r)) by {
        let u = rs.update(k, r);
        assert(u == rs.take(k) + (seq![r] + rs.skip(k + 1)));
        lemma_store_concat(rs.take(k), seq![r] + rs.skip(k + 1));
        lemma_store_concat(seq![r], rs.skip(k + 1));
        assert(seq![r].drop_first() == Seq::<RecordView>::empty());
        assert(store_text(Seq::<RecordView>::empty()) == Seq::<char>::empty());
        assert(seq![r][0] == r);
        assert(store_text(seq![r]) == nl(line_of(r)) + Seq::<char>::empty());
        assert(nl(line_of(r)) + Seq::<char>::empty() == nl(line_of(r)));
    }
}

// ---------------------------------------------------------------------------
// Laws
// ---------------------------------------------------------------------------

/// Round trip: a store written from well-formed records, updated by a
/// lookup that no record answers, is written back byte for byte.
pub proof fn law_round_trip(
    rs: Seq<RecordView>,
    s: Option<Seq<char>>,
    sub: Option<Seq<char>>,
    incr: u32,
)
    requires
        all_well_formed(rs),
        forall|k: int| 0 <= k < rs.len() ==> !(s is Some && #[trigger] rs[k].shorts.contains(s->0)),
    ensures
        store_update(store_text(rs), Some(CmdView::Get(s, sub)), incr).0 == store_text(rs),
{
    lemma_store_lines(rs);
    let a = Action::Get(s, sub);
    assert forall|k: int| 0 <= k < rs.len() implies untouched(a, false, #[trigger] rs[k]) by {}
    lemma_all_untouched(a, incr, false, start_state(false), rs);
}

/// The records with every priority lowered by `n`, stopping at 0.
pub open spec fn lowered_all(rs: Seq<RecordView>, n: u32) -> Seq<RecordView> {
    rs.map_values(|r: RecordView| record(r.path, r.shorts, lowered(r.priority, n)))
}

proof fn lemma_decrement_scan(n: u32, incr: u32, st: ScanView, rs: Seq<RecordView>, i: int)
    requires
        !st.success,
        all_well_formed(rs),
    ensures
        scan(Action::Decr(n), incr, false, st, lines_of(rs), i) == (st, store_text(lowered_all(rs, n))),
    decreases rs.len(),
{
    let a = Action::Decr(n);
    if rs.len() > 0 {
        let rest = rs.drop_first();
        assert(well_formed(rs[0]));
        assert forall|k: int| 0 <= k < rest.len() implies well_formed(#[trigger] rest[k]) by {
            assert(rest[k] == rs[k + 1]);
        }
        lemma_line_round_trip(rs[0]);
        assert(lines_of(rs).drop_first() == lines_of(rest));
        assert(lines_of(rs)[0] == line_of(rs[0]));
        lemma_decrement_scan(n, incr, st, rest, i + 1);
        assert(lowered_all(rs, n).drop_first() == lowered_all(rest, n));
        assert(lowered_all(rs, n)[0] == record(rs[0].path, rs[0].shorts, lowered(rs[0].priority, n)));
    } else {
        assert(lines_of(rs).len() == 0);
        assert(lowered_all(rs, n).len() == 0);
    }
}

/// Decrement: every record keeps its path and shortcuts, and its priority
/// becomes `p - n`, or 0 where `n` exceeds `p`; nothing is resolved.
pub proof fn law_decrement(rs: Seq<RecordView>, n: u32, incr: u32)
    requires
        all_well_formed(rs),
    ensures
        store_update(store_text(rs), Some(CmdView::Decr(n)), incr) == (
            store_text(lowered_all(rs, n)),
            None::<Seq<char>>,
            Seq::<Diagnostic>::empty(),
        ),
        forall|k: int|
            0 <= k < rs.len() ==> (#[trigger] lowered_all(rs, n)[k]).priority == if rs[k].priority
                >= n {
                rs[k].priority - n
            } else {
                0
            },
{
    lemma_store_lines(rs);
    let a = Action::Decr(n);
    let st = start_state(false);
    lemma_decrement_scan(n, incr, st, rs, 0);
    lemma_scan_concat(a, incr, false, st, lines_of(rs), seq![Seq::<char>::empty()], 0);
    assert(lines_of(rs) + seq![Seq::<char>::empty()] == lines_of(rs).push(Seq::empty()));
    lemma_scan_blank(a, incr, false, st, lines_of(rs).len() as int);
    assert(store_text(lowered_all(rs, n)) + Seq::<char>::empty() == store_text(lowered_all(rs, n)));
}

/// Lookup: where record `k` is the only one holding shortcut `s`, looking
/// it up raises that record's priority by exactly `incr`, changes nothing
/// else, and resolves to its path followed by `/` and the subpath.
pub proof fn law_lookup(rs: Seq<RecordView>, k: int, s: Seq<char>, sub: Option<Seq<char>>, incr: u32)
    requires
        all_well_formed(rs),
        0 <= k < rs.len(),
        rs[k].shorts.contains(s),
        forall|j: int| 0 <= j < rs.len() && j != k ==> !(#[trigger] rs[j]).shorts.contains(s),
        rs[k].priority + incr <= u32::MAX,
    ensures
        store_update(store_text(rs), Some(CmdView::Get(Some(s), sub)), incr) == (
            store_text(rs.update(k, record(rs[k].path, rs[k].shorts, (rs[k].priority + incr) as u32))),
            Some(rs[k].path.push('/') + or_empty(sub)),
            Seq::<Diagnostic>::empty(),
        ),
{
    lemma_store_lines(rs);
    let a = Action::Get(Some(s), sub);
    let st = start_state(false);
    assert forall|j: int| 0 <= j < k implies untouched(a, false, #[trigger] rs[j]) by {}
    lemma_pivot(a, incr, false, st, rs, k);
    let r2 = record(rs[k].path, rs[k].shorts, (rs[k].priority + incr) as u32);
    lemma_store_pivot(rs, k, nl(line_of(r2)));
}

/// The index of the first record of highest priority.
pub open spec fn first_max(rs: Seq<RecordView>) -> int
    decreases rs.len(),
{
    if rs.len() <= 1 {
        0
    } else {
        let m = first_max(rs.drop_last());
        if rs.last().priority > rs.drop_last()[m].priority {
            rs.len() - 1
        } else {
            m
        }
    }
}

/// `first_max` is the first index of a highest priority.
pub proof fn lemma_first_max(rs: Seq<RecordView>)
    requires
        rs.len() > 0,
    ensures
        0 <= first_max(rs) < rs.len(),
        forall|j: int| 0 <= j < rs.len() ==> (#[trigger] rs[j]).priority <= rs[first_max(rs)].priority,
        forall|j: int| 0 <= j < first_max(rs) ==> (#[trigger] rs[j]).priority < rs[first_max(rs)].priority,
    decreases rs.len(),
{
    if rs.len() > 1 {
        let init = rs.drop_last();
        lemma_first_max(init);
        assert forall|j: int| 0 <= j < init.len() implies init[j] == rs[j] by {}
    }
}

/// A lookup without shortcut rewrites a written store as it was and
/// tracks the first record of highest non-zero priority.
proof fn lemma_fallback_scan(rs: Seq<RecordView>, sub: Option<Seq<char>>, incr: u32)
    requires
        all_well_formed(rs),
    ensures
        ({
            let out = scan(Action::Get(None, sub), incr, false, start_state(false), lines_of(rs), 0);
            &&& out.1 == store_text(rs)
            &&& !out.0.success
            &&& out.0.correct is None
            &&& out.0.issues == Seq::<Diagnostic>::empty()
            &&& out.0.max_priority == if rs.len() > 0 {
                rs[first_max(rs)].priority
            } else {
                0
            }
            &&& out.0.prioritised == if rs.len() > 0 && rs[first_max(rs)].priority > 0 {
                Some(rs[first_max(rs)].path)
            } else {
                None
            }
        }),
    decreases rs.len(),
{
    let a = Action::Get(None, sub);
    let st0 = start_state(false);
    assert forall|j: int| 0 <= j < rs.len() implies untouched(a, false, #[trigger] rs[j]) by {}
    lemma_untouched(a, incr, false, st0, rs, 0);
    if rs.len() == 0 {
        assert(lines_of(rs).len() == 0);
    } else {
        let init = rs.drop_last();
        let last = rs.last();
        assert forall|k: int| 0 <= k < init.len() implies well_formed(#[trigger] init[k]) by {
            assert(init[k] == rs[k]);
        }
        assert(well_formed(rs[rs.len() - 1]));
        lemma_fallback_scan(init, sub, incr);
        assert(lines_of(rs) == lines_of(init) + seq![line_of(last)]);
        lemma_scan_concat(a, incr, false, st0, lines_of(init), seq![line_of(last)], 0);
        let mid = scan(a, incr, false, st0, lines_of(init), 0).0;
        lemma_line_round_trip(last);
        let one = seq![line_of(last)];
        assert(one.drop_first().len() == 0);
        let (s1, t1) = step(a, incr, false, mid, line_of(last), init.len() as int);
        assert(scan(a, incr, false, s1, one.drop_first(), init.len() as int + 1) == (s1, Seq::<char>::empty()));
        assert(one[0] == line_of(last));
        if init.len() > 0 {
            lemma_first_max(init);
        }
    }
}

/// Fallback selection: a lookup without shortcut, on a written store with
/// some non-zero priority, resolves to the path of the first record of
/// highest priority, followed by `/` and the subpath, and rewrites the
/// store as it was.
pub proof fn law_fallback(rs: Seq<RecordView>, sub: Option<Seq<char>>, incr: u32)
    requires
        all_well_formed(rs),
        exists|j: int| 0 <= j < rs.len() && (#[trigger] rs[j]).priority > 0,
    ensures
        ({
            let q = first_max(rs);
            &&& 0 <= q < rs.len()
            &&& forall|j: int| 0 <= j < rs.len() ==> (#[trigger] rs[j]).priority <= rs[q].priority
            &&& forall|j: int| 0 <= j < q ==> (#[trigger] rs[j]).priority < rs[q].priority
            &&& store_update(store_text(rs), Some(CmdView::Get(None, sub)), incr) == (
                store_text(rs),
                Some(rs[q].path.push('/') + or_empty(sub)),
                Seq::<Diagnostic>::empty(),
            )
        }),
{
    lemma_first_max(rs);
    let j = choose|j: int| 0 <= j < rs.len() && (#[trigger] rs[j]).priority > 0;
    assert(rs[j].priority <= rs[first_max(rs)].priority);
    lemma_store_lines(rs);
    lemma_fallback_scan(rs, sub, incr);
    let a = Action::Get(None, sub);
    let st0 = start_state(false);
    let out = scan(a, incr, false, st0, lines_of(rs), 0);
    lemma_scan_concat(a, incr, false, st0, lines_of(rs), seq![Seq::<char>::empty()], 0);
    assert(lines_of(rs) + seq![Seq::<char>::empty()] == lines_of(rs).push(Seq::empty()));
    lemma_scan_blank(a, incr, false, out.0, lines_of(rs).len() as int);
    assert(out.1 + Seq::<char>::empty() == out.1);
}

/// Add collision: adding a shortcut that a record already holds reports
/// the collision and leaves the store as it was.
pub proof fn law_add_collision(rs: Seq<RecordView>, k: int, x: Seq<char>, p: Seq<char>, incr: u32)
    requires
        all_well_formed(rs),
        0 <= k < rs.len(),
        rs[k].shorts.contains(x),
    ensures
        store_update(store_text(rs), Some(CmdView::Add(Some(x), Some(p))), incr) == (
            store_text(rs),
            None::<Seq<char>>,
            seq![Diagnostic::ShortcutExists],
        ),
{
    lemma_store_lines(rs);
    lemma_has_shortcut(rs, x);
    let a = Action::Add(x, p);
    let st = start_state(false);
    let m = first_index(rs, |r: RecordView| r.shorts.contains(x), k);
    assert forall|j: int| 0 <= j < m implies untouched(a, true, #[trigger] rs[j]) by {
        assert(!(|r: RecordView| r.shorts.contains(x))(rs[j]));
    }
    lemma_pivot(a, incr, true, st, rs, m);
    lemma_store_pivot(rs, m, nl(line_of(rs[m])));
    assert(rs.update(m, rs[m]) == rs);
    assert(Seq::<Diagnostic>::empty().push(Diagnostic::ShortcutExists) == seq![Diagnostic::ShortcutExists]);
}

/// Remove: where shortcuts are unique, removing the only shortcut of a
/// record takes the record out of the store; removing one of several keeps
/// the record with the others.
pub proof fn law_remove(rs: Seq<RecordView>, k: int, s: Seq<char>, incr: u32)
    requires
        all_well_formed(rs),
        unique_shortcuts(rs),
        0 <= k < rs.len(),
        rs[k].shorts.contains(s),
        s.len() > 0,
    ensures
        rs[k].shorts.len() == 1 ==> store_update(store_text(rs), Some(CmdView::Rm(s)), incr) == (
            store_text(rs.remove(k)),
            None::<Seq<char>>,
            Seq::<Diagnostic>::empty(),
        ),
        rs[k].shorts.len() > 1 ==> store_update(store_text(rs), Some(CmdView::Rm(s)), incr) == (
            store_text(rs.update(k, record(rs[k].path, without(rs[k].shorts, s), rs[k].priority))),
            None::<Seq<char>>,
            Seq::<Diagnostic>::empty(),
        ),
        forall|o: Seq<char>|
            rs[k].shorts == seq![s, o] && o != s ==> #[trigger] without(rs[k].shorts, s) == seq![o],
{
    lemma_store_lines(rs);
    let a = Action::Rm(s);
    let st = start_state(false);
    assert forall|j: int| 0 <= j < k implies untouched(a, false, #[trigger] rs[j]) by {}
    lemma_pivot(a, incr, false, st, rs, k);
    if rs[k].shorts.len() == 1 {
        lemma_store_pivot(rs, k, Seq::<char>::empty());
    } else {
        let r2 = record(rs[k].path, without(rs[k].shorts, s), rs[k].priority);
        lemma_store_pivot(rs, k, nl(line_of(r2)));
    }
    assert forall|o: Seq<char>|
        rs[k].shorts == seq![s, o] && o != s implies #[trigger] without(rs[k].shorts, s) == seq![o] by {
        let ss = seq![s, o];
        assert(ss.drop_last() == seq![s]);
        assert(seq![s].drop_last() == Seq::<Seq<char>>::empty());
        assert(seq![s].last() == s);
        assert(without(Seq::<Seq<char>>::empty(), s) == Seq::<Seq<char>>::empty());
        assert(without(seq![s], s) == Seq::<Seq<char>>::empty());
        assert(ss.last() == o);
        assert(Seq::<Seq<char>>::empty().push(o) == seq![o]);
    }
}

/// Delete: deleting the path of record `k`, the first with that path,
/// takes the whole record out, whatever its shortcuts, and resolves nothing.
pub proof fn law_delete(rs: Seq<RecordView>, k: int, p: Seq<char>, incr: u32)
    requires
        all_well_formed(rs),
        0 <= k < rs.len(),
        rs[k].path == p,
        p.len() > 0,
        forall|j: int| 0 <= j < k ==> (#[trigger] rs[j]).path != p,
    ensures
        store_update(store_text(rs), Some(CmdView::Del(p)), incr) == (
            store_text(rs.remove(k)),
            None::<Seq<char>>,
            Seq::<Diagnostic>::empty(),
        ),
{
    lemma_store_lines(rs);
    let a = Action::Del(p);
    let st = start_state(false);
    assert forall|j: int| 0 <= j < k implies untouched(a, false, #[trigger] rs[j]) by {}
    lemma_pivot(a, incr, false, st, rs, k);
    lemma_store_pivot(rs, k, Seq::<char>::empty());
}

proof fn lemma_store_one(r: RecordView)
    ensures
        store_text(seq![r]) == nl(line_of(r)),
{
    assert(seq![r].drop_first() == Seq::<RecordView>::empty());
    assert(store_text(Seq::<RecordView>::empty()) == Seq::<char>::empty());
    assert(seq![r][0] == r);
    assert(nl(line_of(r)) + Seq::<char>::empty() == nl(line_of(r)));
}

proof fn lemma_push_contains(ss: Seq<Seq<char>>, s: Seq<char>, x: Seq<char>)
    ensures
        ss.push(s).contains(x) <==> (ss.contains(x) || x == s),
{
    if ss.push(s).contains(x) {
        let i = choose|i: int| 0 <= i < ss.push(s).len() && ss.push(s)[i] == x;
        if i < ss.len() {
            assert(ss[i] == x);
        }
    }
    if ss.contains(x) {
        let i = choose|i: int| 0 <= i < ss.len() && ss[i] == x;
        assert(ss.push(s)[i] == x);
    }
    if x == s {
        assert(ss.push(s)[ss.len() as int] == x);
    }
}

/// A store with one record appended, where no record holds the new shortcut.
proof fn lemma_append_new(rs: Seq<RecordView>, s: Seq<char>, p: Seq<char>)
    requires
        all_well_formed(rs),
        unique_shortcuts(rs),
        plain_field(s),
        plain_path(p),
        forall|k: int| 0 <= k < rs.len() ==> !(#[trigger] rs[k]).shorts.contains(s),
    ensures
        ({
            let rs2 = rs.push(record(p, seq![s], 0));
            &&& all_well_formed(rs2)
            &&& unique_shortcuts(rs2)
            &&& store_text(rs2) == store_text(rs) + nl(line_of(record(p, seq![s], 0)))
        }),
{
    let r = record(p, seq![s], 0);
    let rs2 = rs.push(r);
    lemma_store_concat(rs, seq![r]);
    lemma_store_one(r);
    assert(rs2 == rs + seq![r]);
    assert forall|k: int| 0 <= k < rs2.len() implies well_formed(#[trigger] rs2[k]) by {
        if k < rs.len() {
            assert(rs2[k] == rs[k]);
        } else {
            assert(rs2[k] == r);
            assert forall|j: int| 0 <= j < r.shorts.len() implies plain_field(#[trigger] r.shorts[j]) by {
                assert(r.shorts[j] == s);
            }
        }
    }
    assert forall|a: int, b: int, x: Seq<char>|
        0 <= a < rs2.len() && 0 <= b < rs2.len() && a != b && #[trigger] rs2[a].shorts.contains(x)
            implies !#[trigger] rs2[b].shorts.contains(x) by {
        if a < rs.len() && b < rs.len() {
            assert(rs2[a] == rs[a] && rs2[b] == rs[b]);
        } else if a == rs.len() {
            let i = choose|i: int| 0 <= i < r.shorts.len() && r.shorts[i] == x;
            assert(x == s);
            assert(rs2[b] == rs[b]);
        } else {
            assert(rs2[b] == r);
            assert(rs2[a] == rs[a]);
            if rs2[b].shorts.contains(x) {
                let i = choose|i: int| 0 <= i < r.shorts.len() && r.shorts[i] == x;
                assert(r.shorts[i] == s);
                assert(rs[a].shorts.contains(s));
            }
        }
    }
}

/// Uniqueness under add: adding a plain shortcut to a plain path in a store
/// whose shortcuts are unique writes a store whose shortcuts are unique.
pub proof fn law_add_keeps_shortcuts_unique(rs: Seq<RecordView>, s: Seq<char>, p: Seq<char>, incr: u32)
    requires
        all_well_formed(rs),
        unique_shortcuts(rs),
        plain_field(s),
        plain_path(p),
    ensures
        exists|rs2: Seq<RecordView>|
            all_well_formed(rs2) && unique_shortcuts(rs2) && #[trigger] store_text(rs2) == store_update(
                store_text(rs),
                Some(CmdView::Add(Some(s), Some(p))),
                incr,
            ).0,
{
    let out = store_update(store_text(rs), Some(CmdView::Add(Some(s), Some(p))), incr).0;
    lemma_store_lines(rs);
    lemma_has_shortcut(rs, s);
    let a = Action::Add(s, p);
    let st = start_state(false);
    if exists|k: int| 0 <= k < rs.len() && #[trigger] rs[k].shorts.contains(s) {
        let k = choose|k: int| 0 <= k < rs.len() && #[trigger] rs[k].shorts.contains(s);
        law_add_collision(rs, k, s, p, incr);
        assert(store_text(rs) == out);
    } else if exists|k: int| 0 <= k < rs.len() && (#[trigger] rs[k]).path == p {
        let k = choose|k: int| 0 <= k < rs.len() && (#[trigger] rs[k]).path == p;
        let m = first_index(rs, |r: RecordView| r.path == p, k);
        assert forall|j: int| 0 <= j < m implies untouched(a, false, #[trigger] rs[j]) by {
            assert(!(|r: RecordView| r.path == p)(rs[j]));
        }
        lemma_pivot(a, incr, false, st, rs, m);
        let p2 = crate::dirs::raise(st, rs[m].priority, incr, m).1;
        let r2 = record(p, rs[m].shorts.push(s), p2);
        lemma_store_pivot(rs, m, nl(line_of(r2)));
        let rs2 = rs.update(m, r2);
        assert(well_formed(rs[m]));
        assert forall|i: int| 0 <= i < rs2.len() implies well_formed(#[trigger] rs2[i]) by {
            if i != m {
                assert(rs2[i] == rs[i]);
            } else {
                assert forall|j: int| 0 <= j < r2.shorts.len() implies plain_field(
                    #[trigger] r2.shorts[j],
                ) by {
                    if j < rs[m].shorts.len() {
                        assert(r2.shorts[j] == rs[m].shorts[j]);
                    }
                }
            }
        }
        assert forall|a1: int, b1: int, x: Seq<char>|
            0 <= a1 < rs2.len() && 0 <= b1 < rs2.len() && a1 != b1 && #[trigger] rs2[a1].shorts.contains(x)
                implies !#[trigger] rs2[b1].shorts.contains(x) by {
            lemma_push_contains(rs[m].shorts, s, x);
            if a1 != m && b1 != m {
                assert(rs2[a1] == rs[a1] && rs2[b1] == rs[b1]);
            } else if a1 == m {
                assert(rs2[b1] == rs[b1]);
                if x == s {
                    assert(!rs[b1].shorts.contains(s));
                } else {
                    assert(rs[m].shorts.contains(x));
                }
            } else {
                assert(rs2[a1] == rs[a1]);
                if x == s {
                    assert(!rs[a1].shorts.contains(s));
                } else {
                    assert(rs2[b1].shorts.contains(x) ==> rs[m].shorts.contains(x));
                }
            }
        }
        assert(store_text(rs2) == out);
    } else {
        assert forall|j: int| 0 <= j < rs.len() implies untouched(a, false, #[trigger] rs[j]) by {}
        lemma_all_untouched(a, incr, false, st, rs);
        lemma_append_new(rs, s, p);
        assert(store_text(rs.push(record(p, seq![s], 0))) == out);
    }
}

/// Uniqueness under edit: moving a shortcut's record to a plain path in a
/// store whose shortcuts are unique writes a store whose shortcuts are unique.
pub proof fn law_edit_keeps_shortcuts_unique(rs: Seq<RecordView>, s: Seq<char>, p: Seq<char>, incr: u32)
    requires
        all_well_formed(rs),
        unique_shortcuts(rs),
        plain_field(s),
        plain_path(p),
    ensures
        exists|rs2: Seq<RecordView>|
            all_well_formed(rs2) && unique_shortcuts(rs2) && #[trigger] store_text(rs2) == store_update(
                store_text(rs),
                Some(CmdView::Edit(Some(s), Some(p))),
                incr,
            ).0,
{
    let out = store_update(store_text(rs), Some(CmdView::Edit(Some(s), Some(p))), incr).0;
    lemma_store_lines(rs);
    let a = Action::Edit(s, p);
    let st = start_state(false);
    let hit = |r: RecordView| r.path == p || r.shorts.contains(s);
    if exists|k: int| 0 <= k < rs.len() && hit(#[trigger] rs[k]) {
        let k = choose|k: int| 0 <= k < rs.len() && hit(#[trigger] rs[k]);
        let m = first_index(rs, hit, k);
        assert forall|j: int| 0 <= j < m implies untouched(a, false, #[trigger] rs[j]) by {
            assert(!hit(rs[j]));
        }
        lemma_pivot(a, incr, false, st, rs, m);
        if rs[m].path == p {
            lemma_store_pivot(rs, m, nl(line_of(rs[m])));
            assert(rs.update(m, rs[m]) == rs);
            assert(store_text(rs) == out);
        } else {
            let r2 = record(p, rs[m].shorts, rs[m].priority);
            lemma_store_pivot(rs, m, nl(line_of(r2)));
            let rs2 = rs.update(m, r2);
            assert(well_formed(rs[m]));
            assert forall|i: int| 0 <= i < rs2.len() implies well_formed(#[trigger] rs2[i]) by {
                if i != m {
                    assert(rs2[i] == rs[i]);
                }
            }
            assert forall|i: int| 0 <= i < rs2.len() implies (#[trigger] rs2[i]).shorts == rs[i].shorts by {}
            assert forall|a1: int, b1: int, x: Seq<char>|
                0 <= a1 < rs2.len() && 0 <= b1 < rs2.len() && a1 != b1
                    && #[trigger] rs2[a1].shorts.contains(x) implies !#[trigger] rs2[b1].shorts.contains(
                x,
            ) by {
                assert(rs2[a1].shorts == rs[a1].shorts);
                assert(rs2[b1].shorts == rs[b1].shorts);
            }
            assert(store_text(rs2) == out);
        }
    } else {
        assert forall|j: int| 0 <= j < rs.len() implies untouched(a, false, #[trigger] rs[j]) by {
            assert(!hit(rs[j]));
        }
        assert forall|j: int| 0 <= j < rs.len() implies !(#[trigger] rs[j]).shorts.contains(s) by {
            assert(!hit(rs[j]));
        }
        lemma_all_untouched(a, incr, false, st, rs);
        lemma_append_new(rs, s, p);
        assert(store_text(rs.push(record(p, seq![s], 0))) == out);
    }
}

/// Append arity: a command whose slots are all filled refuses one more
/// argument with a user error (and `Cmd::append` then leaves it unchanged).
pub proof fn law_append_arity(c: CmdView, v: Seq<char>)
    requires
        is_complete(c),
    ensures
        appended(c, v) is Err,
        (appended(c, v)->Err_0).kind_of() == ErrorKind::User,
{
}

/// An add or edit with a plain shortcut and a plain path.
pub open spec fn plain_change(c: CmdView) -> bool {
    match c {
        CmdView::Add(s, p) | CmdView::Edit(s, p) => s is Some && p is Some && plain_field(s->0)
            && plain_path(p->0),
        _ => false,
    }
}

/// The store text after applying the commands one after the other.
pub open spec fn replay(text: Seq<char>, cmds: Seq<CmdView>, incr: u32) -> Seq<char>
    decreases cmds.len(),
{
    if cmds.len() == 0 {
        text
    } else {
        replay(store_update(text, Some(cmds[0]), incr).0, cmds.drop_first(), incr)
    }
}

/// Uniqueness: after any sequence of adds and edits of plain shortcuts and
/// paths, starting from a store whose shortcuts are unique, no shortcut
/// belongs to two records.
pub proof fn law_changes_keep_shortcuts_unique(rs: Seq<RecordView>, cmds: Seq<CmdView>, incr: u32)
    requires
        all_well_formed(rs),
        unique_shortcuts(rs),
        forall|i: int| 0 <= i < cmds.len() ==> plain_change(#[trigger] cmds[i]),
    ensures
        exists|rs2: Seq<RecordView>|
            all_well_formed(rs2) && unique_shortcuts(rs2) && #[trigger] store_text(rs2) == replay(
                store_text(rs),
                cmds,
                incr,
            ),
    decreases cmds.len(),
{
    if cmds.len() == 0 {
        assert(store_text(rs) == replay(store_text(rs), cmds, incr));
    } else {
        let c = cmds[0];
        assert(plain_change(c));
        let next = store_update(store_text(rs), Some(c), incr).0;
        match c {
            CmdView::Add(s, p) => {
                law_add_keeps_shortcuts_unique(rs, s->0, p->0, incr);
            },
            CmdView::Edit(s, p) => {
                law_edit_keeps_shortcuts_unique(rs, s->0, p->0, incr);
            },
            _ => {},
        }
        let rs1 = choose|rs1: Seq<RecordView>|
            all_well_formed(rs1) && unique_shortcuts(rs1) && #[trigger] store_text(rs1) == next;
        let rest = cmds.drop_first();
        assert forall|i: int| 0 <= i < rest.len() implies plain_change(#[trigger] rest[i]) by {
            assert(rest[i] == cmds[i + 1]);
        }
        law_changes_keep_shortcuts_unique(rs1, rest, incr);
        let rs2 = choose|rs2: Seq<RecordView>|
            all_well_formed(rs2) && unique_shortcuts(rs2) && #[trigger] store_text(rs2) == replay(
                store_text(rs1),
                rest,
                incr,
            );
        assert(replay(store_text(rs), cmds, incr) == replay(next, rest, incr));
        assert(store_text(rs2) == replay(store_text(rs), cmds, incr));
    }
}

} // verus!
