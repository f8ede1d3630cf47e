//! A column-aligned dump of the store for people to read.
use vstd::prelude::*;

use crate::text::{extend, split, split_on, string_of, chars_of, views};

verus! {

/// The lines of a text: split at `\n`, a `\r` before the break dropped, and
/// no final empty line after a closing break.
pub open spec fn text_lines(data: Seq<char>) -> Seq<Seq<char>> {
    let parts = split(data, '\n');
    let ls = if parts.last().len() == 0 {
        parts.drop_last()
    } else {
        parts
    };
    ls.map_values(|l: Seq<char>| strip_cr(l))
}

pub open spec fn strip_cr(l: Seq<char>) -> Seq<char> {
    if l.len() > 0 && l.last() == '\r' {
        l.drop_last()
    } else {
        l
    }
}

/// The width a field claims: its length and one space.
pub open spec fn cell(n: nat) -> usize {
    if n + 1 <= usize::MAX {
        (n + 1) as usize
    } else {
        usize::MAX
    }
}

/// Column widths after one more line's fields.
pub open spec fn widen(ws: Seq<usize>, f: Seq<Seq<char>>) -> Seq<usize> {
    Seq::new(
        if f.len() > ws.len() {
            f.len()
        } else {
            ws.len()
        },
        |i: int|
            if i < f.len() && (i >= ws.len() || ws[i] < cell(f[i].len())) {
                cell(f[i].len())
            } else {
                ws[i]
            },
    )
}

/// The widest cell of each column over all lines.
pub open spec fn widths(ls: Seq<Seq<char>>) -> Seq<usize>
    decreases ls.len(),
{
    if ls.len() == 0 {
        Seq::empty()
    } else {
        widen(widths(ls.drop_last()), split(ls.last(), ';'))
    }
}

pub open spec fn sat_sum(ws: Seq<usize>) -> usize
    decreases ws.len(),
{
    if ws.len() == 0 {
        0
    } else {
        let s = sat_sum(ws.drop_last());
        if s + ws.last() <= usize::MAX {
            (s + ws.last()) as usize
        } else {
            usize::MAX
        }
    }
}

pub open spec fn spaces(n: nat) -> Seq<char> {
    Seq::new(n, |i: int| ' ')
}

/// `s` followed by spaces up to width `w`.
pub open spec fn pad(s: Seq<char>, w: usize) -> Seq<char> {
    if s.len() < w {
        s + spaces((w - s.len()) as nat)
    } else {
        s
    }
}

pub open spec fn col(cols: Seq<usize>, i: int) -> usize {
    if 0 <= i < cols.len() {
        cols[i]
    } else {
        0
    }
}

/// The fields, each padded to its column's width.
pub open spec fn cells(fs: Seq<Seq<char>>, cols: Seq<usize>) -> Seq<char>
    decreases fs.len(),
{
    if fs.len() == 0 {
        Seq::empty()
    } else {
        cells(fs.drop_last(), cols) + pad(fs.last(), col(cols, fs.len() - 1))
    }
}

/// One line of the dump: the fields but the last, aligned, padded to the
/// total width, then the last field.
pub open spec fn row(l: Seq<char>, cols: Seq<usize>, total: usize) -> Seq<char> {
    let f = split(l, ';');
    (pad(cells(f.drop_last(), cols), total) + f.last()).push('\n')
}

pub open spec fn rows(ls: Seq<Seq<char>>, cols: Seq<usize>, total: usize) -> Seq<char>
    decreases ls.len(),
{
    if ls.len() == 0 {
        Seq::empty()
    } else {
        rows(ls.drop_last(), cols, total) + row(ls.last(), cols, total)
    }
}

/// The dump of a store text: the column widths leave out the last column,
/// which stands after all the others.
pub open spec fn state_text(data: Seq<char>) -> Seq<char> {
    let ls = text_lines(data);
    let ws = widths(ls);
    let cols = if ws.len() > 0 {
        ws.drop_last()
    } else {
        ws
    };
    rows(ls, cols, sat_sum(cols))
}

fn lines_of_text(data: &Vec<char>) -> (r: Vec<Vec<char>>)
    ensures
        views(r@) == text_lines(data@),
{
    let parts = split_on(data, '\n');
    proof {
        crate::text::lemma_split_len(data@, '\n');
    }
    let n = if parts[parts.len() - 1].len() == 0 {
        parts.len() - 1
    } else {
        parts.len()
    };
    let ghost ls = if views(parts@).last().len() == 0 {
        views(parts@).drop_last()
    } else {
        views(parts@)
    };
    assert(ls == views(parts@).take(n as int));
    let mut r: Vec<Vec<char>> = Vec::new();
    let mut i: usize = 0;
    while i < n
        invariant
            i <= n <= parts.len(),
            ls == views(parts@).take(n as int),
            views(r@) == ls.take(i as int).map_values(|l: Seq<char>| strip_cr(l)),
        decreases n - i,
    {
        let p = &parts[i];
        let mut l: Vec<char> = Vec::new();
        let end = if p.len() > 0 && p[p.len() - 1] == '\r' {
            p.len() - 1
        } else {
            p.len()
        };
        let mut j: usize = 0;
        while j < end
            invariant
                j <= end <= p.len(),
                l@ == p@.take(j as int),
            decreases end - j,
        {
            l.push(p[j]);
            assert(p@.take(j + 1) == p@.take(j as int).push(p@[j as int]));
            j = j + 1;
        }
        assert(l@ == strip_cr(p@));
        let ghost before = r@;
        r.push(l);
        assert(views(r@) == views(before).push(strip_cr(p@)));
        assert(ls.take(i + 1).map_values(|l: Seq<char>| strip_cr(l)) == ls.take(i as int).map_values(
            |l: Seq<char>| strip_cr(l),
        ).push(strip_cr(ls[i as int])));
        i = i + 1;
    }
    assert(ls.take(n as int) == ls);
    r
}

fn cell_of(n: usize) -> (w: usize)
    ensures
        w == cell(n as nat),
{
    if n < usize::MAX {
        n + 1
    } else {
        n
    }
}

fn widen_with(ws: &mut Vec<usize>, f: &Vec<Vec<char>>)
    ensures
        final(ws)@ == widen(old(ws)@, views(f@)),
{
    let ghost w0 = ws@;
    let mut i: usize = 0;
    while i < f.len()
        invariant
            i <= f.len(),
            ws@.len() == if i > w0.len() {
                i as nat
            } else {
                w0.len()
            },
            forall|k: int|
                0 <= k < ws@.len() ==> #[trigger] ws@[k] == if k < i {
                    widen(w0, views(f@))[k]
                } else {
                    w0[k]
                },
        decreases f.len() - i,
    {
        let c = cell_of(f[i].len());
        if i < ws.len() {
            if ws[i] < c {
                ws.set(i, c);
            }
        } else {
            ws.push(c);
        }
        i = i + 1;
    }
    assert(ws@ == widen(w0, views(f@)));
}

fn column_widths(ls: &Vec<Vec<char>>) -> (r: Vec<usize>)
    ensures
        r@ == widths(views(ls@)),
{
    let mut ws: Vec<usize> = Vec::new();
    let mut i: usize = 0;
    while i < ls.len()
        invariant
            i <= ls.len(),
            ws@ == widths(views(ls@).take(i as int)),
        decreases ls.len() - i,
    {
        assert(views(ls@).take(i + 1).drop_last() == views(ls@).take(i as int));
        let f = split_on(&ls[i], ';');
        widen_with(&mut ws, &f);
        i = i + 1;
    }
    assert(views(ls@).take(ls.len() as int) == views(ls@));
    ws
}

fn total_of(cols: &Vec<usize>) -> (t: usize)
    ensures
        t == sat_sum(cols@),
{
    let mut t: usize = 0;
    let mut i: usize = 0;
    while i < cols.len()
        invariant
            i <= cols.len(),
            t == sat_sum(cols@.take(i as int)),
        decreases cols.len() - i,
    {
        assert(cols@.take(i + 1).drop_last() == cols@.take(i as int));
        if t <= usize::MAX - cols[i] {
            t = t + cols[i];
        } else {
            t = usize::MAX;
        }
        i = i + 1;
    }
    assert(cols@.take(cols.len() as int) == cols@);
    t
}

/// Appends `s` and then spaces up to width `w`.
fn push_padded(out: &mut Vec<char>, s: &Vec<char>, w: usize)
    ensures
        final(out)@ == old(out)@ + pad(s@, w),
{
    extend(out, s);
    if s.len() < w {
        let n = w - s.len();
        let ghost base = out@;
        let mut k: usize = 0;
        while k < n
            invariant
                k <= n,
                out@ == base + spaces(k as nat),
            decreases n - k,
        {
            out.push(' ');
            assert(spaces((k + 1) as nat) == spaces(k as nat).push(' '));
            k = k + 1;
        }
        assert(old(out)@ + pad(s@, w) == old(out)@ + s@ + spaces(n as nat));
    } else {
        assert(pad(s@, w) == s@);
    }
}

fn row_of(l: &Vec<char>, cols: &Vec<usize>, total: usize) -> (r: Vec<char>)
    ensures
        r@ == row(l@, cols@, total),
{
    let f = split_on(l, ';');
    proof {
        crate::text::lemma_split_len(l@, ';');
    }
    let ghost fs = views(f@);
    let m = f.len() - 1;
    let mut body: Vec<char> = Vec::new();
    let mut i: usize = 0;
    while i < m
        invariant
            i <= m,
            m + 1 == f.len(),
            fs == views(f@),
            body@ == cells(fs.drop_last().take(i as int), cols@),
        decreases m - i,
    {
        let w = if i < cols.len() {
            cols[i]
        } else {
            0
        };
        let ghost before = fs.drop_last().take(i as int);
        assert(fs.drop_last().take(i + 1).drop_last() == before);
        assert(fs.drop_last().take(i + 1).last() == f@[i as int]@);
        push_padded(&mut body, &f[i], w);
        i = i + 1;
    }
    assert(fs.drop_last().take(m as int) == fs.drop_last());
    let mut r: Vec<char> = Vec::new();
    push_padded(&mut r, &body, total);
    extend(&mut r, &f[m]);
    r.push('\n');
    assert(r@ == (pad(cells(fs.drop_last(), cols@), total) + fs.last()).push('\n'));
    r
}

/// The column-aligned dump of the store text `data`: each line's fields
/// but the last padded to their column's widest cell (field and a space),
/// the line padded to the sum of those widths, then its last field.
pub fn format_state(data: &str) -> (r: String)
    ensures
        r@ == state_text(data@),
{
    let text = chars_of(data);
    let ls = lines_of_text(&text);
    let mut cols = column_widths(&ls);
    if cols.len() > 0 {
        cols.pop();
    }
    let total = total_of(&cols);
    let ghost lv = views(ls@);
    let mut out: Vec<char> = Vec::new();
    let mut i: usize = 0;
    while i < ls.len()
        invariant
            i <= ls.len(),
            lv == views(ls@),
            out@ == rows(lv.take(i as int), cols@, total),
        decreases ls.len() - i,
    {
        assert(lv.take(i + 1).drop_last() == lv.take(i as int));
        let r = row_of(&ls[i], &cols, total);
        extend(&mut out, &r);
        i = i + 1;
    }
    assert(lv.take(ls.len() as int) == lv);
    string_of(&out)
}

} // verus!
