use vstd::prelude::*;

use crate::fingering::{
    diagram_lines, lemma_diagram_widths, rep, Fingering, DIAGRAM_WIDTH,
};

verus! {

/// Spaces after each diagram on a line.
pub const INDENT: usize = 5;

/// Diagrams that fit on a line `width` wide, one at least.
pub open spec fn per_line(width: int) -> int {
    if width / (DIAGRAM_WIDTH + INDENT) as int >= 1 {
        width / (DIAGRAM_WIDTH + INDENT) as int
    } else {
        1
    }
}

/// Spaces before a line of `k` diagrams that centre it in `width` columns.
pub open spec fn left_indent(width: int, k: int) -> int {
    if width >= k * (DIAGRAM_WIDTH + INDENT) as int {
        (width - k * (DIAGRAM_WIDTH + INDENT) as int) / 2
    } else {
        0
    }
}

/// Line `row` of a diagram, or blanks where the diagram is shorter.
pub open spec fn cell(d: Seq<Seq<char>>, row: int) -> Seq<char> {
    if row < d.len() {
        d[row]
    } else {
        rep(seq![' '], DIAGRAM_WIDTH as int)
    }
}

/// Line `row` of the first `k` diagrams of a block, each followed by the indent.
pub open spec fn row_cells(block: Seq<Seq<Seq<char>>>, row: int, k: int) -> Seq<char>
    decreases k,
{
    if k <= 0 {
        Seq::empty()
    } else {
        row_cells(block, row, k - 1) + cell(block[k - 1], row) + rep(seq![' '], INDENT as int)
    }
}

/// The number of lines of the tallest of the first `k` diagrams.
pub open spec fn max_lines(block: Seq<Seq<Seq<char>>>, k: int) -> int
    decreases k,
{
    if k <= 0 {
        0
    } else if block[k - 1].len() > max_lines(block, k - 1) {
        block[k - 1].len() as int
    } else {
        max_lines(block, k - 1)
    }
}

/// The lines that show a block of diagrams side by side, then two empty lines.
pub open spec fn block_lines(block: Seq<Seq<Seq<char>>>, width: int) -> Seq<Seq<char>> {
    Seq::new(
        max_lines(block, block.len() as int) as nat,
        |row: int|
            rep(seq![' '], left_indent(width, block.len() as int)) + row_cells(
                block,
                row,
                block.len() as int,
            ),
    ) + seq![Seq::empty(), Seq::empty()]
}

/// The end of the block that starts at `start`.
pub open spec fn block_end(n: int, width: int, start: int) -> int {
    if start + per_line(width) <= n {
        start + per_line(width)
    } else {
        n
    }
}

/// The lines for the diagrams from `start` on, in blocks of `per_line(width)` in
/// their order.
pub open spec fn layout_lines(ds: Seq<Seq<Seq<char>>>, width: int, start: int) -> Seq<Seq<char>>
    decreases ds.len() - start,
{
    if start < 0 || start >= ds.len() {
        Seq::empty()
    } else {
        let end = block_end(ds.len() as int, width, start);
        block_lines(ds.subrange(start, end), width) + layout_lines(ds, width, end)
    }
}

/// Each line followed by a line break.
pub open spec fn terminated(ls: Seq<Seq<char>>) -> Seq<char>
    decreases ls.len(),
{
    if ls.len() == 0 {
        Seq::empty()
    } else {
        terminated(ls.drop_last()) + ls.last() + seq!['\n']
    }
}

/// The drawings of the shapes, as lines.
pub open spec fn diagrams(fs: Seq<Fingering>) -> Seq<Seq<Seq<char>>> {
    fs.map_values(|f: Fingering| diagram_lines(f.strings@))
}

proof fn lemma_terminated_append(a: Seq<Seq<char>>, b: Seq<Seq<char>>)
    ensures
        terminated(a + b) == terminated(a) + terminated(b),
    decreases b.len(),
{
    if b.len() == 0 {
        assert(a + b =~= a);
    } else {
        lemma_terminated_append(a, b.drop_last());
        assert((a + b).drop_last() =~= a + b.drop_last());
        assert(terminated(b) == terminated(b.drop_last()) + b.last() + seq!['\n']);
    }
}

/// Draws the shapes side by side in lines `width` columns wide, in blocks of as
/// many as fit, each line centred (see `layout_lines`).
pub fn sum_text_in_fingerings(fingerings: &Vec<Fingering>, width: usize) -> (r: String)
    requires
        forall|i: int| 0 <= i < fingerings@.len() ==> #[trigger] fingerings@[i].wf(),
    ensures
        r@ == terminated(layout_lines(diagrams(fingerings@), width as int, 0)),
{
    let ghost dsv = diagrams(fingerings@);
    let mut ds: Vec<Vec<String>> = Vec::new();
    let mut i: usize = 0;
    while i < fingerings.len()
        invariant
            0 <= i <= fingerings@.len(),
            dsv == diagrams(fingerings@),
            forall|k: int| 0 <= k < fingerings@.len() ==> #[trigger] fingerings@[k].wf(),
            ds@.len() == i,
            forall|k: int|
                0 <= k < i ==> (#[trigger] ds@[k])@.map_values(|l: String| l@) == dsv[k],
        decreases fingerings@.len() - i,
    {
        ds.push(fingerings[i].get_lines());
        i = i + 1;
    }
    let per: usize = if width / (DIAGRAM_WIDTH + INDENT) >= 1 {
        width / (DIAGRAM_WIDTH + INDENT)
    } else {
        1
    };
    let n = ds.len();
    let mut out = String::new();
    let mut start: usize = 0;
    assert(ds@.map_values(|d: Vec<String>| d@.map_values(|l: String| l@)) =~= dsv);
    proof {
        assert(out@ + terminated(layout_lines(dsv, width as int, 0)) =~= terminated(
            layout_lines(dsv, width as int, 0),
        ));
    }
    while start < n
        invariant
            0 <= start <= n,
            n == ds@.len(),
            n == dsv.len(),
            per as int == per_line(width as int),
            ds@.map_values(|d: Vec<String>| d@.map_values(|l: String| l@)) == dsv,
            forall|k: int|
                0 <= k < n ==> (#[trigger] ds@[k])@.map_values(|l: String| l@) == dsv[k],
            out@ + terminated(layout_lines(dsv, width as int, start as int)) == terminated(
                layout_lines(dsv, width as int, 0),
            ),
        decreases n - start,
    {
        let end: usize = if per <= n - start {
            start + per
        } else {
            n
        };
        let ghost block = dsv.subrange(start as int, end as int);
        let block_text = layout_block(&ds, start, end, width);
        proof {
            lemma_terminated_append(
                block_lines(block, width as int),
                layout_lines(dsv, width as int, end as int),
            );
        }
        out.append(block_text.as_str());
        start = end;
    }
    out
}

/// The text of the block of diagrams `start..end` (see `block_lines`).
fn layout_block(ds: &Vec<Vec<String>>, start: usize, end: usize, width: usize) -> (r: String)
    requires
        start < end <= ds@.len(),
        end - start <= per_line(width as int),
    ensures
        r@ == terminated(
            block_lines(
                ds@.map_values(|d: Vec<String>| d@.map_values(|l: String| l@)).subrange(
                    start as int,
                    end as int,
                ),
                width as int,
            ),
        ),
{
    let ghost block = ds@.map_values(|d: Vec<String>| d@.map_values(|l: String| l@)).subrange(
        start as int,
        end as int,
    );
    let k: usize = end - start;
    let mut m: usize = 0;
    let mut j: usize = start;
    while j < end
        invariant
            start <= j <= end,
            end <= ds@.len(),
            block == ds@.map_values(|d: Vec<String>| d@.map_values(|l: String| l@)).subrange(
                start as int,
                end as int,
            ),
            m as int == max_lines(block, j - start),
        decreases end - j,
    {
        if ds[j].len() > m {
            m = ds[j].len();
        }
        j = j + 1;
    }
    let left: usize = if k <= width / (DIAGRAM_WIDTH + INDENT) {
        (width - k * (DIAGRAM_WIDTH + INDENT)) / 2
    } else {
        0
    };
    assert(left as int == left_indent(width as int, k as int)) by (nonlinear_arith)
        requires
            k <= width / 19 ==> left == (width - k * 19) / 2,
            k > width / 19 ==> left == 0,
            width >= 0,
            k >= 1,
    {
        if k > width / 19 {
            assert(k * 19 > width);
        } else {
            assert(k * 19 <= width);
        }
    }
    let ghost rows = Seq::new(
        m as nat,
        |row: int| rep(seq![' '], left as int) + row_cells(block, row, k as int),
    );
    let mut text = String::new();
    let mut row: usize = 0;
    while row < m
        invariant
            0 <= row <= m,
            start < end <= ds@.len(),
            k == end - start,
            block == ds@.map_values(|d: Vec<String>| d@.map_values(|l: String| l@)).subrange(
                start as int,
                end as int,
            ),
            rows == Seq::new(
                m as nat,
                |row: int| rep(seq![' '], left as int) + row_cells(block, row, k as int),
            ),
            text@ == terminated(rows.take(row as int)),
        decreases m - row,
    {
        let mut line = String::new();
        push_spaces(&mut line, left);
        let mut j: usize = start;
        while j < end
            invariant
                start <= j <= end,
                end <= ds@.len(),
                block == ds@.map_values(|d: Vec<String>| d@.map_values(|l: String| l@)).subrange(
                    start as int,
                    end as int,
                ),
                line@ == rep(seq![' '], left as int) + row_cells(block, row as int, j - start),
            decreases end - j,
        {
            assert(block[j - start] == ds@[j as int]@.map_values(|l: String| l@));
            if row < ds[j].len() {
                line.append(ds[j][row].as_str());
            } else {
                push_spaces(&mut line, DIAGRAM_WIDTH);
            }
            push_spaces(&mut line, INDENT);
            j = j + 1;
        }
        text.append(line.as_str());
        text.push('\n');
        row = row + 1;
        assert(rows.take(row as int).drop_last() =~= rows.take(row as int - 1));
    }
    text.push('\n');
    text.push('\n');
    proof {
        assert(rows.take(m as int) =~= rows);
        assert(block_lines(block, width as int) =~= rows + seq![Seq::empty(), Seq::empty()]);
        lemma_terminated_append(rows, seq![Seq::<char>::empty(), Seq::empty()]);
        let e = Seq::<char>::empty();
        assert(seq![e, e].drop_last() =~= seq![e]);
        assert(seq![e].drop_last() =~= Seq::<Seq<char>>::empty());
        assert(terminated(Seq::<Seq<char>>::empty()) == Seq::<char>::empty());
        assert(terminated(seq![e]) =~= seq!['\n']);
        assert(terminated(seq![e, e]) =~= seq!['\n', '\n']);
    }
    text
}

/// Appends `n` spaces to `s`.
fn push_spaces(s: &mut String, n: usize)
    ensures
        final(s)@ == old(s)@ + rep(seq![' '], n as int),
{
    let mut i: usize = 0;
    while i < n
        invariant
            0 <= i <= n,
            s@ == old(s)@ + rep(seq![' '], i as int),
        decreases n - i,
    {
        s.push(' ');
        i = i + 1;
        assert(old(s)@ + rep(seq![' '], i as int) =~= old(s)@ + rep(seq![' '], i - 1) + seq![' ']);
    }
}

/// Every line of every diagram is at most 14 characters wide.
pub open spec fn narrow(ds: Seq<Seq<Seq<char>>>) -> bool {
    forall|j: int, i: int|
        0 <= j < ds.len() && 0 <= i < ds[j].len() ==> #[trigger] ds[j][i].len() <= DIAGRAM_WIDTH
}

proof fn lemma_spaces_len(n: int)
    requires
        n >= 0,
    ensures
        rep(seq![' '], n).len() == n,
    decreases n,
{
    if n > 0 {
        lemma_spaces_len(n - 1);
    }
}

proof fn lemma_row_cells_len(block: Seq<Seq<Seq<char>>>, row: int, k: int)
    requires
        narrow(block),
        0 <= k <= block.len(),
        0 <= row,
    ensures
        row_cells(block, row, k).len() <= (DIAGRAM_WIDTH + INDENT) * k,
    decreases k,
{
    if k > 0 {
        lemma_row_cells_len(block, row, k - 1);
        lemma_spaces_len(INDENT as int);
        lemma_spaces_len(DIAGRAM_WIDTH as int);
        if row < block[k - 1].len() {
            assert(block[k - 1][row].len() <= DIAGRAM_WIDTH);
        }
    }
}

proof fn lemma_block_width(block: Seq<Seq<Seq<char>>>, width: int)
    requires
        narrow(block),
        1 <= block.len() <= per_line(width),
        width >= (DIAGRAM_WIDTH + INDENT) as int,
    ensures
        forall|i: int|
            0 <= i < block_lines(block, width).len() ==> #[trigger] block_lines(block, width)[i].len()
                <= width,
{
    let k = block.len() as int;
    assert(k * 19 <= width) by (nonlinear_arith)
        requires
            k <= width / 19,
            width >= 19,
    ;
    let left = left_indent(width, k);
    lemma_spaces_len(left);
    let ls = block_lines(block, width);
    let m = max_lines(block, k);
    assert(0 <= left <= width - k * 19);
    assert forall|i: int| 0 <= i < ls.len() implies #[trigger] ls[i].len() <= width by {
        if i < m {
            lemma_row_cells_len(block, i, k);
            assert(ls[i] == rep(seq![' '], left) + row_cells(block, i, k));
            assert(row_cells(block, i, k).len() <= 19 * k);
        } else {
            assert(ls[i].len() == 0);
        }
    }
}

proof fn lemma_layout_from(ds: Seq<Seq<Seq<char>>>, width: int, start: int)
    requires
        narrow(ds),
        width >= (DIAGRAM_WIDTH + INDENT) as int,
        start >= 0,
    ensures
        forall|i: int|
            0 <= i < layout_lines(ds, width, start).len() ==> #[trigger] layout_lines(
                ds,
                width,
                start,
            )[i].len() <= width,
    decreases ds.len() - start,
{
    if start < ds.len() {
        let end = block_end(ds.len() as int, width, start);
        let block = ds.subrange(start, end);
        assert(narrow(block)) by {
            assert forall|j: int, i: int|
                0 <= j < block.len() && 0 <= i < block[j].len() implies #[trigger] block[j][i].len()
                <= DIAGRAM_WIDTH by {
                assert(block[j] == ds[start + j]);
            }
        }
        lemma_block_width(block, width);
        lemma_layout_from(ds, width, end);
        let a = block_lines(block, width);
        let b = layout_lines(ds, width, end);
        assert forall|i: int| 0 <= i < (a + b).len() implies #[trigger] (a + b)[i].len() <= width by {
            if i < a.len() {
                assert((a + b)[i] == a[i]);
            } else {
                assert((a + b)[i] == b[i - a.len()]);
            }
        }
    }
}

/// A run of characters of `t` from `a` to `b` holds no line break.
pub open spec fn unbroken(t: Seq<char>, a: int, b: int) -> bool {
    0 <= a <= b <= t.len() && forall|k: int| a <= k < b ==> #[trigger] t[k] != '\n'
}

proof fn lemma_terminated_runs(ls: Seq<Seq<char>>, w: int, a: int, b: int)
    requires
        w >= 0,
        forall|i: int| 0 <= i < ls.len() ==> #[trigger] ls[i].len() <= w,
        unbroken(terminated(ls), a, b),
    ensures
        b - a <= w,
    decreases ls.len(),
{
    if ls.len() == 0 {
        assert(terminated(ls).len() == 0);
    } else {
        let prev = terminated(ls.drop_last());
        let t = terminated(ls);
        let last = ls.last();
        assert(t == prev + last + seq!['\n']);
        assert(last.len() <= w) by {
            assert(ls[ls.len() - 1].len() <= w);
        }
        if b <= prev.len() {
            assert forall|i: int| 0 <= i < ls.drop_last().len() implies #[trigger] ls.drop_last()[i].len() <= w by {
                assert(ls.drop_last()[i] == ls[i]);
            }
            assert forall|k: int| a <= k < b implies #[trigger] prev[k] != '\n' by {
                assert(t[k] == prev[k]);
            }
            lemma_terminated_runs(ls.drop_last(), w, a, b);
        } else {
            if a < prev.len() {
                lemma_terminated_ends(ls.drop_last());
                assert(t[prev.len() - 1] == prev[prev.len() - 1]);
                assert(false);
            }
            let e = (prev.len() + last.len()) as int;
            assert(t[e] == '\n');
            if b > e && a <= e {
                assert(t[e] != '\n');
            }
        }
    }
}

proof fn lemma_terminated_ends(ls: Seq<Seq<char>>)
    requires
        terminated(ls).len() > 0,
    ensures
        terminated(ls)[terminated(ls).len() - 1] == '\n',
{
}

/// The diagrams are laid out in the order given, `per_line(width)` to a block, and
/// when at least one diagram fits (`width >= 19`) no line of the output is wider
/// than `width`: every run of the text without a line break is at most `width` long.
pub proof fn lemma_layout_text_width(fs: Seq<Fingering>, width: int, a: int, b: int)
    requires
        width >= (DIAGRAM_WIDTH + INDENT) as int,
        forall|i: int| 0 <= i < fs.len() ==> #[trigger] fs[i].wf(),
        unbroken(terminated(layout_lines(diagrams(fs), width, 0)), a, b),
    ensures
        b - a <= width,
{
    lemma_layout_width(fs, width);
    lemma_terminated_runs(layout_lines(diagrams(fs), width, 0), width, a, b);
}

/// When at least one diagram fits on a line (`width >= 19`), no line of the layout
/// is wider than `width`.
pub proof fn lemma_layout_width(fs: Seq<Fingering>, width: int)
    requires
        width >= (DIAGRAM_WIDTH + INDENT) as int,
        forall|i: int| 0 <= i < fs.len() ==> #[trigger] fs[i].wf(),
    ensures
        forall|i: int|
            0 <= i < layout_lines(diagrams(fs), width, 0).len() ==> #[trigger] layout_lines(
                diagrams(fs),
                width,
                0,
            )[i].len() <= width,
{
    let ds = diagrams(fs);
    assert forall|j: int, i: int| 0 <= j < ds.len() && 0 <= i < ds[j].len() implies #[trigger] ds[j][i].len()
        <= DIAGRAM_WIDTH by {
        assert(fs[j].wf());
        lemma_diagram_widths(fs[j].strings@);
    }
    lemma_layout_from(ds, width, 0);
}

} // verus!
