//! The grid view: entries in as many columns as fit the terminal, filled
//! column by column.

use vstd::prelude::*;
use vstd::arithmetic::div_mod::lemma_fundamental_div_mod;
use crate::entry::FileEntry;
use crate::icons::{icon_for, spec_icon_for};
use crate::colors::painted;
use crate::render::{paint_label, spec_glyph, spec_label_color, status_color, RenderCtx};
use crate::text::{push_char, push_spaces, push_str, spaces, spec_trim_end, string_texts, trim_end};
use crate::util::{display_width_checked, spec_display_width};

verus! {

/// Space between columns.
pub const SPACING: usize = 2;

/// The largest of `ws[lo..hi]`, 0 for an empty range.
pub open spec fn range_max(ws: Seq<usize>, lo: int, hi: int) -> int
    decreases hi - lo,
{
    if hi <= lo {
        0
    } else {
        let m = range_max(ws, lo, hi - 1);
        if ws[hi - 1] > m { ws[hi - 1] as int } else { m }
    }
}

/// The sum of `ws`.
pub open spec fn seq_sum(ws: Seq<usize>) -> int
    decreases ws.len(),
{
    if ws.len() == 0 {
        0
    } else {
        seq_sum(ws.drop_last()) + ws.last()
    }
}

/// Rows needed for `n` cells in `cols` columns.
pub open spec fn rows_for(n: int, cols: int) -> int {
    (n + cols - 1) / cols
}

/// Width of column `c` when `ws` is laid out `rows` to a column: its widest cell.
pub open spec fn column_width(ws: Seq<usize>, rows: int, c: int) -> int {
    range_max(ws, c * rows, if (c + 1) * rows < ws.len() { (c + 1) * rows } else { ws.len() as int })
}

/// The widths of the first `k` columns.
pub open spec fn column_widths(ws: Seq<usize>, rows: int, k: int) -> Seq<usize>
    decreases k,
{
    if k <= 0 {
        seq![]
    } else {
        column_widths(ws, rows, k - 1).push(column_width(ws, rows, k - 1) as usize)
    }
}

/// The width of the whole grid in `cols` columns.
pub open spec fn grid_width(ws: Seq<usize>, cols: int) -> int {
    seq_sum(column_widths(ws, rows_for(ws.len() as int, cols), cols)) + SPACING * (cols - 1)
}

/// The most columns, at most `cols`, whose grid fits in `term`; 0 if none.
pub open spec fn most_columns(ws: Seq<usize>, term: int, cols: int) -> int
    decreases cols,
{
    if cols <= 0 {
        0
    } else if grid_width(ws, cols) <= term {
        cols
    } else {
        most_columns(ws, term, cols - 1)
    }
}

/// The most columns worth trying: a third of the width (at least one), at
/// most one per cell.
pub open spec fn column_bound(n: int, term: int) -> int {
    let b = if term / (1 + SPACING) >= 1 { term / (1 + SPACING) } else { 1 };
    if b <= n { b } else { n }
}

/// A grid arrangement: columns, rows, and the width of each column.
pub struct Layout {
    pub cols: usize,
    pub rows: usize,
    pub col_widths: Vec<usize>,
}

/// The arrangement of cells of widths `ws` in a terminal `term` columns
/// wide: the most columns that fit, or one column if none does.
pub open spec fn spec_layout(ws: Seq<usize>, term: int) -> (int, int, Seq<usize>) {
    let c = most_columns(ws, term, column_bound(ws.len() as int, term));
    if c == 0 {
        (1, ws.len() as int, seq![range_max(ws, 0, ws.len() as int) as usize])
    } else {
        let r = rows_for(ws.len() as int, c);
        (c, r, column_widths(ws, r, c))
    }
}

proof fn lemma_range_max_bound(ws: Seq<usize>, lo: int, hi: int, m: int)
    requires
        forall|i: int| lo <= i < hi ==> ws[i] <= m,
        m >= 0,
    ensures
        0 <= range_max(ws, lo, hi) <= m,
    decreases hi - lo,
{
    if hi > lo {
        lemma_range_max_bound(ws, lo, hi - 1, m);
    }
}

proof fn lemma_range_max_ge(ws: Seq<usize>, lo: int, hi: int, i: int)
    requires
        lo <= i < hi,
    ensures
        range_max(ws, lo, hi) >= ws[i],
    decreases hi - lo,
{
    if i < hi - 1 {
        lemma_range_max_ge(ws, lo, hi - 1, i);
    }
}

proof fn lemma_rows_cover(n: int, cols: int, i: int)
    requires
        1 <= cols,
        0 <= i < n,
    ensures
        rows_for(n, cols) >= 1,
        0 <= i / rows_for(n, cols) < cols,
        (i / rows_for(n, cols)) * rows_for(n, cols) <= i < (i / rows_for(n, cols) + 1) * rows_for(n, cols),
{
    let r = rows_for(n, cols);
    lemma_fundamental_div_mod(n + cols - 1, cols);
    assert(r * cols >= n) by (nonlinear_arith)
        requires
            n + cols - 1 == cols * r + (n + cols - 1) % cols,
            0 <= (n + cols - 1) % cols < cols,
    ;
    assert(r >= 1) by (nonlinear_arith)
        requires
            r * cols >= n,
            n >= 1,
            cols >= 1,
    ;
    lemma_fundamental_div_mod(i, r);
    let q = i / r;
    assert(q * r <= i < (q + 1) * r) by (nonlinear_arith)
        requires
            i == r * q + i % r,
            0 <= i % r < r,
    ;
    assert(0 <= q < cols) by (nonlinear_arith)
        requires
            q * r <= i,
            i < n,
            r * cols >= n,
            r >= 1,
            i >= 0,
            q * r <= i < (q + 1) * r,
    ;
}

/// The widths of the columns of the grid, each the widest of its cells.
fn widths_of_columns(ws: &Vec<usize>, cols: usize, rows: usize) -> (res: Vec<usize>)
    requires
        1 <= cols,
        rows == rows_for(ws@.len() as int, cols as int),
        ws@.len() >= 1,
    ensures
        res@ == column_widths(ws@, rows as int, cols as int),
        res@.len() == cols,
{
    let n = ws.len();
    let mut cw: Vec<usize> = Vec::new();
    let mut c: usize = 0;
    while c < cols
        invariant
            c <= cols,
            cw@.len() == c,
            forall|k: int| 0 <= k < c ==> cw@[k] == 0,
        decreases cols - c,
    {
        cw.push(0);
        c = c + 1;
    }
    proof {
        lemma_rows_cover(n as int, cols as int, 0);
    }
    let mut i: usize = 0;
    while i < n
        invariant
            n == ws@.len(),
            1 <= cols,
            rows == rows_for(n as int, cols as int),
            rows >= 1,
            i <= n,
            cw@.len() == cols,
            forall|k: int|
                0 <= k < cols ==> #[trigger] cw@[k] == range_max(
                    ws@,
                    k * rows,
                    if (k + 1) * rows < i { (k + 1) * rows } else { i as int },
                ),
        decreases n - i,
    {
        proof {
            lemma_rows_cover(n as int, cols as int, i as int);
        }
        let col = i / rows;
        let ghost old_cw = cw@;
        if ws[i] > cw[col] {
            cw.set(col, ws[i]);
        }
        proof {
            assert forall|k: int| 0 <= k < cols implies #[trigger] cw@[k] == range_max(
                ws@,
                k * rows,
                if (k + 1) * rows < i + 1 { (k + 1) * rows } else { i + 1 },
            ) by {
                if k < col {
                    assert((k + 1) * rows <= col * rows) by (nonlinear_arith)
                        requires
                            k + 1 <= col,
                            rows >= 1,
                    ;
                } else if k > col {
                    assert(k * rows >= (col + 1) * rows) by (nonlinear_arith)
                        requires
                            k >= col + 1,
                            rows >= 1,
                    ;
                    assert(range_max(ws@, k * rows, if (k + 1) * rows < i + 1 { (k + 1) * rows } else { i + 1 }) == 0);
                    assert(range_max(ws@, k * rows, if (k + 1) * rows < i { (k + 1) * rows } else { i as int }) == 0);
                }
            }
        }
        i = i + 1;
    }
    proof {
        assert forall|k: int| 0 <= k < cols implies #[trigger] cw@[k] == column_width(ws@, rows as int, k) by {}
        lemma_column_widths_of(ws@, rows as int, cols as int, cw@);
    }
    cw
}

proof fn lemma_range_max_nonneg(ws: Seq<usize>, lo: int, hi: int)
    ensures
        range_max(ws, lo, hi) >= 0,
    decreases hi - lo,
{
    if hi > lo {
        lemma_range_max_nonneg(ws, lo, hi - 1);
    }
}

proof fn lemma_range_max_le_all(ws: Seq<usize>, lo: int, hi: int)
    requires
        0 <= lo,
        hi <= ws.len(),
    ensures
        range_max(ws, lo, hi) <= range_max(ws, 0, ws.len() as int),
    decreases hi - lo,
{
    if hi > lo {
        lemma_range_max_le_all(ws, lo, hi - 1);
        lemma_range_max_ge(ws, 0, ws.len() as int, hi - 1);
    }
}

proof fn lemma_column_width_bound(ws: Seq<usize>, rows: int, c: int, k: int, cw: Seq<usize>)
    requires
        0 <= c < k,
        rows >= 1,
        cw == column_widths(ws, rows, k),
    ensures
        cw[c] <= range_max(ws, 0, ws.len() as int),
    decreases k,
{
    lemma_column_widths_len(ws, rows, k - 1);
    if c < k - 1 {
        lemma_column_width_bound(ws, rows, c, k - 1, column_widths(ws, rows, k - 1));
        assert(cw[c] == column_widths(ws, rows, k - 1)[c]);
    } else {
        assert(c * rows >= 0) by (nonlinear_arith)
            requires
                c >= 0,
                rows >= 1,
        ;
        lemma_range_max_le_all(
            ws,
            c * rows,
            if (c + 1) * rows < ws.len() { (c + 1) * rows } else { ws.len() as int },
        );
        lemma_range_max_nonneg(
            ws,
            c * rows,
            if (c + 1) * rows < ws.len() { (c + 1) * rows } else { ws.len() as int },
        );
        lemma_range_max_nonneg(ws, 0, ws.len() as int);
        lemma_range_max_bound(ws, 0, ws.len() as int, usize::MAX as int);
        assert(cw[c] == column_width(ws, rows, c) as usize);
    }
}

proof fn lemma_column_widths_len(ws: Seq<usize>, rows: int, k: int)
    requires
        k >= 0,
    ensures
        column_widths(ws, rows, k).len() == k,
    decreases k,
{
    if k > 0 {
        lemma_column_widths_len(ws, rows, k - 1);
    }
}

proof fn lemma_column_widths_of(ws: Seq<usize>, rows: int, k: int, cw: Seq<usize>)
    requires
        0 <= k <= cw.len(),
        forall|j: int| 0 <= j < k ==> #[trigger] cw[j] == column_width(ws, rows, j),
    ensures
        column_widths(ws, rows, k) == cw.take(k),
    decreases k,
{
    if k > 0 {
        lemma_column_widths_of(ws, rows, k - 1, cw);
        assert(cw.take(k) =~= cw.take(k - 1).push(cw[k - 1]));
    }
}


fn sum_widths(cw: &Vec<usize>) -> (res: u128)
    ensures
        res as int == seq_sum(cw@),
        res <= cw@.len() * 0xFFFF_FFFF_FFFF_FFFFu128,
{
    let mut total: u128 = 0;
    let mut i: usize = 0;
    while i < cw.len()
        invariant
            i <= cw.len(),
            total as int == seq_sum(cw@.take(i as int)),
            total <= i * 0xFFFF_FFFF_FFFF_FFFFu128,
        decreases cw.len() - i,
    {
        assert(cw@.take(i + 1).drop_last() =~= cw@.take(i as int));
        total = total + cw[i] as u128;
        i = i + 1;
    }
    assert(cw@.take(cw@.len() as int) =~= cw@);
    total
}

fn max_width(ws: &Vec<usize>) -> (res: usize)
    ensures
        res as int == range_max(ws@, 0, ws@.len() as int),
{
    let mut m: usize = 0;
    let mut i: usize = 0;
    while i < ws.len()
        invariant
            i <= ws.len(),
            m as int == range_max(ws@, 0, i as int),
        decreases ws.len() - i,
    {
        if ws[i] > m {
            m = ws[i];
        }
        i = i + 1;
    }
    m
}

/// Arrange cells of widths `ws` in a terminal `term` columns wide (see
/// `spec_layout`): try from the most columns worth trying down to one,
/// and take the first arrangement that fits.
pub fn layout(ws: &Vec<usize>, term: u16) -> (res: Layout)
    requires
        ws@.len() >= 1,
    ensures
        (res.cols as int, res.rows as int, res.col_widths@) == spec_layout(ws@, term as int),
        res.cols >= 1,
        res.col_widths@.len() == res.cols,
        forall|c: int| 0 <= c < res.cols ==> #[trigger] res.col_widths@[c] <= range_max(ws@, 0, ws@.len() as int),
{
    let n = ws.len();
    let third = (term as usize) / (1 + SPACING);
    let b = if third >= 1 { third } else { 1 };
    let upper = if b <= n { b } else { n };
    let mut cols = upper;
    while cols >= 1
        invariant
            n == ws@.len(),
            n >= 1,
            cols <= upper,
            upper == column_bound(n as int, term as int),
            most_columns(ws@, term as int, upper as int) == most_columns(ws@, term as int, cols as int),
        decreases cols,
    {
        let rows = (n - 1) / cols + 1;
        proof {
            let ni = n as int;
            let ci = cols as int;
            vstd::arithmetic::div_mod::lemma_div_plus_one(ni - 1, ci);
            assert(ni - 1 + ci == ni + ci - 1);
            assert(rows as int == rows_for(ni, ci));
        }
        let cw = widths_of_columns(ws, cols, rows);
        let sum = sum_widths(&cw);
        assert(sum + 2 * (cols - 1) <= 0xFFFF_FFFF_FFFF_FFFF_FFFF_FFFF_FFFF_FFFFu128) by (nonlinear_arith)
            requires
                sum <= cols * 0xFFFF_FFFF_FFFF_FFFFu128,
                cols <= 0xFFFF_FFFF_FFFF_FFFFu128,
                cols >= 1,
        ;
        let total = sum + (SPACING as u128) * ((cols - 1) as u128);
        if total <= term as u128 {
            proof {
                assert forall|c: int| 0 <= c < cols implies #[trigger] cw@[c] <= range_max(ws@, 0, n as int) by {
                    lemma_column_width_bound(ws@, rows as int, c, cols as int, cw@);
                }
            }
            return Layout { cols, rows, col_widths: cw };
        }
        cols = cols - 1;
    }
    let mut one: Vec<usize> = Vec::new();
    one.push(max_width(ws));
    assert(one@ =~= seq![range_max(ws@, 0, n as int) as usize]);
    Layout { cols: 1, rows: n, col_widths: one }
}


/// One rendered entry and its width on screen.
pub struct Cell {
    pub rendered: String,
    pub width: usize,
}

/// The rendered texts of cells.
pub open spec fn cell_texts(cs: Seq<Cell>) -> Seq<Seq<char>> {
    cs.map_values(|c: Cell| c.rendered@)
}

/// The widths of cells.
pub open spec fn cell_widths(cs: Seq<Cell>) -> Seq<usize> {
    cs.map_values(|c: Cell| c.width)
}

/// What column `col` adds to line `row`: its cell (if there is one), then,
/// when another cell follows on the line, padding to the column width plus
/// the spacing.
pub open spec fn grid_piece(
    rs: Seq<Seq<char>>,
    ws: Seq<usize>,
    cols: int,
    rows: int,
    cw: Seq<usize>,
    row: int,
    col: int,
) -> Seq<char> {
    let n = rs.len() as int;
    let idx = col * rows + row;
    if idx >= n {
        seq![]
    } else {
        rs[idx] + if col + 1 < cols && (col + 1) * rows + row < n {
            spaces(((if cw[col] >= ws[idx] { cw[col] - ws[idx] } else { 0 }) + SPACING) as nat)
        } else {
            seq![]
        }
    }
}

/// Line `row` of the grid, from its first `k` columns.
pub open spec fn grid_row(
    rs: Seq<Seq<char>>,
    ws: Seq<usize>,
    cols: int,
    rows: int,
    cw: Seq<usize>,
    row: int,
    k: int,
) -> Seq<char>
    decreases k,
{
    if k <= 0 {
        seq![]
    } else {
        grid_row(rs, ws, cols, rows, cw, row, k - 1) + grid_piece(rs, ws, cols, rows, cw, row, k - 1)
    }
}

/// The lines of the grid, trailing whitespace trimmed.
pub open spec fn grid_lines(rs: Seq<Seq<char>>, ws: Seq<usize>, cols: int, rows: int, cw: Seq<usize>) -> Seq<Seq<char>> {
    Seq::new(rows as nat, |r: int| spec_trim_end(grid_row(rs, ws, cols, rows, cw, r, cols)))
}

/// The output for cells: nothing for no cells; one per line with `-1` or
/// when the widest cell and the spacing do not fit; otherwise the grid.
pub open spec fn spec_grid_output(cs: Seq<Cell>, term: int, oneline: bool) -> Seq<Seq<char>> {
    let ws = cell_widths(cs);
    let rs = cell_texts(cs);
    if cs.len() == 0 {
        seq![]
    } else if oneline || range_max(ws, 0, cs.len() as int) + SPACING > term {
        rs
    } else {
        let l = spec_layout(ws, term);
        grid_lines(rs, ws, l.0, l.1, l.2)
    }
}


fn grid_text(cells: &Vec<Cell>, ws: &Vec<usize>, lay: &Layout) -> (res: Vec<String>)
    requires
        cells@.len() >= 1,
        ws@ == cell_widths(cells@),
        lay.cols >= 1,
        lay.col_widths@.len() == lay.cols,
        forall|c: int| 0 <= c < lay.cols ==> #[trigger] lay.col_widths@[c] <= 0xFFFF,
    ensures
        string_texts(res@) == grid_lines(cell_texts(cells@), ws@, lay.cols as int, lay.rows as int, lay.col_widths@),
{
    let n = cells.len();
    let cols = lay.cols;
    let rows = lay.rows;
    let ghost rs = cell_texts(cells@);
    let mut out: Vec<String> = Vec::new();
    let mut row: usize = 0;
    while row < rows
        invariant
            n == cells@.len(),
            n >= 1,
            cols == lay.cols,
            rows == lay.rows,
            cols >= 1,
            lay.col_widths@.len() == cols,
            forall|c: int| 0 <= c < cols ==> #[trigger] lay.col_widths@[c] <= 0xFFFF,
            ws@ == cell_widths(cells@),
            rs == cell_texts(cells@),
            row <= rows,
            out@.len() == row,
            forall|r: int| 0 <= r < row ==> #[trigger] out@[r]@ == spec_trim_end(
                grid_row(rs, ws@, cols as int, rows as int, lay.col_widths@, r, cols as int),
            ),
        decreases rows - row,
    {
        let mut line = String::new();
        let mut col: usize = 0;
        while col < cols
            invariant
                n == cells@.len(),
                cols == lay.cols,
                rows == lay.rows,
                lay.col_widths@.len() == cols,
                forall|c: int| 0 <= c < cols ==> #[trigger] lay.col_widths@[c] <= 0xFFFF,
                ws@ == cell_widths(cells@),
                rs == cell_texts(cells@),
                row < rows,
                col <= cols,
                line@ == grid_row(rs, ws@, cols as int, rows as int, lay.col_widths@, row as int, col as int),
            decreases cols - col,
        {
            assert((col as u128) * (rows as u128) + (row as u128) < 0xFFFF_FFFF_FFFF_FFFF_FFFF_FFFF_FFFF_FFFFu128) by (nonlinear_arith)
                requires
                    col <= 0xFFFF_FFFF_FFFF_FFFFu128,
                    rows <= 0xFFFF_FFFF_FFFF_FFFFu128,
                    row <= 0xFFFF_FFFF_FFFF_FFFFu128,
            ;
            assert(((col + 1) as u128) * (rows as u128) + (row as u128) < 0xFFFF_FFFF_FFFF_FFFF_FFFF_FFFF_FFFF_FFFFu128) by (nonlinear_arith)
                requires
                    col < 0xFFFF_FFFF_FFFF_FFFFu128,
                    rows <= 0xFFFF_FFFF_FFFF_FFFFu128,
                    row <= 0xFFFF_FFFF_FFFF_FFFFu128,
            ;
            let idx: u128 = (col as u128) * (rows as u128) + (row as u128);
            if idx < n as u128 {
                let i = idx as usize;
                push_str(&mut line, cells[i].rendered.as_str());
                let next: u128 = ((col + 1) as u128) * (rows as u128) + (row as u128);
                if col + 1 < cols && next < n as u128 {
                    let cwc = lay.col_widths[col];
                    let w = cells[i].width;
                    let pad = if cwc >= w { cwc - w } else { 0 };
                    push_spaces(&mut line, pad + SPACING);
                }
            }
            col = col + 1;
        }
        out.push(trim_end(line.as_str()).to_string());
        row = row + 1;
    }
    assert(string_texts(out@) =~= grid_lines(rs, ws@, cols as int, rows as int, lay.col_widths@));
    out
}

/// The output lines for cells (see `spec_grid_output`).
pub fn grid_output(cells: &Vec<Cell>, term: u16, oneline: bool) -> (res: Vec<String>)
    ensures
        string_texts(res@) == spec_grid_output(cells@, term as int, oneline),
{
    let n = cells.len();
    let mut ws: Vec<usize> = Vec::new();
    let mut i: usize = 0;
    while i < n
        invariant
            n == cells@.len(),
            i <= n,
            ws@ == cell_widths(cells@).take(i as int),
        decreases n - i,
    {
        ws.push(cells[i].width);
        assert(ws@ =~= cell_widths(cells@).take(i + 1));
        i = i + 1;
    }
    assert(ws@ =~= cell_widths(cells@));
    if n == 0 {
        let v: Vec<String> = Vec::new();
        assert(string_texts(v@) =~= spec_grid_output(cells@, term as int, oneline));
        return v;
    }
    let m = max_width(&ws);
    if oneline || (m as u128) + (SPACING as u128) > term as u128 {
        let mut v: Vec<String> = Vec::new();
        let mut j: usize = 0;
        while j < n
            invariant
                n == cells@.len(),
                j <= n,
                v@.len() == j,
                string_texts(v@) == cell_texts(cells@).take(j as int),
            decreases n - j,
        {
            let ghost before = v@;
            let r = cells[j].rendered.clone();
            assert(r@ == cells@[j as int].rendered@);
            v.push(r);
            assert(v@[j as int]@ == cells@[j as int].rendered@);
            assert(string_texts(v@) =~= string_texts(before).push(cells@[j as int].rendered@));
            assert(string_texts(v@) =~= cell_texts(cells@).take(j + 1));
            j = j + 1;
        }
        assert(cell_texts(cells@).take(n as int) =~= cell_texts(cells@));
        return v;
    }
    let lay = layout(&ws, term);
    grid_text(cells, &ws, &lay)
}


/// The label of an entry: its name, with `/` after a directory's.
pub open spec fn spec_label(e: FileEntry) -> Seq<char> {
    if e.is_dir {
        e.name@.push('/')
    } else {
        e.name@
    }
}

/// The icon column: the glyph and a space, when icons are on.
pub open spec fn spec_icon_text(e: FileEntry, icons_enabled: bool, theme: crate::theme::Theme) -> Seq<char> {
    if icons_enabled {
        spec_icon_for(e, theme).push(' ')
    } else {
        seq![]
    }
}

/// The on-screen width of an entry's cell: the label, two columns for the
/// icon when icons are on, two for the git column with `--gs` (at most
/// `usize::MAX`).
pub open spec fn spec_cell_width<'a>(e: FileEntry, ctx: RenderCtx<'a>) -> int {
    let w = spec_display_width(spec_label(e)) + (if ctx.icons_enabled { 2int } else { 0 }) + (if ctx.cli.git_status {
        2int
    } else {
        0
    });
    if w <= usize::MAX { w } else { usize::MAX as int }
}

/// `r` is an entry's cell text, with `lab` the painted label and `g` the
/// painted git marker: the marker (when `--gs` and the status is known),
/// the icon, the label, and a space after when there is a marker.
pub open spec fn cell_text_from<'a>(
    r: Seq<char>,
    e: FileEntry,
    ctx: RenderCtx<'a>,
    lab: Seq<char>,
    g: Option<Seq<char>>,
) -> bool {
    &&& painted(lab, spec_label(e), spec_label_color(e, *ctx.theme), ctx.color_enabled)
    &&& (g is Some <==> (ctx.cli.git_status && ctx.git is Some))
    &&& (g matches Option::Some(gg) ==> painted(
        gg,
        spec_glyph(ctx.git->0.spec_status_for(e.path@)),
        status_color(*ctx.theme, ctx.git->0.spec_status_for(e.path@)),
        ctx.color_enabled,
    ))
    &&& r == match g {
        Option::Some(gg) => gg + spec_icon_text(e, ctx.icons_enabled, *ctx.theme) + lab + seq![' '],
        Option::None => spec_icon_text(e, ctx.icons_enabled, *ctx.theme) + lab,
    }
}

/// `c` is the cell of entry `e`.
pub open spec fn cell_for<'a>(c: Cell, e: FileEntry, ctx: RenderCtx<'a>) -> bool {
    &&& c.width == spec_cell_width(e, ctx)
    &&& exists|lab: Seq<char>, g: Option<Seq<char>>| #[trigger] cell_text_from(c.rendered@, e, ctx, lab, g)
}

/// The cell of one entry (see `cell_for`).
pub fn build_cell(entry: &FileEntry, ctx: &RenderCtx) -> (res: Cell)
    ensures
        cell_for(res, *entry, *ctx),
{
    let mut icon = String::new();
    if ctx.icons_enabled {
        icon = icon_for(entry, ctx.theme);
        push_char(&mut icon, ' ');
    }
    let mut label = entry.name.clone();
    if entry.is_dir {
        push_char(&mut label, '/');
    }
    let colored = paint_label(entry, label.as_str(), ctx);
    let git = ctx.git_status_glyph(entry.path.as_str());
    let git_raw: u128 = if ctx.cli.git_status { 2 } else { 0 };
    let icon_width: u128 = if ctx.icons_enabled { 2 } else { 0 };
    let ghost lab = colored@;
    let ghost g = match &git {
        Option::Some(x) => Option::Some(x@),
        Option::None => Option::<Seq<char>>::None,
    };
    let rendered = match git {
        Option::Some(gs) => {
            let mut r = gs;
            push_str(&mut r, icon.as_str());
            push_str(&mut r, colored.as_str());
            push_char(&mut r, ' ');
            assert(r@ =~= g->0 + spec_icon_text(*entry, ctx.icons_enabled, *ctx.theme) + lab + seq![' ']);
            r
        },
        Option::None => {
            let mut r = icon;
            push_str(&mut r, colored.as_str());
            assert(r@ =~= spec_icon_text(*entry, ctx.icons_enabled, *ctx.theme) + lab);
            r
        },
    };
    let width: usize = match display_width_checked(label.as_str()) {
        Option::Some(w) => {
            let total: u128 = (w as u128) + icon_width + git_raw;
            if total <= usize::MAX as u128 {
                total as usize
            } else {
                usize::MAX
            }
        },
        Option::None => usize::MAX,
    };
    assert(painted(lab, spec_label(*entry), spec_label_color(*entry, *ctx.theme), ctx.color_enabled));
    let cell = Cell { rendered, width };
    assert(cell_text_from(cell.rendered@, *entry, *ctx, lab, g));
    cell
}

/// The grid output for `entries` (see `spec_grid_output`), one cell per
/// entry, in a terminal `term_width` columns wide.
pub fn render(entries: &Vec<FileEntry>, ctx: &RenderCtx, term_width: u16) -> (res: Vec<String>)
    ensures
        exists|cells: Seq<Cell>|
            cells.len() == entries@.len() && (forall|i: int|
                0 <= i < cells.len() ==> cell_for(#[trigger] cells[i], entries@[i], *ctx)) && string_texts(res@)
                == spec_grid_output(cells, term_width as int, ctx.cli.oneline),
{
    let mut cells: Vec<Cell> = Vec::new();
    let mut i: usize = 0;
    while i < entries.len()
        invariant
            i <= entries@.len(),
            cells@.len() == i,
            forall|k: int| 0 <= k < i ==> cell_for(#[trigger] cells@[k], entries@[k], *ctx),
        decreases entries.len() - i,
    {
        let c = build_cell(&entries[i], ctx);
        cells.push(c);
        i = i + 1;
    }
    let out = grid_output(&cells, term_width, ctx.cli.oneline);
    assert(cells@.len() == entries@.len() && (forall|i: int|
        0 <= i < cells@.len() ==> cell_for(#[trigger] cells@[i], entries@[i], *ctx)) && string_texts(out@)
        == spec_grid_output(cells@, term_width as int, ctx.cli.oneline));
    out
}


/// The search for columns stops at the first count that fits: the count
/// it finds fits the terminal (or is 0), and no larger count up to where
/// it started does.
proof fn lemma_most_columns(ws: Seq<usize>, term: int, cols: int)
    ensures
        most_columns(ws, term, cols) == 0 || grid_width(ws, most_columns(ws, term, cols)) <= term,
        0 <= most_columns(ws, term, cols),
        cols >= 0 ==> most_columns(ws, term, cols) <= cols,
        forall|c: int| most_columns(ws, term, cols) < c <= cols ==> grid_width(ws, c) > term,
    decreases cols,
{
    if cols > 0 && grid_width(ws, cols) > term {
        lemma_most_columns(ws, term, cols - 1);
    }
}

/// The grid uses as many columns as fit in the terminal: with more than one
/// column it fits, and no wider arrangement worth trying (up to a third of
/// the width, one column per cell) would.
pub proof fn lemma_layout_fits(ws: Seq<usize>, term: int)
    ensures
        spec_layout(ws, term).0 > 1 ==> grid_width(ws, spec_layout(ws, term).0) <= term,
        forall|c: int|
            spec_layout(ws, term).0 < c <= column_bound(ws.len() as int, term) ==> grid_width(ws, c) > term,
{
    lemma_most_columns(ws, term, column_bound(ws.len() as int, term));
}

} // verus!
