use vstd::prelude::*;

verus! {

/// The number of rows needed to show `n` entries in `c` columns: the
/// ceiling of `n / c`.
pub open spec fn rows_for(n: int, c: int) -> int {
    if c <= 0 {
        0
    } else if n % c == 0 {
        n / c
    } else {
        n / c + 1
    }
}

/// The entry shown in row `i`, column `j`: entries fill a column top
/// to bottom before the next column begins, unless `across` is set,
/// in which case they fill a row before the next row begins.
pub open spec fn cell_entry(rows: int, cols: int, across: bool, i: int, j: int) -> int {
    if across {
        i * cols + j
    } else {
        j * rows + i
    }
}

/// The width of column `j`, looking at the first `upto` rows: the
/// widest entry placed in that column.
pub open spec fn col_width_upto(
    ws: Seq<usize>,
    rows: int,
    cols: int,
    across: bool,
    j: int,
    upto: int,
) -> int
    decreases upto,
{
    if upto <= 0 {
        0
    } else {
        let prev = col_width_upto(ws, rows, cols, across, j, upto - 1);
        let k = cell_entry(rows, cols, across, upto - 1, j);
        if 0 <= k < ws.len() && ws[k] > prev {
            ws[k] as int
        } else {
            prev
        }
    }
}

/// The width of column `j` of a grid with the given shape.
pub open spec fn col_width(ws: Seq<usize>, rows: int, cols: int, across: bool, j: int) -> int {
    col_width_upto(ws, rows, cols, across, j, rows)
}

/// The sum of the widths of the first `j` columns.
pub open spec fn sum_col_widths(ws: Seq<usize>, rows: int, cols: int, across: bool, j: int) -> int
    decreases j,
{
    if j <= 0 {
        0
    } else {
        sum_col_widths(ws, rows, cols, across, j - 1) + col_width(ws, rows, cols, across, j - 1)
    }
}

/// The whole width of a grid of `c` columns: every column's width,
/// plus a separator gap before each column but the first.
pub open spec fn grid_total(ws: Seq<usize>, c: int, gap: int, across: bool) -> int {
    sum_col_widths(ws, rows_for(ws.len() as int, c), c, across, c) + gap * (c - 1)
}

/// Whether `c` columns fit the available width.
pub open spec fn grid_fits(ws: Seq<usize>, c: int, gap: int, width: int, across: bool) -> bool {
    grid_total(ws, c, gap, across) <= width
}

/// The shape chosen for a grid: the column count, the row count, and
/// each column's width.
#[derive(Debug, Clone)]
pub struct GridLayout {
    /// How many columns the grid has.
    pub columns: usize,
    /// How many rows the grid has.
    pub rows: usize,
    /// The width of each column, one entry per column.
    pub widths: Vec<usize>,
    /// Whether entries run across each row rather than down each
    /// column.
    pub across: bool,
}

/// No column width is negative.
proof fn lemma_col_width_nonneg(ws: Seq<usize>, rows: int, cols: int, across: bool, j: int, upto: int)
    ensures
        col_width_upto(ws, rows, cols, across, j, upto) >= 0,
    decreases upto,
{
    if upto > 0 {
        lemma_col_width_nonneg(ws, rows, cols, across, j, upto - 1);
    }
}

/// Partial column sums only grow.
proof fn lemma_sum_col_widths_mono(
    ws: Seq<usize>,
    rows: int,
    cols: int,
    across: bool,
    j1: int,
    j2: int,
)
    requires
        j1 <= j2,
    ensures
        sum_col_widths(ws, rows, cols, across, j1) <= sum_col_widths(ws, rows, cols, across, j2),
    decreases j2 - j1,
{
    if j1 < j2 {
        lemma_sum_col_widths_mono(ws, rows, cols, across, j1, j2 - 1);
        lemma_col_width_nonneg(ws, rows, cols, across, j2 - 1, rows);
    }
}

/// Computes the width of column `j` for a grid of the given shape.
fn compute_col_width(ws: &Vec<usize>, rows: usize, cols: usize, across: bool, j: usize) -> (r:
    usize)
    requires
        rows >= 1,
        cols >= 1,
        j < cols,
        ws@.len() <= rows * cols,
    ensures
        r as int == col_width(ws@, rows as int, cols as int, across, j as int),
{
    let mut w: usize = 0;
    let mut i: usize = 0;
    let n = ws.len();
    while i < rows
        invariant
            0 <= i <= rows,
            n == ws@.len(),
            j < cols,
            w as int == col_width_upto(ws@, rows as int, cols as int, across, j as int, i as int),
        decreases rows - i,
    {
        let ghost k = cell_entry(rows as int, cols as int, across, i as int, j as int);
        if across {
            // The entry at row i, column j sits at index i * cols + j.
            if i <= (usize::MAX - j) / cols {
                proof {
                    assert(i * cols + j <= usize::MAX) by (nonlinear_arith)
                        requires
                            i <= (usize::MAX - j) / (cols as int),
                            cols >= 1,
                            j >= 0,
                            i >= 0,
                    ;
                }
                let idx = i * cols + j;
                if idx < n {
                    assert(k == idx);
                    let e = ws[idx];
                    if e > w {
                        w = e;
                    }
                }
            } else {
                proof {
                    assert(i * cols + j > usize::MAX >= ws@.len()) by (nonlinear_arith)
                        requires
                            i > (usize::MAX - j) / (cols as int),
                            cols >= 1,
                            j < cols,
                            ws@.len() <= usize::MAX,
                    ;
                }
            }
        } else {
            if j <= (usize::MAX - i) / rows {
                proof {
                    assert(j * rows + i <= usize::MAX) by (nonlinear_arith)
                        requires
                            j <= (usize::MAX - i) / (rows as int),
                            rows >= 1,
                            i >= 0,
                            j >= 0,
                    ;
                }
                let idx = j * rows + i;
                if idx < n {
                    assert(k == idx);
                    let e = ws[idx];
                    if e > w {
                        w = e;
                    }
                }
            } else {
                proof {
                    assert(j * rows + i > usize::MAX >= ws@.len()) by (nonlinear_arith)
                        requires
                            j > (usize::MAX - i) / (rows as int),
                            rows >= 1,
                            i < rows,
                            ws@.len() <= usize::MAX,
                    ;
                }
            }
        }
        i = i + 1;
    }
    w
}

/// The number of rows needed for `n` entries in `c` columns.
fn rows_needed(n: usize, c: usize) -> (r: usize)
    requires
        c >= 1,
    ensures
        r as int == rows_for(n as int, c as int),
        n >= 1 ==> r >= 1,
{
    let q = n / c;
    let rem = n % c;
    if rem == 0 {
        proof {
            if n >= 1 {
                assert(q >= 1) by (nonlinear_arith)
                    requires
                        n >= 1,
                        c >= 1,
                        n % c == 0,
                        q == n / c,
                ;
            }
        }
        q
    } else {
        proof {
            assert(q < usize::MAX) by (nonlinear_arith)
                requires
                    c >= 1,
                    n % c != 0,
                    q == n / c,
                    n <= usize::MAX,
            ;
        }
        q + 1
    }
}

/// Whether `c` columns fit within `width`, and the column widths
/// themselves.
fn try_columns(ws: &Vec<usize>, c: usize, gap: usize, width: usize, across: bool) -> (r: Option<
    Vec<usize>,
>)
    requires
        1 <= c <= ws@.len(),
    ensures
        match r {
            Some(cols) => {
                &&& grid_fits(ws@, c as int, gap as int, width as int, across)
                &&& cols@.len() == c
                &&& forall|j: int|
                    0 <= j < c ==> cols@[j] as int == col_width(
                        ws@,
                        rows_for(ws@.len() as int, c as int),
                        c as int,
                        across,
                        j,
                    )
            },
            None => !grid_fits(ws@, c as int, gap as int, width as int, across),
        },
{
    let n = ws.len();
    let rows = rows_needed(n, c);
    proof {
        assert(rows * c >= n) by (nonlinear_arith)
            requires
                c >= 1,
                rows as int == rows_for(n as int, c as int),
                n >= 0,
        ;
    }
    let ghost rr = rows as int;
    let mut cols: Vec<usize> = Vec::new();
    let mut j: usize = 0;
    while j < c
        invariant
            0 <= j <= c,
            1 <= c <= ws@.len(),
            n == ws@.len(),
            rows as int == rows_for(n as int, c as int),
            rows >= 1,
            rr == rows as int,
            ws@.len() <= rows * c,
            cols@.len() == j,
            forall|m: int|
                0 <= m < j ==> cols@[m] as int == col_width(ws@, rr, c as int, across, m),
        decreases c - j,
    {
        let w = compute_col_width(ws, rows, c, across, j);
        cols.push(w);
        j = j + 1;
    }
    // Sum the column widths, giving up as soon as the width budget is
    // exceeded.
    let mut total: u128 = 0;
    let mut m: usize = 0;
    while m < c
        invariant
            0 <= m <= c,
            c <= ws@.len(),
            n == ws@.len(),
            rows as int == rows_for(n as int, c as int),
            rr == rows as int,
            cols@.len() == c,
            forall|t: int|
                0 <= t < c ==> cols@[t] as int == col_width(ws@, rr, c as int, across, t),
            total as int == sum_col_widths(ws@, rr, c as int, across, m as int) + gap * (
            if m > 0 {
                (m - 1) as int
            } else {
                0
            }),
            total <= (width as u128) + (usize::MAX as u128) + (usize::MAX as u128),
        decreases c - m,
    {
        let w = cols[m];
        let add: u128 = if m > 0 {
            (w as u128) + (gap as u128)
        } else {
            w as u128
        };
        if total > width as u128 {
            proof {
                lemma_sum_col_widths_mono(ws@, rr, c as int, across, m as int, c as int);
                assert(gap * (c - 1) >= gap * (if m > 0 {
                    (m - 1) as int
                } else {
                    0
                })) by (nonlinear_arith)
                    requires
                        gap >= 0,
                        c >= 1,
                        0 <= m <= c,
                ;
            }
            return None;
        }
        total = total + add;
        proof {
            assert(sum_col_widths(ws@, rr, c as int, across, m + 1) == sum_col_widths(
                ws@,
                rr,
                c as int,
                across,
                m as int,
            ) + col_width(ws@, rr, c as int, across, m as int));
            if m > 0 {
                assert((gap as int) * (m as int) == (gap as int) * ((m - 1) as int) + (
                gap as int)) by (nonlinear_arith);
            }
        }
        m = m + 1;
    }
    if total <= width as u128 {
        proof {
            if c > 1 {
                assert(total as int == sum_col_widths(ws@, rr, c as int, across, c as int) + gap
                    * ((c - 1) as int));
            }
        }
        Some(cols)
    } else {
        proof {
            lemma_sum_col_widths_mono(ws@, rr, c as int, across, c as int, c as int);
        }
        None
    }
}

/// Picks the greatest column count that fits the available width.
///
/// The candidates run from one column per entry down to a single
/// column; the first that fits is the answer, so nothing larger fits.
/// When even a single column is too wide, there is no grid at all and
/// the caller falls back to one entry per line.
pub fn fit(ws: &Vec<usize>, width: usize, gap: usize, across: bool) -> (r: Option<GridLayout>)
    requires
        ws@.len() >= 1,
    ensures
        match r {
            Some(l) => {
                &&& 1 <= l.columns <= ws@.len()
                &&& l.across == across
                &&& l.rows as int == rows_for(ws@.len() as int, l.columns as int)
                &&& l.widths@.len() == l.columns
                &&& forall|j: int|
                    0 <= j < l.columns ==> l.widths@[j] as int == col_width(
                        ws@,
                        l.rows as int,
                        l.columns as int,
                        across,
                        j,
                    )
                &&& grid_fits(ws@, l.columns as int, gap as int, width as int, across)
                &&& forall|c: int|
                    l.columns < c <= ws@.len() ==> !grid_fits(
                        ws@,
                        c,
                        gap as int,
                        width as int,
                        across,
                    )
            },
            None => forall|c: int|
                1 <= c <= ws@.len() ==> !grid_fits(ws@, c, gap as int, width as int, across),
        },
{
    let n = ws.len();
    let mut c = n;
    loop
        invariant
            1 <= c <= n,
            n == ws@.len(),
            forall|d: int| c < d <= n ==> !grid_fits(ws@, d, gap as int, width as int, across),
        decreases c,
    {
        match try_columns(ws, c, gap, width, across) {
            Some(cols) => {
                let rows = rows_needed(n, c);
                return Some(GridLayout { columns: c, rows, widths: cols, across });
            },
            None => {
                if c == 1 {
                    return None;
                }
                c = c - 1;
            },
        }
    }
}


/// The column count the downward scan settles on: the greatest count
/// no larger than `c` that fits, or one.
pub open spec fn best_cols(ws: Seq<usize>, gap: int, width: int, across: bool, c: int) -> int
    decreases c,
{
    if c <= 1 {
        1
    } else if grid_fits(ws, c, gap, width, across) {
        c
    } else {
        best_cols(ws, gap, width, across, c - 1)
    }
}

/// A count that fits, with nothing above it fitting, is what the
/// scan settles on; so is one, when nothing above it fits.
pub proof fn lemma_best_cols(
    ws: Seq<usize>,
    gap: int,
    width: int,
    across: bool,
    n: int,
    sel: int,
)
    requires
        1 <= sel <= n,
        sel > 1 ==> grid_fits(ws, sel, gap, width, across),
        forall|d: int| sel < d <= n ==> !grid_fits(ws, d, gap, width, across),
    ensures
        best_cols(ws, gap, width, across, n) == sel,
    decreases n - sel,
{
    if n == sel {
    } else {
        lemma_best_cols(ws, gap, width, across, n - 1, sel);
    }
}

/// A sequence of display widths, one for each text.
pub open spec fn widths_of(names: Seq<Seq<char>>) -> Seq<usize> {
    Seq::new(names.len(), |i: int| crate::render::str_width(names[i]) as usize)
}

/// One grid row from column `j` on: each occupied cell's text,
/// padded to the column width and followed by the gap — except the
/// row's last occupied cell, which closes the line as it is, so
/// nothing of the text is lost and no padding trails it.
pub open spec fn spec_grid_row(
    names: Seq<Seq<char>>,
    ws: Seq<usize>,
    rows: int,
    cols: int,
    across: bool,
    gap: int,
    i: int,
    j: int,
) -> Seq<char>
    decreases cols - j,
{
    if j < 0 || j >= cols {
        Seq::empty()
    } else {
        let k = cell_entry(rows, cols, across, i, j);
        let rest = spec_grid_row(names, ws, rows, cols, across, gap, i, j + 1);
        if 0 <= k < names.len() {
            let more = j + 1 < cols && 0 <= cell_entry(rows, cols, across, i, j + 1)
                < names.len();
            if more {
                let cw = col_width(ws, rows, cols, across, j);
                let pad = if cw >= ws[k] {
                    cw - ws[k]
                } else {
                    0
                };
                names[k] + crate::text::spaces_seq(pad + (if gap >= 0 {
                    gap
                } else {
                    0
                })) + rest
            } else {
                names[k] + rest
            }
        } else {
            rest
        }
    }
}

/// The grid's lines: the fitted shape's rows; or, when not even one
/// column fits, each entry on a line of its own.
pub open spec fn spec_grid_output(
    names: Seq<Seq<char>>,
    ws: Seq<usize>,
    width: int,
    gap: int,
    across: bool,
) -> Seq<Seq<char>> {
    if ws.len() == 0 {
        Seq::empty()
    } else {
        let c = best_cols(ws, gap, width, across, ws.len() as int);
        if !grid_fits(ws, c, gap, width, across) {
            names
        } else {
            let r = rows_for(ws.len() as int, c);
            Seq::new(
                r as nat,
                |i: int| spec_grid_row(names, ws, r, c, across, gap, i, 0),
            )
        }
    }
}

/// Renders one grid row.
fn render_grid_row(
    names: &Vec<String>,
    ws: &Vec<usize>,
    layout: &GridLayout,
    gap: usize,
    i: usize,
) -> (r: String)
    requires
        ws@.len() == names@.len(),
        layout.columns >= 1,
        layout.rows >= 1,
        i < layout.rows,
        layout.widths@.len() == layout.columns,
        ws@.len() <= layout.rows * layout.columns,
        forall|j: int|
            0 <= j < layout.columns ==> layout.widths@[j] as int == col_width(
                ws@,
                layout.rows as int,
                layout.columns as int,
                layout.across,
                j,
            ),
    ensures
        r@ == spec_grid_row(
            names.deep_view(),
            ws@,
            layout.rows as int,
            layout.columns as int,
            layout.across,
            gap as int,
            i as int,
            0,
        ),
{
    let ghost gnames = names.deep_view();
    let ghost rr = layout.rows as int;
    let ghost cc = layout.columns as int;
    let rows = layout.rows;
    let cols = layout.columns;
    let across = layout.across;
    let n = names.len();
    let mut out = String::new();
    let mut j: usize = 0;
    while j < cols
        invariant
            0 <= j <= cols,
            rows == layout.rows,
            cols == layout.columns,
            across == layout.across,
            rows >= 1,
            cols >= 1,
            i < rows,
            rr == rows as int,
            cc == cols as int,
            gnames == names.deep_view(),
            n == names@.len(),
            ws@.len() == n,
            n <= rows * cols,
            layout.widths@.len() == cols,
            forall|m: int|
                0 <= m < cols ==> layout.widths@[m] as int == col_width(
                    ws@,
                    rr,
                    cc,
                    across,
                    m,
                ),
            spec_grid_row(gnames, ws@, rr, cc, across, gap as int, i as int, 0) == out@
                + spec_grid_row(gnames, ws@, rr, cc, across, gap as int, i as int, j as int),
        decreases cols - j,
    {
        let ghost k = cell_entry(rr, cc, across, i as int, j as int);
        let mut idx: usize = 0;
        let mut valid: bool = false;
        if across {
            if i <= (usize::MAX - j) / cols {
                proof {
                    assert(i * cols + j <= usize::MAX) by (nonlinear_arith)
                        requires
                            i <= (usize::MAX - j) / (cols as int),
                            cols >= 1,
                            j >= 0,
                            i >= 0,
                    ;
                }
                idx = i * cols + j;
                valid = idx < n;
                proof {
                    assert(k == idx);
                }
            } else {
                proof {
                    assert(i * cols + j > usize::MAX >= names@.len()) by (nonlinear_arith)
                        requires
                            i > (usize::MAX - j) / (cols as int),
                            cols >= 1,
                            j < cols,
                            names@.len() <= usize::MAX,
                    ;
                }
            }
        } else {
            if j <= (usize::MAX - i) / rows {
                proof {
                    assert(j * rows + i <= usize::MAX) by (nonlinear_arith)
                        requires
                            j <= (usize::MAX - i) / (rows as int),
                            rows >= 1,
                            i >= 0,
                            j >= 0,
                    ;
                }
                idx = j * rows + i;
                valid = idx < n;
                proof {
                    assert(k == idx);
                }
            } else {
                proof {
                    assert(j * rows + i > usize::MAX >= names@.len()) by (nonlinear_arith)
                        requires
                            j > (usize::MAX - i) / (rows as int),
                            rows >= 1,
                            i < rows,
                            names@.len() <= usize::MAX,
                    ;
                }
            }
        }
        if valid {
            let name = &names[idx];
            out.append(name.as_str());
            // Whether another occupied cell follows on this row: the
            // next column's entry sits one step further along.
            let step: usize = if across {
                1
            } else {
                rows
            };
            let more = j + 1 < cols && n - idx > step;
            proof {
                if across {
                    assert(cell_entry(rr, cc, across, i as int, j + 1) == idx + 1);
                } else {
                    assert((j + 1) * (rows as int) == j * (rows as int) + rows) by (
                    nonlinear_arith);
                    assert(cell_entry(rr, cc, across, i as int, j + 1) == idx + rows);
                }
            }
            if more {
                let cw = layout.widths[j];
                let wk = ws[idx];
                let pad = if cw >= wk {
                    cw - wk
                } else {
                    0
                };
                if pad <= usize::MAX - gap {
                    let sp = crate::text::spaces(pad + gap);
                    out.append(sp.as_str());
                } else {
                    let sp1 = crate::text::spaces(pad);
                    out.append(sp1.as_str());
                    let sp2 = crate::text::spaces(gap);
                    out.append(sp2.as_str());
                    proof {
                        assert(crate::text::spaces_seq(pad as int) + crate::text::spaces_seq(
                            gap as int,
                        ) =~= crate::text::spaces_seq(pad + gap));
                    }
                }
            }
            proof {
                assert(gnames[k] == names@[k]@);
            }
        }
        j = j + 1;
    }
    proof {
        assert(spec_grid_row(gnames, ws@, rr, cc, across, gap as int, i as int, cc)
            == Seq::<char>::empty());
        assert(out@ + Seq::<char>::empty() =~= out@);
    }
    out
}

/// Renders the grid view of a set of texts with known widths: the
/// most columns that fit, or one text per line when not even one
/// column does.
pub fn render_grid(
    names: &Vec<String>,
    ws: &Vec<usize>,
    width: usize,
    gap: usize,
    across: bool,
) -> (r: Vec<String>)
    requires
        ws@.len() == names@.len(),
    ensures
        r.deep_view() == spec_grid_output(
            names.deep_view(),
            ws@,
            width as int,
            gap as int,
            across,
        ),
{
    let ghost gnames = names.deep_view();
    let n = names.len();
    if n == 0 {
        let out: Vec<String> = Vec::new();
        proof {
            assert(out.deep_view() =~= spec_grid_output(
                gnames,
                ws@,
                width as int,
                gap as int,
                across,
            ));
        }
        return out;
    }
    match fit(ws, width, gap, across) {
        Option::Some(layout) => {
            proof {
                lemma_best_cols(
                    ws@,
                    gap as int,
                    width as int,
                    across,
                    n as int,
                    layout.columns as int,
                );
                assert(layout.rows * layout.columns >= n) by (nonlinear_arith)
                    requires
                        layout.columns >= 1,
                        layout.rows as int == rows_for(n as int, layout.columns as int),
                        n >= 1,
                ;
                let c = layout.columns as int;
                if (n as int) % c == 0 {
                    assert((n as int) / c >= 1) by (nonlinear_arith)
                        requires
                            n >= 1,
                            c >= 1,
                            (n as int) % c == 0,
                    ;
                } else {
                    assert((n as int) / c >= 0) by (nonlinear_arith)
                        requires
                            n >= 0,
                            c >= 1,
                    ;
                }
                assert(layout.rows >= 1);
            }
            let rows = layout.rows;
            let mut out: Vec<String> = Vec::new();
            let mut i: usize = 0;
            while i < rows
                invariant
                    0 <= i <= rows,
                    n == names@.len(),
                    n >= 1,
                    ws@.len() == n,
                    gnames == names.deep_view(),
                    rows == layout.rows,
                    layout.columns >= 1,
                    rows >= 1,
                    layout.widths@.len() == layout.columns,
                    n <= rows * layout.columns,
                    forall|m: int|
                        0 <= m < layout.columns ==> layout.widths@[m] as int == col_width(
                            ws@,
                            rows as int,
                            layout.columns as int,
                            layout.across,
                            m,
                        ),
                    across == layout.across,
                    out@.len() == i,
                    forall|m: int|
                        0 <= m < i ==> out@[m]@ == spec_grid_row(
                            gnames,
                            ws@,
                            rows as int,
                            layout.columns as int,
                            across,
                            gap as int,
                            m,
                            0,
                        ),
                decreases rows - i,
            {
                let line = render_grid_row(names, ws, &layout, gap, i);
                out.push(line);
                i = i + 1;
            }
            proof {
                let expected = spec_grid_output(
                    gnames,
                    ws@,
                    width as int,
                    gap as int,
                    across,
                );
                assert forall|m: int| 0 <= m < out@.len() implies out.deep_view()[m]
                    == expected[m] by {
                    assert(out.deep_view()[m] == out@[m]@);
                }
                assert(out.deep_view() =~= expected);
            }
            out
        },
        Option::None => {
            proof {
                lemma_best_cols(ws@, gap as int, width as int, across, n as int, 1);
            }
            let mut out: Vec<String> = Vec::new();
            let mut i: usize = 0;
            while i < n
                invariant
                    0 <= i <= n,
                    n == names@.len(),
                    gnames == names.deep_view(),
                    out@.len() == i,
                    forall|m: int| 0 <= m < i ==> out@[m]@ == gnames[m],
                decreases n - i,
            {
                out.push(names[i].clone());
                i = i + 1;
            }
            proof {
                assert forall|m: int| 0 <= m < out@.len() implies out.deep_view()[m]
                    == gnames[m] by {
                    assert(out.deep_view()[m] == out@[m]@);
                }
                assert(out.deep_view() =~= spec_grid_output(
                    gnames,
                    ws@,
                    width as int,
                    gap as int,
                    across,
                ));
            }
            out
        },
    }
}

} // verus!
