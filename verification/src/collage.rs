//! Collage templates: how the print area is split into one cell per photo,
//! and which photo goes into which cell.
//!
//! A layout is expressed in whole units of the print area: `span_x` units
//! across its width and `span_y` units down its height. The templates for up
//! to five photos use 300 units each way (every fraction they use, such as
//! 0.62 or 1/3, is a whole number of 300ths); larger collages are grids of
//! rows of equal height, whose last row, when it holds fewer photos than the
//! others, has its cells widened so that the grid still covers the whole
//! area.
use vstd::prelude::*;
use vstd::arithmetic::div_mod::lemma_fundamental_div_mod;

verus! {

/// Units across each side of the print area in the fixed templates.
pub const TEMPLATE_SPAN: u64 = 300;

/// A cell of a layout, in units of the print area, from its top-left corner.
#[derive(Clone, Copy, PartialEq, Eq, Debug, Structural)]
pub struct UnitRect {
    pub x: u64,
    pub y: u64,
    pub w: u64,
    pub h: u64,
}

/// A collage: the cells, in units of the print area.
pub struct Collage {
    /// Units across the width of the print area.
    pub span_x: u64,
    /// Units down the height of the print area.
    pub span_y: u64,
    /// The layout is a grid (rows of one unit in height) rather than a
    /// template.
    pub grid: bool,
    pub cells: Vec<UnitRect>,
}

pub open spec fn ur(x: u64, y: u64, w: u64, h: u64) -> UnitRect {
    UnitRect { x, y, w, h }
}

/// Smallest `c` from `c` upwards whose square reaches `n`.
pub open spec fn sqrt_up_from(n: nat, c: nat) -> nat
    decreases n - c,
{
    if c * c >= n || c >= n {
        c
    } else {
        sqrt_up_from(n, c + 1)
    }
}

/// Columns of the grid for `n` photos: the square root of `n`, rounded up.
pub open spec fn grid_cols(n: nat) -> nat {
    if n <= 1 {
        1
    } else {
        sqrt_up_from(n, 1)
    }
}

/// Rows of the grid for `n` photos in `cols` columns: `n / cols` rounded up.
pub open spec fn grid_rows(n: nat, cols: nat) -> nat {
    ((n + cols - 1) / (cols as int)) as nat
}

/// Photos in the last row of a grid of `rows` rows of `cols` columns
/// holding `n` photos.
pub open spec fn last_row_count(cols: nat, rows: nat, n: nat) -> nat {
    (n - cols * (rows - 1)) as nat
}

/// Units across the print area for a grid of `rows` rows of `cols` columns
/// holding `n` photos: one per column when the grid is full; else `cols`
/// times the photos of the last row, so that the cells of the full rows (as
/// many units wide as the last row has photos) and those of the last row
/// (`cols` units wide) are whole units.
pub open spec fn grid_span_x(cols: nat, rows: nat, n: nat) -> nat {
    if n == cols * rows {
        cols
    } else {
        cols * last_row_count(cols, rows, n)
    }
}

/// The cells of a grid of `rows` rows of `cols` columns holding `n` photos
/// (with `cols * (rows - 1) < n <= cols * rows`), each one unit high. A full
/// grid lists its cells row by row. Otherwise the last row comes first, its
/// cells widened to share the whole width, then the full rows, row by row;
/// the largest cells thus come first.
pub open spec fn grid_spec(cols: nat, rows: nat, n: nat) -> Seq<UnitRect> {
    if n == cols * rows {
        Seq::new(n, |i: int| ur((i % (cols as int)) as u64, (i / (cols as int)) as u64, 1, 1))
    } else {
        let last = last_row_count(cols, rows, n) as int;
        Seq::new(
            n,
            |i: int|
                if i < last {
                    ur((i * cols) as u64, (rows - 1) as u64, cols as u64, 1)
                } else {
                    ur(
                        (((i - last) % (cols as int)) * last) as u64,
                        ((i - last) / (cols as int)) as u64,
                        last as u64,
                        1,
                    )
                },
        )
    }
}

/// The fixed templates for one to five photos, in 300ths of the print area:
/// for two photos the area is halved; for three to five one large cell
/// comes first (0.6 of the area for three or five photos, 0.62 for four)
/// and the others share the rest side by side. A portrait area stacks along its height, a landscape one
/// along its width.
pub open spec fn template_spec(n: nat, portrait: bool) -> Seq<UnitRect> {
    if n == 1 {
        seq![ur(0, 0, 300, 300)]
    } else if n == 2 {
        if portrait {
            seq![ur(0, 0, 300, 150), ur(0, 150, 300, 150)]
        } else {
            seq![ur(0, 0, 150, 300), ur(150, 0, 150, 300)]
        }
    } else if n == 3 {
        if portrait {
            seq![ur(0, 0, 300, 180), ur(0, 180, 150, 120), ur(150, 180, 150, 120)]
        } else {
            seq![ur(0, 0, 180, 300), ur(180, 0, 120, 150), ur(180, 150, 120, 150)]
        }
    } else if n == 4 {
        if portrait {
            seq![
                ur(0, 0, 300, 186),
                ur(0, 186, 100, 114),
                ur(100, 186, 100, 114),
                ur(200, 186, 100, 114),
            ]
        } else {
            seq![
                ur(0, 0, 186, 300),
                ur(186, 0, 114, 100),
                ur(186, 100, 114, 100),
                ur(186, 200, 114, 100),
            ]
        }
    } else if n == 5 {
        if portrait {
            seq![
                ur(0, 0, 300, 180),
                ur(0, 180, 75, 120),
                ur(75, 180, 75, 120),
                ur(150, 180, 75, 120),
                ur(225, 180, 75, 120),
            ]
        } else {
            seq![
                ur(0, 0, 180, 300),
                ur(180, 0, 120, 75),
                ur(180, 75, 120, 75),
                ur(180, 150, 120, 75),
                ur(180, 225, 120, 75),
            ]
        }
    } else {
        seq![]
    }
}

/// Grid shape for `n` photos, as (columns, rows): six photos take two
/// columns of three in a portrait area and three columns of two in a
/// landscape one; more take the square root of `n` rounded up as columns and
/// as many rows as needed.
pub open spec fn grid_shape(n: nat, portrait: bool) -> (nat, nat) {
    if n == 6 {
        if portrait {
            (2, 3)
        } else {
            (3, 2)
        }
    } else {
        (grid_cols(n), grid_rows(n, grid_cols(n)))
    }
}

/// Layouts from six photos on are grids.
pub open spec fn uses_grid(n: nat) -> bool {
    n >= 6
}

/// Units across and down the print area in the layout for `n` photos.
pub open spec fn layout_span(n: nat, portrait: bool) -> (nat, nat) {
    if uses_grid(n) {
        (
            grid_span_x(grid_shape(n, portrait).0, grid_shape(n, portrait).1, n),
            grid_shape(n, portrait).1,
        )
    } else {
        (300, 300)
    }
}

/// Cells of the layout for `n` photos.
pub open spec fn layout_cells(n: nat, portrait: bool) -> Seq<UnitRect> {
    if uses_grid(n) {
        grid_spec(grid_shape(n, portrait).0, grid_shape(n, portrait).1, n)
    } else {
        template_spec(n, portrait)
    }
}

/// Columns for a grid of `n` photos: the square root of `n`, rounded up
/// (1 for no photo or one).
pub fn grid_columns(n: usize) -> (c: usize)
    ensures
        c == grid_cols(n as nat),
        c >= 1,
        c * c >= n,
        n >= 1 ==> (c - 1) * (c - 1) < n,
{
    if n <= 1 {
        return 1;
    }
    let ghost nn = n as nat;
    let mut c: usize = 1;
    assert(sqrt_up_from(nn, 1) == grid_cols(nn));
    assert(n <= u64::MAX);
    while (c as u128) * (c as u128) < n as u128
        invariant
            1 <= c <= n,
            (c - 1) * (c - 1) < n,
            c * c <= u128::MAX,
            sqrt_up_from(nn, c as nat) == grid_cols(nn),
            nn == n,
            nn >= 2,
        decreases n - c,
    {
        assert((c as u128) * (c as u128) == c * c) by (nonlinear_arith)
            requires
                c * c <= u128::MAX,
        ;
        assert(c < n) by (nonlinear_arith)
            requires
                c * c < n,
                c >= 1,
        ;
        assert((c + 1) * (c + 1) <= u128::MAX) by (nonlinear_arith)
            requires
                c < n,
                n <= u64::MAX,
        ;
        c = c + 1;
    }
    assert((c as u128) * (c as u128) == c * c) by (nonlinear_arith)
        requires
            c * c <= u128::MAX,
    ;
    c
}

/// The cells of a grid of `rows` rows of `cols` columns holding `n` photos,
/// as `grid_spec` lays them out, with the units across the area.
pub fn grid_cells(cols: usize, rows: usize, n: usize) -> (r: (Vec<UnitRect>, u64))
    requires
        cols >= 1,
        rows >= 1,
        cols * (rows - 1) < n <= cols * rows,
        n == cols * rows || cols * last_row_count(cols as nat, rows as nat, n as nat)
            <= u64::MAX,
    ensures
        r.0@ == grid_spec(cols as nat, rows as nat, n as nat),
        r.1 == grid_span_x(cols as nat, rows as nat, n as nat),
{
    let ghost g = grid_spec(cols as nat, rows as nat, n as nat);
    let full = cols * (rows - 1);
    let last = n - full;
    let mut cells: Vec<UnitRect> = Vec::new();
    if last == cols {
        assert(n == cols * rows) by (nonlinear_arith)
            requires
                n - cols * (rows - 1) == cols,
        ;
        let mut i: usize = 0;
        while i < n
            invariant
                i <= n,
                cols >= 1,
                n == cols * rows,
                g == grid_spec(cols as nat, rows as nat, n as nat),
                cells@ =~= g.take(i as int),
            decreases n - i,
        {
            cells.push(UnitRect { x: (i % cols) as u64, y: (i / cols) as u64, w: 1, h: 1 });
            i = i + 1;
            assert(cells@ =~= g.take(i as int));
        }
        assert(g.take(n as int) =~= g);
        return (cells, cols as u64);
    }
    assert(n != cols * rows) by (nonlinear_arith)
        requires
            n - cols * (rows - 1) != cols,
    ;
    assert(1 <= last < cols) by (nonlinear_arith)
        requires
            cols * (rows - 1) < n,
            n < cols * rows,
            last == n - cols * (rows - 1),
    ;
    let ghost lastg = last_row_count(cols as nat, rows as nat, n as nat);
    assert(lastg == last);
    let mut j: usize = 0;
    while j < last
        invariant
            j <= last,
            1 <= last < cols,
            rows >= 1,
            full == cols * (rows - 1),
            last == n - full,
            lastg == last,
            n != cols * rows,
            cols * last <= u64::MAX,
            g == grid_spec(cols as nat, rows as nat, n as nat),
            cells@ =~= g.take(j as int),
        decreases last - j,
    {
        assert(j * cols < cols * last) by (nonlinear_arith)
            requires
                j < last,
                cols >= 1,
        ;
        let x: u64 = (j as u64) * (cols as u64);
        cells.push(UnitRect { x, y: (rows - 1) as u64, w: cols as u64, h: 1 });
        j = j + 1;
        assert(cells@ =~= g.take(j as int));
    }
    let mut k: usize = 0;
    while k < full
        invariant
            k <= full,
            1 <= last < cols,
            cols >= 1,
            rows >= 1,
            full == cols * (rows - 1),
            last == n - full,
            lastg == last,
            n != cols * rows,
            cols * last <= u64::MAX,
            g == grid_spec(cols as nat, rows as nat, n as nat),
            cells@ =~= g.take(last + k),
        decreases full - k,
    {
        let m: usize = k % cols;
        assert(m * last < cols * last) by (nonlinear_arith)
            requires
                m < cols,
                last >= 1,
        ;
        let x: u64 = (m as u64) * (last as u64);
        cells.push(UnitRect { x, y: (k / cols) as u64, w: last as u64, h: 1 });
        k = k + 1;
        assert(cells@ =~= g.take(last + k));
    }
    assert(g.take(n as int) =~= g);
    ((cells, (cols as u64) * (last as u64)))
}

/// With `rows` the rows needed for `n` photos in `cols` columns, the first
/// `rows - 1` rows are full and the last one holds the rest.
proof fn lemma_rows_hold(n: nat, cols: nat)
    requires
        cols >= 1,
        n >= 1,
    ensures
        cols * (grid_rows(n, cols) - 1) < n <= cols * grid_rows(n, cols),
        grid_rows(n, cols) >= 1,
{
    let q = (n - 1) / (cols as int);
    lemma_fundamental_div_mod(n - 1, cols as int);
    assert(grid_rows(n, cols) == q + 1) by (nonlinear_arith)
        requires
            cols >= 1,
            n >= 1,
            q == (n - 1) / (cols as int),
            grid_rows(n, cols) == (n + cols - 1) / (cols as int),
    ;
    assert(q >= 0) by (nonlinear_arith)
        requires
            n >= 1,
            cols >= 1,
            q == (n - 1) / (cols as int),
    ;
    assert(cols * q < n && n <= cols * (q + 1)) by (nonlinear_arith)
        requires
            n - 1 == cols * q + (n - 1) % (cols as int),
            0 <= (n - 1) % (cols as int) < cols,
    ;
}

/// In a square-root grid whose last row is not full, the units across the
/// area (`cols` times the photos of the last row) fit in 64 bits.
proof fn lemma_narrow_row_fits(n: nat, cols: nat, rows: nat)
    requires
        cols >= 1,
        (cols - 1) * (cols - 1) < n,
        n <= u64::MAX,
        cols * (rows - 1) < n <= cols * rows,
    ensures
        n == cols * rows || cols * last_row_count(cols, rows, n) <= u64::MAX,
{
    if n != cols * rows {
        let last = last_row_count(cols, rows, n);
        assert(last < cols) by (nonlinear_arith)
            requires
                n < cols * rows,
                last == n - cols * (rows - 1),
                rows >= 1,
        ;
        assert(cols <= 0x1_0000_0000) by (nonlinear_arith)
            requires
                (cols - 1) * (cols - 1) < n,
                n <= u64::MAX,
                cols >= 1,
        ;
        assert(cols * last <= u64::MAX) by (nonlinear_arith)
            requires
                last < cols,
                cols <= 0x1_0000_0000,
        ;
    }
}

/// The collage layout for `n` photos in a print area that is taller than
/// wide (`portrait`) or not.
pub fn template_cells(n: usize, portrait: bool) -> (c: Collage)
    ensures
        c.cells@ == layout_cells(n as nat, portrait),
        (c.span_x as nat, c.span_y as nat) == layout_span(n as nat, portrait),
        c.grid == uses_grid(n as nat),
{
    if n >= 6 {
        let (cols, rows) = if n == 6 {
            if portrait {
                (2usize, 3usize)
            } else {
                (3usize, 2usize)
            }
        } else {
            let cols = grid_columns(n);
            let rows = (n - 1) / cols + 1;
            assert(rows == grid_rows(n as nat, cols as nat)) by (nonlinear_arith)
                requires
                    cols >= 1,
                    n >= 1,
                    rows as int == (n as int - 1) / (cols as int) + 1,
            ;
            proof {
                lemma_rows_hold(n as nat, cols as nat);
                lemma_narrow_row_fits(n as nat, cols as nat, rows as nat);
            }
            (cols, rows)
        };
        let (cells, span_x) = grid_cells(cols, rows, n);
        return Collage { span_x, span_y: rows as u64, grid: true, cells };
    }
    let cells = if n == 1 {
        vec![UnitRect { x: 0, y: 0, w: 300, h: 300 }]
    } else if n == 2 {
        if portrait {
            vec![UnitRect { x: 0, y: 0, w: 300, h: 150 }, UnitRect { x: 0, y: 150, w: 300, h: 150 }]
        } else {
            vec![UnitRect { x: 0, y: 0, w: 150, h: 300 }, UnitRect { x: 150, y: 0, w: 150, h: 300 }]
        }
    } else if n == 3 {
        if portrait {
            vec![
                UnitRect { x: 0, y: 0, w: 300, h: 180 },
                UnitRect { x: 0, y: 180, w: 150, h: 120 },
                UnitRect { x: 150, y: 180, w: 150, h: 120 },
            ]
        } else {
            vec![
                UnitRect { x: 0, y: 0, w: 180, h: 300 },
                UnitRect { x: 180, y: 0, w: 120, h: 150 },
                UnitRect { x: 180, y: 150, w: 120, h: 150 },
            ]
        }
    } else if n == 4 {
        if portrait {
            vec![
                UnitRect { x: 0, y: 0, w: 300, h: 186 },
                UnitRect { x: 0, y: 186, w: 100, h: 114 },
                UnitRect { x: 100, y: 186, w: 100, h: 114 },
                UnitRect { x: 200, y: 186, w: 100, h: 114 },
            ]
        } else {
            vec![
                UnitRect { x: 0, y: 0, w: 186, h: 300 },
                UnitRect { x: 186, y: 0, w: 114, h: 100 },
                UnitRect { x: 186, y: 100, w: 114, h: 100 },
                UnitRect { x: 186, y: 200, w: 114, h: 100 },
            ]
        }
    } else if n == 5 {
        if portrait {
            vec![
                UnitRect { x: 0, y: 0, w: 300, h: 180 },
                UnitRect { x: 0, y: 180, w: 75, h: 120 },
                UnitRect { x: 75, y: 180, w: 75, h: 120 },
                UnitRect { x: 150, y: 180, w: 75, h: 120 },
                UnitRect { x: 225, y: 180, w: 75, h: 120 },
            ]
        } else {
            vec![
                UnitRect { x: 0, y: 0, w: 180, h: 300 },
                UnitRect { x: 180, y: 0, w: 120, h: 75 },
                UnitRect { x: 180, y: 75, w: 120, h: 75 },
                UnitRect { x: 180, y: 150, w: 120, h: 75 },
                UnitRect { x: 180, y: 225, w: 120, h: 75 },
            ]
        }
    } else {
        Vec::new()
    };
    assert(cells@ =~= template_spec(n as nat, portrait));
    Collage { span_x: TEMPLATE_SPAN, span_y: TEMPLATE_SPAN, grid: false, cells }
}

/// Area of a cell, in square units.
pub open spec fn area(r: UnitRect) -> nat {
    (r.w * r.h) as nat
}

/// The cell is not empty and lies within a `sx` by `sy` area.
pub open spec fn inside(r: UnitRect, sx: nat, sy: nat) -> bool {
    r.w > 0 && r.h > 0 && r.x + r.w <= sx && r.y + r.h <= sy
}

/// The two cells do not overlap (they may share an edge).
pub open spec fn apart(a: UnitRect, b: UnitRect) -> bool {
    a.x + a.w <= b.x || b.x + b.w <= a.x || a.y + a.h <= b.y || b.y + b.h <= a.y
}

/// Sum of the areas of the first `k` cells.
pub open spec fn area_sum(s: Seq<UnitRect>, k: int) -> nat
    decreases k,
{
    if k <= 0 {
        0
    } else {
        area_sum(s, k - 1) + area(s[k - 1])
    }
}

/// Sum of the areas of the cells.
pub open spec fn total_area(s: Seq<UnitRect>) -> nat {
    area_sum(s, s.len() as int)
}

/// Cells that lie in a `sx` by `sy` area, never overlap, and come largest
/// first.
pub open spec fn well_placed(cells: Seq<UnitRect>, sx: nat, sy: nat) -> bool {
    &&& forall|i: int| 0 <= i < cells.len() ==> inside(#[trigger] cells[i], sx, sy)
    &&& forall|i: int, j: int|
        0 <= i < cells.len() && 0 <= j < cells.len() && i != j ==> apart(
            #[trigger] cells[i],
            #[trigger] cells[j],
        )
    &&& forall|i: int, j: int|
        0 <= i <= j < cells.len() ==> area(#[trigger] cells[i]) >= area(#[trigger] cells[j])
}

proof fn lemma_full_grid_sum(cols: nat, rows: nat, n: nat, k: int)
    requires
        cols >= 1,
        n == cols * rows,
        0 <= k <= n,
    ensures
        area_sum(grid_spec(cols, rows, n), k) == k,
    decreases k,
{
    if k > 0 {
        let g = grid_spec(cols, rows, n);
        assert(g[k - 1].w == 1 && g[k - 1].h == 1);
        assert(area(g[k - 1]) == 1);
        lemma_full_grid_sum(cols, rows, n, k - 1);
    }
}

proof fn lemma_full_grid_placed(cols: nat, rows: nat, n: nat)
    requires
        cols >= 1,
        n == cols * rows,
        n <= u64::MAX,
    ensures
        well_placed(grid_spec(cols, rows, n), cols, rows),
{
    let g = grid_spec(cols, rows, n);
    let c = cols as int;
    assert forall|i: int| 0 <= i < g.len() implies inside(#[trigger] g[i], cols, rows) by {
        lemma_fundamental_div_mod(i, c);
        assert(i / c < rows) by (nonlinear_arith)
            requires
                i == c * (i / c) + i % c,
                0 <= i % c,
                i < n,
                n <= c * rows,
                c >= 1,
        ;
        assert(i / c >= 0) by (nonlinear_arith)
            requires
                i >= 0,
                c >= 1,
        ;
    }
    assert forall|i: int, j: int|
        0 <= i < g.len() && 0 <= j < g.len() && i != j implies apart(
            #[trigger] g[i],
            #[trigger] g[j],
        ) by {
        lemma_fundamental_div_mod(i, c);
        lemma_fundamental_div_mod(j, c);
        assert(i / c >= 0 && j / c >= 0) by (nonlinear_arith)
            requires
                i >= 0,
                j >= 0,
                c >= 1,
        ;
        assert(i / c <= i && j / c <= j) by (nonlinear_arith)
            requires
                i >= 0,
                j >= 0,
                c >= 1,
        ;
        if i % c == j % c && i / c == j / c {
            assert(i == j);
        }
    }
}

/// The cells of a grid whose last row is not full, field by field.
proof fn lemma_partial_cell(cols: nat, rows: nat, n: nat, i: int)
    requires
        cols >= 1,
        rows >= 1,
        cols * (rows - 1) < n < cols * rows,
        cols * last_row_count(cols, rows, n) <= u64::MAX,
        n <= u64::MAX,
        0 <= i < n,
    ensures
        ({
            let g = grid_spec(cols, rows, n);
            let last = last_row_count(cols, rows, n) as int;
            &&& 1 <= last < cols
            &&& i < last ==> g[i].x == i * cols && g[i].y == rows - 1 && g[i].w == cols && g[i].h
                == 1
            &&& i < last ==> g[i].x + g[i].w <= cols * last
            &&& i >= last ==> g[i].x == ((i - last) % (cols as int)) * last && g[i].y == (i - last)
                / (cols as int) && g[i].w == last && g[i].h == 1
            &&& i >= last ==> g[i].x + g[i].w <= cols * last && 0 <= (i - last) / (cols as int)
                && (i - last) / (cols as int) + 1 <= rows - 1
        }),
{
    let last = last_row_count(cols, rows, n) as int;
    let c = cols as int;
    assert(1 <= last < cols) by (nonlinear_arith)
        requires
            cols * (rows - 1) < n < cols * rows,
            last == n - cols * (rows - 1),
            rows >= 1,
    ;
    assert(rows - 1 < n) by (nonlinear_arith)
        requires
            cols * (rows - 1) < n,
            cols >= 1,
            rows >= 1,
    ;
    let g = grid_spec(cols, rows, n);
    if i < last {
        assert(0 <= i * cols && i * cols + cols <= cols * last) by (nonlinear_arith)
            requires
                0 <= i < last,
                cols >= 1,
        ;
        assert(g[i] == ur((i * cols) as u64, (rows - 1) as u64, cols as u64, 1));
    } else {
        let k = i - last;
        lemma_fundamental_div_mod(k, c);
        assert(0 <= k % c < c);
        assert(0 <= (k % c) * last && (k % c) * last + last <= cols * last) by (nonlinear_arith)
            requires
                0 <= k % c < c,
                last >= 1,
                c == cols,
        ;
        assert(g[i] == ur(((k % c) * last) as u64, (k / c) as u64, last as u64, 1));
        assert(0 <= k / c && k / c + 1 <= rows - 1) by (nonlinear_arith)
            requires
                k == c * (k / c) + k % c,
                0 <= k % c < c,
                0 <= k < cols * (rows - 1),
                c == cols,
                c >= 1,
        ;
    }
}

proof fn lemma_partial_grid_placed(cols: nat, rows: nat, n: nat)
    requires
        cols >= 1,
        rows >= 1,
        cols * (rows - 1) < n < cols * rows,
        cols * last_row_count(cols, rows, n) <= u64::MAX,
        n <= u64::MAX,
    ensures
        well_placed(grid_spec(cols, rows, n), grid_span_x(cols, rows, n), rows),
{
    let g = grid_spec(cols, rows, n);
    let last = last_row_count(cols, rows, n) as int;
    let c = cols as int;
    assert(grid_span_x(cols, rows, n) == cols * last);
    assert forall|i: int| 0 <= i < g.len() implies inside(
        #[trigger] g[i],
        grid_span_x(cols, rows, n),
        rows,
    ) by {
        lemma_partial_cell(cols, rows, n, i);
    }
    assert forall|i: int, j: int|
        0 <= i < g.len() && 0 <= j < g.len() && i != j implies apart(
            #[trigger] g[i],
            #[trigger] g[j],
        ) by {
        lemma_partial_cell(cols, rows, n, i);
        lemma_partial_cell(cols, rows, n, j);
        if i < last && j < last {
            if i < j {
                assert(i * cols + cols <= j * cols) by (nonlinear_arith)
                    requires
                        i < j,
                        cols >= 1,
                ;
            } else {
                assert(j * cols + cols <= i * cols) by (nonlinear_arith)
                    requires
                        j < i,
                        cols >= 1,
                ;
            }
        } else if i >= last && j >= last {
            let ki = i - last;
            let kj = j - last;
            lemma_fundamental_div_mod(ki, c);
            lemma_fundamental_div_mod(kj, c);
            if ki / c == kj / c {
                assert(ki % c != kj % c);
                if ki % c < kj % c {
                    assert((ki % c) * last + last <= (kj % c) * last) by (nonlinear_arith)
                        requires
                            ki % c < kj % c,
                            last >= 0,
                    ;
                } else {
                    assert((kj % c) * last + last <= (ki % c) * last) by (nonlinear_arith)
                        requires
                            kj % c < ki % c,
                            last >= 0,
                    ;
                }
            }
        }
    }
    assert forall|i: int, j: int| 0 <= i <= j < g.len() implies area(#[trigger] g[i]) >= area(
        #[trigger] g[j],
    ) by {
        lemma_partial_cell(cols, rows, n, i);
        lemma_partial_cell(cols, rows, n, j);
    }
}

proof fn lemma_partial_grid_sum(cols: nat, rows: nat, n: nat, k: int)
    requires
        cols >= 1,
        rows >= 1,
        cols * (rows - 1) < n < cols * rows,
        cols * last_row_count(cols, rows, n) <= u64::MAX,
        n <= u64::MAX,
        0 <= k <= n,
    ensures
        ({
            let last = last_row_count(cols, rows, n) as int;
            area_sum(grid_spec(cols, rows, n), k) == if k <= last {
                k * cols
            } else {
                last * cols + (k - last) * last
            }
        }),
    decreases k,
{
    if k > 0 {
        let g = grid_spec(cols, rows, n);
        let last = last_row_count(cols, rows, n) as int;
        lemma_partial_cell(cols, rows, n, k - 1);
        lemma_partial_grid_sum(cols, rows, n, k - 1);
        if k <= last {
            assert(area(g[k - 1]) == cols) by (nonlinear_arith)
                requires
                    g[k - 1].w == cols,
                    g[k - 1].h == 1,
            ;
            assert((k - 1) * cols + cols == k * cols) by (nonlinear_arith);
        } else {
            assert(area(g[k - 1]) == last) by (nonlinear_arith)
                requires
                    g[k - 1].w == last,
                    g[k - 1].h == 1,
            ;
            assert(k - 1 <= last ==> (k - 1) * cols == last * cols + (k - 1 - last) * last) by (
            nonlinear_arith)
                requires
                    k - 1 >= last,
            ;
            assert(last * cols + (k - 1 - last) * last + last == last * cols + (k - last) * last)
                by (nonlinear_arith);
        }
    }
}

/// The cells of a grid lie within it, never overlap and come largest
/// first; their areas add up to the grid's.
proof fn lemma_grid_placed(cols: nat, rows: nat, n: nat)
    requires
        cols >= 1,
        rows >= 1,
        cols * (rows - 1) < n <= cols * rows,
        n == cols * rows || cols * last_row_count(cols, rows, n) <= u64::MAX,
        n <= u64::MAX,
    ensures
        grid_spec(cols, rows, n).len() == n,
        well_placed(grid_spec(cols, rows, n), grid_span_x(cols, rows, n), rows),
        total_area(grid_spec(cols, rows, n)) == grid_span_x(cols, rows, n) * rows,
{
    let g = grid_spec(cols, rows, n);
    assert(g.len() == n);
    if n == cols * rows {
        lemma_full_grid_placed(cols, rows, n);
        lemma_full_grid_sum(cols, rows, n, n as int);
        assert(total_area(g) == n);
    } else {
        let last = last_row_count(cols, rows, n) as int;
        lemma_partial_grid_placed(cols, rows, n);
        lemma_partial_grid_sum(cols, rows, n, n as int);
        assert(grid_span_x(cols, rows, n) == cols * last);
        if n <= last {
            assert(n * cols == cols * last * rows) by (nonlinear_arith)
                requires
                    last == n - cols * (rows - 1),
                    n <= last,
                    cols >= 1,
                    rows >= 1,
            ;
        } else {
            assert(last * cols + (n - last) * last == cols * last * rows) by (nonlinear_arith)
                requires
                    last == n - cols * (rows - 1),
            ;
        }
        assert(total_area(g) == cols * last * rows);
    }
}

proof fn lemma_sum_upto5(t: Seq<UnitRect>)
    requires
        1 <= t.len() <= 5,
    ensures
        total_area(t) == area(t[0]) + (if t.len() >= 2 {
            area(t[1])
        } else {
            0
        }) + (if t.len() >= 3 {
            area(t[2])
        } else {
            0
        }) + (if t.len() >= 4 {
            area(t[3])
        } else {
            0
        }) + (if t.len() >= 5 {
            area(t[4])
        } else {
            0
        }),
{
    assert(area_sum(t, 0) == 0);
    assert(area_sum(t, 1) == area(t[0]));
    assert(t.len() >= 2 ==> area_sum(t, 2) == area(t[0]) + area(t[1]));
    assert(t.len() >= 3 ==> area_sum(t, 3) == area(t[0]) + area(t[1]) + area(t[2]));
    assert(t.len() >= 4 ==> area_sum(t, 4) == area(t[0]) + area(t[1]) + area(t[2]) + area(
        t[3],
    ));
    assert(t.len() >= 5 ==> area_sum(t, 5) == area(t[0]) + area(t[1]) + area(t[2]) + area(t[3])
        + area(t[4]));
}

proof fn lemma_template_total(n: nat, portrait: bool)
    requires
        1 <= n <= 5,
    ensures
        total_area(template_spec(n, portrait)) == 300 * 300,
        n >= 2 ==> area(template_spec(n, portrait)[0]) >= area(template_spec(n, portrait)[1]),
{
    let t = template_spec(n, portrait);
    lemma_sum_upto5(t);
    if n == 1 {
        assert(t[0] == ur(0, 0, 300, 300));
        assert(area(ur(0, 0, 300, 300)) == 90000) by (nonlinear_arith);
    } else if n == 2 && portrait {
        assert(t[0] == ur(0, 0, 300, 150));
        assert(area(ur(0, 0, 300, 150)) == 45000) by (nonlinear_arith);
        assert(t[1] == ur(0, 150, 300, 150));
        assert(area(ur(0, 150, 300, 150)) == 45000) by (nonlinear_arith);
    } else if n == 3 && portrait {
        assert(t[0] == ur(0, 0, 300, 180));
        assert(area(ur(0, 0, 300, 180)) == 54000) by (nonlinear_arith);
        assert(t[1] == ur(0, 180, 150, 120));
        assert(area(ur(0, 180, 150, 120)) == 18000) by (nonlinear_arith);
        assert(t[2] == ur(150, 180, 150, 120));
        assert(area(ur(150, 180, 150, 120)) == 18000) by (nonlinear_arith);
    } else if n == 4 && portrait {
        assert(t[0] == ur(0, 0, 300, 186));
        assert(area(ur(0, 0, 300, 186)) == 55800) by (nonlinear_arith);
        assert(t[1] == ur(0, 186, 100, 114));
        assert(area(ur(0, 186, 100, 114)) == 11400) by (nonlinear_arith);
        assert(t[2] == ur(100, 186, 100, 114));
        assert(area(ur(100, 186, 100, 114)) == 11400) by (nonlinear_arith);
        assert(t[3] == ur(200, 186, 100, 114));
        assert(area(ur(200, 186, 100, 114)) == 11400) by (nonlinear_arith);
    } else if n == 5 && portrait {
        assert(t[0] == ur(0, 0, 300, 180));
        assert(area(ur(0, 0, 300, 180)) == 54000) by (nonlinear_arith);
        assert(t[1] == ur(0, 180, 75, 120));
        assert(area(ur(0, 180, 75, 120)) == 9000) by (nonlinear_arith);
        assert(t[2] == ur(75, 180, 75, 120));
        assert(area(ur(75, 180, 75, 120)) == 9000) by (nonlinear_arith);
        assert(t[3] == ur(150, 180, 75, 120));
        assert(area(ur(150, 180, 75, 120)) == 9000) by (nonlinear_arith);
        assert(t[4] == ur(225, 180, 75, 120));
        assert(area(ur(225, 180, 75, 120)) == 9000) by (nonlinear_arith);
    } else if n == 2 && !portrait {
        assert(t[0] == ur(0, 0, 150, 300));
        assert(area(ur(0, 0, 150, 300)) == 45000) by (nonlinear_arith);
        assert(t[1] == ur(150, 0, 150, 300));
        assert(area(ur(150, 0, 150, 300)) == 45000) by (nonlinear_arith);
    } else if n == 3 && !portrait {
        assert(t[0] == ur(0, 0, 180, 300));
        assert(area(ur(0, 0, 180, 300)) == 54000) by (nonlinear_arith);
        assert(t[1] == ur(180, 0, 120, 150));
        assert(area(ur(180, 0, 120, 150)) == 18000) by (nonlinear_arith);
        assert(t[2] == ur(180, 150, 120, 150));
        assert(area(ur(180, 150, 120, 150)) == 18000) by (nonlinear_arith);
    } else if n == 4 && !portrait {
        assert(t[0] == ur(0, 0, 186, 300));
        assert(area(ur(0, 0, 186, 300)) == 55800) by (nonlinear_arith);
        assert(t[1] == ur(186, 0, 114, 100));
        assert(area(ur(186, 0, 114, 100)) == 11400) by (nonlinear_arith);
        assert(t[2] == ur(186, 100, 114, 100));
        assert(area(ur(186, 100, 114, 100)) == 11400) by (nonlinear_arith);
        assert(t[3] == ur(186, 200, 114, 100));
        assert(area(ur(186, 200, 114, 100)) == 11400) by (nonlinear_arith);
    } else if n == 5 && !portrait {
        assert(t[0] == ur(0, 0, 180, 300));
        assert(area(ur(0, 0, 180, 300)) == 54000) by (nonlinear_arith);
        assert(t[1] == ur(180, 0, 120, 75));
        assert(area(ur(180, 0, 120, 75)) == 9000) by (nonlinear_arith);
        assert(t[2] == ur(180, 75, 120, 75));
        assert(area(ur(180, 75, 120, 75)) == 9000) by (nonlinear_arith);
        assert(t[3] == ur(180, 150, 120, 75));
        assert(area(ur(180, 150, 120, 75)) == 9000) by (nonlinear_arith);
        assert(t[4] == ur(180, 225, 120, 75));
        assert(area(ur(180, 225, 120, 75)) == 9000) by (nonlinear_arith);
    }
}

proof fn lemma_template_placed(n: nat, portrait: bool)
    requires
        1 <= n <= 5,
    ensures
        well_placed(template_spec(n, portrait), 300, 300),
        total_area(template_spec(n, portrait)) == 300 * 300,
        template_spec(n, portrait).len() == n,
{
    let t = template_spec(n, portrait);
    assert forall|i: int| 0 <= i < t.len() implies inside(#[trigger] t[i], 300, 300) by {
        assert(i == 0 || i == 1 || i == 2 || i == 3 || i == 4);
    }
    assert forall|i: int, j: int|
        0 <= i < t.len() && 0 <= j < t.len() && i != j implies apart(
            #[trigger] t[i],
            #[trigger] t[j],
        ) by {
        assert(i == 0 || i == 1 || i == 2 || i == 3 || i == 4);
        assert(j == 0 || j == 1 || j == 2 || j == 3 || j == 4);
    }
    assert forall|k: int| 1 <= k < t.len() implies #[trigger] t[k].w == t[1].w && t[k].h
        == t[1].h by {
        assert(k == 1 || k == 2 || k == 3 || k == 4);
    }
    lemma_template_total(n, portrait);
    assert forall|i: int, j: int| 0 <= i <= j < t.len() implies area(#[trigger] t[i]) >= area(
        #[trigger] t[j],
    ) by {
        if i != j {
            assert(t[j].w == t[1].w && t[j].h == t[1].h);
            if i != 0 {
                assert(t[i].w == t[1].w && t[i].h == t[1].h);
            }
        }
    }
}

/// Every layout has exactly one cell per photo; the cells lie within the
/// print area, never overlap, and are listed largest first (so handing
/// cells out largest first goes through them in order).
pub proof fn lemma_layout_well_placed(n: nat, portrait: bool)
    requires
        n <= u64::MAX,
    ensures
        layout_cells(n, portrait).len() == n,
        well_placed(
            layout_cells(n, portrait),
            layout_span(n, portrait).0,
            layout_span(n, portrait).1,
        ),
{
    if uses_grid(n) {
        let (cols, rows) = grid_shape(n, portrait);
        lemma_grid_shape_fits(n, portrait);
        lemma_grid_placed(cols, rows, n);
    } else if n == 0 {
        assert(layout_cells(n, portrait) =~= Seq::<UnitRect>::empty());
    } else {
        lemma_template_placed(n, portrait);
    }
}

/// A grid has at least one column and one row, its rows but the last are
/// full, the last holds at least one photo, and its units fit in 64 bits.
pub proof fn lemma_grid_shape_fits(n: nat, portrait: bool)
    requires
        6 <= n <= u64::MAX,
    ensures
        ({
            let (cols, rows) = grid_shape(n, portrait);
            &&& cols >= 1
            &&& rows >= 1
            &&& cols * (rows - 1) < n <= cols * rows
            &&& n == cols * rows || cols * last_row_count(cols, rows, n) <= u64::MAX
        }),
{
    if n > 6 {
        let c = grid_cols(n);
        lemma_sqrt_up_from_bound(n, 1);
        lemma_rows_hold(n, c);
        lemma_narrow_row_fits(n, c, grid_rows(n, c));
    }
}

proof fn lemma_sqrt_up_from_bound(n: nat, c: nat)
    requires
        c >= 1,
        (c - 1) * (c - 1) < n,
    ensures
        sqrt_up_from(n, c) >= c,
        (sqrt_up_from(n, c) - 1) * (sqrt_up_from(n, c) - 1) < n,
    decreases n - c,
{
    if !(c * c >= n || c >= n) {
        lemma_sqrt_up_from_bound(n, c + 1);
    }
}

/// Every layout covers the whole print area: its cells do not overlap and
/// their areas add up to the area's.
pub proof fn lemma_layout_covers(n: nat, portrait: bool)
    requires
        1 <= n <= u64::MAX,
    ensures
        total_area(layout_cells(n, portrait)) == layout_span(n, portrait).0 * layout_span(
            n,
            portrait,
        ).1,
{
    if uses_grid(n) {
        let (cols, rows) = grid_shape(n, portrait);
        lemma_grid_shape_fits(n, portrait);
        lemma_grid_placed(cols, rows, n);
    } else {
        lemma_template_placed(n, portrait);
    }
}

/// The preference lists of the cells, as sequences of photo indices.
pub open spec fn pref_lists(prefs: Seq<Vec<usize>>) -> Seq<Seq<usize>> {
    prefs.map_values(|v: Vec<usize>| v@)
}

/// The first photo from position `i` on in the preference list `pref` that
/// is a photo (below `taken.len()`) and not taken yet.
pub open spec fn first_free_from(pref: Seq<usize>, taken: Seq<bool>, i: int) -> Option<usize>
    decreases pref.len() - i,
{
    if i < 0 || i >= pref.len() {
        None
    } else if pref[i] < taken.len() && !taken[pref[i] as int] {
        Some(pref[i])
    } else {
        first_free_from(pref, taken, i + 1)
    }
}

/// The photo a cell with preference list `pref` takes: the first in its
/// list that is not taken yet.
pub open spec fn first_free(pref: Seq<usize>, taken: Seq<bool>) -> Option<usize> {
    first_free_from(pref, taken, 0)
}

/// After the first `k` cells, in order, took their photos: which photos are
/// taken, and the cell of each photo (0 for a photo no cell took).
pub open spec fn assign_state(prefs: Seq<Seq<usize>>, k: nat) -> (Seq<bool>, Seq<usize>)
    decreases k,
{
    if k == 0 {
        (Seq::new(prefs.len(), |i: int| false), Seq::new(prefs.len(), |i: int| 0usize))
    } else {
        let (taken, cell) = assign_state(prefs, (k - 1) as nat);
        match first_free(prefs[k - 1], taken) {
            Some(p) => (taken.update(p as int, true), cell.update(p as int, (k - 1) as usize)),
            None => (taken, cell),
        }
    }
}

/// The cell of each photo when the cells, largest first, each take the
/// first photo of their preference list that no earlier cell took.
pub open spec fn assignment(prefs: Seq<Seq<usize>>) -> Seq<usize> {
    assign_state(prefs, prefs.len()).1
}

/// The first photo of `pref` that is not taken, with its `taken` flags.
fn first_free_photo(pref: &Vec<usize>, taken: &Vec<bool>) -> (r: Option<usize>)
    ensures
        r == first_free(pref@, taken@),
{
    let mut i: usize = 0;
    while i < pref.len()
        invariant
            i <= pref@.len(),
            first_free(pref@, taken@) == first_free_from(pref@, taken@, i as int),
        decreases pref@.len() - i,
    {
        let p = pref[i];
        if p < taken.len() && !taken[p] {
            return Some(p);
        }
        i = i + 1;
    }
    None
}

/// Hands the cells out to the photos: the cells, in order (largest first),
/// each take the first photo of their preference list (`prefs[c]`, best fit
/// first) that no earlier cell took. The result gives each photo its cell;
/// a photo that no cell took keeps cell 0.
pub fn assign_cells(prefs: &Vec<Vec<usize>>) -> (cell: Vec<usize>)
    ensures
        cell@ == assignment(pref_lists(prefs@)),
{
    let ghost lists = pref_lists(prefs@);
    let n = prefs.len();
    let mut taken: Vec<bool> = Vec::new();
    let mut cell: Vec<usize> = Vec::new();
    let mut i: usize = 0;
    while i < n
        invariant
            i <= n,
            n == prefs@.len(),
            taken@ =~= Seq::new(i as nat, |j: int| false),
            cell@ =~= Seq::new(i as nat, |j: int| 0usize),
        decreases n - i,
    {
        taken.push(false);
        cell.push(0);
        i = i + 1;
    }
    assert(lists.len() == n);
    assert((taken@, cell@) == assign_state(lists, 0));
    let mut c: usize = 0;
    while c < n
        invariant
            c <= n,
            n == prefs@.len(),
            lists == pref_lists(prefs@),
            (taken@, cell@) == assign_state(lists, c as nat),
            taken@.len() == n,
            cell@.len() == n,
        decreases n - c,
    {
        assert(lists[c as int] == prefs@[c as int]@);
        let pick = first_free_photo(&prefs[c], &taken);
        match pick {
            Some(p) => {
                proof {
                    lemma_first_free_is_free(lists[c as int], taken@, 0);
                }
                taken.set(p, true);
                cell.set(p, c);
            },
            None => {},
        }
        c = c + 1;
    }
    cell
}

/// What `first_free_from` finds is a photo that is not taken; and it finds
/// one when the list holds, from position `i` on, a photo that is not taken.
proof fn lemma_first_free_is_free(pref: Seq<usize>, taken: Seq<bool>, i: int)
    requires
        0 <= i,
    ensures
        first_free_from(pref, taken, i) matches Some(p) ==> p < taken.len() && !taken[p as int],
        (exists|k: int| i <= k < pref.len() && pref[k] < taken.len() && !taken[pref[k] as int])
            ==> first_free_from(pref, taken, i) is Some,
    decreases pref.len() - i,
{
    if i < pref.len() {
        lemma_first_free_is_free(pref, taken, i + 1);
        if exists|k: int| i <= k < pref.len() && pref[k] < taken.len() && !taken[pref[k] as int] {
            let k = choose|k: int|
                i <= k < pref.len() && pref[k] < taken.len() && !taken[pref[k] as int];
            if k > i {
                assert(i + 1 <= k < pref.len());
            }
        }
    }
}

/// Number of photos taken.
pub open spec fn taken_count(taken: Seq<bool>) -> nat
    decreases taken.len(),
{
    if taken.len() == 0 {
        0
    } else {
        taken_count(taken.drop_last()) + if taken.last() {
            1nat
        } else {
            0nat
        }
    }
}

proof fn lemma_count_take(taken: Seq<bool>, p: int)
    requires
        0 <= p < taken.len(),
        !taken[p],
    ensures
        taken_count(taken.update(p, true)) == taken_count(taken) + 1,
    decreases taken.len(),
{
    let u = taken.update(p, true);
    if p == taken.len() - 1 {
        assert(u.drop_last() =~= taken.drop_last());
    } else {
        assert(u.drop_last() =~= taken.drop_last().update(p, true));
        lemma_count_take(taken.drop_last(), p);
    }
}

proof fn lemma_count_bound(taken: Seq<bool>)
    ensures
        taken_count(taken) <= taken.len(),
        taken_count(taken) == taken.len() ==> forall|p: int| 0 <= p < taken.len() ==> taken[p],
    decreases taken.len(),
{
    if taken.len() > 0 {
        lemma_count_bound(taken.drop_last());
        assert forall|p: int| 0 <= p < taken.len() && taken_count(taken) == taken.len() implies taken[p] by {
            if p < taken.len() - 1 {
                assert(taken[p] == taken.drop_last()[p]);
            }
        }
    }
}

/// When every preference list names every photo, after `k <= n` cells the
/// first `k` cells took `k` different photos, each photo taken by a cell
/// before `k`.
proof fn lemma_assign_state_inv(prefs: Seq<Seq<usize>>, k: nat)
    requires
        k <= prefs.len(),
        prefs.len() <= usize::MAX,
        forall|c: int, p: int|
            0 <= c < prefs.len() && 0 <= p < prefs.len() ==> #[trigger] prefs[c].contains(
                p as usize,
            ),
    ensures
        ({
            let (taken, cell) = assign_state(prefs, k);
            &&& taken.len() == prefs.len()
            &&& cell.len() == prefs.len()
            &&& taken_count(taken) == k
            &&& forall|p: int| 0 <= p < taken.len() && taken[p] ==> cell[p] < k
            &&& forall|p: int, q: int|
                0 <= p < taken.len() && 0 <= q < taken.len() && p != q && taken[p] && taken[q]
                    ==> cell[p] != cell[q]
        }),
    decreases k,
{
    let n = prefs.len();
    if k == 0 {
        let t = Seq::new(n, |i: int| false);
        assert(taken_count(t) == 0) by {
            lemma_count_zero(t);
        }
    } else {
        lemma_assign_state_inv(prefs, (k - 1) as nat);
        let (taken, cell) = assign_state(prefs, (k - 1) as nat);
        lemma_count_bound(taken);
        assert(exists|p: int| 0 <= p < n && !taken[p]) by {
            if forall|p: int| 0 <= p < n ==> taken[p] {
                lemma_count_all(taken);
            }
        }
        let p0 = choose|p: int| 0 <= p < n && !taken[p];
        assert(prefs[k - 1].contains(p0 as usize));
        let k0 = choose|j: int| 0 <= j < prefs[k - 1].len() && #[trigger] prefs[k - 1][j] == p0 as usize;
        lemma_first_free_is_free(prefs[k - 1], taken, 0);
        assert(prefs[k - 1][k0] < taken.len() && !taken[prefs[k - 1][k0] as int]);
        let p = first_free(prefs[k - 1], taken)->0;
        lemma_count_take(taken, p as int);
    }
}

proof fn lemma_count_zero(t: Seq<bool>)
    requires
        forall|p: int| 0 <= p < t.len() ==> !t[p],
    ensures
        taken_count(t) == 0,
    decreases t.len(),
{
    if t.len() > 0 {
        lemma_count_zero(t.drop_last());
    }
}

proof fn lemma_count_all(t: Seq<bool>)
    requires
        forall|p: int| 0 <= p < t.len() ==> t[p],
    ensures
        taken_count(t) == t.len(),
    decreases t.len(),
{
    if t.len() > 0 {
        lemma_count_all(t.drop_last());
    }
}

/// When every cell's preference list names every photo, the hand-out is
/// one-to-one: each photo gets a cell of the layout, and no two photos
/// get the same cell.
pub proof fn lemma_assignment_one_to_one(prefs: Seq<Seq<usize>>)
    requires
        prefs.len() <= usize::MAX,
        forall|c: int, p: int|
            0 <= c < prefs.len() && 0 <= p < prefs.len() ==> #[trigger] prefs[c].contains(
                p as usize,
            ),
    ensures
        assignment(prefs).len() == prefs.len(),
        forall|p: int| 0 <= p < prefs.len() ==> #[trigger] assignment(prefs)[p] < prefs.len(),
        forall|p: int, q: int|
            0 <= p < prefs.len() && 0 <= q < prefs.len() && p != q ==> #[trigger] assignment(
                prefs,
            )[p] != #[trigger] assignment(prefs)[q],
{
    lemma_assign_state_inv(prefs, prefs.len());
    let (taken, cell) = assign_state(prefs, prefs.len());
    lemma_count_bound(taken);
    assert forall|p: int| 0 <= p < prefs.len() implies #[trigger] assignment(prefs)[p]
        < prefs.len() by {
        assert(taken[p]);
    }
}

/// A cell with its axes swapped.
pub open spec fn transposed(r: UnitRect) -> UnitRect {
    UnitRect { x: r.y, y: r.x, w: r.h, h: r.w }
}

/// In a landscape print area, a template for two to five photos puts the
/// large cell at the left over the whole height (half the width for two
/// photos, 0.62 of it for four, 0.6 for three or five: in 300ths, 150, 186
/// and 180), and the other cells one above the other in the column to its
/// right, sharing its height equally, from the top down. One photo fills
/// the area.
pub proof fn lemma_landscape_template(n: nat)
    requires
        1 <= n <= 5,
    ensures
        n == 1 ==> template_spec(n, false) == seq![ur(0, 0, 300, 300)],
        n >= 2 ==> ({
            let big: u64 = if n == 2 {
                150
            } else if n == 4 {
                186
            } else {
                180
            };
            let share: int = 300int / (n - 1);
            &&& template_spec(n, false)[0] == ur(0, 0, big, 300)
            &&& forall|k: int|
                1 <= k < n ==> #[trigger] template_spec(n, false)[k] == ur(
                    big,
                    ((k - 1) * share) as u64,
                    (300 - big) as u64,
                    share as u64,
                )
        }),
{
    if n >= 2 {
        let t = template_spec(n, false);
        let big: u64 = if n == 2 {
            150
        } else if n == 4 {
            186
        } else {
            180
        };
        let share: int = 300int / (n - 1);
        if n == 2 {
            assert(share == 300) by (nonlinear_arith)
                requires
                    share == 300int / (n - 1),
                    n == 2,
            ;
        } else if n == 3 {
            assert(share == 150) by (nonlinear_arith)
                requires
                    share == 300int / (n - 1),
                    n == 3,
            ;
        } else if n == 4 {
            assert(share == 100) by (nonlinear_arith)
                requires
                    share == 300int / (n - 1),
                    n == 4,
            ;
        } else {
            assert(share == 75) by (nonlinear_arith)
                requires
                    share == 300int / (n - 1),
                    n == 5,
            ;
        }
        assert forall|k: int| 1 <= k < n implies #[trigger] t[k] == ur(
            big,
            ((k - 1) * share) as u64,
            (300 - big) as u64,
            share as u64,
        ) by {
            assert(k == 1 || k == 2 || k == 3 || k == 4);
            assert((k - 1) * share == if k == 1 {
                0
            } else if k == 2 {
                share
            } else if k == 3 {
                2 * share
            } else {
                3 * share
            }) by (nonlinear_arith)
                requires
                    1 <= k <= 4,
            ;
        }
    }
}

/// A portrait print area gets the landscape template with its axes
/// swapped: the large cell across the top over the whole width, the others
/// side by side below it.
pub proof fn lemma_portrait_is_transposed(n: nat)
    requires
        1 <= n <= 5,
    ensures
        template_spec(n, true).len() == template_spec(n, false).len(),
        forall|k: int|
            0 <= k < n ==> #[trigger] template_spec(n, true)[k] == transposed(
                template_spec(n, false)[k],
            ),
{
    let p = template_spec(n, true);
    let l = template_spec(n, false);
    assert forall|k: int| 0 <= k < n implies #[trigger] p[k] == transposed(l[k]) by {
        assert(k == 0 || k == 1 || k == 2 || k == 3 || k == 4);
    }
}

/// Where `first_free_from` finds its photo: at an index from `i` on, with
/// every entry between `i` and it naming no free photo.
proof fn lemma_first_free_index(pref: Seq<usize>, taken: Seq<bool>, i: int) -> (k0: int)
    requires
        0 <= i,
        first_free_from(pref, taken, i) is Some,
    ensures
        i <= k0 < pref.len(),
        pref[k0] == first_free_from(pref, taken, i)->0,
        pref[k0] < taken.len() && !taken[pref[k0] as int],
        forall|j: int| i <= j < k0 ==> !(pref[j] < taken.len() && !taken[pref[j] as int]),
    decreases pref.len() - i,
{
    if pref[i] < taken.len() && !taken[pref[i] as int] {
        i
    } else {
        lemma_first_free_index(pref, taken, i + 1)
    }
}

/// Every preference list names each photo once and nothing else.
pub open spec fn lists_every_photo_once(prefs: Seq<Seq<usize>>) -> bool {
    &&& forall|c: int, p: int|
        0 <= c < prefs.len() && 0 <= p < prefs.len() ==> #[trigger] prefs[c].contains(p as usize)
    &&& forall|c: int, j: int|
        0 <= c < prefs.len() && 0 <= j < prefs[c].len() ==> #[trigger] prefs[c][j] < prefs.len()
    &&& forall|c: int, i: int, j: int|
        0 <= c < prefs.len() && 0 <= i < prefs[c].len() && 0 <= j < prefs[c].len() && i != j
            ==> #[trigger] prefs[c][i] != #[trigger] prefs[c][j]
}

/// After `k` cells: each photo taken went to a cell before `k`, and every
/// photo its cell listed before it was taken by an earlier cell.
proof fn lemma_assign_state_first_free(prefs: Seq<Seq<usize>>, k: nat)
    requires
        k <= prefs.len(),
        prefs.len() <= usize::MAX,
        lists_every_photo_once(prefs),
    ensures
        ({
            let (taken, cell) = assign_state(prefs, k);
            &&& taken.len() == prefs.len()
            &&& cell.len() == prefs.len()
            &&& forall|p: int| 0 <= p < taken.len() && taken[p] ==> cell[p] < k
            &&& forall|p: int, j: int, i: int|
                0 <= p < taken.len() && taken[p] && 0 <= j < i < prefs[cell[p] as int].len()
                    && prefs[cell[p] as int][i] == p ==> taken[prefs[cell[p] as int][j] as int]
                    && cell[prefs[cell[p] as int][j] as int] < cell[p]
        }),
    decreases k,
{
    if k > 0 {
        lemma_assign_state_first_free(prefs, (k - 1) as nat);
        let (t0, a0) = assign_state(prefs, (k - 1) as nat);
        let c = k - 1;
        if let Some(q) = first_free(prefs[c], t0) {
            let k0 = lemma_first_free_index(prefs[c], t0, 0);
            let (t, a) = assign_state(prefs, k);
            assert(t == t0.update(q as int, true));
            assert(a == a0.update(q as int, c as usize));
            assert forall|p: int, j: int, i: int|
                0 <= p < t.len() && t[p] && 0 <= j < i < prefs[a[p] as int].len() && prefs[a[
                    p
                ] as int][i] == p implies t[prefs[a[p] as int][j] as int] && a[prefs[a[
                p
            ] as int][j] as int] < a[p] by {
                if p == q {
                    assert(a[p] == c);
                    assert(i == k0);
                    let r = prefs[c][j];
                    assert(r < prefs.len());
                    assert(r != q);
                    assert(t0[r as int]);
                } else {
                    assert(t0[p]);
                    assert(a[p] == a0[p]);
                    let r = prefs[a0[p] as int][j];
                    assert(t0[r as int] && a0[r as int] < a0[p]);
                    assert(r != q);
                }
            }
        }
    }
}

/// Each cell takes the best photo still free for it: when every
/// preference list names each photo once, every photo that the cell of a
/// photo lists before it went to an earlier cell.
pub proof fn lemma_cell_takes_first_free(prefs: Seq<Seq<usize>>)
    requires
        prefs.len() <= usize::MAX,
        lists_every_photo_once(prefs),
    ensures
        forall|p: int, j: int, i: int|
            #![trigger prefs[assignment(prefs)[p] as int][i], prefs[assignment(prefs)[p] as int][j]]
            0 <= p < prefs.len() && 0 <= j < i < prefs[assignment(prefs)[p] as int].len()
                && prefs[assignment(prefs)[p] as int][i] == p ==> assignment(prefs)[prefs[assignment(
                prefs,
            )[p] as int][j] as int] < assignment(prefs)[p],
{
    lemma_assign_state_inv(prefs, prefs.len());
    lemma_assign_state_first_free(prefs, prefs.len());
    let (taken, cell) = assign_state(prefs, prefs.len());
    lemma_count_bound(taken);
}

} // verus!
