//! Grids of sample positions.

use crate::frame::lemma_index_pixel;
use vstd::prelude::*;

verus! {

/// How many positions `start`, `start + step`, `start + 2 * step` and so on lie before `end`.
pub open spec fn steps(start: int, end: int, step: int) -> int {
    if start < end {
        (end - start + step - 1) / step
    } else {
        0
    }
}

/// Each of the counted positions lies before the end, and there are no more than positions in all.
pub proof fn lemma_steps(start: int, end: int, step: int)
    requires
        0 < step,
    ensures
        0 <= steps(start, end, step),
        start < end ==> 1 <= steps(start, end, step) <= end - start,
        forall|i: int|
            0 <= i < steps(start, end, step) ==> start <= #[trigger] (start + i * step) < end,
{
    if start < end {
        let d = end - start;
        let n = steps(start, end, step);
        vstd::arithmetic::div_mod::lemma_fundamental_div_mod(d + step - 1, step);
        assert(1 <= n <= d) by (nonlinear_arith)
            requires
                d >= 1,
                step >= 1,
                d + step - 1 == step * n + (d + step - 1) % step,
                0 <= (d + step - 1) % step < step,
        ;
        assert forall|i: int| 0 <= i < n implies start <= #[trigger] (start + i * step) < end by {
            assert(0 <= i * step && i * step <= d - 1) by (nonlinear_arith)
                requires
                    0 <= i <= n - 1,
                    step >= 1,
                    d + step - 1 == step * n + (d + step - 1) % step,
                    0 <= (d + step - 1) % step < step,
            ;
        }
    }
}

/// The number of positions from `start` to before `end`.
fn count_steps(start: u32, end: u32, step: u32) -> (n: u32)
    requires
        0 < step,
    ensures
        n == steps(start as int, end as int, step as int),
{
    proof {
        lemma_steps(start as int, end as int, step as int);
    }
    if start < end {
        ((end as u64 - start as u64 + step as u64 - 1) / step as u64) as u32
    } else {
        0
    }
}

/// A grid of sample positions: `nx` columns and `ny` rows, `step` apart.
#[derive(Clone, Copy)]
pub struct Grid {
    /// First column.
    pub x: u32,
    /// First row.
    pub y: u32,
    /// Number of columns.
    pub nx: u32,
    /// Number of rows.
    pub ny: u32,
    /// Distance between neighbours.
    pub step: u32,
}

impl Grid {
    /// The number of positions.
    pub open spec fn area(self) -> int {
        self.nx * self.ny
    }

    /// The column of position `k`, row after row.
    pub open spec fn column(self, k: int) -> int {
        self.x + (k % (self.nx as int)) * self.step
    }

    /// The row of position `k`, row after row.
    pub open spec fn row(self, k: int) -> int {
        self.y + (k / (self.nx as int)) * self.step
    }

    /// Whether all positions lie within `width` columns and `height` rows.
    pub open spec fn within(self, width: int, height: int) -> bool {
        forall|k: int|
            0 <= k < self.area() ==> 0 <= #[trigger] self.column(k) < width && 0 <= self.row(k)
                < height
    }

    /// The number of positions.
    pub(crate) fn size(&self) -> (r: u64)
        ensures
            r == self.area(),
    {
        assert(self.nx * self.ny <= 0xffff_ffff * 0xffff_ffff) by (nonlinear_arith)
            requires
                0 <= self.nx <= 0xffff_ffff,
                0 <= self.ny <= 0xffff_ffff,
        ;
        assert(0 <= self.nx * self.ny) by (nonlinear_arith)
            requires
                0 <= self.nx,
                0 <= self.ny,
        ;
        self.nx as u64 * self.ny as u64
    }

    /// Position `k`.
    pub(crate) fn position(&self, k: u64, width: u32, height: u32) -> (r: (u32, u32))
        requires
            k < self.area(),
            self.within(width as int, height as int),
        ensures
            r.0 == self.column(k as int),
            r.1 == self.row(k as int),
            r.0 < width,
            r.1 < height,
    {
        proof {
            lemma_index_pixel(k as int, self.nx as int, self.ny as int);
            let c = k as int % self.nx as int;
            let r = k as int / self.nx as int;
            assert(self.column(k as int) < width);
            assert(0 <= c * self.step && 0 <= r * self.step) by (nonlinear_arith)
                requires
                    0 <= c,
                    0 <= r,
                    0 <= self.step,
            ;
        }
        let x: u32 = self.x + (k % self.nx as u64) as u32 * self.step;
        let y: u32 = self.y + (k / self.nx as u64) as u32 * self.step;
        (x, y)
    }
}

/// The grid from (`x0`, `y0`) to before (`x1`, `y1`).
pub open spec fn grid_between(x0: u32, x1: u32, y0: u32, y1: u32, step: u32) -> Grid {
    Grid {
        x: x0,
        y: y0,
        nx: steps(x0 as int, x1 as int, step as int) as u32,
        ny: steps(y0 as int, y1 as int, step as int) as u32,
        step,
    }
}

/// The grid from (`x0`, `y0`) to before (`x1`, `y1`).
pub(crate) fn make_grid(x0: u32, x1: u32, y0: u32, y1: u32, step: u32) -> (g: Grid)
    requires
        0 < step,
    ensures
        g == grid_between(x0, x1, y0, y1, step),
        g.nx == steps(x0 as int, x1 as int, step as int),
        g.ny == steps(y0 as int, y1 as int, step as int),
        g.within(x1 as int, y1 as int),
        g.nx > 0 && g.ny > 0 ==> g.area() <= (x1 - x0) * (y1 - y0),
{
    let g = Grid { x: x0, y: y0, nx: count_steps(x0, x1, step), ny: count_steps(y0, y1, step), step };
    proof {
        lemma_grid(x0, x1, y0, y1, step);
    }
    g
}

/// The positions of a grid lie before its ends.
pub proof fn lemma_grid(x0: u32, x1: u32, y0: u32, y1: u32, step: u32)
    requires
        0 < step,
    ensures
        grid_between(x0, x1, y0, y1, step).nx == steps(x0 as int, x1 as int, step as int),
        grid_between(x0, x1, y0, y1, step).ny == steps(y0 as int, y1 as int, step as int),
        grid_between(x0, x1, y0, y1, step).within(x1 as int, y1 as int),
        grid_between(x0, x1, y0, y1, step).area() <= 0 || grid_between(
            x0,
            x1,
            y0,
            y1,
            step,
        ).area() <= (x1 - x0) * (y1 - y0),
        forall|k: int|
            0 <= k < grid_between(x0, x1, y0, y1, step).area() ==> x0 <= #[trigger] grid_between(
                x0,
                x1,
                y0,
                y1,
                step,
            ).column(k) && y0 <= grid_between(x0, x1, y0, y1, step).row(k),
{
    let g = grid_between(x0, x1, y0, y1, step);
    lemma_steps(x0 as int, x1 as int, step as int);
    lemma_steps(y0 as int, y1 as int, step as int);
    assert forall|k: int| 0 <= k < g.area() implies x0 <= #[trigger] g.column(k) < x1 && y0 <= g.row(
        k,
    ) < y1 by {
        lemma_index_pixel(k, g.nx as int, g.ny as int);
        let c = k % (g.nx as int);
        let r = k / (g.nx as int);
        assert(x0 <= x0 + c * step < x1);
        assert(y0 <= y0 + r * step < y1);
    }
    if g.nx > 0 && g.ny > 0 {
        assert(g.nx * g.ny <= (x1 - x0) * (y1 - y0)) by (nonlinear_arith)
            requires
                0 <= g.nx <= x1 - x0,
                0 <= g.ny <= y1 - y0,
        ;
    } else {
        assert(g.nx * g.ny == 0) by (nonlinear_arith)
            requires
                g.nx == 0 || g.ny == 0,
        ;
    }
}

} // verus!
