//! Spatial bucketing: mapping positions into a fixed-resolution count grid,
//! with an optional 3x3 splat kernel that spreads each observation over the
//! neighborhood of its primary cell (out-of-range neighbors are clamped onto
//! the nearest valid cell, so edge cells can take several increments from one
//! observation).

use vstd::prelude::*;
use crate::geo::{GeoBounds, Position, COORD_LIMIT};

verus! {

/// Largest grid side length the arithmetic is proved for.
pub const MAX_RES: usize = 4096;

/// Largest number of positions one grid may aggregate: even with the splat
/// kernel's nine increments per observation, cell counts stay within `u32`.
pub const MAX_OBS: usize = 400_000_000;

/// Clamps an index onto the valid range `[0, res - 1]`.
pub open spec fn clamp_idx(v: int, res: int) -> int {
    if v < 0 {
        0
    } else if v > res - 1 {
        res - 1
    } else {
        v
    }
}

/// Primary cell index of coordinate `v` on the axis `[min, max]` of a grid of
/// side `res`: the floor of `normalized * (res - 1)` clamped into
/// `[0, res - 1]`, where `normalized = (v - min) / (max - min)`. A zero-width
/// axis maps every coordinate to 0 instead of dividing by zero.
pub open spec fn cell_coord(v: int, min: int, max: int, res: int) -> int {
    if max <= min {
        0
    } else {
        clamp_idx((v - min) * (res - 1) / (max - min), res)
    }
}

/// Row of the kernel target `j` (0 to 8), clamped onto the grid.
pub open spec fn neighbor_row(row: int, j: int, res: int) -> int {
    clamp_idx(row + j / 3 - 1, res)
}

/// Column of the kernel target `j` (0 to 8), clamped onto the grid.
pub open spec fn neighbor_col(col: int, j: int, res: int) -> int {
    clamp_idx(col + j % 3 - 1, res)
}

/// How many of the first `k` kernel targets around primary cell
/// `(row, col)` land on cell `(r, c)` after clamping.
pub open spec fn hits_upto(row: int, col: int, r: int, c: int, res: int, k: int) -> nat
    decreases k,
{
    if k <= 0 {
        0
    } else {
        hits_upto(row, col, r, c, res, k - 1) + if neighbor_row(row, k - 1, res) == r
            && neighbor_col(col, k - 1, res) == c {
            1 as nat
        } else {
            0 as nat
        }
    }
}

/// Weight one position contributes to cell `(r, c)`: one increment to its
/// primary cell without the splat kernel, or with it one increment for each
/// of the nine clamped kernel targets that lands on `(r, c)`.
pub open spec fn weight_at(p: Position, b: GeoBounds, res: int, splat: bool, r: int, c: int) -> nat {
    let row = cell_coord(p.lat as int, b.min_lat as int, b.max_lat as int, res);
    let col = cell_coord(p.lon as int, b.min_lon as int, b.max_lon as int, res);
    if splat {
        hits_upto(row, col, r, c, res, 9)
    } else if row == r && col == c {
        1 as nat
    } else {
        0 as nat
    }
}

/// Count accumulated at cell `(r, c)` by the first `k` positions.
pub open spec fn cell_total(
    ps: Seq<Position>,
    b: GeoBounds,
    res: int,
    splat: bool,
    r: int,
    c: int,
    k: int,
) -> nat
    decreases k,
{
    if k <= 0 {
        0
    } else {
        cell_total(ps, b, res, splat, r, c, k - 1) + weight_at(ps[k - 1], b, res, splat, r, c)
    }
}

/// Sum of all counts of a grid's backing storage.
pub open spec fn sum_counts(s: Seq<u32>) -> int
    decreases s.len(),
{
    if s.len() == 0 {
        0
    } else {
        sum_counts(s.drop_last()) + s.last()
    }
}

proof fn lemma_sum_push(s: Seq<u32>, v: u32)
    ensures
        sum_counts(s.push(v)) == sum_counts(s) + v,
{
    assert(s.push(v).drop_last() =~= s);
    assert(s.push(v).last() == v);
}

proof fn lemma_sum_update(s: Seq<u32>, i: int, v: u32)
    requires
        0 <= i < s.len(),
    ensures
        sum_counts(s.update(i, v)) == sum_counts(s) - s[i] + v,
    decreases s.len(),
{
    if i == s.len() - 1 {
        assert(s.update(i, v).drop_last() =~= s.drop_last());
        assert(s.update(i, v).last() == v);
    } else {
        assert(s.update(i, v).drop_last() =~= s.drop_last().update(i, v));
        assert(s.update(i, v).last() == s.last());
        lemma_sum_update(s.drop_last(), i, v);
    }
}

proof fn lemma_hits_le(row: int, col: int, r: int, c: int, res: int, k: int)
    ensures
        hits_upto(row, col, r, c, res, k) <= if k <= 0 { 0 } else { k },
    decreases k,
{
    if k > 0 {
        lemma_hits_le(row, col, r, c, res, k - 1);
    }
}

proof fn lemma_cell_total_le(
    ps: Seq<Position>,
    b: GeoBounds,
    res: int,
    splat: bool,
    r: int,
    c: int,
    k: int,
)
    ensures
        cell_total(ps, b, res, splat, r, c, k) <= if k <= 0 { 0 } else { 9 * k },
    decreases k,
{
    if k > 0 {
        lemma_cell_total_le(ps, b, res, splat, r, c, k - 1);
        let p = ps[k - 1];
        let row = cell_coord(p.lat as int, b.min_lat as int, b.max_lat as int, res);
        let col = cell_coord(p.lon as int, b.min_lon as int, b.max_lon as int, res);
        lemma_hits_le(row, col, r, c, res, 9);
    }
}

/// Division and remainder values of the nine kernel step indices.
proof fn lemma_kernel_steps()
    ensures
        0 as int / 3 == 0 && 0 as int % 3 == 0,
        1 as int / 3 == 0 && 1 as int % 3 == 1,
        2 as int / 3 == 0 && 2 as int % 3 == 2,
        3 as int / 3 == 1 && 3 as int % 3 == 0,
        4 as int / 3 == 1 && 4 as int % 3 == 1,
        5 as int / 3 == 1 && 5 as int % 3 == 2,
        6 as int / 3 == 2 && 6 as int % 3 == 0,
        7 as int / 3 == 2 && 7 as int % 3 == 1,
        8 as int / 3 == 2 && 8 as int % 3 == 2,
{
    assert(0 as int / 3 == 0 && 0 as int % 3 == 0) by (nonlinear_arith);
    assert(1 as int / 3 == 0 && 1 as int % 3 == 1) by (nonlinear_arith);
    assert(2 as int / 3 == 0 && 2 as int % 3 == 2) by (nonlinear_arith);
    assert(3 as int / 3 == 1 && 3 as int % 3 == 0) by (nonlinear_arith);
    assert(4 as int / 3 == 1 && 4 as int % 3 == 1) by (nonlinear_arith);
    assert(5 as int / 3 == 1 && 5 as int % 3 == 2) by (nonlinear_arith);
    assert(6 as int / 3 == 2 && 6 as int % 3 == 0) by (nonlinear_arith);
    assert(7 as int / 3 == 2 && 7 as int % 3 == 1) by (nonlinear_arith);
    assert(8 as int / 3 == 2 && 8 as int % 3 == 2) by (nonlinear_arith);
}

/// How the splat kernel folds at the minimum corner: on any grid with at
/// least two cells per side, an observation whose primary cell is `(0, 0)`
/// increments that corner cell four times (not once and not nine times),
/// its two edge neighbors twice each, and its diagonal neighbor once --
/// nine increments in all, since every clamped kernel target still lands
/// somewhere on the grid.
pub proof fn lemma_splat_corner_fold(res: int)
    requires
        res >= 2,
    ensures
        hits_upto(0, 0, 0, 0, res, 9) == 4,
        hits_upto(0, 0, 0, 1, res, 9) == 2,
        hits_upto(0, 0, 1, 0, res, 9) == 2,
        hits_upto(0, 0, 1, 1, res, 9) == 1,
{
    assert forall|r: int, c: int| 0 <= r < 2 && 0 <= c < 2 implies hits_upto(0, 0, r, c, res, 9)
        == (if r == 0 && c == 0 {
        4 as nat
    } else if r == 1 && c == 1 {
        1 as nat
    } else {
        2 as nat
    }) by {
        lemma_kernel_steps();
        assert(hits_upto(0, 0, r, c, res, 1) == hits_upto(0, 0, r, c, res, 0) + if r == 0 && c == 0 { 1 as nat } else { 0 as nat });
        assert(hits_upto(0, 0, r, c, res, 2) == hits_upto(0, 0, r, c, res, 1) + if r == 0 && c == 0 { 1 as nat } else { 0 as nat });
        assert(hits_upto(0, 0, r, c, res, 3) == hits_upto(0, 0, r, c, res, 2) + if r == 0 && c == 1 { 1 as nat } else { 0 as nat });
        assert(hits_upto(0, 0, r, c, res, 4) == hits_upto(0, 0, r, c, res, 3) + if r == 0 && c == 0 { 1 as nat } else { 0 as nat });
        assert(hits_upto(0, 0, r, c, res, 5) == hits_upto(0, 0, r, c, res, 4) + if r == 0 && c == 0 { 1 as nat } else { 0 as nat });
        assert(hits_upto(0, 0, r, c, res, 6) == hits_upto(0, 0, r, c, res, 5) + if r == 0 && c == 1 { 1 as nat } else { 0 as nat });
        assert(hits_upto(0, 0, r, c, res, 7) == hits_upto(0, 0, r, c, res, 6) + if r == 1 && c == 0 { 1 as nat } else { 0 as nat });
        assert(hits_upto(0, 0, r, c, res, 8) == hits_upto(0, 0, r, c, res, 7) + if r == 1 && c == 0 { 1 as nat } else { 0 as nat });
        assert(hits_upto(0, 0, r, c, res, 9) == hits_upto(0, 0, r, c, res, 8) + if r == 1 && c == 1 { 1 as nat } else { 0 as nat });
    }
}

/// On a one-cell grid every clamped kernel target collapses onto the single
/// cell, which therefore takes all nine increments of one observation.
pub proof fn lemma_splat_single_cell_collapse()
    ensures
        hits_upto(0, 0, 0, 0, 1, 9) == 9,
{
    lemma_kernel_steps();
    assert forall|j: int| 0 <= j < 9 implies neighbor_row(0, j, 1) == 0 && neighbor_col(0, j, 1)
        == 0 by {
        assert(0 <= j / 3 <= 2 && 0 <= j % 3 <= 2) by (nonlinear_arith)
            requires 0 <= j < 9;
    }
    assert(hits_upto(0, 0, 0, 0, 1, 0) == 0);
    assert(hits_upto(0, 0, 0, 0, 1, 1) == 1);
    assert(hits_upto(0, 0, 0, 0, 1, 2) == 2);
    assert(hits_upto(0, 0, 0, 0, 1, 3) == 3);
    assert(hits_upto(0, 0, 0, 0, 1, 4) == 4);
    assert(hits_upto(0, 0, 0, 0, 1, 5) == 5);
    assert(hits_upto(0, 0, 0, 0, 1, 6) == 6);
    assert(hits_upto(0, 0, 0, 0, 1, 7) == 7);
    assert(hits_upto(0, 0, 0, 0, 1, 8) == 8);
    assert(hits_upto(0, 0, 0, 0, 1, 9) == 9);
}

#[verifier::nonlinear]
proof fn lemma_grid_index(r: int, c: int, r2: int, c2: int, res: int)
    requires
        0 <= r < res,
        0 <= c < res,
        0 <= r2 < res,
        0 <= c2 < res,
    ensures
        0 <= r * res + c < res * res,
        r * res + c == r2 * res + c2 ==> r == r2 && c == c2,
{
}

/// A square matrix of counts with side `res`, stored row-major.
#[derive(Clone, PartialEq, Eq, Debug)]
pub struct CountGrid {
    pub res: usize,
    pub cells: Vec<u32>,
}

impl CountGrid {
    /// The storage holds exactly `res * res` cells.
    pub open spec fn wf(self) -> bool {
        1 <= self.res <= MAX_RES && self.cells@.len() == self.res * self.res
    }

    /// The count of cell `(r, c)`.
    pub open spec fn cell(self, r: int, c: int) -> u32 {
        self.cells@[r * self.res + c]
    }

    /// Sum of every cell's count.
    pub open spec fn total(self) -> int {
        sum_counts(self.cells@)
    }

    /// Reads the count of cell `(r, c)`.
    pub fn get(&self, r: usize, c: usize) -> (v: u32)
        requires
            self.wf(),
            r < self.res,
            c < self.res,
        ensures
            v == self.cell(r as int, c as int),
    {
        let len: usize = self.cells.len();
        proof {
            lemma_grid_index(r as int, c as int, r as int, c as int, self.res as int);
            assert(r * self.res + c < len);
        }
        self.cells[r * self.res + c]
    }
}

/// Computes the primary cell index of coordinate `v` on one axis.
pub fn compute_cell_coord(v: i64, min: i64, max: i64, res: usize) -> (r: usize)
    requires
        -COORD_LIMIT <= min <= COORD_LIMIT,
        -COORD_LIMIT <= max <= COORD_LIMIT,
        -COORD_LIMIT <= v <= COORD_LIMIT,
        1 <= res <= MAX_RES,
    ensures
        r == cell_coord(v as int, min as int, max as int, res as int),
        r < res,
{
    if max <= min || v <= min {
        proof {
            if max > min {
                let num = (v - min) * (res - 1);
                if v < min && res > 1 {
                    assert(num < 0) by (nonlinear_arith)
                        requires v - min < 0 && res >= 2 && num == (v - min) * (res - 1);
                    assert(num / (max - min) < 0) by (nonlinear_arith)
                        requires num < 0 && max - min > 0;
                } else {
                    assert(num == 0) by (nonlinear_arith)
                        requires num == (v - min) * (res - 1) && (v - min == 0 || res - 1 == 0);
                    assert(num / (max - min) == 0) by (nonlinear_arith)
                        requires num == 0 && max - min > 0;
                }
            }
            assert(cell_coord(v as int, min as int, max as int, res as int) == 0);
        }
        0
    } else {
        let d: i64 = v - min;
        let range: i64 = max - min;
        let rm1: i64 = (res - 1) as i64;
        proof {
            assert(d * rm1 <= 2 * COORD_LIMIT * (MAX_RES - 1)) by (nonlinear_arith)
                requires 0 < d <= 2 * COORD_LIMIT && 0 <= rm1 <= MAX_RES - 1;
            assert(d * rm1 >= 0) by (nonlinear_arith)
                requires d > 0 && rm1 >= 0;
        }
        let num: i64 = d * rm1;
        let q: i64 = num / range;
        proof {
            assert(0 <= q <= num) by (nonlinear_arith)
                requires num >= 0 && range > 0 && q == num / range;
        }
        if q >= rm1 {
            proof {
                assert(cell_coord(v as int, min as int, max as int, res as int) == res - 1);
            }
            res - 1
        } else {
            proof {
                assert(cell_coord(v as int, min as int, max as int, res as int) == q);
            }
            q as usize
        }
    }
}

/// Maps a sequence of positions into a count grid of side `res` against the
/// given bounds. Without the splat kernel each position increments exactly
/// its primary cell, so the counts sum to the number of positions; with it,
/// each position makes nine increments (clamped onto the grid, so they may
/// coincide near an edge), and the counts sum to nine times the number of
/// positions. An empty input yields the all-zero grid.
#[verifier::loop_isolation(false)]
pub fn bucket_positions(positions: &Vec<Position>, bounds: &GeoBounds, res: usize, splat: bool) -> (g:
    CountGrid)
    requires
        bounds.wf(),
        1 <= res <= MAX_RES,
        positions@.len() <= MAX_OBS,
        forall|k: int| 0 <= k < positions@.len() ==> (#[trigger] positions@[k]).wf(),
    ensures
        g.wf(),
        g.res == res,
        forall|r: int, c: int|
            0 <= r < res && 0 <= c < res ==> g.cell(r, c) == cell_total(
                positions@,
                *bounds,
                res as int,
                splat,
                r,
                c,
                positions@.len() as int,
            ),
        g.total() == (if splat { 9 as int } else { 1 as int }) * positions@.len(),
{
    proof {
        assert(res * res <= MAX_RES * MAX_RES) by (nonlinear_arith)
            requires 1 <= res <= MAX_RES;
    }
    let n: usize = res * res;
    let mut cells: Vec<u32> = Vec::new();
    while cells.len() < n
        invariant
            cells@.len() <= n,
            forall|t: int| 0 <= t < cells@.len() ==> cells@[t] == 0,
            sum_counts(cells@) == 0,
        decreases n - cells@.len(),
    {
        proof {
            lemma_sum_push(cells@, 0);
        }
        cells.push(0);
    }
    proof {
        assert forall|r: int, c: int| 0 <= r < res && 0 <= c < res implies cells@[r * res + c]
            == #[trigger] cell_total(positions@, *bounds, res as int, splat, r, c, 0) by {
            lemma_grid_index(r, c, r, c, res as int);
        }
    }
    let ghost factor: int = if splat { 9 } else { 1 };
    let mut i: usize = 0;
    while i < positions.len()
        invariant
            0 <= i <= positions@.len(),
            cells@.len() == res * res,
            forall|r: int, c: int|
                0 <= r < res && 0 <= c < res ==> cells@[r * res + c] == cell_total(
                    positions@,
                    *bounds,
                    res as int,
                    splat,
                    r,
                    c,
                    i as int,
                ),
            sum_counts(cells@) == factor * i,
        decreases positions@.len() - i,
    {
        let p = positions[i];
        let row = compute_cell_coord(p.lat, bounds.min_lat, bounds.max_lat, res);
        let col = compute_cell_coord(p.lon, bounds.min_lon, bounds.max_lon, res);
        if splat {
            let mut j: usize = 0;
            while j < 9
                invariant
                    0 <= j <= 9,
                    0 <= i < positions@.len(),
                    cells@.len() == res * res,
                    row == cell_coord(
                        p.lat as int,
                        bounds.min_lat as int,
                        bounds.max_lat as int,
                        res as int,
                    ),
                    col == cell_coord(
                        p.lon as int,
                        bounds.min_lon as int,
                        bounds.max_lon as int,
                        res as int,
                    ),
                    row < res,
                    col < res,
                    forall|r: int, c: int|
                        0 <= r < res && 0 <= c < res ==> cells@[r * res + c] == cell_total(
                            positions@,
                            *bounds,
                            res as int,
                            splat,
                            r,
                            c,
                            i as int,
                        ) + hits_upto(row as int, col as int, r, c, res as int, j as int),
                    sum_counts(cells@) == factor * i + j,
                decreases 9 - j,
            {
                let dr: usize = j / 3;
                let dc: usize = j % 3;
                let nr: usize = clamp_offset(row, dr, res);
                let nc: usize = clamp_offset(col, dc, res);
                proof {
                    assert(nr == neighbor_row(row as int, j as int, res as int));
                    assert(nc == neighbor_col(col as int, j as int, res as int));
                    lemma_grid_index(nr as int, nc as int, nr as int, nc as int, res as int);
                }
                let t: usize = nr * res + nc;
                let cur: u32 = cells[t];
                proof {
                    lemma_cell_total_le(
                        positions@,
                        *bounds,
                        res as int,
                        splat,
                        nr as int,
                        nc as int,
                        i as int,
                    );
                    lemma_hits_le(row as int, col as int, nr as int, nc as int, res as int, j as int);
                    assert(cur < 0xffff_ffffu32);
                }
                let ghost pre = cells@;
                cells.set(t, cur + 1);
                proof {
                    lemma_sum_update(pre, t as int, (cur + 1) as u32);
                    assert forall|r: int, c: int| 0 <= r < res && 0 <= c < res implies cells@[r * res
                        + c] == #[trigger] cell_total(
                        positions@,
                        *bounds,
                        res as int,
                        splat,
                        r,
                        c,
                        i as int,
                    ) + hits_upto(row as int, col as int, r, c, res as int, j + 1) by {
                        lemma_grid_index(r, c, nr as int, nc as int, res as int);
                        assert(pre[r * res + c] == cell_total(
                            positions@,
                            *bounds,
                            res as int,
                            splat,
                            r,
                            c,
                            i as int,
                        ) + hits_upto(row as int, col as int, r, c, res as int, j as int));
                        if r == nr && c == nc {
                            assert(cells@[r * res + c] == pre[r * res + c] + 1);
                        } else {
                            assert(r * res + c != t);
                            assert(cells@[r * res + c] == pre[r * res + c]);
                        }
                    }
                }
                j += 1;
            }
            proof {
                assert forall|r: int, c: int| 0 <= r < res && 0 <= c < res implies cells@[r * res
                    + c] == #[trigger] cell_total(
                    positions@,
                    *bounds,
                    res as int,
                    splat,
                    r,
                    c,
                    i + 1,
                ) by {
                    assert(cells@[r * res + c] == cell_total(
                        positions@,
                        *bounds,
                        res as int,
                        splat,
                        r,
                        c,
                        i as int,
                    ) + hits_upto(row as int, col as int, r, c, res as int, 9));
                    assert(weight_at(positions@[i as int], *bounds, res as int, splat, r, c)
                        == hits_upto(row as int, col as int, r, c, res as int, 9));
                }
            }
        } else {
            proof {
                lemma_grid_index(row as int, col as int, row as int, col as int, res as int);
            }
            let t: usize = row * res + col;
            let cur: u32 = cells[t];
            proof {
                lemma_cell_total_le(
                    positions@,
                    *bounds,
                    res as int,
                    splat,
                    row as int,
                    col as int,
                    i as int,
                );
                assert(cur < 0xffff_ffffu32);
            }
            let ghost pre = cells@;
            cells.set(t, cur + 1);
            proof {
                lemma_sum_update(pre, t as int, (cur + 1) as u32);
                assert forall|r: int, c: int| 0 <= r < res && 0 <= c < res implies cells@[r * res
                    + c] == #[trigger] cell_total(
                    positions@,
                    *bounds,
                    res as int,
                    splat,
                    r,
                    c,
                    i + 1,
                ) by {
                    lemma_grid_index(r, c, row as int, col as int, res as int);
                    assert(pre[r * res + c] == cell_total(
                        positions@,
                        *bounds,
                        res as int,
                        splat,
                        r,
                        c,
                        i as int,
                    ));
                    if r == row && c == col {
                        assert(cells@[r * res + c] == pre[r * res + c] + 1);
                    } else {
                        assert(r * res + c != t);
                        assert(cells@[r * res + c] == pre[r * res + c]);
                    }
                }
            }
        }
        i += 1;
    }
    CountGrid { res, cells }
}

/// Clamped kernel target on one axis: `base + off - 1` held inside
/// `[0, res - 1]`, for `off` in 0 to 2.
fn clamp_offset(base: usize, off: usize, res: usize) -> (r: usize)
    requires
        base < res,
        off <= 2,
        res >= 1,
    ensures
        r == clamp_idx(base + off - 1, res as int),
        r < res,
{
    if off == 0 {
        if base == 0 {
            0
        } else {
            base - 1
        }
    } else if off == 1 {
        base
    } else {
        if base + 1 > res - 1 {
            res - 1
        } else {
            base + 1
        }
    }
}

} // verus!
