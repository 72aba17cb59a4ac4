//! Rendering: normalizing a count grid against a reference maximum and
//! mapping each cell to a grayscale intensity or a perceptual ramp color,
//! producing a raster byte buffer. Persisting the buffer is the surrounding
//! application's task.

use vstd::prelude::*;
use crate::grid::CountGrid;

verus! {

/// Output mode of the renderer.
#[derive(Clone, Copy, PartialEq, Eq, Structural, Debug)]
pub enum ColorMode {
    /// One byte per cell: `round(count / m * 255)`.
    Grayscale,
    /// Three bytes per cell: the "inferno" perceptual ramp.
    Inferno,
}

/// Bytes one cell occupies in the raster buffer.
pub open spec fn bytes_per_pixel(mode: ColorMode) -> int {
    match mode {
        ColorMode::Grayscale => 1,
        ColorMode::Inferno => 3,
    }
}

/// Grayscale intensity of a count against the reference maximum `m`:
/// `round(count / m * 255)`, computed exactly as `(510*count + m) / (2*m)`,
/// clamped to 255 when the count exceeds `m` (the normalization itself does
/// not clamp); a zero `m` maps every count to 0.
pub open spec fn gray_level(count: u32, m: u32) -> int {
    if m == 0 {
        0
    } else {
        let rounded = (510 * count + m) / (2 * m);
        if rounded > 255 {
            255
        } else {
            rounded
        }
    }
}

/// The color colorous's "inferno" perceptual ramp yields for the ratio
/// `count / m`. The ramp is a fixed interpolation table of the outside
/// crate, a pure function of the two arguments, so it is named rather than
/// spelled out.
pub uninterp spec fn inferno_of(count: u32, m: u32) -> (u8, u8, u8);

/// Color of one cell: the ramp sample for `count / m`. A zero `m` maps every
/// count to normalized 0, the ramp's origin sample.
pub open spec fn cell_color(count: u32, m: u32) -> (u8, u8, u8) {
    if m == 0 {
        inferno_of(0, 1)
    } else {
        inferno_of(count, m)
    }
}

/// Relies on colorous::Gradient::eval_rational on colorous::INFERNO, which
/// samples the ramp at the rational position `i / (n - 1)`: called with
/// `(count, m + 1)` it samples at `count / m`. It is a deterministic
/// interpolation of a fixed color table, a pure function of its arguments;
/// it clamps `i` to `n - 1`, so a count above `m` saturates at the ramp's
/// end, and it panics only for `n == 0`, which `m + 1` never is.
#[verifier::external_body]
fn inferno_eval(count: u32, m: u32) -> (r: (u8, u8, u8))
    requires
        m > 0,
    ensures
        r == inferno_of(count, m),
{
    let c = colorous::INFERNO.eval_rational(count as usize, (m as u64 + 1) as usize);
    (c.r, c.g, c.b)
}

/// The bytes of one rendered cell.
pub open spec fn pixel_bytes(count: u32, m: u32, mode: ColorMode) -> Seq<u8> {
    match mode {
        ColorMode::Grayscale => seq![gray_level(count, m) as u8],
        ColorMode::Inferno => seq![cell_color(count, m).0, cell_color(count, m).1, cell_color(count, m).2],
    }
}

/// The raster bytes of the first `k` cells.
pub open spec fn raster_upto(cells: Seq<u32>, m: u32, mode: ColorMode, k: int) -> Seq<u8>
    decreases k,
{
    if k <= 0 {
        Seq::empty()
    } else {
        raster_upto(cells, m, mode, k - 1) + pixel_bytes(cells[k - 1], m, mode)
    }
}

/// The raster bytes of a whole grid's cells, row-major.
pub open spec fn raster(cells: Seq<u32>, m: u32, mode: ColorMode) -> Seq<u8> {
    raster_upto(cells, m, mode, cells.len() as int)
}

pub proof fn lemma_raster_upto_len(cells: Seq<u32>, m: u32, mode: ColorMode, k: int)
    requires
        k >= 0,
    ensures
        raster_upto(cells, m, mode, k).len() == bytes_per_pixel(mode) * k,
    decreases k,
{
    if k > 0 {
        lemma_raster_upto_len(cells, m, mode, k - 1);
    }
}

/// The raster is laid out cell by cell: pixel `idx` occupies the byte range
/// `[bytes_per_pixel * idx, bytes_per_pixel * (idx + 1))` and holds exactly
/// that cell's bytes.
pub proof fn lemma_raster_pixel(cells: Seq<u32>, m: u32, mode: ColorMode, idx: int)
    requires
        0 <= idx < cells.len(),
    ensures
        raster(cells, m, mode).len() == bytes_per_pixel(mode) * cells.len(),
        raster(cells, m, mode).subrange(
            bytes_per_pixel(mode) * idx,
            bytes_per_pixel(mode) * (idx + 1),
        ) == pixel_bytes(cells[idx], m, mode),
{
    lemma_raster_upto_len(cells, m, mode, cells.len() as int);
    lemma_raster_upto_pixel(cells, m, mode, idx, cells.len() as int);
}

proof fn lemma_raster_upto_pixel(cells: Seq<u32>, m: u32, mode: ColorMode, idx: int, k: int)
    requires
        0 <= idx < k <= cells.len(),
    ensures
        raster_upto(cells, m, mode, k).subrange(
            bytes_per_pixel(mode) * idx,
            bytes_per_pixel(mode) * (idx + 1),
        ) =~= pixel_bytes(cells[idx], m, mode),
    decreases k,
{
    lemma_raster_upto_len(cells, m, mode, k);
    lemma_raster_upto_len(cells, m, mode, k - 1);
    if idx == k - 1 {
        assert(raster_upto(cells, m, mode, k).subrange(
            bytes_per_pixel(mode) * idx,
            bytes_per_pixel(mode) * (idx + 1),
        ) =~= pixel_bytes(cells[idx], m, mode));
    } else {
        lemma_raster_upto_pixel(cells, m, mode, idx, k - 1);
        assert(raster_upto(cells, m, mode, k).subrange(
            bytes_per_pixel(mode) * idx,
            bytes_per_pixel(mode) * (idx + 1),
        ) =~= raster_upto(cells, m, mode, k - 1).subrange(
            bytes_per_pixel(mode) * idx,
            bytes_per_pixel(mode) * (idx + 1),
        ));
    }
}

/// Rendering is deterministic: two raster buffers rendered from the same
/// grid contents with the same reference maximum and the same mode are
/// byte-identical.
pub proof fn lemma_render_deterministic(
    cells: Seq<u32>,
    m: u32,
    mode: ColorMode,
    out1: Seq<u8>,
    out2: Seq<u8>,
)
    requires
        out1 == raster(cells, m, mode),
        out2 == raster(cells, m, mode),
    ensures
        out1 == out2,
{
}

/// Computes the grayscale intensity of one cell exactly as `gray_level`
/// states it.
pub fn gray_intensity(count: u32, m: u32) -> (v: u8)
    ensures
        v as int == gray_level(count, m),
{
    if m == 0 {
        0
    } else {
        let num: u64 = 510u64 * (count as u64) + (m as u64);
        let den: u64 = 2u64 * (m as u64);
        let q: u64 = num / den;
        if q > 255 {
            255
        } else {
            q as u8
        }
    }
}

/// The largest count in the grid: the per-frame normalization maximum.
pub fn max_count(grid: &CountGrid) -> (r: u32)
    requires
        grid.wf(),
    ensures
        forall|t: int| 0 <= t < grid.cells@.len() ==> #[trigger] grid.cells@[t] <= r,
        grid.cells@.len() > 0 ==> grid.cells@.contains(r),
        grid.cells@.len() == 0 ==> r == 0,
{
    let mut r: u32 = 0;
    let mut t: usize = 0;
    while t < grid.cells.len()
        invariant
            0 <= t <= grid.cells@.len(),
            forall|t2: int| 0 <= t2 < t ==> #[trigger] grid.cells@[t2] <= r,
            t > 0 ==> grid.cells@.contains(r),
            t == 0 ==> r == 0,
        decreases grid.cells@.len() - t,
    {
        if grid.cells[t] > r || t == 0 {
            r = grid.cells[t];
            proof {
                assert(grid.cells@[t as int] == r);
            }
        }
        t += 1;
    }
    r
}

/// Renders a count grid against the reference maximum `m` into a raster
/// byte buffer: one intensity byte per cell in grayscale mode, three ramp
/// color bytes per cell in color mode, row-major, exactly as `raster`
/// states.
#[verifier::loop_isolation(false)]
pub fn render(grid: &CountGrid, m: u32, mode: ColorMode) -> (out: Vec<u8>)
    requires
        grid.wf(),
    ensures
        out@ == raster(grid.cells@, m, mode),
        out@.len() == bytes_per_pixel(mode) * grid.cells@.len(),
{
    proof {
        lemma_raster_upto_len(grid.cells@, m, mode, grid.cells@.len() as int);
    }
    let n: usize = grid.cells.len();
    let mut out: Vec<u8> = Vec::new();
    let mut idx: usize = 0;
    while idx < n
        invariant
            0 <= idx <= n,
            out@ == raster_upto(grid.cells@, m, mode, idx as int),
        decreases n - idx,
    {
        let count = grid.cells[idx];
        match mode {
            ColorMode::Grayscale => {
                let v = gray_intensity(count, m);
                out.push(v);
                proof {
                    assert(out@ =~= raster_upto(grid.cells@, m, mode, idx + 1));
                }
            },
            ColorMode::Inferno => {
                let c = if m == 0 {
                    inferno_eval(0, 1)
                } else {
                    inferno_eval(count, m)
                };
                out.push(c.0);
                out.push(c.1);
                out.push(c.2);
                proof {
                    assert(out@ =~= raster_upto(grid.cells@, m, mode, idx + 1));
                }
            },
        }
        idx += 1;
    }
    out
}

} // verus!
