//! The frame pipeline: for one target time bucket, select the trailing
//! window, aggregate its positions into a count grid, and render the grid
//! into a raster buffer. A bucket whose selected window holds no position
//! produces no frame (skipped, not an error).

use vstd::prelude::*;
use crate::geo::{GeoBounds, PositionSet};
use crate::grid::{bucket_positions, cell_total, CountGrid, MAX_OBS, MAX_RES};
use crate::render::{bytes_per_pixel, max_count, raster, render, ColorMode};
use crate::window::{
    combined_positions, lemma_combined_len, lemma_combined_wf, lemma_count_le_le_len,
    lemma_count_le_mono, lemma_count_upto_mono, select_window, selected_buckets, window_hi,
    window_lo, WindowPolicy,
};

verus! {

/// The configuration surface of one run: grid resolution, window size and
/// policy, splat kernel, color mode, and how the brightness-normalization
/// maximum is chosen. A fixed maximum keeps brightness comparable across the
/// frame sequence; `None` normalizes each frame against its own maximum.
#[derive(Clone, Copy, Debug)]
pub struct RenderConfig {
    pub resolution: usize,
    pub window: u32,
    pub policy: WindowPolicy,
    pub splat: bool,
    pub mode: ColorMode,
    pub fixed_max: Option<u32>,
}

impl RenderConfig {
    /// The resolution is one the grid arithmetic is proved for.
    pub open spec fn wf(self) -> bool {
        1 <= self.resolution <= MAX_RES
    }
}

/// One rendered frame: the target bucket, the buckets the window actually
/// included (for diagnostics), the aggregated grid, the normalization
/// maximum used, and the raster bytes.
pub struct Frame {
    pub bucket: u32,
    pub buckets_included: Vec<u32>,
    pub grid: CountGrid,
    pub max_used: u32,
    pub pixels: Vec<u8>,
}

/// Renders the frame of one target bucket, or nothing when the selected
/// window holds no position. The frame's grid aggregates exactly the
/// combined positions of the selected window, and its pixels are exactly the
/// raster of that grid against the configured or per-frame maximum.
pub fn render_frame(pset: &PositionSet, bounds: &GeoBounds, target: u32, cfg: &RenderConfig) -> (r:
    Option<Frame>)
    requires
        pset.wf(),
        bounds.wf(),
        cfg.wf(),
        pset.total_count() <= MAX_OBS,
    ensures
        r is Some <==> combined_positions(
            pset.entries@,
            window_lo(pset.buckets(), target, cfg.window, cfg.policy),
            window_hi(pset.buckets(), target),
        ).len() > 0,
        r is Some ==> ({
            let f = r->0;
            let sel = combined_positions(
                pset.entries@,
                window_lo(pset.buckets(), target, cfg.window, cfg.policy),
                window_hi(pset.buckets(), target),
            );
            &&& f.bucket == target
            &&& f.buckets_included@ == selected_buckets(
                pset.buckets(),
                target,
                cfg.window,
                cfg.policy,
            )
            &&& f.grid.wf()
            &&& f.grid.res == cfg.resolution
            &&& forall|rr: int, cc: int|
                0 <= rr < cfg.resolution && 0 <= cc < cfg.resolution ==> f.grid.cell(rr, cc)
                    == cell_total(
                    sel,
                    *bounds,
                    cfg.resolution as int,
                    cfg.splat,
                    rr,
                    cc,
                    sel.len() as int,
                )
            &&& f.grid.total() == (if cfg.splat {
                9 as int
            } else {
                1 as int
            }) * sel.len()
            &&& (cfg.fixed_max is Some ==> f.max_used == cfg.fixed_max->0)
            &&& (cfg.fixed_max is None ==> (forall|t: int|
                0 <= t < f.grid.cells@.len() ==> #[trigger] f.grid.cells@[t] <= f.max_used)
                && f.grid.cells@.contains(f.max_used))
            &&& f.pixels@ == raster(f.grid.cells@, f.max_used, cfg.mode)
            &&& f.pixels@.len() == bytes_per_pixel(cfg.mode) * f.grid.cells@.len()
        }),
{
    let sel = select_window(pset, target, cfg.window, cfg.policy);
    if sel.positions.len() == 0 {
        return None;
    }
    proof {
        let s = pset.buckets();
        let lo = window_lo(s, target, cfg.window, cfg.policy);
        let hi = window_hi(s, target);
        lemma_count_le_le_len(s, target as int);
        lemma_count_le_mono(s, target as int - cfg.window as int, target as int);
        assert(0 <= lo <= hi <= pset.entries@.len());
        lemma_combined_len(*pset, lo, hi);
        lemma_count_upto_mono(*pset, 0, lo);
        lemma_count_upto_mono(*pset, hi, pset.entries@.len() as int);
        assert(sel.positions@.len() <= pset.total_count());
        lemma_combined_wf(*pset, lo, hi);
    }
    let grid = bucket_positions(&sel.positions, bounds, cfg.resolution, cfg.splat);
    let m: u32 = match cfg.fixed_max {
        Some(mm) => mm,
        None => max_count(&grid),
    };
    let pixels = render(&grid, m, cfg.mode);
    Some(
        Frame {
            bucket: target,
            buckets_included: sel.buckets,
            grid,
            max_used: m,
            pixels,
        },
    )
}

} // verus!
