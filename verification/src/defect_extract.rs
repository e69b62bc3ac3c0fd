//! The window of (frame, channel) cells that is cut out around a detected
//! defect region for depth inversion.

use vstd::prelude::*;

use crate::hough::DefectRegion;

verus! {

/// A window of rows `row_start..row_end` and columns `col_start..col_end`.
#[derive(Debug, Clone, Copy, PartialEq, Eq, Structural)]
pub struct CubeWindow {
    pub row_start: usize,
    pub row_end: usize,
    pub col_start: usize,
    pub col_end: usize,
}

/// The rows a region spans at least: its radius, but never fewer than 5.
pub open spec fn row_reach(region: DefectRegion) -> int {
    if region.radius_rows > 5 {
        region.radius_rows as int
    } else {
        5
    }
}

/// The columns a region spans at least: its radius, but never fewer than 3.
pub open spec fn col_reach(region: DefectRegion) -> int {
    if region.radius_cols > 3 {
        region.radius_cols as int
    } else {
        3
    }
}

/// `max(a - b, 0)`, capped at `max(cap - 1, 0)`.
pub open spec fn clamped_start(a: int, b: int, cap: int) -> int {
    let s = if a >= b { a - b } else { 0 };
    let last = if cap >= 1 { cap - 1 } else { 0 };
    if s < last { s } else { last }
}

/// `min(a + b, cap)`.
pub open spec fn clamped_end(a: int, b: int, cap: int) -> int {
    if a + b < cap { a + b } else { cap }
}

/// The window around `region` on a grid of `n_frames` rows and `n_channels`
/// columns, if it is not empty.
pub open spec fn spec_defect_window(region: DefectRegion, n_frames: int, n_channels: int) -> Option<
    CubeWindow,
> {
    let rs = clamped_start(region.center_row as int, row_reach(region), n_frames);
    let re = clamped_end(region.center_row as int, row_reach(region), n_frames);
    let cs = clamped_start(region.center_col as int, col_reach(region), n_channels);
    let ce = clamped_end(region.center_col as int, col_reach(region), n_channels);
    if re <= rs || ce <= cs {
        None
    } else {
        Some(
            CubeWindow {
                row_start: rs as usize,
                row_end: re as usize,
                col_start: cs as usize,
                col_end: ce as usize,
            },
        )
    }
}

/// The window of rows and columns cut out around `region`: its center plus
/// and minus its radius (at least 5 rows and 3 columns), clipped to the grid;
/// `None` when nothing of it is left.
pub fn defect_window(region: &DefectRegion, n_frames: usize, n_channels: usize) -> (w: Option<
    CubeWindow,
>)
    requires
        region.center_row + row_reach(*region) <= usize::MAX,
        region.center_col + col_reach(*region) <= usize::MAX,
    ensures
        w == spec_defect_window(*region, n_frames as int, n_channels as int),
        w matches Some(win) ==> win.row_start < win.row_end <= n_frames && win.col_start
            < win.col_end <= n_channels,
        w matches Some(win) ==> (region.center_row < n_frames ==> win.row_start
            <= region.center_row < win.row_end),
        w matches Some(win) ==> (region.center_col < n_channels ==> win.col_start
            <= region.center_col < win.col_end),
        w matches Some(win) ==> win.col_end == if region.center_col + (if region.radius_cols > 3 {
            region.radius_cols as int
        } else {
            3
        }) < n_channels {
            region.center_col + (if region.radius_cols > 3 {
                region.radius_cols as int
            } else {
                3
            })
        } else {
            n_channels as int
        },
        w matches Some(win) ==> win.row_end == if region.center_row + (if region.radius_rows > 5 {
            region.radius_rows as int
        } else {
            5
        }) < n_frames {
            region.center_row + (if region.radius_rows > 5 {
                region.radius_rows as int
            } else {
                5
            })
        } else {
            n_frames as int
        },
{
    let rr = if region.radius_rows > 5 {
        region.radius_rows
    } else {
        5
    };
    let rc = if region.radius_cols > 3 {
        region.radius_cols
    } else {
        3
    };
    let r_last = n_frames.saturating_sub(1);
    let c_last = n_channels.saturating_sub(1);
    let r_lo = region.center_row.saturating_sub(rr);
    let r_start = if r_lo < r_last {
        r_lo
    } else {
        r_last
    };
    let r_hi = region.center_row + rr;
    let r_end = if r_hi < n_frames {
        r_hi
    } else {
        n_frames
    };
    let c_lo = region.center_col.saturating_sub(rc);
    let c_start = if c_lo < c_last {
        c_lo
    } else {
        c_last
    };
    let c_hi = region.center_col + rc;
    let c_end = if c_hi < n_channels {
        c_hi
    } else {
        n_channels
    };
    if r_end <= r_start || c_end <= c_start {
        return None;
    }
    Some(CubeWindow { row_start: r_start, row_end: r_end, col_start: c_start, col_end: c_end })
}

/// The columns of a window depend only on the region's centre column, its
/// column radius and the number of channels, and its rows only on the centre
/// row, the row radius and the number of frames: two regions that agree on
/// one axis get windows that agree on that axis.
pub proof fn law_window_axes_independent(a: DefectRegion, b: DefectRegion, n_frames: int, n_channels: int)
    ensures
        a.center_col == b.center_col && a.radius_cols == b.radius_cols ==> (spec_defect_window(
            a,
            n_frames,
            n_channels,
        ) matches Some(wa) ==> (spec_defect_window(b, n_frames, n_channels) matches Some(wb)
            ==> wa.col_start == wb.col_start && wa.col_end == wb.col_end)),
        a.center_row == b.center_row && a.radius_rows == b.radius_rows ==> (spec_defect_window(
            a,
            n_frames,
            n_channels,
        ) matches Some(wa) ==> (spec_defect_window(b, n_frames, n_channels) matches Some(wb)
            ==> wa.row_start == wb.row_start && wa.row_end == wb.row_end)),
{
}

/// A window reaches at least 5 rows and 3 columns each side of the region's
/// centre, and exactly its radius when that is larger, clipped to the grid:
/// the window ends at `min(center + reach, size)` on each axis, and starts at
/// `center - reach` when that is not below 0 and below the last index.
pub proof fn law_window_reach(region: DefectRegion, n_frames: int, n_channels: int)
    requires
        1 <= n_frames <= usize::MAX,
        1 <= n_channels <= usize::MAX,
    ensures
        spec_defect_window(region, n_frames, n_channels) matches Some(w) ==> {
            let rr = if region.radius_rows >= 5 { region.radius_rows as int } else { 5 };
            let rc = if region.radius_cols >= 3 { region.radius_cols as int } else { 3 };
            &&& w.row_end == if region.center_row + rr < n_frames { region.center_row + rr } else { n_frames }
            &&& w.col_end == if region.center_col + rc < n_channels { region.center_col + rc } else { n_channels }
            &&& (rr <= region.center_row < n_frames - 1 + rr ==> w.row_start == region.center_row - rr)
            &&& (rc <= region.center_col < n_channels - 1 + rc ==> w.col_start == region.center_col - rc)
            &&& w.row_start <= n_frames - 1
            &&& w.col_start <= n_channels - 1
        },
{
}

} // verus!
