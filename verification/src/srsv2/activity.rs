//! Per-block luma activity metrics for adaptive quantization.
use vstd::prelude::*;

use crate::arith::{least, magnitude, sat_mul_u64, total};
use super::frame::VideoPlane;

verus! {

/// Activity metrics of one macroblock (16x16 luma).
#[derive(Debug, Clone, Copy, PartialEq, Eq, Structural)]
pub struct BlockActivity {
    /// Sum of squared deviations from the block mean.
    pub variance_sum: u64,
    /// Sum of absolute edge responses over the interior samples.
    pub edge_sum: u64,
    /// Sum of absolute gradients over the interior samples.
    pub mag_grad_sum: u64,
    /// 1024 when the variance is very low.
    pub flatness: u32,
}

/// Metrics of a macroblock that is not wholly inside the plane.
pub open spec fn no_activity() -> BlockActivity {
    BlockActivity { variance_sum: 0, edge_sum: 0, mag_grad_sum: 0, flatness: 0 }
}

/// Sample `i` of a macroblock, row by row.
pub open spec fn mb_sample(p: VideoPlane<u8>, bx: int, by: int, i: int) -> int {
    p.at(bx + i % 16, by + i / 16) as int
}

/// The rounded-down mean of a macroblock.
pub open spec fn mb_mean(p: VideoPlane<u8>, bx: int, by: int) -> int {
    total(256, |i: int| mb_sample(p, bx, by, i)) / 256
}

/// The squared deviation of sample `i` from the mean.
pub open spec fn mb_deviation(p: VideoPlane<u8>, bx: int, by: int, i: int) -> int {
    let d = mb_sample(p, bx, by, i) - mb_mean(p, bx, by);
    d * d
}

/// The absolute horizontal plus vertical difference around interior sample `i`; the interior is
/// 14 samples wide.
pub open spec fn mb_gradient(p: VideoPlane<u8>, bx: int, by: int, i: int) -> int {
    let x = bx + 1 + i % 14;
    let y = by + 1 + i / 14;
    magnitude(p.at(x + 1, y) - p.at(x - 1, y)) + magnitude(p.at(x, y + 1) - p.at(x, y - 1))
}

/// The metrics of the macroblock in column `mb_x` of row `mb_y`.
pub open spec fn mb_activity(p: VideoPlane<u8>, mb_x: int, mb_y: int) -> BlockActivity {
    let bx = mb_x * 16;
    let by = mb_y * 16;
    if bx + 16 > p.width || by + 16 > p.height {
        no_activity()
    } else {
        let v = total(256, |i: int| mb_deviation(p, bx, by, i));
        let g = total(196, |i: int| mb_gradient(p, bx, by, i));
        BlockActivity {
            variance_sum: v as u64,
            edge_sum: g as u64,
            mag_grad_sum: g as u64,
            flatness: if v < 4096 { 1024 } else { 0 },
        }
    }
}

/// Activity of one macroblock; nothing is measured unless it lies inside the plane.
pub fn mb_activity_y16(plane: &VideoPlane<u8>, mb_x: u32, mb_y: u32) -> (r: BlockActivity)
    requires
        plane.valid(),
    ensures
        r == mb_activity(*plane, mb_x as int, mb_y as int),
        r.variance_sum <= 16646400,
        r.edge_sum <= 99960,
        r.mag_grad_sum == r.edge_sum,
{
    let wide_x: u64 = mb_x as u64 * 16;
    let wide_y: u64 = mb_y as u64 * 16;
    if wide_x + 16 > plane.width as u64 || wide_y + 16 > plane.height as u64 {
        return BlockActivity { variance_sum: 0, edge_sum: 0, mag_grad_sum: 0, flatness: 0 };
    }
    let bx: usize = wide_x as usize;
    let by: usize = wide_y as usize;
    let ghost f = |i: int| mb_sample(*plane, bx as int, by as int, i);
    let mut sum: u64 = 0;
    let mut i: usize = 0;
    while i < 256
        invariant
            i <= 256,
            plane.valid(),
            bx + 16 <= plane.width,
            by + 16 <= plane.height,
            f == (|i: int| mb_sample(*plane, bx as int, by as int, i)),
            sum == total(i as int, f),
            sum <= 255 * i,
        decreases 256 - i,
    {
        let v: u8 = plane.get(bx + i % 16, by + i / 16);
        assert(f(i as int) == v);
        sum = sum + v as u64;
        i += 1;
    }
    let mean: i64 = (sum / 256) as i64;
    let ghost g = |i: int| mb_deviation(*plane, bx as int, by as int, i);
    let mut var_acc: u64 = 0;
    i = 0;
    while i < 256
        invariant
            i <= 256,
            plane.valid(),
            bx + 16 <= plane.width,
            by + 16 <= plane.height,
            mean == mb_mean(*plane, bx as int, by as int),
            0 <= mean <= 255,
            g == (|i: int| mb_deviation(*plane, bx as int, by as int, i)),
            var_acc == total(i as int, g),
            var_acc <= 65025 * i,
        decreases 256 - i,
    {
        let v: i64 = plane.get(bx + i % 16, by + i / 16) as i64;
        let d: i64 = v - mean;
        assert(0 <= d * d <= 65025) by (nonlinear_arith)
            requires
                -255 <= d <= 255,
        ;
        assert(g(i as int) == d * d);
        var_acc = var_acc + (d * d) as u64;
        i += 1;
    }
    let ghost e = |i: int| mb_gradient(*plane, bx as int, by as int, i);
    let mut edge_acc: u64 = 0;
    i = 0;
    while i < 196
        invariant
            i <= 196,
            plane.valid(),
            bx + 16 <= plane.width,
            by + 16 <= plane.height,
            e == (|i: int| mb_gradient(*plane, bx as int, by as int, i)),
            edge_acc == total(i as int, e),
            edge_acc <= 510 * i,
        decreases 196 - i,
    {
        let x: usize = bx + 1 + i % 14;
        let y: usize = by + 1 + i / 14;
        let gx: i32 = plane.get(x + 1, y) as i32 - plane.get(x - 1, y) as i32;
        let gy: i32 = plane.get(x, y + 1) as i32 - plane.get(x, y - 1) as i32;
        let ax: i32 = if gx < 0 { -gx } else { gx };
        let ay: i32 = if gy < 0 { -gy } else { gy };
        assert(e(i as int) == ax + ay);
        edge_acc = edge_acc + (ax + ay) as u64;
        i += 1;
    }
    let flatness: u32 = if var_acc < 4096 { 1024 } else { 0 };
    BlockActivity { variance_sum: var_acc, edge_sum: edge_acc, mag_grad_sum: edge_acc, flatness }
}

/// Twice the edges plus a quarter of the gradients.
pub open spec fn screen_score(act: BlockActivity) -> int {
    least(
        least(act.edge_sum * 2, u64::MAX as int) + act.mag_grad_sum as int / 4,
        u64::MAX as int,
    )
}

/// Gradient emphasis for screen-like content.
pub fn screen_activity_score(act: &BlockActivity) -> (r: u64)
    ensures
        r == screen_score(*act),
{
    sat_mul_u64(act.edge_sum, 2).saturating_add(act.mag_grad_sum / 4)
}

} // verus!
