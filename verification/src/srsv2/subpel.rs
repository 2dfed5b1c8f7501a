//! Half-pel luma prediction on the quarter-pel grid.
use vstd::prelude::*;

use crate::arith::{magnitude, total};
use super::error::SrsV2Error;
use super::frame::VideoPlane;
use super::motion_search::{padded, rect_fits, sample_u8_plane};

verus! {

/// Largest motion vector component in quarter-pel units.
pub const MAX_MV_QPEL: i32 = 1024;

/// Why a quarter-pel motion vector is refused, if it is: half-pel positions have even components.
pub open spec fn qpel_refusal(mx: int, my: int) -> Option<SrsV2Error> {
    if mx % 2 != 0 || my % 2 != 0 {
        Some(SrsV2Error::Syntax("MV not on half-pel grid"))
    } else if magnitude(mx) > MAX_MV_QPEL || magnitude(my) > MAX_MV_QPEL {
        Some(SrsV2Error::CorruptedMotionVector)
    } else {
        None
    }
}

/// Accepts the motion vectors of the half-pel grid whose components are within bounds.
pub fn validate_mv_qpel_halfgrid(mx: i32, my: i32) -> (r: Result<(), SrsV2Error>)
    ensures
        r == match qpel_refusal(mx as int, my as int) {
            Some(e) => Err::<(), SrsV2Error>(e),
            None => Ok::<(), SrsV2Error>(()),
        },
{
    let (_, fx) = split2(mx);
    let (_, fy) = split2(my);
    if fx != 0 || fy != 0 {
        return Err(SrsV2Error::Syntax("MV not on half-pel grid"));
    }
    if mx > MAX_MV_QPEL || mx < -MAX_MV_QPEL || my > MAX_MV_QPEL || my < -MAX_MV_QPEL {
        return Err(SrsV2Error::CorruptedMotionVector);
    }
    Ok(())
}

fn split2(v: i32) -> (r: (i32, i32))
    ensures
        r.0 == v as int / 2,
        r.1 == v as int % 2,
{
    if v >= 0 {
        (v / 2, v % 2)
    } else {
        let q: i32 = -((-(v as i64) + 1) / 2) as i32;
        (q, (v as i64 - 2 * q as i64) as i32)
    }
}

/// Whole pels and remaining quarter pels of a component.
pub fn split_qpel(v: i32) -> (r: (i32, i32))
    ensures
        r.0 == v as int / 4,
        r.1 == v as int % 4,
{
    if v >= 0 {
        (v / 4, v % 4)
    } else {
        let q: i32 = -((-(v as i64) + 3) / 4) as i32;
        (q, (v as i64 - 4 * q as i64) as i32)
    }
}

/// The sample at quarter-pel displacement (`mvx`, `mvy`) from (`x`, `y`): the four samples around
/// the position, weighted by the distance to it and rounded to nearest.
pub open spec fn qpel_sample(p: VideoPlane<u8>, x: int, y: int, mvx: int, mvy: int) -> int {
    let ix = x + mvx / 4;
    let iy = y + mvy / 4;
    let fx = mvx % 4;
    let fy = mvy % 4;
    ((4 - fx) * (4 - fy) * padded(p, ix, iy) + fx * (4 - fy) * padded(p, ix + 1, iy) + (4 - fx) * fy
        * padded(p, ix, iy + 1) + fx * fy * padded(p, ix + 1, iy + 1) + 8) / 16
}

proof fn lemma_weights(fx: int, fy: int, a: int, b: int, c: int, d: int)
    requires
        0 <= fx < 4,
        0 <= fy < 4,
        0 <= a <= 255,
        0 <= b <= 255,
        0 <= c <= 255,
        0 <= d <= 255,
    ensures
        0 <= (4 - fx) * (4 - fy) * a <= 4080,
        0 <= fx * (4 - fy) * b <= 4080,
        0 <= (4 - fx) * fy * c <= 4080,
        0 <= fx * fy * d <= 4080,
        0 <= (4 - fx) * (4 - fy) * a + fx * (4 - fy) * b + (4 - fx) * fy * c + fx * fy * d <= 4080,
        fx == 0 && fy == 0 ==> ((4 - fx) * (4 - fy) * a + fx * (4 - fy) * b + (4 - fx) * fy * c + fx
            * fy * d + 8) / 16 == a,
{
    let w0 = (4 - fx) * (4 - fy);
    let w1 = fx * (4 - fy);
    let w2 = (4 - fx) * fy;
    let w3 = fx * fy;
    assert(w0 + w1 + w2 + w3 == 16 && 0 <= w0 && 0 <= w1 && 0 <= w2 && 0 <= w3)
        by (nonlinear_arith)
        requires
            0 <= fx < 4,
            0 <= fy < 4,
            w0 == (4 - fx) * (4 - fy),
            w1 == fx * (4 - fy),
            w2 == (4 - fx) * fy,
            w3 == fx * fy,
    ;
    assert(0 <= w0 * a <= w0 * 255) by (nonlinear_arith)
        requires
            0 <= w0,
            0 <= a <= 255,
    ;
    assert(0 <= w1 * b <= w1 * 255) by (nonlinear_arith)
        requires
            0 <= w1,
            0 <= b <= 255,
    ;
    assert(0 <= w2 * c <= w2 * 255) by (nonlinear_arith)
        requires
            0 <= w2,
            0 <= c <= 255,
    ;
    assert(0 <= w3 * d <= w3 * 255) by (nonlinear_arith)
        requires
            0 <= w3,
            0 <= d <= 255,
    ;
    if fx == 0 && fy == 0 {
        assert(w0 * a == 16 * a && w1 * b == 0 && w2 * c == 0 && w3 * d == 0) by (nonlinear_arith)
            requires
                w0 == 16,
                w1 == 0,
                w2 == 0,
                w3 == 0,
        ;
        assert((16 * a + 8) / 16 == a);
    }
}

/// Where no quarter pels remain, the interpolated sample is the displaced sample itself.
pub proof fn whole_pel_needs_no_interpolation(
    p: VideoPlane<u8>,
    x: int,
    y: int,
    mvx: int,
    mvy: int,
)
    requires
        p.valid(),
        mvx % 4 == 0,
        mvy % 4 == 0,
    ensures
        qpel_sample(p, x, y, mvx, mvy) == padded(p, x + mvx / 4, y + mvy / 4),
{
    let ix = x + mvx / 4;
    let iy = y + mvy / 4;
    lemma_weights(
        0,
        0,
        padded(p, ix, iy),
        padded(p, ix + 1, iy),
        padded(p, ix, iy + 1),
        padded(p, ix + 1, iy + 1),
    );
}

/// An interpolated sample is a sample value.
pub proof fn lemma_qpel_range(p: VideoPlane<u8>, x: int, y: int, mvx: int, mvy: int)
    ensures
        0 <= qpel_sample(p, x, y, mvx, mvy) <= 255,
{
    let ix = x + mvx / 4;
    let iy = y + mvy / 4;
    lemma_weights(
        mvx % 4,
        mvy % 4,
        padded(p, ix, iy),
        padded(p, ix + 1, iy),
        padded(p, ix, iy + 1),
        padded(p, ix + 1, iy + 1),
    );
}

/// Interpolates one luma sample.
pub fn sample_luma_bilinear_qpel(plane: &VideoPlane<u8>, lx: i32, ly: i32, mvx_q: i32, mvy_q: i32)
    -> (v: u8)
    requires
        plane.valid(),
        0 <= lx <= 1000000,
        0 <= ly <= 1000000,
    ensures
        v == qpel_sample(*plane, lx as int, ly as int, mvx_q as int, mvy_q as int),
{
    let (qx, fx) = split_qpel(mvx_q);
    let (qy, fy) = split_qpel(mvy_q);
    let ix: i32 = lx + qx;
    let iy: i32 = ly + qy;
    let a: i32 = sample_u8_plane(plane, ix, iy) as i32;
    let b: i32 = sample_u8_plane(plane, ix + 1, iy) as i32;
    let c: i32 = sample_u8_plane(plane, ix, iy + 1) as i32;
    let d: i32 = sample_u8_plane(plane, ix + 1, iy + 1) as i32;
    proof {
        lemma_weights(fx as int, fy as int, a as int, b as int, c as int, d as int);
        assert(0 <= (4 - fx) * (4 - fy) <= 16 && 0 <= fx * (4 - fy) <= 16 && 0 <= (4 - fx) * fy
            <= 16 && 0 <= fx * fy <= 16) by (nonlinear_arith)
            requires
                0 <= fx < 4,
                0 <= fy < 4,
        ;
    }
    let s: i32 = (4 - fx) * (4 - fy) * a + fx * (4 - fy) * b + (4 - fx) * fy * c + fx * fy * d + 8;
    (s / 16) as u8
}

/// The absolute difference at position `i` of a macroblock.
pub open spec fn qpel_term(
    cur: VideoPlane<u8>,
    refp: VideoPlane<u8>,
    ox: int,
    oy: int,
    mvx: int,
    mvy: int,
    i: int,
) -> int {
    magnitude(
        cur.at(ox + i % 16, oy + i / 16) - qpel_sample(refp, ox + i % 16, oy + i / 16, mvx, mvy),
    )
}

/// The sum of absolute differences between a macroblock and its interpolated prediction.
pub open spec fn qpel_sad(
    cur: VideoPlane<u8>,
    refp: VideoPlane<u8>,
    ox: int,
    oy: int,
    mvx: int,
    mvy: int,
) -> int {
    total(256, |i: int| qpel_term(cur, refp, ox, oy, mvx, mvy, i))
}

/// Sum of absolute differences over one macroblock at a quarter-pel displacement.
pub fn sad_16x16_qpel(
    cur: &VideoPlane<u8>,
    refp: &VideoPlane<u8>,
    mb_x: u32,
    mb_y: u32,
    mvx_q: i32,
    mvy_q: i32,
) -> (r: u32)
    requires
        rect_fits(*cur, *refp, mb_x * 16, mb_y * 16, 16, 16),
    ensures
        r == qpel_sad(*cur, *refp, mb_x * 16, mb_y * 16, mvx_q as int, mvy_q as int),
        r <= 65280,
{
    let ox: u32 = mb_x * 16;
    let oy: u32 = mb_y * 16;
    let ghost f = |i: int|
        qpel_term(*cur, *refp, ox as int, oy as int, mvx_q as int, mvy_q as int, i);
    let mut acc: u32 = 0;
    let mut i: u32 = 0;
    while i < 256
        invariant
            i <= 256,
            rect_fits(*cur, *refp, ox as int, oy as int, 16, 16),
            f == (|i: int|
                qpel_term(*cur, *refp, ox as int, oy as int, mvx_q as int, mvy_q as int, i)),
            acc == total(i as int, f),
            acc <= i * 255,
        decreases 256 - i,
    {
        let lx: u32 = ox + i % 16;
        let ly: u32 = oy + i / 16;
        let cx: u8 = cur.get(lx as usize, ly as usize);
        let pv: u8 = sample_luma_bilinear_qpel(refp, lx as i32, ly as i32, mvx_q, mvy_q);
        let d: u32 = if cx >= pv { (cx - pv) as u32 } else { (pv - cx) as u32 };
        assert(f(i as int) == d);
        acc = acc + d;
        i += 1;
    }
    acc
}

/// A quarter-pel vector with its cost.
pub struct Refined {
    pub x: int,
    pub y: int,
    pub sad: int,
}

/// Neighbour `k` of a vector: the eight vectors at distance `2 * ring`, row by row.
pub open spec fn ring_offset(ring: int, k: int) -> (int, int) {
    let place = if k < 4 { k } else { k + 1 };
    (2 * ring * (place % 3 - 1), 2 * ring * (place / 3 - 1))
}

/// The best of a centre and the first `n` of its eight neighbours on each ring; the first of
/// several equal ones.
pub open spec fn ring_best(
    cost: spec_fn(int, int) -> int,
    cx: int,
    cy: int,
    n: int,
) -> Refined
    decreases n,
{
    if n <= 0 {
        Refined { x: cx, y: cy, sad: cost(cx, cy) }
    } else {
        let b = ring_best(cost, cx, cy, n - 1);
        let o = ring_offset((n - 1) / 8 + 1, (n - 1) % 8);
        let s = cost(cx + o.0, cy + o.1);
        if s < b.sad {
            Refined { x: cx + o.0, y: cy + o.1, sad: s }
        } else {
            b
        }
    }
}

/// The half-pel vector that refinement of a whole-pel vector gives.
pub open spec fn refined(
    cur: VideoPlane<u8>,
    refp: VideoPlane<u8>,
    ox: int,
    oy: int,
    ix: int,
    iy: int,
    radius: int,
) -> Refined {
    ring_best(
        |mx: int, my: int| qpel_sad(cur, refp, ox, oy, mx, my),
        4 * ix,
        4 * iy,
        8 * radius,
    )
}

/// The refined vector lies on the half-pel grid, at most `radius` pels from where it started.
pub proof fn refinement_stays_close(
    cost: spec_fn(int, int) -> int,
    ix: int,
    iy: int,
    radius: int,
    n: int,
)
    requires
        0 <= n <= 8 * radius,
    ensures
        ring_best(cost, 4 * ix, 4 * iy, n).x % 2 == 0,
        ring_best(cost, 4 * ix, 4 * iy, n).y % 2 == 0,
        -2 * radius <= ring_best(cost, 4 * ix, 4 * iy, n).x - 4 * ix <= 2 * radius,
        -2 * radius <= ring_best(cost, 4 * ix, 4 * iy, n).y - 4 * iy <= 2 * radius,
    decreases n,
{
    if n > 0 {
        refinement_stays_close(cost, ix, iy, radius, n - 1);
        let ring = (n - 1) / 8 + 1;
        let k = (n - 1) % 8;
        let place = if k < 4 { k } else { k + 1 };
        let u = place % 3 - 1;
        let v = place / 3 - 1;
        assert(-1 <= u <= 1 && -1 <= v <= 1);
        lemma_ring_step(ring, u);
        lemma_ring_step(ring, v);
    }
}

proof fn lemma_ring_step(ring: int, u: int)
    requires
        -1 <= u <= 1,
        1 <= ring,
    ensures
        (2 * ring * u) % 2 == 0,
        -2 * ring <= 2 * ring * u <= 2 * ring,
{
    if u == 0 {
        assert(2 * ring * u == 0) by (nonlinear_arith)
            requires
                u == 0,
        ;
    } else if u == 1 {
        assert(2 * ring * u == 2 * ring) by (nonlinear_arith)
            requires
                u == 1,
        ;
    } else {
        assert(2 * ring * u == -2 * ring) by (nonlinear_arith)
            requires
                u == -1,
        ;
    }
}

/// Refines a whole-pel motion vector to half-pel precision. Radius 0 keeps it; radius 1 probes
/// the eight half-pel neighbours, radius 2 also the eight at twice that distance. `evals` counts
/// the probes, `tested` the macroblocks that were probed.
pub fn refine_half_pel_center(
    cur: &VideoPlane<u8>,
    refp: &VideoPlane<u8>,
    mb_x: u32,
    mb_y: u32,
    ix: i16,
    iy: i16,
    radius: u8,
    evals: &mut u64,
    tested: &mut u64,
) -> (q: (i32, i32))
    requires
        rect_fits(*cur, *refp, mb_x * 16, mb_y * 16, 16, 16),
        radius <= 2,
        *old(evals) <= u64::MAX - 16,
        *old(tested) < u64::MAX,
    ensures
        ({
            let r = refined(
                *cur,
                *refp,
                mb_x * 16,
                mb_y * 16,
                ix as int,
                iy as int,
                radius as int,
            );
            q.0 == r.x && q.1 == r.y
        }),
        *final(evals) == *old(evals) + 8 * radius,
        *final(tested) == *old(tested) + (if radius > 0 { 1int } else { 0 }),
        q.0 % 2 == 0,
        q.1 % 2 == 0,
        magnitude(q.0 - 4 * ix) <= 2 * radius,
        magnitude(q.1 - 4 * iy) <= 2 * radius,
{
    let ghost cost = |mx: int, my: int| qpel_sad(*cur, *refp, mb_x * 16, mb_y * 16, mx, my);
    let cx: i32 = 4 * ix as i32;
    let cy: i32 = 4 * iy as i32;
    let mut bx: i32 = cx;
    let mut by: i32 = cy;
    proof {
        refinement_stays_close(cost, ix as int, iy as int, radius as int, 8 * radius);
    }
    if radius == 0 {
        return (bx, by);
    }
    *tested = *tested + 1;
    let mut best: u32 = sad_16x16_qpel(cur, refp, mb_x, mb_y, cx, cy);
    let n: i32 = 8 * radius as i32;
    let mut k: i32 = 0;
    while k < n
        invariant
            0 <= k <= n,
            n == 8 * radius,
            radius <= 2,
            rect_fits(*cur, *refp, mb_x * 16, mb_y * 16, 16, 16),
            cost == (|mx: int, my: int| qpel_sad(*cur, *refp, mb_x * 16, mb_y * 16, mx, my)),
            cx == 4 * ix,
            cy == 4 * iy,
            -32768 <= ix < 32768,
            -32768 <= iy < 32768,
            *evals == *old(evals) + k,
            *old(evals) <= u64::MAX - 16,
            ({
                let b = ring_best(cost, cx as int, cy as int, k as int);
                b.x == bx && b.y == by && b.sad == best
            }),
        decreases n - k,
    {
        let ring: i32 = k / 8 + 1;
        let at: i32 = k % 8;
        let place: i32 = if at < 4 { at } else { at + 1 };
        let u: i32 = place % 3 - 1;
        let v: i32 = place / 3 - 1;
        assert(-4 <= 2 * ring * u <= 4 && -4 <= 2 * ring * v <= 4) by (nonlinear_arith)
            requires
                -1 <= u <= 1,
                -1 <= v <= 1,
                1 <= ring <= 2,
        ;
        let mx: i32 = cx + 2 * ring * u;
        let my: i32 = cy + 2 * ring * v;
        let s: u32 = sad_16x16_qpel(cur, refp, mb_x, mb_y, mx, my);
        *evals = *evals + 1;
        assert(s == cost(mx as int, my as int));
        if s < best {
            best = s;
            bx = mx;
            by = my;
        }
        k += 1;
    }
    (bx, by)
}

/// Vectors in quarter samples are accepted on the half-sample grid within their reach, whatever their
/// signs.
pub proof fn vectors_stand_on_the_half_sample_grid(mx: int, my: int)
    ensures
        qpel_refusal(mx, my) is None <==> mx % 2 == 0 && my % 2 == 0 && -MAX_MV_QPEL <= mx
            <= MAX_MV_QPEL && -MAX_MV_QPEL <= my <= MAX_MV_QPEL,
        qpel_refusal(mx, my) is None <==> qpel_refusal(-mx, my) is None,
        qpel_refusal(mx, my) is None <==> qpel_refusal(my, mx) is None,
{
}

} // verus!
