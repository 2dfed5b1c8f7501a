//! Post-reconstruction luma loop filter.
use vstd::prelude::*;

use crate::arith::magnitude;
use crate::bytes::clip;
use super::frame::VideoPlane;

verus! {

/// Loop filter selection.
#[derive(Debug, Clone, Copy, PartialEq, Eq, Structural)]
pub enum SrsV2LoopFilterMode {
    /// Reconstructed luma is unchanged.
    Off,
    /// Simple boundary deblocking.
    SimpleDeblock,
}

impl Default for SrsV2LoopFilterMode {
    fn default() -> (r: Self)
        ensures
            r == SrsV2LoopFilterMode::Off,
    {
        SrsV2LoopFilterMode::Off
    }
}

/// Strength used when the header selects 0.
pub const DEFAULT_DEBLOCK_STRENGTH: u8 = 32;

/// The strength that a header byte stands for.
pub open spec fn effective_strength(byte: u8) -> u8 {
    if byte == 0 { DEFAULT_DEBLOCK_STRENGTH } else { byte }
}

/// Maps the strength byte to the value that the filter uses.
pub fn resolve_deblock_strength(byte: u8) -> (r: u8)
    ensures
        r == effective_strength(byte),
{
    if byte == 0 {
        DEFAULT_DEBLOCK_STRENGTH
    } else {
        byte
    }
}

/// The largest difference across a boundary that is softened; a stronger filter spares more edges.
pub open spec fn boundary_limit(strength: u8) -> int {
    clip(96 - effective_strength(strength) * 3 / 2, 4, 120)
}

/// A sample next to a boundary: moved towards the mean of both sides, unless the edge is sharp.
pub open spec fn softened(v: u8, across: u8, strength: u8) -> u8 {
    let k = clip(effective_strength(strength) as int, 1, 128);
    if magnitude(v - across) > boundary_limit(strength) {
        v
    } else {
        ((v * (256 - k) + (v + across + 1) / 2 * k) / 256) as u8
    }
}

fn edge_threshold(deblock_strength: u8) -> (t: u32)
    ensures
        t == boundary_limit(deblock_strength),
{
    let s: u32 = resolve_deblock_strength(deblock_strength) as u32;
    let drop: u32 = s * 3 / 2;
    if drop >= 92 {
        4
    } else {
        96 - drop
    }
}

/// Softens the two samples at a boundary.
fn blend_boundary_pair(a: u8, b: u8, deblock_strength: u8) -> (r: (u8, u8))
    ensures
        r.0 == softened(a, b, deblock_strength),
        r.1 == softened(b, a, deblock_strength),
{
    let au: u32 = a as u32;
    let bu: u32 = b as u32;
    let gap: u32 = if au > bu { au - bu } else { bu - au };
    if gap > edge_threshold(deblock_strength) {
        return (a, b);
    }
    let se: u32 = resolve_deblock_strength(deblock_strength) as u32;
    let k: u32 = if se < 1 {
        1
    } else if se > 128 {
        128
    } else {
        se
    };
    let mid: u32 = (au + bu + 1) / 2;
    proof {
        lemma_mix(au as int, mid as int, k as int);
        lemma_mix(bu as int, mid as int, k as int);
    }
    (((au * (256 - k) + mid * k) / 256) as u8, ((bu * (256 - k) + mid * k) / 256) as u8)
}

/// A weighted mean of two samples is a sample.
proof fn lemma_mix(v: int, mid: int, k: int)
    requires
        0 <= v <= 255,
        0 <= mid <= 255,
        1 <= k <= 128,
    ensures
        0 <= v * (256 - k) <= 65280,
        0 <= mid * k <= 32640,
        0 <= (v * (256 - k) + mid * k) / 256 <= 255,
{
    assert(0 <= v * (256 - k) <= 255 * (256 - k) && 0 <= mid * k <= 255 * k) by (nonlinear_arith)
        requires
            0 <= v <= 255,
            0 <= mid <= 255,
            1 <= k <= 128,
    ;
}

/// Sample `i` after the vertical boundaries, 8 samples apart, were softened.
pub open spec fn after_columns(
    s: Seq<u8>,
    stride: int,
    w: int,
    h: int,
    strength: u8,
    i: int,
) -> u8 {
    let x = i % stride;
    if i / stride >= h || x >= w {
        s[i]
    } else if x % 8 == 7 && x + 1 < w {
        softened(s[i], s[i + 1], strength)
    } else if x % 8 == 0 && x >= 8 {
        softened(s[i], s[i - 1], strength)
    } else {
        s[i]
    }
}

/// Sample `i` after the horizontal boundaries, 8 rows apart, were softened.
pub open spec fn after_rows(
    s: Seq<u8>,
    stride: int,
    w: int,
    h: int,
    strength: u8,
    i: int,
) -> u8 {
    let y = i / stride;
    if y >= h || i % stride >= w {
        s[i]
    } else if y % 8 == 7 && y + 1 < h {
        softened(s[i], s[i + stride], strength)
    } else if y % 8 == 0 && y >= 8 {
        softened(s[i], s[i - stride], strength)
    } else {
        s[i]
    }
}

/// The samples of a plane after the filter: vertical boundaries, then horizontal ones.
pub open spec fn filtered(s: Seq<u8>, stride: int, w: int, h: int, strength: u8) -> Seq<u8> {
    let c = Seq::new(s.len(), |i: int| after_columns(s, stride, w, h, strength, i));
    Seq::new(s.len(), |i: int| after_rows(c, stride, w, h, strength, i))
}

/// The samples of a plane after the selected filter. Small or incomplete planes are left alone.
pub open spec fn loop_filtered(
    mode: SrsV2LoopFilterMode,
    strength: u8,
    p: VideoPlane<u8>,
) -> Seq<u8> {
    if mode == SrsV2LoopFilterMode::Off || p.width < 2 || p.height < 2 || p.samples@.len()
        < p.stride * p.height {
        p.samples@
    } else {
        filtered(p.samples@, p.stride as int, p.width as int, p.height as int, strength)
    }
}

/// A sample of the plane and its neighbours across a boundary lie in the buffer.
proof fn lemma_neighbours(i: int, stride: int, h: int, n: int)
    requires
        0 <= i < n,
        0 < stride,
        stride * h <= n,
    ensures
        0 <= i % stride < stride,
        0 <= i / stride,
        i == i / stride * stride + i % stride,
        i / stride < h ==> i / stride * stride + stride <= stride * h,
        i / stride + 1 < h ==> i + stride < n,
        i / stride >= 1 ==> i >= stride,
{
    let y = i / stride;
    vstd::arithmetic::div_mod::lemma_fundamental_div_mod(i, stride);
    vstd::arithmetic::div_mod::lemma_div_pos_is_pos(i, stride);
    assert(stride * y == y * stride) by (nonlinear_arith);
    if y < h {
        assert(y * stride + stride <= stride * h) by (nonlinear_arith)
            requires
                y + 1 <= h,
                stride > 0,
        ;
    }
    if y + 1 < h {
        assert(y * stride + 2 * stride <= stride * h) by (nonlinear_arith)
            requires
                y + 2 <= h,
                stride > 0,
        ;
    }
    if y >= 1 {
        assert(y * stride >= stride) by (nonlinear_arith)
            requires
                y >= 1,
                stride > 0,
        ;
    }
}

fn soften_columns(s: &[u8], stride: usize, w: usize, h: usize, strength: u8) -> (out: Vec<u8>)
    requires
        0 < stride,
        w <= stride,
        stride * h <= s@.len(),
    ensures
        out@ == Seq::new(
            s@.len(),
            |i: int| after_columns(s@, stride as int, w as int, h as int, strength, i),
        ),
{
    let n: usize = s.len();
    let mut out: Vec<u8> = Vec::with_capacity(n);
    let mut i: usize = 0;
    while i < n
        invariant
            i <= n,
            n == s@.len(),
            0 < stride,
            w <= stride,
            stride * h <= n,
            out@.len() == i,
            forall|j: int|
                0 <= j < i ==> #[trigger] out@[j] == after_columns(
                    s@,
                    stride as int,
                    w as int,
                    h as int,
                    strength,
                    j,
                ),
        decreases n - i,
    {
        proof {
            lemma_neighbours(i as int, stride as int, h as int, n as int);
        }
        let x: usize = i % stride;
        let v: u8 = if i / stride >= h || x >= w {
            s[i]
        } else if x % 8 == 7 && x < w - 1 {
            blend_boundary_pair(s[i], s[i + 1], strength).0
        } else if x % 8 == 0 && x >= 8 {
            blend_boundary_pair(s[i - 1], s[i], strength).1
        } else {
            s[i]
        };
        out.push(v);
        i += 1;
    }
    out
}

fn soften_rows(s: &[u8], stride: usize, w: usize, h: usize, strength: u8) -> (out: Vec<u8>)
    requires
        0 < stride,
        w <= stride,
        stride * h <= s@.len(),
    ensures
        out@ == Seq::new(
            s@.len(),
            |i: int| after_rows(s@, stride as int, w as int, h as int, strength, i),
        ),
{
    let n: usize = s.len();
    let mut out: Vec<u8> = Vec::with_capacity(n);
    let mut i: usize = 0;
    while i < n
        invariant
            i <= n,
            n == s@.len(),
            0 < stride,
            w <= stride,
            stride * h <= n,
            out@.len() == i,
            forall|j: int|
                0 <= j < i ==> #[trigger] out@[j] == after_rows(
                    s@,
                    stride as int,
                    w as int,
                    h as int,
                    strength,
                    j,
                ),
        decreases n - i,
    {
        proof {
            lemma_neighbours(i as int, stride as int, h as int, n as int);
        }
        let y: usize = i / stride;
        let v: u8 = if y >= h || i % stride >= w {
            s[i]
        } else if y % 8 == 7 && y < h - 1 {
            blend_boundary_pair(s[i], s[i + stride], strength).0
        } else if y % 8 == 0 && y >= 8 {
            blend_boundary_pair(s[i - stride], s[i], strength).1
        } else {
            s[i]
        };
        out.push(v);
        i += 1;
    }
    out
}

/// Applies the selected filter to reconstructed luma.
pub fn apply_loop_filter_y(mode: SrsV2LoopFilterMode, deblock_strength: u8, y: &mut VideoPlane<u8>)
    requires
        old(y).width <= old(y).stride,
    ensures
        final(y).samples@ == loop_filtered(mode, deblock_strength, *old(y)),
        final(y).samples@.len() == old(y).samples@.len(),
        final(y).width == old(y).width,
        final(y).height == old(y).height,
        final(y).stride == old(y).stride,
{
    if mode == SrsV2LoopFilterMode::Off {
        return;
    }
    let w: usize = y.width as usize;
    let h: usize = y.height as usize;
    let stride: usize = y.stride;
    if w < 2 || h < 2 {
        return;
    }
    let n: usize = y.samples.len();
    match stride.checked_mul(h) {
        None => {
            return;
        },
        Some(held) => {
            if n < held {
                return;
            }
        },
    }
    let columns = soften_columns(y.samples.as_slice(), stride, w, h, deblock_strength);
    y.samples = soften_rows(columns.as_slice(), stride, w, h, deblock_strength);
}

/// Applies the simple filter at its default strength.
pub fn apply_simple_mb_boundary_deblock_y(y: &mut VideoPlane<u8>)
    requires
        old(y).width <= old(y).stride,
    ensures
        final(y).samples@ == loop_filtered(SrsV2LoopFilterMode::SimpleDeblock, 0, *old(y)),
        final(y).width == old(y).width,
        final(y).height == old(y).height,
        final(y).stride == old(y).stride,
{
    apply_loop_filter_y(SrsV2LoopFilterMode::SimpleDeblock, 0, y);
}

/// A plane of one value is left as it is.
pub proof fn flat_planes_stay_flat(
    s: Seq<u8>,
    v: u8,
    stride: int,
    w: int,
    h: int,
    strength: u8,
)
    requires
        0 < stride,
        w <= stride,
        stride * h <= s.len(),
        forall|i: int| 0 <= i < s.len() ==> s[i] == v,
    ensures
        filtered(s, stride, w, h, strength) == s,
{
    let k = clip(effective_strength(strength) as int, 1, 128);
    assert(v * (256 - k) + v * k == 256 * v) by (nonlinear_arith);
    assert((v + v + 1) / 2 == v);
    assert(softened(v, v, strength) == v);
    let c = Seq::new(s.len(), |i: int| after_columns(s, stride, w, h, strength, i));
    assert(c =~= s) by {
        assert forall|i: int| 0 <= i < s.len() implies c[i] == s[i] by {
            lemma_neighbours(i, stride, h, s.len() as int);
        }
    }
    assert(filtered(s, stride, w, h, strength) =~= s) by {
        assert forall|i: int| 0 <= i < s.len() implies filtered(s, stride, w, h, strength)[i]
            == s[i] by {
            lemma_neighbours(i, stride, h, s.len() as int);
        }
    }
}

/// A softened sample stays between the two samples at its boundary.
pub proof fn softening_stays_between(v: u8, across: u8, strength: u8)
    ensures
        v <= across ==> v <= softened(v, across, strength) <= across,
        v >= across ==> across <= softened(v, across, strength) <= v,
{
    let k = clip(effective_strength(strength) as int, 1, 128);
    let mid = (v + across + 1) / 2;
    let m = v * (256 - k) + mid * k;
    assert(m == 256 * v + (mid - v) * k) by (nonlinear_arith)
        requires
            m == v * (256 - k) + mid * k,
    ;
    if v <= across {
        assert(0 <= (mid - v) * k <= (mid - v) * 128) by (nonlinear_arith)
            requires
                0 <= mid - v,
                1 <= k <= 128,
        ;
    } else {
        assert((mid - v) * 128 <= (mid - v) * k <= 0) by (nonlinear_arith)
            requires
                mid - v <= 0,
                1 <= k <= 128,
        ;
    }
}

/// The sample at (`x`, `y`) after the simple filter.
pub open spec fn deblocked_at(p: VideoPlane<u8>, strength: u8, x: int, y: int) -> u8 {
    loop_filtered(SrsV2LoopFilterMode::SimpleDeblock, strength, p)[y * p.stride + x]
}

/// Column `x` of a picture of `w` columns stands next to a vertical boundary of the 8x8 grid; rows
/// and horizontal boundaries alike.
pub open spec fn at_boundary(x: int, w: int) -> bool {
    (x % 8 == 7 && x + 1 < w) || (x % 8 == 0 && x > 0)
}

/// `a` and `b` face each other across a boundary and become `c` and `d`: a step that is too sharp
/// for the strength stays, and any other has both sides moved towards their mean `m`, by `s` in
/// 256.
pub open spec fn step_is_softened(a: u8, b: u8, strength: u8, c: u8, d: u8) -> bool {
    let asked: int = if strength == 0 { 32 } else { strength as int };
    let s: int = if asked > 128 { 128 } else { asked };
    let limit: int = if asked * 3 / 2 > 92 { 4 } else { 96 - asked * 3 / 2 };
    let m = (a + b + 1) / 2;
    if a - b > limit || b - a > limit {
        c == a && d == b
    } else {
        &&& 256 * c <= 256 * a + (m - a) * s < 256 * c + 256
        &&& 256 * d <= 256 * b + (m - b) * s < 256 * d + 256
    }
}

proof fn lemma_pair_softened(a: u8, b: u8, strength: u8)
    ensures
        step_is_softened(a, b, strength, softened(a, b, strength), softened(b, a, strength)),
{
    let k = clip(effective_strength(strength) as int, 1, 128);
    let m = (a + b + 1) / 2;
    assert(a * (256 - k) + m * k == 256 * a + (m - a) * k) by (nonlinear_arith);
    assert(b * (256 - k) + m * k == 256 * b + (m - b) * k) by (nonlinear_arith);
    lemma_mix(a as int, m, k);
    lemma_mix(b as int, m, k);
}

proof fn lemma_place(x: int, y: int, w: int, h: int, stride: int, n: int)
    requires
        0 <= x < w <= stride,
        0 <= y < h,
        stride * h <= n,
    ensures
        0 <= y * stride + x < n,
        (y * stride + x) % stride == x,
        (y * stride + x) / stride == y,
        (y + 1) * stride + x == y * stride + x + stride,
        y > 0 ==> (y - 1) * stride + x == y * stride + x - stride,
{
    super::frame::lemma_packed_at(x, y, stride, h);
    assert((y + 1) * stride == y * stride + stride && (y - 1) * stride == y * stride - stride)
        by (nonlinear_arith);
}

/// Horizontal boundaries are softened like vertical ones: the two samples that face each other
/// across either, with no other boundary beside them, are moved towards their mean unless the step
/// between them is sharp.
pub proof fn steps_are_softened_in_both_directions(p: VideoPlane<u8>, strength: u8, x: int, y: int)
    requires
        p.valid(),
        p.width >= 2,
        p.height >= 2,
        0 <= x < p.width,
        0 <= y < p.height,
    ensures
        y % 8 == 7 && y + 1 < p.height && !at_boundary(x, p.width as int) ==> step_is_softened(
            p.at(x, y),
            p.at(x, y + 1),
            strength,
            deblocked_at(p, strength, x, y),
            deblocked_at(p, strength, x, y + 1),
        ),
        x % 8 == 7 && x + 1 < p.width && !at_boundary(y, p.height as int) ==> step_is_softened(
            p.at(x, y),
            p.at(x + 1, y),
            strength,
            deblocked_at(p, strength, x, y),
            deblocked_at(p, strength, x + 1, y),
        ),
{
    let (w, h, stride) = (p.width as int, p.height as int, p.stride as int);
    let n = p.samples@.len() as int;
    assert(p.height * p.stride == stride * h) by (nonlinear_arith)
        requires
            stride == p.stride,
            h == p.height,
    ;
    lemma_place(x, y, w, h, stride, n);
    if y % 8 == 7 && y + 1 < h && !at_boundary(x, w) {
        lemma_place(x, y + 1, w, h, stride, n);
        lemma_pair_softened(p.at(x, y), p.at(x, y + 1), strength);
    }
    if x % 8 == 7 && x + 1 < w && !at_boundary(y, h) {
        lemma_place(x + 1, y, w, h, stride, n);
        lemma_pair_softened(p.at(x, y), p.at(x + 1, y), strength);
    }
}

/// Samples away from the boundaries stay as they are, and so does everything while the filter is
/// off.
pub proof fn only_boundaries_change(p: VideoPlane<u8>, strength: u8, x: int, y: int)
    requires
        p.valid(),
        0 <= x < p.width,
        0 <= y < p.height,
    ensures
        !at_boundary(x, p.width as int) && !at_boundary(y, p.height as int) ==> deblocked_at(
            p,
            strength,
            x,
            y,
        ) == p.at(x, y),
        loop_filtered(SrsV2LoopFilterMode::Off, strength, p) == p.samples@,
        loop_filtered(SrsV2LoopFilterMode::SimpleDeblock, strength, p).len() == p.samples@.len(),
{
    let (w, h, stride) = (p.width as int, p.height as int, p.stride as int);
    assert(p.height * p.stride == stride * h) by (nonlinear_arith)
        requires
            stride == p.stride,
            h == p.height,
    ;
    lemma_place(x, y, w, h, stride, p.samples@.len() as int);
}

proof fn lemma_equal_pair(v: u8, strength: u8)
    ensures
        softened(v, v, strength) == v,
{
    let k = clip(effective_strength(strength) as int, 1, 128);
    assert(v * (256 - k) + v * k == 256 * v) by (nonlinear_arith);
    assert((v + v + 1) / 2 == v);
}

/// The filter treats both directions alike: a picture that varies only from row to row and the
/// same picture turned on its side, which varies only from column to column, come out turned on
/// their sides as well.
pub proof fn filter_treats_directions_alike(
    p: VideoPlane<u8>,
    q: VideoPlane<u8>,
    strength: u8,
    x: int,
    y: int,
)
    requires
        p.valid(),
        q.valid(),
        q.width == p.height,
        q.height == p.width,
        forall|i: int, j: int|
            0 <= i < p.width && 0 <= j < p.height ==> #[trigger] p.at(i, j) == p.at(0, j),
        forall|i: int, j: int|
            0 <= i < p.width && 0 <= j < p.height ==> #[trigger] q.at(j, i) == p.at(0, j),
        0 <= x < p.width,
        0 <= y < p.height,
    ensures
        deblocked_at(q, strength, y, x) == deblocked_at(p, strength, x, y),
{
    let (w, h) = (p.width as int, p.height as int);
    let (ps, qs) = (p.stride as int, q.stride as int);
    let (pn, qn) = (p.samples@.len() as int, q.samples@.len() as int);
    assert(p.height * p.stride == ps * h && q.height * q.stride == qs * w) by (nonlinear_arith)
        requires
            ps == p.stride,
            qs == q.stride,
            h == p.height,
            w == q.height,
    ;
    lemma_place(x, y, w, h, ps, pn);
    lemma_place(y, x, h, w, qs, qn);
    assert(p.at(x, y) == p.at(0, y) && q.at(y, x) == p.at(0, y));
    if w >= 2 && h >= 2 {
        let pc = Seq::new(p.samples@.len(), |i: int| after_columns(p.samples@, ps, w, h, strength, i));
        let qc = Seq::new(q.samples@.len(), |i: int| after_columns(q.samples@, qs, h, w, strength, i));
        // Softening columns leaves `p` alone and does all the work on `q`.
        assert forall|j: int| 0 <= j < h implies #[trigger] pc[j * ps + x] == p.at(0, j) by {
            lemma_place(x, j, w, h, ps, pn);
            lemma_equal_pair(p.at(0, j), strength);
            assert(p.at(x, j) == p.at(0, j));
            if x + 1 < w {
                assert(p.at(x + 1, j) == p.at(0, j));
            }
            if x >= 1 {
                assert(p.at(x - 1, j) == p.at(0, j));
            }
        }
        let turned = if y % 8 == 7 && y + 1 < h {
            softened(p.at(0, y), p.at(0, y + 1), strength)
        } else if y % 8 == 0 && y >= 8 {
            softened(p.at(0, y), p.at(0, y - 1), strength)
        } else {
            p.at(0, y)
        };
        assert forall|i: int| 0 <= i < w implies #[trigger] qc[i * qs + y] == turned by {
            lemma_place(y, i, h, w, qs, qn);
            assert(q.at(y, i) == p.at(0, y) && p.at(i, y) == p.at(0, y));
            if y + 1 < h {
                assert(p.at(i, y + 1) == p.at(0, y + 1) && q.at(y + 1, i) == p.at(0, y + 1));
            }
            if y >= 1 {
                assert(p.at(i, y - 1) == p.at(0, y - 1) && q.at(y - 1, i) == p.at(0, y - 1));
            }
        }
        lemma_equal_pair(turned, strength);
        assert(pc[y * ps + x] == p.at(0, y));
        assert(qc[x * qs + y] == turned);
        if y + 1 < h {
            assert(pc[(y + 1) * ps + x] == p.at(0, y + 1));
        }
        if y >= 1 {
            assert(pc[(y - 1) * ps + x] == p.at(0, y - 1));
        }
        if x + 1 < w {
            assert(qc[(x + 1) * qs + y] == turned);
        }
        if x >= 1 {
            assert(qc[(x - 1) * qs + y] == turned);
        }
    }
}

} // verus!
