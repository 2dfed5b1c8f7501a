//! 4:2:0 sampling around a color conversion; the conversion of single pixels is done elsewhere.
use vstd::prelude::*;

use super::error::SrsV2Error;
use super::frame::{
    lemma_packed_at, lemma_packed_position, packed, plane_refusal, VideoPlane, YuvFrame,
};
use super::model::PixelFormat;

verus! {

/// A pixel as luma and both chroma components.
#[derive(Debug, Clone, Copy, PartialEq, Eq, Structural)]
pub struct YCbCr {
    pub y: u8,
    pub cb: u8,
    pub cr: u8,
}

/// Half of a side, rounded up.
pub open spec fn half_up(n: int) -> int {
    (n + 1) / 2
}

/// One of the up to four pixels that share a chroma sample, or nothing outside the picture.
pub open spec fn shared(w: int, h: int, f: spec_fn(int) -> int, x: int, y: int) -> int {
    if x < w && y < h {
        f(y * w + x)
    } else {
        0
    }
}

/// The pixels that share chroma sample `(x, y)`, added up.
pub open spec fn shared_sum(w: int, h: int, f: spec_fn(int) -> int, x: int, y: int) -> int {
    shared(w, h, f, 2 * x, 2 * y) + shared(w, h, f, 2 * x + 1, 2 * y) + shared(
        w,
        h,
        f,
        2 * x,
        2 * y + 1,
    ) + shared(w, h, f, 2 * x + 1, 2 * y + 1)
}

/// The rounded average of the pixels that share chroma sample `(x, y)`.
pub open spec fn shared_average(w: int, h: int, f: spec_fn(int) -> int, x: int, y: int) -> int {
    let n = shared_sum(w, h, |i: int| 1int, x, y);
    (2 * shared_sum(w, h, f, x, y) + n) / (2 * n)
}

/// The blue chroma of each pixel.
pub open spec fn blues(p: Seq<YCbCr>) -> spec_fn(int) -> int {
    |i: int| p[i].cb as int
}

/// The red chroma of each pixel.
pub open spec fn reds(p: Seq<YCbCr>) -> spec_fn(int) -> int {
    |i: int| p[i].cr as int
}

/// Why an RGB picture has no planes, if it has none.
pub open spec fn rgb_refusal(len: int, w: int, h: int) -> Option<SrsV2Error> {
    if w * h * 3 > usize::MAX {
        Some(SrsV2Error::Overflow("rgb buffer"))
    } else if len < w * h * 3 {
        Some(SrsV2Error::Syntax("rgb buffer too small"))
    } else if plane_refusal(w, h, w) is Some {
        plane_refusal(w, h, w)
    } else {
        plane_refusal(half_up(w), half_up(h), half_up(w))
    }
}

/// A 4:2:0 picture of converted pixels: luma as it is, each chroma sample the average of the
/// pixels that share it.
pub open spec fn is_subsampled(f: YuvFrame, w: int, h: int, p: Seq<YCbCr>) -> bool {
    &&& f.format is Yuv420p8
    &&& f.y@ == (super::frame::PlaneView {
        width: w,
        height: h,
        stride: w,
        samples: Seq::new((w * h) as nat, |i: int| p[i].y),
    })
    &&& f.u@ == (super::frame::PlaneView {
        width: half_up(w),
        height: half_up(h),
        stride: half_up(w),
        samples: packed(
            half_up(w),
            half_up(h),
            |x: int, y: int| shared_average(w, h, blues(p), x, y) as u8,
        ),
    })
    &&& f.v@ == (super::frame::PlaneView {
        width: half_up(w),
        height: half_up(h),
        stride: half_up(w),
        samples: packed(
            half_up(w),
            half_up(h),
            |x: int, y: int| shared_average(w, h, reds(p), x, y) as u8,
        ),
    })
}

fn average_of(pixels: &[YCbCr], w: usize, h: usize, x: usize, y: usize, blue: bool) -> (v: u8)
    requires
        pixels@.len() == w * h,
        w <= 8192,
        h <= 8192,
        x < half_up(w as int),
        y < half_up(h as int),
    ensures
        blue ==> v == shared_average(w as int, h as int, blues(pixels@), x as int, y as int),
        !blue ==> v == shared_average(w as int, h as int, reds(pixels@), x as int, y as int),
{
    let ghost f = if blue {
        blues(pixels@)
    } else {
        reds(pixels@)
    };
    let ghost one = |i: int| 1int;
    let mut sum: u32 = 0;
    let mut n: u32 = 0;
    let mut k: usize = 0;
    while k < 4
        invariant
            k <= 4,
            pixels@.len() == w * h,
            w <= 8192,
            h <= 8192,
            x < half_up(w as int),
            y < half_up(h as int),
            f == if blue {
                blues(pixels@)
            } else {
                reds(pixels@)
            },
            one == (|i: int| 1int),
            sum == first_terms(w as int, h as int, f, x as int, y as int, k as int),
            n == first_terms(w as int, h as int, one, x as int, y as int, k as int),
            k >= 1 ==> n >= 1,
            n <= k,
            sum <= 255 * n,
        decreases 4 - k,
    {
        let px: usize = 2 * x + k % 2;
        let py: usize = 2 * y + k / 2;
        if px < w && py < h {
            proof {
                lemma_packed_at(px as int, py as int, w as int, h as int);
            }
            assert(py * w <= 67108864) by (nonlinear_arith)
                requires
                    py <= 8192,
                    w <= 8192,
            ;
            let p: YCbCr = pixels[py * w + px];
            sum = sum + if blue { p.cb as u32 } else { p.cr as u32 };
            n = n + 1;
        }
        k += 1;
    }
    proof {
        lemma_average_small(sum as int, n as int);
    }
    ((2 * sum + n) / (2 * n)) as u8
}

/// The first `k` of the four pixels that share a chroma sample, added up.
spec fn first_terms(w: int, h: int, f: spec_fn(int) -> int, x: int, y: int, k: int) -> int {
    (if k > 0 {
        shared(w, h, f, 2 * x, 2 * y)
    } else {
        0
    }) + (if k > 1 {
        shared(w, h, f, 2 * x + 1, 2 * y)
    } else {
        0
    }) + (if k > 2 {
        shared(w, h, f, 2 * x, 2 * y + 1)
    } else {
        0
    }) + (if k > 3 {
        shared(w, h, f, 2 * x + 1, 2 * y + 1)
    } else {
        0
    })
}

proof fn lemma_average_small(sum: int, n: int)
    requires
        1 <= n <= 4,
        0 <= sum <= 255 * n,
    ensures
        0 <= (2 * sum + n) / (2 * n) <= 255,
{
    assert(0 <= (2 * sum + n) / (2 * n) <= 255) by (nonlinear_arith)
        requires
            1 <= n <= 4,
            0 <= sum <= 255 * n,
    ;
}

fn chroma_plane(pixels: &[YCbCr], w: usize, h: usize, blue: bool) -> (s: Vec<u8>)
    requires
        pixels@.len() == w * h,
        1 <= w <= 8192,
        1 <= h <= 8192,
    ensures
        blue ==> s@ == packed(
            half_up(w as int),
            half_up(h as int),
            |x: int, y: int| shared_average(w as int, h as int, blues(pixels@), x, y) as u8,
        ),
        !blue ==> s@ == packed(
            half_up(w as int),
            half_up(h as int),
            |x: int, y: int| shared_average(w as int, h as int, reds(pixels@), x, y) as u8,
        ),
{
    let ghost g = if blue {
        |x: int, y: int| shared_average(w as int, h as int, blues(pixels@), x, y) as u8
    } else {
        |x: int, y: int| shared_average(w as int, h as int, reds(pixels@), x, y) as u8
    };
    let cw: usize = (w + 1) / 2;
    let ch: usize = (h + 1) / 2;
    assert(cw * ch <= 67108864) by (nonlinear_arith)
        requires
            cw <= 8192,
            ch <= 8192,
    ;
    let n: usize = cw * ch;
    let mut s: Vec<u8> = Vec::new();
    let mut i: usize = 0;
    while i < n
        invariant
            i <= n,
            n == cw * ch,
            cw == half_up(w as int),
            ch == half_up(h as int),
            1 <= w <= 8192,
            1 <= h <= 8192,
            pixels@.len() == w * h,
            g == if blue {
                |x: int, y: int| shared_average(w as int, h as int, blues(pixels@), x, y) as u8
            } else {
                |x: int, y: int| shared_average(w as int, h as int, reds(pixels@), x, y) as u8
            },
            s@ =~= packed(cw as int, ch as int, g).take(i as int),
        decreases n - i,
    {
        proof {
            lemma_packed_position(i as int, cw as int, ch as int);
        }
        let v: u8 = average_of(pixels, w, h, i % cw, i / cw, blue);
        s.push(v);
        i += 1;
    }
    assert(s@ =~= packed(cw as int, ch as int, g));
    s
}

/// Samples an RGB picture down to 4:2:0; `converted` holds each of its pixels after the color
/// conversion.
pub fn rgb888_full_to_yuv420_bt709(
    rgb: &[u8],
    width: u32,
    height: u32,
    converted: &[YCbCr],
) -> (r: Result<YuvFrame, SrsV2Error>)
    requires
        rgb@.len() >= width * height * 3 ==> converted@.len() == width * height,
    ensures
        match rgb_refusal(rgb@.len() as int, width as int, height as int) {
            Some(e) => r == Err::<YuvFrame, SrsV2Error>(e),
            None => r is Ok && r->Ok_0.valid() && is_subsampled(
                r->Ok_0,
                width as int,
                height as int,
                converted@,
            ),
        },
{
    let (w, h): (usize, usize) = (width as usize, height as usize);
    let pixels: usize = match w.checked_mul(h) {
        None => {
            return Err(SrsV2Error::Overflow("rgb buffer"));
        },
        Some(n) => n,
    };
    match pixels.checked_mul(3) {
        None => {
            return Err(SrsV2Error::Overflow("rgb buffer"));
        },
        Some(expected) => {
            if rgb.len() < expected {
                return Err(SrsV2Error::syntax("rgb buffer too small"));
            }
        },
    }
    let cw: u32 = width / 2 + width % 2;
    let ch: u32 = height / 2 + height % 2;
    let mut y: VideoPlane<u8> = VideoPlane::<u8>::try_new(width, height, w)?;
    let mut u: VideoPlane<u8> = VideoPlane::<u8>::try_new(cw, ch, cw as usize)?;
    let mut v: VideoPlane<u8> = VideoPlane::<u8>::try_new(cw, ch, cw as usize)?;
    let mut luma: Vec<u8> = Vec::new();
    let mut i: usize = 0;
    while i < pixels
        invariant
            i <= pixels,
            pixels == converted@.len(),
            luma@ =~= Seq::new(pixels as nat, |k: int| converted@[k].y).take(i as int),
        decreases pixels - i,
    {
        luma.push(converted[i].y);
        i += 1;
    }
    assert(luma@ =~= Seq::new((w * h) as nat, |k: int| converted@[k].y));
    assert(w * h == h * w) by (nonlinear_arith);
    assert(cw * ch == ch * cw) by (nonlinear_arith);
    y.samples = luma;
    u.samples = chroma_plane(converted, w, h, true);
    v.samples = chroma_plane(converted, w, h, false);
    Ok(YuvFrame { format: PixelFormat::Yuv420p8, y, u, v })
}

/// The pixels of a 4:2:0 picture, row by row, each with the nearest chroma sample. A color
/// conversion of each makes an RGB preview.
pub fn yuv420_preview_pixels(yuv: &YuvFrame) -> (r: Result<Vec<YCbCr>, SrsV2Error>)
    requires
        yuv.valid(),
        yuv.u.width == half_up(yuv.y.width as int),
        yuv.u.height == half_up(yuv.y.height as int),
        yuv.v.width == half_up(yuv.y.width as int),
        yuv.v.height == half_up(yuv.y.height as int),
    ensures
        yuv.format !is Yuv420p8 ==> r == Err::<Vec<YCbCr>, SrsV2Error>(
            SrsV2Error::Unsupported("preview only YUV420p8"),
        ),
        yuv.format is Yuv420p8 ==> r is Ok && r->Ok_0@ == preview(*yuv),
{
    if yuv.format != PixelFormat::Yuv420p8 {
        return Err(SrsV2Error::Unsupported("preview only YUV420p8"));
    }
    let (w, h): (usize, usize) = (yuv.y.width as usize, yuv.y.height as usize);
    assert(w * h <= 67108864) by (nonlinear_arith)
        requires
            w <= 8192,
            h <= 8192,
    ;
    let n: usize = w * h;
    let mut out: Vec<YCbCr> = Vec::new();
    let mut i: usize = 0;
    while i < n
        invariant
            i <= n,
            n == w * h,
            w == yuv.y.width,
            h == yuv.y.height,
            yuv.valid(),
            yuv.u.width == half_up(yuv.y.width as int),
            yuv.u.height == half_up(yuv.y.height as int),
            yuv.v.width == half_up(yuv.y.width as int),
            yuv.v.height == half_up(yuv.y.height as int),
            out@ =~= preview(*yuv).take(i as int),
        decreases n - i,
    {
        proof {
            assert(w > 0) by (nonlinear_arith)
                requires
                    0 <= i < w * h,
                    w >= 0,
            ;
            lemma_packed_position(i as int, w as int, h as int);
        }
        let (x, y): (usize, usize) = (i % w, i / w);
        out.push(
            YCbCr { y: yuv.y.get(x, y), cb: yuv.u.get(x / 2, y / 2), cr: yuv.v.get(x / 2, y / 2) },
        );
        i += 1;
    }
    assert(out@ =~= preview(*yuv));
    Ok(out)
}

/// The pixels of a 4:2:0 picture, each with the nearest chroma sample.
pub open spec fn preview(f: YuvFrame) -> Seq<YCbCr> {
    let w = f.y.width as int;
    Seq::new(
        (w * f.y.height) as nat,
        |i: int|
            YCbCr {
                y: f.y.at(i % w, i / w),
                cb: f.u.at(i % w / 2, i / w / 2),
                cr: f.v.at(i % w / 2, i / w / 2),
            },
    )
}

/// Luma is taken over as it is, and each chroma sample is the mean of the four pixels that share
/// it, rounded to nearest.
pub proof fn chroma_is_the_mean_of_its_pixels(
    f: YuvFrame,
    w: int,
    h: int,
    p: Seq<YCbCr>,
    x: int,
    y: int,
)
    requires
        is_subsampled(f, w, h, p),
        p.len() >= w * h,
        0 <= x,
        0 <= y,
        2 * x + 1 < w,
        2 * y + 1 < h,
    ensures
        ({
            let px = |dx: int, dy: int| p[(2 * y + dy) * w + 2 * x + dx];
            let u = f.u.at(x, y) as int;
            let v = f.v.at(x, y) as int;
            &&& f.y.at(2 * x, 2 * y) == px(0, 0).y
            &&& f.y.at(2 * x + 1, 2 * y) == px(1, 0).y
            &&& f.y.at(2 * x, 2 * y + 1) == px(0, 1).y
            &&& f.y.at(2 * x + 1, 2 * y + 1) == px(1, 1).y
            &&& 4 * u - 2 <= px(0, 0).cb + px(1, 0).cb + px(0, 1).cb + px(1, 1).cb <= 4 * u + 1
            &&& 4 * v - 2 <= px(0, 0).cr + px(1, 0).cr + px(0, 1).cr + px(1, 1).cr <= 4 * v + 1
        }),
{
    lemma_packed_at(2 * x, 2 * y, w, h);
    lemma_packed_at(2 * x + 1, 2 * y, w, h);
    lemma_packed_at(2 * x, 2 * y + 1, w, h);
    lemma_packed_at(2 * x + 1, 2 * y + 1, w, h);
    lemma_packed_at(x, y, half_up(w), half_up(h));
    lemma_group(w, h, blues(p), x, y);
    lemma_group(w, h, reds(p), x, y);
    assert(f.u.at(x, y) == f.u@.samples[y * half_up(w) + x]);
    assert(f.v.at(x, y) == f.v@.samples[y * half_up(w) + x]);
    assert(f.y.at(2 * x, 2 * y) == f.y@.samples[2 * y * w + 2 * x]);
    assert(f.y.at(2 * x + 1, 2 * y) == f.y@.samples[2 * y * w + (2 * x + 1)]);
    assert(f.y.at(2 * x, 2 * y + 1) == f.y@.samples[(2 * y + 1) * w + 2 * x]);
    assert(f.y.at(2 * x + 1, 2 * y + 1) == f.y@.samples[(2 * y + 1) * w + (2 * x + 1)]);
}

/// How many pixels share a chroma sample, and what their average is.
proof fn lemma_group(w: int, h: int, f: spec_fn(int) -> int, x: int, y: int)
    requires
        0 <= x,
        0 <= y,
        2 * x < w,
        2 * y < h,
        forall|i: int| 0 <= #[trigger] f(i) <= 255,
    ensures
        ({
            let n = (if 2 * x + 1 < w {
                2int
            } else {
                1
            }) * (if 2 * y + 1 < h {
                2int
            } else {
                1
            });
            let s = shared_sum(w, h, f, x, y);
            let a = shared_average(w, h, f, x, y);
            &&& 0 <= a <= 255
            &&& 0 <= s <= 255 * n
            &&& n == 4 ==> 4 * a - 2 <= s <= 4 * a + 1
            &&& n == 2 ==> 2 * a - 1 <= s <= 2 * a
            &&& n == 1 ==> a == s
        }),
{
    let ones = |i: int| 1int;
    let n = shared_sum(w, h, ones, x, y);
    let s = shared_sum(w, h, f, x, y);
    assert(n == 1 || n == 2 || n == 4);
    lemma_average_small(s, n);
    if n == 4 {
        assert((2 * s + 4) / 8 == shared_average(w, h, f, x, y));
    } else if n == 2 {
        assert((2 * s + 2) / 4 == shared_average(w, h, f, x, y));
    } else {
        assert((2 * s + 1) / 2 == shared_average(w, h, f, x, y));
    }
}

/// At an odd edge of the picture a chroma sample is the mean of the two pixels that share it, and
/// at an odd corner the chroma of the one pixel that is there.
pub proof fn chroma_at_odd_edges(f: YuvFrame, w: int, h: int, p: Seq<YCbCr>, k: int)
    requires
        is_subsampled(f, w, h, p),
        p.len() >= w * h,
        0 < w,
        0 < h,
        0 <= k,
    ensures
        w % 2 == 1 && 2 * k + 1 < h ==> {
            let x = w / 2;
            let s = p[2 * k * w + w - 1].cb + p[(2 * k + 1) * w + w - 1].cb;
            2 * f.u.at(x, k) - 1 <= s <= 2 * f.u.at(x, k)
        },
        h % 2 == 1 && 2 * k + 1 < w ==> {
            let y = h / 2;
            let s = p[(h - 1) * w + 2 * k].cb + p[(h - 1) * w + 2 * k + 1].cb;
            2 * f.u.at(k, y) - 1 <= s <= 2 * f.u.at(k, y)
        },
        w % 2 == 1 && h % 2 == 1 ==> f.u.at(w / 2, h / 2) == p[(h - 1) * w + w
            - 1].cb,
{
    if w % 2 == 1 && 2 * k + 1 < h {
        lemma_packed_at(w / 2, k, half_up(w), half_up(h));
        lemma_group(w, h, blues(p), w / 2, k);
        assert(f.u.at(w / 2, k) == f.u@.samples[k * half_up(w) + w / 2]);
        assert(2 * k * w + w - 1 == 2 * k * w + 2 * (w / 2));
    }
    if h % 2 == 1 && 2 * k + 1 < w {
        lemma_packed_at(k, h / 2, half_up(w), half_up(h));
        lemma_group(w, h, blues(p), k, h / 2);
        assert(f.u.at(k, h / 2) == f.u@.samples[h / 2 * half_up(w) + k]);
        assert(2 * (h / 2) == h - 1);
    }
    if w % 2 == 1 && h % 2 == 1 {
        lemma_packed_at(w / 2, h / 2, half_up(w), half_up(h));
        lemma_group(w, h, blues(p), w / 2, h / 2);
        assert(f.u.at(w / 2, h / 2) == f.u@.samples[h / 2 * half_up(w) + w / 2]);
        assert(2 * (h / 2) == h - 1 && 2 * (w / 2) == w - 1);
    }
}

/// A preview shows every pixel with its own luma and the chroma of its group of four, so a picture
/// whose groups have one chroma each comes back as it was.
pub proof fn preview_gives_the_picture_back(
    f: YuvFrame,
    w: int,
    h: int,
    p: Seq<YCbCr>,
    x: int,
    y: int,
)
    requires
        is_subsampled(f, w, h, p),
        p.len() >= w * h,
        w % 2 == 0,
        h % 2 == 0,
        0 <= x < w,
        0 <= y < h,
        forall|i: int, j: int|
            0 <= i < w && 0 <= j < h && i / 2 == x / 2 && j / 2 == y / 2 ==> (#[trigger] p[j * w
                + i]).cb == p[y * w + x].cb && p[j * w + i].cr == p[y * w + x].cr,
    ensures
        preview(f)[y * w + x] == p[y * w + x],
        preview(f).len() == w * h,
{
    let (cx, cy) = (x / 2, y / 2);
    chroma_is_the_mean_of_its_pixels(f, w, h, p, cx, cy);
    lemma_packed_at(x, y, w, h);
    assert(p[(2 * cy) * w + 2 * cx].cb == p[y * w + x].cb);
    assert(p[(2 * cy) * w + (2 * cx + 1)].cb == p[y * w + x].cb);
    assert(p[(2 * cy + 1) * w + 2 * cx].cb == p[y * w + x].cb);
    assert(p[(2 * cy + 1) * w + (2 * cx + 1)].cb == p[y * w + x].cb);
}

} // verus!
