//! Frame buffers with stride-aware planes and allocation guards.
use vstd::prelude::*;

use super::error::SrsV2Error;
use super::limits::{MAX_DIMENSION, MAX_LUMA_SAMPLES};
use super::model::PixelFormat;

verus! {

/// One sample plane; row `y` starts at `y * stride`.
#[derive(Debug, Clone)]
pub struct VideoPlane<T> {
    pub width: u32,
    pub height: u32,
    pub stride: usize,
    pub samples: Vec<T>,
}

/// The values of a tightly packed `w` by `h` plane, row by row.
pub open spec fn packed(w: int, h: int, f: spec_fn(int, int) -> u8) -> Seq<u8> {
    Seq::new((w * h) as nat, |i: int| f(i % w, i / w))
}

/// A packed plane of `w` by `h` samples, each 0.
pub open spec fn zeros(n: int) -> Seq<u8> {
    Seq::new(n as nat, |i: int| 0u8)
}

/// The sample offset of column `x` in row `y` lies inside the buffer.
pub proof fn lemma_offset(x: int, y: int, w: int, h: int, stride: int)
    requires
        0 <= x < w,
        0 <= y < h,
        w <= stride,
    ensures
        0 <= y * stride + x < h * stride,
        0 <= y * stride <= h * stride,
        y * stride + stride <= h * stride,
{
    assert(y * stride + stride <= h * stride) by (nonlinear_arith)
        requires
            0 <= y < h,
            0 <= stride,
    ;
    assert(0 <= y * stride) by (nonlinear_arith)
        requires
            0 <= y,
            0 <= stride,
    ;
}

/// Position `i` of a packed plane is column `i % w` of row `i / w`.
pub proof fn lemma_packed_position(i: int, w: int, h: int)
    requires
        0 <= i < w * h,
        0 < w,
    ensures
        0 <= i % w < w,
        0 <= i / w < h,
        i == (i / w) * w + i % w,
{
    assert(0 <= i % w < w && 0 <= i / w < h && i == (i / w) * w + i % w) by (nonlinear_arith)
        requires
            0 <= i < w * h,
            0 < w,
    ;
}

/// Column `x` of row `y` sits at position `y * w + x` of a packed plane.
pub proof fn lemma_packed_at(x: int, y: int, w: int, h: int)
    requires
        0 <= x < w,
        0 <= y < h,
    ensures
        0 <= y * w + x < w * h,
        (y * w + x) % w == x,
        (y * w + x) / w == y,
{
    lemma_offset(x, y, w, h, w);
    assert(h * w == w * h) by (nonlinear_arith);
    vstd::arithmetic::div_mod::lemma_fundamental_div_mod_converse(y * w + x, w, y, x);
}

impl VideoPlane<u8> {
    /// The dimensions respect the caps of the format and the buffer holds every row.
    pub open spec fn valid(self) -> bool {
        &&& self.width <= MAX_DIMENSION
        &&& self.height <= MAX_DIMENSION
        &&& self.width <= self.stride
        &&& self.height * self.stride <= self.samples.len()
    }

    /// The sample in column `x` of row `y`.
    pub open spec fn at(self, x: int, y: int) -> u8 {
        self.samples@[y * self.stride + x]
    }

    /// Reads the sample in column `x` of row `y`.
    pub fn get(&self, x: usize, y: usize) -> (v: u8)
        requires
            self.valid(),
            x < self.width,
            y < self.height,
        ensures
            v == self.at(x as int, y as int),
    {
        proof {
            lemma_offset(
                x as int,
                y as int,
                self.width as int,
                self.height as int,
                self.stride as int,
            );
        }
        self.samples[y * self.stride + x]
    }

    /// A plane of zero samples, unless the geometry is refused.
    pub fn try_new(width: u32, height: u32, stride: usize) -> (r: Result<Self, SrsV2Error>)
        ensures
            match plane_refusal(width as int, height as int, stride as int) {
                Some(e) => r == Err::<Self, SrsV2Error>(e),
                None => r is Ok && r->Ok_0.width == width && r->Ok_0.height == height
                    && r->Ok_0.stride == stride && r->Ok_0.samples@ == zeros(stride * height)
                    && r->Ok_0.valid(),
            },
    {
        match validate_plane_geometry(width, height, stride, 1) {
            Ok(_) => {},
            Err(e) => {
                return Err(e);
            },
        }
        let rows: usize = height as usize;
        let need: usize = match stride.checked_mul(rows) {
            Some(n) => n,
            None => {
                return Err(SrsV2Error::Overflow("plane byte length"));
            },
        };
        if need > MAX_LUMA_SAMPLES as usize {
            return Err(SrsV2Error::AllocationLimit { context: "plane exceeds MAX_LUMA_SAMPLES" });
        }
        let samples: Vec<u8> = vec![0u8; need];
        assert(samples@ =~= zeros(stride * height));
        assert(height * stride == stride * height) by (nonlinear_arith);
        Ok(VideoPlane { width, height, stride, samples })
    }

    /// The samples of row `y`.
    pub fn row(&self, y: usize) -> (r: &[u8])
        requires
            self.valid(),
            y < self.height,
        ensures
            r@ == self.samples@.subrange(
                y * self.stride,
                y * self.stride + self.width,
            ),
    {
        proof {
            lemma_row(*self, y as int);
        }
        let start: usize = y * self.stride;
        vstd::slice::slice_subrange(self.samples.as_slice(), start, start + self.width as usize)
    }

    /// The samples of row `y`, for writing; nothing outside the row changes.
    pub fn row_mut(&mut self, y: usize) -> (r: &mut [u8])
        requires
            old(self).valid(),
            y < old(self).height,
        ensures
            r@ == old(self).samples@.subrange(
                y * old(self).stride,
                y * old(self).stride + old(self).width,
            ),
            final(self).width == old(self).width,
            final(self).height == old(self).height,
            final(self).stride == old(self).stride,
            final(r)@.len() == r@.len() ==> final(self).samples@ == old(self).samples@.subrange(
                0,
                y * old(self).stride,
            ) + final(r)@ + old(self).samples@.subrange(
                y * old(self).stride + old(self).width,
                old(self).samples@.len() as int,
            ),
    {
        proof {
            lemma_row(*self, y as int);
        }
        let start: usize = y * self.stride;
        let w: usize = self.width as usize;
        let (_, tail) = self.samples.as_mut_slice().split_at_mut(start);
        let (row, _) = tail.split_at_mut(w);
        row
    }
}

proof fn lemma_row(p: VideoPlane<u8>, y: int)
    requires
        p.valid(),
        0 <= y < p.height,
    ensures
        0 <= y * p.stride,
        y * p.stride + p.width <= p.samples.len(),
{
    if p.width > 0 {
        lemma_offset(p.width - 1, y, p.width as int, p.height as int, p.stride as int);
    } else {
        assert(0 <= y * p.stride <= p.height * p.stride) by (nonlinear_arith)
            requires
                0 <= y < p.height,
                0 <= p.stride,
        ;
    }
}

/// Why a plane geometry is refused, if it is.
pub open spec fn geometry_refusal(width: int, height: int, stride: int, bpp: int) -> Option<
    SrsV2Error,
> {
    if width == 0 || height == 0 {
        Some(SrsV2Error::Dimensions { width: width as u32, height: height as u32 })
    } else if width > MAX_DIMENSION || height > MAX_DIMENSION {
        Some(SrsV2Error::LimitExceeded("dimension cap"))
    } else if width * height > MAX_LUMA_SAMPLES {
        Some(SrsV2Error::LimitExceeded("luma sample cap"))
    } else if width * bpp > usize::MAX {
        Some(SrsV2Error::Overflow("stride"))
    } else if stride < width * bpp {
        Some(SrsV2Error::Syntax("stride smaller than width*bpp"))
    } else {
        None
    }
}

/// Why an 8-bit plane cannot be allocated, if it cannot.
pub open spec fn plane_refusal(width: int, height: int, stride: int) -> Option<SrsV2Error> {
    match geometry_refusal(width, height, stride, 1) {
        Some(e) => Some(e),
        None => if stride * height > usize::MAX {
            Some(SrsV2Error::Overflow("plane byte length"))
        } else if stride * height > MAX_LUMA_SAMPLES {
            Some(SrsV2Error::AllocationLimit { context: "plane exceeds MAX_LUMA_SAMPLES" })
        } else {
            None
        },
    }
}

/// Checks the geometry of a plane whose samples take `bpp` bytes.
pub fn validate_plane_geometry(width: u32, height: u32, stride: usize, bpp: usize) -> (r: Result<
    (),
    SrsV2Error,
>)
    ensures
        r == match geometry_refusal(width as int, height as int, stride as int, bpp as int) {
            Some(e) => Err::<(), SrsV2Error>(e),
            None => Ok::<(), SrsV2Error>(()),
        },
{
    if width == 0 || height == 0 {
        return Err(SrsV2Error::Dimensions { width, height });
    }
    if width > MAX_DIMENSION || height > MAX_DIMENSION {
        return Err(SrsV2Error::LimitExceeded("dimension cap"));
    }
    assert(width * height <= 8192 * 8192) by (nonlinear_arith)
        requires
            width <= 8192,
            height <= 8192,
    ;
    let samples: u64 = width as u64 * height as u64;
    if samples > MAX_LUMA_SAMPLES {
        return Err(SrsV2Error::LimitExceeded("luma sample cap"));
    }
    let min_stride: usize = match (width as usize).checked_mul(bpp) {
        Some(v) => v,
        None => {
            return Err(SrsV2Error::Overflow("stride"));
        },
    };
    if stride < min_stride {
        return Err(SrsV2Error::Syntax("stride smaller than width*bpp"));
    }
    Ok(())
}

/// A picture of three planes.
#[derive(Debug, Clone)]
pub struct YuvFrame {
    pub format: PixelFormat,
    pub y: VideoPlane<u8>,
    pub u: VideoPlane<u8>,
    pub v: VideoPlane<u8>,
}

impl YuvFrame {
    /// Every plane is valid.
    pub open spec fn valid(self) -> bool {
        self.y.valid() && self.u.valid() && self.v.valid()
    }
}

/// What a plane holds.
pub struct PlaneView {
    pub width: int,
    pub height: int,
    pub stride: int,
    pub samples: Seq<u8>,
}

/// What a picture holds.
pub struct FrameView {
    pub format: PixelFormat,
    pub y: PlaneView,
    pub u: PlaneView,
    pub v: PlaneView,
}

impl View for VideoPlane<u8> {
    type V = PlaneView;

    open spec fn view(&self) -> PlaneView {
        PlaneView {
            width: self.width as int,
            height: self.height as int,
            stride: self.stride as int,
            samples: self.samples@,
        }
    }
}

impl View for YuvFrame {
    type V = FrameView;

    open spec fn view(&self) -> FrameView {
        FrameView { format: self.format, y: self.y@, u: self.u@, v: self.v@ }
    }
}

/// A copy of `p`.
pub fn clone_plane(p: &VideoPlane<u8>) -> (r: VideoPlane<u8>)
    ensures
        r@ == p@,
{
    let samples: Vec<u8> = crate::bytes::copy_range(p.samples.as_slice(), 0, p.samples.len());
    assert(samples@ =~= p.samples@);
    VideoPlane { width: p.width, height: p.height, stride: p.stride, samples }
}

/// A copy of `f`.
pub fn clone_frame(f: &YuvFrame) -> (r: YuvFrame)
    ensures
        r@ == f@,
{
    YuvFrame { format: f.format, y: clone_plane(&f.y), u: clone_plane(&f.u), v: clone_plane(&f.v) }
}

/// A reconstructed picture.
#[derive(Debug, Clone)]
pub struct DecodedVideoFrameV2 {
    pub frame_index: u32,
    pub width: u32,
    pub height: u32,
    pub is_displayable: bool,
    pub yuv: YuvFrame,
}

impl DecodedVideoFrameV2 {
    /// The luma plane without its row padding.
    pub fn luma_gray_bytes(&self) -> (out: Vec<u8>)
        requires
            self.yuv.y.valid(),
            self.height <= self.yuv.y.height,
        ensures
            out@ == packed(
                self.yuv.y.width as int,
                self.height as int,
                |x: int, y: int| self.yuv.y.at(x, y),
            ),
    {
        let w: usize = self.yuv.y.width as usize;
        let h: usize = self.height as usize;
        assert(w * h <= 8192 * 8192) by (nonlinear_arith)
            requires
                w <= 8192,
                h <= 8192,
        ;
        let n: usize = w * h;
        let mut out: Vec<u8> = Vec::with_capacity(n);
        let mut i: usize = 0;
        while i < n
            invariant
                i <= n,
                n == w * h,
                w == self.yuv.y.width,
                h == self.height,
                self.yuv.y.valid(),
                self.height <= self.yuv.y.height,
                out@ == packed(w as int, h as int, |x: int, y: int| self.yuv.y.at(x, y)).take(
                    i as int,
                ),
            decreases n - i,
        {
            assert(w > 0) by (nonlinear_arith)
                requires
                    i < w * h,
                    0 <= i,
                    0 <= w,
                    0 <= h,
            ;
            proof {
                lemma_packed_position(i as int, w as int, h as int);
            }
            out.push(self.yuv.y.get(i % w, i / w));
            let ghost full = packed(w as int, h as int, |x: int, y: int| self.yuv.y.at(x, y));
            assert(full.take(i + 1) =~= full.take(i as int).push(full[i as int]));
            i += 1;
        }
        assert(out@ =~= packed(w as int, h as int, |x: int, y: int| self.yuv.y.at(x, y)));
        out
    }
}

/// A coded picture.
#[derive(Debug, Clone)]
pub struct EncodedVideoPacketV2 {
    pub frame_index: u32,
    pub payload: Vec<u8>,
}

/// A plane is accepted when it has samples, stays within the limits of its sides and of its area, and
/// its rows hold its width.
pub proof fn planes_hold_their_rows(width: int, height: int, stride: int, bpp: int)
    requires
        0 <= width <= u32::MAX,
        0 <= height <= u32::MAX,
        1 <= bpp <= 16,
        0 <= stride,
    ensures
        geometry_refusal(width, height, stride, bpp) is None ==> 1 <= width <= MAX_DIMENSION && 1
            <= height <= MAX_DIMENSION && width * height <= MAX_LUMA_SAMPLES && width * bpp
            <= stride,
        1 <= width <= MAX_DIMENSION && 1 <= height <= MAX_DIMENSION && width * height
            <= MAX_LUMA_SAMPLES && width * bpp <= stride <= usize::MAX ==> geometry_refusal(
            width,
            height,
            stride,
            bpp,
        ) is None,
{
}

} // verus!
