//! Superblock geometry: how a 4:2:0 picture divides into coding tree units. Nothing here is
//! written to a stream.
use vstd::prelude::*;

use super::limits::{MAX_DIMENSION, MAX_LUMA_SAMPLES};
use crate::arith::{greatest, least};

verus! {

/// Units that a picture may have.
pub const MAX_CTU_COUNT: u64 = 262_144;

/// The side of a unit.
#[derive(Debug, Clone, Copy, PartialEq, Eq, Hash, Structural)]
pub enum CtuSize {
    Ctu16,
    Ctu32,
    Ctu64,
}

/// The side of a unit in luma samples.
pub open spec fn edge_of(s: CtuSize) -> int {
    match s {
        CtuSize::Ctu16 => 16,
        CtuSize::Ctu32 => 32,
        CtuSize::Ctu64 => 64,
    }
}

impl CtuSize {
    pub fn edge_luma(self) -> (e: u32)
        ensures
            e == edge_of(self),
    {
        match self {
            CtuSize::Ctu16 => 16,
            CtuSize::Ctu32 => 32,
            CtuSize::Ctu64 => 64,
        }
    }
}

/// Where a unit stands in its grid.
#[derive(Debug, Clone, Copy, PartialEq, Eq, Hash, Structural)]
pub struct CtuAddress {
    pub x_ctu: u32,
    pub y_ctu: u32,
    pub raster_index: u32,
}

/// `[x0, x1) x [y0, y1)` on one plane.
#[derive(Debug, Clone, Copy, PartialEq, Eq, Hash, Structural)]
pub struct CtuPlaneBounds {
    pub x0: u32,
    pub y0: u32,
    pub x1: u32,
    pub y1: u32,
}

impl CtuPlaneBounds {
    /// The sample at `(x, y)` lies inside.
    pub open spec fn holds(self, x: int, y: int) -> bool {
        self.x0 <= x < self.x1 && self.y0 <= y < self.y1
    }

    pub fn width(self) -> (w: u32)
        ensures
            w == greatest(self.x1 - self.x0, 0),
    {
        self.x1.saturating_sub(self.x0)
    }

    pub fn height(self) -> (h: u32)
        ensures
            h == greatest(self.y1 - self.y0, 0),
    {
        self.y1.saturating_sub(self.y0)
    }
}

/// The luma and chroma samples of a unit.
#[derive(Debug, Clone, Copy, PartialEq, Eq, Hash, Structural)]
pub struct CtuBounds {
    pub luma: CtuPlaneBounds,
    pub chroma: CtuPlaneBounds,
}

impl CtuBounds {
    pub fn luma_width(self) -> (w: u32)
        ensures
            w == greatest(self.luma.x1 - self.luma.x0, 0),
    {
        self.luma.width()
    }

    pub fn luma_height(self) -> (h: u32)
        ensures
            h == greatest(self.luma.y1 - self.luma.y0, 0),
    {
        self.luma.height()
    }

    pub fn chroma_width(self) -> (w: u32)
        ensures
            w == greatest(self.chroma.x1 - self.chroma.x0, 0),
    {
        self.chroma.width()
    }

    pub fn chroma_height(self) -> (h: u32)
        ensures
            h == greatest(self.chroma.y1 - self.chroma.y0, 0),
    {
        self.chroma.height()
    }
}

/// Why a picture has no grid, or an address no unit.
#[derive(Debug, Clone, Copy, PartialEq, Eq, Structural)]
pub enum CtuError {
    ZeroDimensions,
    DimensionTooLarge { width: u32, height: u32 },
    DimensionOverflow,
    LumaSamplesTooLarge { samples: u64, max: u64 },
    GridTooLarge,
    CtuIndexOutOfRange { index: u32, count: u32 },
    CtuAddressOutOfRange,
}

/// The units of a picture.
#[derive(Debug, Clone, Copy, PartialEq, Eq, Structural)]
pub struct CtuGrid {
    pub width: u32,
    pub height: u32,
    pub ctu_size: CtuSize,
    pub cols: u32,
    pub rows: u32,
    pub count: u32,
}

/// What a report says of a grid.
#[derive(Debug, Clone, Copy, PartialEq, Eq, Structural)]
pub struct CtuGridStats {
    pub ctu_size: u32,
    pub ctu_cols: u32,
    pub ctu_rows: u32,
    pub ctu_count: u32,
    /// Units that the right or the bottom edge of the picture cuts.
    pub edge_ctu_count: u32,
    /// Luma samples of all units together; divided by `ctu_count` it is their average.
    pub total_luma_area: u64,
    /// Luma samples of the largest unit.
    pub max_ctu_luma_area: u64,
}

/// Why the dimensions of a picture are refused, if they are.
pub open spec fn size_refusal(width: u32, height: u32) -> Option<CtuError> {
    if width == 0 || height == 0 {
        Some(CtuError::ZeroDimensions)
    } else if width > MAX_DIMENSION || height > MAX_DIMENSION {
        Some(CtuError::DimensionTooLarge { width, height })
    } else if width * height > MAX_LUMA_SAMPLES {
        Some(
            CtuError::LumaSamplesTooLarge {
                samples: (width * height) as u64,
                max: MAX_LUMA_SAMPLES,
            },
        )
    } else {
        None
    }
}

/// Units of side `e` that cover `n` samples.
pub open spec fn units_across(n: int, e: int) -> int {
    (n + e - 1) / e
}

/// The grid of a picture.
pub open spec fn grid_of(width: u32, height: u32, ctu_size: CtuSize) -> CtuGrid {
    let cols = units_across(width as int, edge_of(ctu_size));
    let rows = units_across(height as int, edge_of(ctu_size));
    CtuGrid {
        width,
        height,
        ctu_size,
        cols: cols as u32,
        rows: rows as u32,
        count: (cols * rows) as u32,
    }
}

/// The unit in column `x` and row `y`.
pub open spec fn unit_bounds(g: CtuGrid, x: int, y: int) -> CtuBounds {
    let e = edge_of(g.ctu_size);
    let luma = CtuPlaneBounds {
        x0: (x * e) as u32,
        y0: (y * e) as u32,
        x1: least(x * e + e, g.width as int) as u32,
        y1: least(y * e + e, g.height as int) as u32,
    };
    CtuBounds {
        luma,
        chroma: CtuPlaneBounds {
            x0: luma.x0 / 2,
            y0: luma.y0 / 2,
            x1: ((luma.x1 + 1) / 2) as u32,
            y1: ((luma.y1 + 1) / 2) as u32,
        },
    }
}

/// The address of unit `i`.
pub open spec fn unit_address(g: CtuGrid, i: int) -> CtuAddress {
    CtuAddress {
        x_ctu: (i % g.cols as int) as u32,
        y_ctu: (i / g.cols as int) as u32,
        raster_index: i as u32,
    }
}

/// Luma samples of unit `i`.
pub open spec fn unit_area(g: CtuGrid, i: int) -> int {
    let b = unit_bounds(g, i % g.cols as int, i / g.cols as int).luma;
    (b.x1 - b.x0) * (b.y1 - b.y0)
}

/// An edge of the picture cuts unit `i`.
pub open spec fn unit_is_cut(g: CtuGrid, i: int) -> bool {
    let b = unit_bounds(g, i % g.cols as int, i / g.cols as int).luma;
    b.x1 - b.x0 < edge_of(g.ctu_size) || b.y1 - b.y0 < edge_of(g.ctu_size)
}

/// Luma samples of the first `n` units.
pub open spec fn area_upto(g: CtuGrid, n: int) -> int
    decreases n,
{
    if n <= 0 {
        0
    } else {
        area_upto(g, n - 1) + unit_area(g, n - 1)
    }
}

/// How many of the first `n` units an edge of the picture cuts.
pub open spec fn cut_upto(g: CtuGrid, n: int) -> int
    decreases n,
{
    if n <= 0 {
        0
    } else {
        cut_upto(g, n - 1) + if unit_is_cut(g, n - 1) {
            1int
        } else {
            0int
        }
    }
}

/// Luma samples of the largest of the first `n` units.
pub open spec fn largest_upto(g: CtuGrid, n: int) -> int
    decreases n,
{
    if n <= 0 {
        0
    } else {
        greatest(largest_upto(g, n - 1), unit_area(g, n - 1))
    }
}

/// What holds of the sides of a grid.
proof fn lemma_grid(g: CtuGrid)
    requires
        g.valid(),
    ensures
        1 <= g.cols == units_across(g.width as int, edge_of(g.ctu_size)),
        1 <= g.rows == units_across(g.height as int, edge_of(g.ctu_size)),
        g.cols <= 512,
        g.rows <= 512,
        g.count == g.cols * g.rows,
        1 <= g.count <= MAX_CTU_COUNT,
        (g.cols - 1) * edge_of(g.ctu_size) < g.width <= g.cols * edge_of(g.ctu_size),
        (g.rows - 1) * edge_of(g.ctu_size) < g.height <= g.rows * edge_of(g.ctu_size),
        1 <= g.width <= MAX_DIMENSION,
        1 <= g.height <= MAX_DIMENSION,
{
    let e = edge_of(g.ctu_size);
    let c = units_across(g.width as int, e);
    let r = units_across(g.height as int, e);
    assert(1 <= c <= 512 && (c - 1) * e < g.width <= c * e);
    assert(1 <= r <= 512 && (r - 1) * e < g.height <= r * e);
    assert(1 <= c * r <= 262144) by (nonlinear_arith)
        requires
            1 <= c <= 512,
            1 <= r <= 512,
    ;
}

/// Unit `i` of a grid stands in one of its columns and rows.
proof fn lemma_unit(g: CtuGrid, i: int)
    requires
        g.valid(),
        0 <= i < g.count,
    ensures
        0 <= i % g.cols as int <= g.cols - 1,
        0 <= i / g.cols as int <= g.rows - 1,
        (i / g.cols as int) * g.cols + i % g.cols as int == i,
{
    lemma_grid(g);
    let c = g.cols as int;
    let r = g.rows as int;
    assert(0 <= i % c < c && 0 <= i / c < r && (i / c) * c + i % c == i) by (nonlinear_arith)
        requires
            c > 0,
            0 <= i < c * r,
    ;
}

/// A unit lies inside the picture, is not empty, and its chroma lies inside the chroma plane.
pub proof fn units_lie_inside(g: CtuGrid, x: int, y: int)
    requires
        g.valid(),
        0 <= x < g.cols,
        0 <= y < g.rows,
    ensures
        ({
            let e = edge_of(g.ctu_size);
            let b = unit_bounds(g, x, y);
            &&& b.luma.x0 == x * e
            &&& b.luma.y0 == y * e
            &&& b.luma.x1 == least(x * e + e, g.width as int)
            &&& b.luma.y1 == least(y * e + e, g.height as int)
            &&& b.luma.x0 < b.luma.x1 <= g.width
            &&& b.luma.y0 < b.luma.y1 <= g.height
            &&& b.chroma.x1 == (b.luma.x1 + 1) / 2
            &&& b.chroma.y1 == (b.luma.y1 + 1) / 2
            &&& b.chroma.x0 < b.chroma.x1 <= (g.width + 1) / 2
            &&& b.chroma.y0 < b.chroma.y1 <= (g.height + 1) / 2
        }),
{
    lemma_grid(g);
    let e = edge_of(g.ctu_size);
    assert(0 <= x * e <= (g.cols - 1) * e) by (nonlinear_arith)
        requires
            0 <= x <= g.cols - 1,
            e > 0,
    ;
    assert(0 <= y * e <= (g.rows - 1) * e) by (nonlinear_arith)
        requires
            0 <= y <= g.rows - 1,
            e > 0,
    ;
}

/// Every luma sample of a picture lies in one unit and in no other.
pub proof fn units_tile_the_picture(g: CtuGrid, x: int, y: int, i: int)
    requires
        g.valid(),
        0 <= x < g.width,
        0 <= y < g.height,
        0 <= i < g.count,
    ensures
        0 <= (y / edge_of(g.ctu_size)) * g.cols + x / edge_of(g.ctu_size) < g.count,
        unit_bounds(g, i % g.cols as int, i / g.cols as int).luma.holds(x, y) <==> i == (y
            / edge_of(g.ctu_size)) * g.cols + x / edge_of(g.ctu_size),
{
    lemma_grid(g);
    lemma_unit(g, i);
    let e = edge_of(g.ctu_size);
    let c = g.cols as int;
    let ux = x / e;
    let uy = y / e;
    assert(0 <= ux <= c - 1 && 0 <= uy <= g.rows - 1);
    assert(0 <= uy * c + ux < c * g.rows) by (nonlinear_arith)
        requires
            0 <= ux <= c - 1,
            0 <= uy <= g.rows - 1,
    ;
    vstd::arithmetic::div_mod::lemma_fundamental_div_mod_converse(uy * c + ux, c, uy, ux);
    let vx = i % c;
    let vy = i / c;
    units_lie_inside(g, vx, vy);
    assert(vx * e <= x < vx * e + e <==> vx == ux) by {
        lemma_slot(x, e, vx);
    }
    assert(vy * e <= y < vy * e + e <==> vy == uy) by {
        lemma_slot(y, e, vy);
    }
}

proof fn lemma_slot(x: int, e: int, v: int)
    requires
        e > 0,
        x >= 0,
    ensures
        v * e <= x < v * e + e <==> v == x / e,
{
    vstd::arithmetic::div_mod::lemma_fundamental_div_mod(x, e);
    assert(e * (x / e) == (x / e) * e) by (nonlinear_arith);
    if v * e <= x < v * e + e {
        vstd::arithmetic::div_mod::lemma_fundamental_div_mod_converse(x, e, v, x - v * e);
    }
}

/// Luma samples of the units before column `x` of row `y`.
proof fn lemma_area(g: CtuGrid, x: int, y: int)
    requires
        g.valid(),
        0 <= x <= g.cols,
        0 <= y < g.rows,
    ensures
        ({
            let e = edge_of(g.ctu_size);
            let h = least(y * e + e, g.height as int) - y * e;
            area_upto(g, y * g.cols + x) == g.width * (y * e) + least(x * e, g.width as int) * h
        }),
    decreases y, x,
{
    lemma_grid(g);
    let e = edge_of(g.ctu_size);
    let c = g.cols as int;
    let w = g.width as int;
    let h = least(y * e + e, g.height as int) - y * e;
    if x == 0 {
        assert(x * e == 0 && least(x * e, w) * h == 0) by (nonlinear_arith)
            requires
                x == 0,
                w >= 1,
        ;
    }
    if x == 0 && y == 0 {
        assert(w * (y * e) == 0 && y * c == 0) by (nonlinear_arith)
            requires
                y == 0,
        ;
    } else if x == 0 {
        lemma_area(g, c, y - 1);
        assert((y - 1) * c + c == y * c) by (nonlinear_arith);
        assert(y * e <= (g.rows - 1) * e) by (nonlinear_arith)
            requires
                y <= g.rows - 1,
                e > 0,
        ;
        assert((y - 1) * e + e == y * e) by (nonlinear_arith);
        assert(w * ((y - 1) * e) + w * e == w * (y * e)) by (nonlinear_arith)
            requires
                (y - 1) * e + e == y * e,
        ;
        assert(least(c * e, w) == w);
    } else {
        lemma_area(g, x - 1, y);
        let i = y * c + x - 1;
        assert(0 <= i < g.count) by (nonlinear_arith)
            requires
                0 <= y <= g.rows - 1,
                1 <= x <= c,
                i == y * c + x - 1,
                g.count == c * g.rows,
        ;
        vstd::arithmetic::div_mod::lemma_fundamental_div_mod_converse(i, c, y, x - 1);
        units_lie_inside(g, x - 1, y);
        let b = unit_bounds(g, x - 1, y).luma;
        assert((x - 1) * e + e == x * e) by (nonlinear_arith);
        let p = (x - 1) * e;
        let q = least(x * e, w);
        assert(p * h + (q - p) * h == q * h) by (nonlinear_arith);
        assert(b.x1 - b.x0 == q - p && b.y1 - b.y0 == h);
        assert(least(p, w) == p);
        assert(area_upto(g, i + 1) == area_upto(g, i) + unit_area(g, i));
    }
}

/// The units of a picture have as many luma samples as the picture.
pub proof fn areas_add_up(g: CtuGrid)
    requires
        g.valid(),
    ensures
        area_upto(g, g.count as int) == g.width * g.height,
{
    lemma_grid(g);
    let e = edge_of(g.ctu_size);
    let c = g.cols as int;
    let y = g.rows - 1;
    lemma_area(g, c, y);
    assert(y * c + c == g.count) by (nonlinear_arith)
        requires
            g.count == c * g.rows,
            y == g.rows - 1,
    ;
    let w = g.width as int;
    let a = y * e;
    let h = g.height as int;
    assert(least(y * e + e, h) == h) by {
        assert(y * e + e == g.rows * e) by (nonlinear_arith)
            requires
                y == g.rows - 1,
        ;
    }
    assert(w * a + w * (h - a) == w * h) by (nonlinear_arith);
}

/// The first unit is the largest one.
pub proof fn first_unit_is_largest(g: CtuGrid, n: int)
    requires
        g.valid(),
        1 <= n <= g.count,
    ensures
        largest_upto(g, n) == least(edge_of(g.ctu_size), g.width as int) * least(
            edge_of(g.ctu_size),
            g.height as int,
        ),
    decreases n,
{
    lemma_grid(g);
    lemma_unit(g, n - 1);
    let e = edge_of(g.ctu_size);
    let x = (n - 1) % g.cols as int;
    let y = (n - 1) / g.cols as int;
    units_lie_inside(g, x, y);
    let b = unit_bounds(g, x, y).luma;
    let p = b.x1 - b.x0;
    let q = b.y1 - b.y0;
    let u = least(e, g.width as int);
    let v = least(e, g.height as int);
    assert(0 <= x * e && 0 <= y * e) by (nonlinear_arith)
        requires
            x >= 0,
            y >= 0,
            e > 0,
    ;
    assert(p * q <= u * v) by (nonlinear_arith)
        requires
            0 <= p <= u,
            0 <= q <= v,
    ;
    if n == 1 {
        assert(largest_upto(g, 0) == 0);
        assert(x == 0 && y == 0);
        assert(0 <= u * v) by (nonlinear_arith)
            requires
                0 <= u,
                0 <= v,
        ;
    } else {
        first_unit_is_largest(g, n - 1);
    }
}

/// Whether a picture of these dimensions can have a grid.
pub fn validate_frame_dimensions(width: u32, height: u32) -> (r: Result<(), CtuError>)
    ensures
        match size_refusal(width, height) {
            Some(e) => r == Err::<(), CtuError>(e),
            None => r is Ok,
        },
{
    if width == 0 || height == 0 {
        return Err(CtuError::ZeroDimensions);
    }
    if width > MAX_DIMENSION || height > MAX_DIMENSION {
        return Err(CtuError::DimensionTooLarge { width, height });
    }
    assert(width * height <= 67108864) by (nonlinear_arith)
        requires
            width <= 8192,
            height <= 8192,
    ;
    let samples: u64 = width as u64 * height as u64;
    if samples > MAX_LUMA_SAMPLES {
        return Err(CtuError::LumaSamplesTooLarge { samples, max: MAX_LUMA_SAMPLES });
    }
    Ok(())
}

impl CtuGrid {
    /// The grid is that of a picture which can have one.
    pub open spec fn valid(self) -> bool {
        size_refusal(self.width, self.height) is None && self == grid_of(
            self.width,
            self.height,
            self.ctu_size,
        )
    }

    pub fn new(width: u32, height: u32, ctu_size: CtuSize) -> (r: Result<Self, CtuError>)
        ensures
            match size_refusal(width, height) {
                Some(e) => r == Err::<Self, CtuError>(e),
                None => r == Ok::<Self, CtuError>(grid_of(width, height, ctu_size))
                    && r->Ok_0.valid(),
            },
    {
        validate_frame_dimensions(width, height)?;
        let edge: u32 = ctu_size.edge_luma();
        proof {
            lemma_grid(grid_of(width, height, ctu_size));
        }
        let cols: u32 = (width + edge - 1) / edge;
        let rows: u32 = (height + edge - 1) / edge;
        Ok(CtuGrid { width, height, ctu_size, cols, rows, count: cols * rows })
    }

    pub fn ctu_count(&self) -> (n: u32)
        ensures
            n == self.count,
    {
        self.count
    }

    /// The samples of unit `raster_index`.
    pub fn ctu_bounds(&self, raster_index: u32) -> (r: Result<CtuBounds, CtuError>)
        requires
            self.valid(),
        ensures
            r == bounds_at(*self, raster_index),
    {
        self.bounds_for_index(raster_index)
    }

    /// The addresses of all units, row by row.
    pub fn iter(&self) -> (v: Vec<CtuAddress>)
        requires
            self.valid(),
        ensures
            v@ == Seq::new(self.count as nat, |i: int| unit_address(*self, i)),
    {
        self.addresses()
    }

    pub fn address_for_index(&self, raster_index: u32) -> (r: Result<CtuAddress, CtuError>)
        requires
            self.valid(),
        ensures
            r == if raster_index >= self.count {
                Err::<CtuAddress, CtuError>(
                    CtuError::CtuIndexOutOfRange { index: raster_index, count: self.count },
                )
            } else {
                Ok::<CtuAddress, CtuError>(unit_address(*self, raster_index as int))
            },
    {
        if raster_index >= self.count {
            return Err(
                CtuError::CtuIndexOutOfRange { index: raster_index, count: self.count },
            );
        }
        proof {
            lemma_grid(*self);
        }
        Ok(
            CtuAddress {
                x_ctu: raster_index % self.cols,
                y_ctu: raster_index / self.cols,
                raster_index,
            },
        )
    }

    /// The addresses of all units, row by row.
    pub fn addresses(&self) -> (v: Vec<CtuAddress>)
        requires
            self.valid(),
        ensures
            v@ == Seq::new(self.count as nat, |i: int| unit_address(*self, i)),
    {
        proof {
            lemma_grid(*self);
        }
        let mut v: Vec<CtuAddress> = Vec::new();
        let mut i: u32 = 0;
        while i < self.count
            invariant
                i <= self.count,
                self.cols >= 1,
                v@ == Seq::new(i as nat, |k: int| unit_address(*self, k)),
            decreases self.count - i,
        {
            v.push(
                CtuAddress { x_ctu: i % self.cols, y_ctu: i / self.cols, raster_index: i },
            );
            i += 1;
            assert(v@ =~= Seq::new(i as nat, |k: int| unit_address(*self, k)));
        }
        v
    }

    /// The samples of the unit at an address.
    pub fn bounds_for_address(&self, addr: CtuAddress) -> (r: Result<CtuBounds, CtuError>)
        requires
            self.valid(),
        ensures
            r == if addr.raster_index < self.count && addr == unit_address(
                *self,
                addr.raster_index as int,
            ) {
                Ok::<CtuBounds, CtuError>(
                    unit_bounds(*self, addr.x_ctu as int, addr.y_ctu as int),
                )
            } else {
                Err::<CtuBounds, CtuError>(CtuError::CtuAddressOutOfRange)
            },
    {
        proof {
            lemma_grid(*self);
        }
        if addr.raster_index >= self.count {
            return Err(CtuError::CtuAddressOutOfRange);
        }
        proof {
            lemma_unit(*self, addr.raster_index as int);
        }
        if addr.x_ctu >= self.cols || addr.y_ctu >= self.rows {
            return Err(CtuError::CtuAddressOutOfRange);
        }
        let ghost x = addr.x_ctu as int;
        let ghost y = addr.y_ctu as int;
        proof {
            units_lie_inside(*self, x, y);
            assert(0 <= y * self.cols <= y * self.cols + x < 262144) by (nonlinear_arith)
                requires
                    0 <= x < self.cols <= 512,
                    0 <= y < 512,
            ;
            vstd::arithmetic::div_mod::lemma_fundamental_div_mod_converse(
                y * self.cols + x,
                self.cols as int,
                y,
                x,
            );
        }
        if addr.y_ctu * self.cols + addr.x_ctu != addr.raster_index {
            return Err(CtuError::CtuAddressOutOfRange);
        }
        let edge: u32 = self.ctu_size.edge_luma();
        let x0: u32 = addr.x_ctu * edge;
        let y0: u32 = addr.y_ctu * edge;
        let x1: u32 = if self.width - x0 < edge { self.width } else { x0 + edge };
        let y1: u32 = if self.height - y0 < edge { self.height } else { y0 + edge };
        Ok(
            CtuBounds {
                luma: CtuPlaneBounds { x0, y0, x1, y1 },
                chroma: CtuPlaneBounds {
                    x0: x0 / 2,
                    y0: y0 / 2,
                    x1: (x1 + 1) / 2,
                    y1: (y1 + 1) / 2,
                },
            },
        )
    }

    /// The samples of unit `raster_index`.
    pub fn bounds_for_index(&self, raster_index: u32) -> (r: Result<CtuBounds, CtuError>)
        requires
            self.valid(),
        ensures
            r == bounds_at(*self, raster_index),
    {
        let addr: CtuAddress = self.address_for_index(raster_index)?;
        proof {
            lemma_unit(*self, raster_index as int);
        }
        self.bounds_for_address(addr)
    }

    /// What a report says of the grid.
    pub fn stats(&self) -> (s: CtuGridStats)
        requires
            self.valid(),
        ensures
            s.ctu_size == edge_of(self.ctu_size),
            s.ctu_cols == self.cols,
            s.ctu_rows == self.rows,
            s.ctu_count == self.count,
            s.edge_ctu_count == cut_upto(*self, self.count as int),
            s.total_luma_area == area_upto(*self, self.count as int),
            s.total_luma_area == self.width * self.height,
            s.max_ctu_luma_area == largest_upto(*self, self.count as int),
    {
        proof {
            lemma_grid(*self);
            areas_add_up(*self);
        }
        let edge: u32 = self.ctu_size.edge_luma();
        let mut cut: u32 = 0;
        let mut total: u64 = 0;
        let mut largest: u64 = 0;
        let mut i: u32 = 0;
        while i < self.count
            invariant
                self.valid(),
                i <= self.count <= MAX_CTU_COUNT,
                self.cols >= 1,
                edge == edge_of(self.ctu_size),
                cut == cut_upto(*self, i as int),
                cut <= i,
                total == area_upto(*self, i as int),
                total <= 4096 * i,
                largest == largest_upto(*self, i as int),
            decreases self.count - i,
        {
            let addr: CtuAddress = CtuAddress {
                x_ctu: i % self.cols,
                y_ctu: i / self.cols,
                raster_index: i,
            };
            proof {
                lemma_unit(*self, i as int);
                units_lie_inside(*self, i as int % self.cols as int, i as int / self.cols as int);
            }
            match self.bounds_for_address(addr) {
                Ok(b) => {
                    let (w, h): (u32, u32) = (b.luma_width(), b.luma_height());
                    if w < edge || h < edge {
                        cut += 1;
                    }
                    assert(w * h <= 4096) by (nonlinear_arith)
                        requires
                            w <= 64,
                            h <= 64,
                    ;
                    let cell: u64 = w as u64 * h as u64;
                    total = total + cell;
                    if cell > largest {
                        largest = cell;
                    }
                },
                Err(_) => {
                    assert(false);
                },
            }
            i += 1;
        }
        CtuGridStats {
            ctu_size: edge,
            ctu_cols: self.cols,
            ctu_rows: self.rows,
            ctu_count: self.count,
            edge_ctu_count: cut,
            total_luma_area: total,
            max_ctu_luma_area: largest,
        }
    }
}

/// The samples of a unit of a grid, by its index.
pub open spec fn bounds_at(g: CtuGrid, i: u32) -> Result<CtuBounds, CtuError> {
    if i >= g.count {
        Err(CtuError::CtuIndexOutOfRange { index: i, count: g.count })
    } else {
        Ok(unit_bounds(g, i as int % g.cols as int, i as int / g.cols as int))
    }
}

/// The luma samples of a unit.
pub fn ctu_luma_bounds(grid: &CtuGrid, raster_index: u32) -> (r: Result<CtuPlaneBounds, CtuError>)
    requires
        grid.valid(),
    ensures
        match bounds_at(*grid, raster_index) {
            Ok(b) => r == Ok::<CtuPlaneBounds, CtuError>(b.luma),
            Err(e) => r == Err::<CtuPlaneBounds, CtuError>(e),
        },
{
    Ok(grid.ctu_bounds(raster_index)?.luma)
}

/// The chroma samples of a unit.
pub fn ctu_chroma_bounds_yuv420(grid: &CtuGrid, raster_index: u32) -> (r: Result<
    CtuPlaneBounds,
    CtuError,
>)
    requires
        grid.valid(),
    ensures
        match bounds_at(*grid, raster_index) {
            Ok(b) => r == Ok::<CtuPlaneBounds, CtuError>(b.chroma),
            Err(e) => r == Err::<CtuPlaneBounds, CtuError>(e),
        },
{
    Ok(grid.ctu_bounds(raster_index)?.chroma)
}

/// Whether a picture can have a grid.
pub fn validate_ctu_grid(width: u32, height: u32, ctu_size: CtuSize) -> (r: Result<(), CtuError>)
    ensures
        match size_refusal(width, height) {
            Some(e) => r == Err::<(), CtuError>(e),
            None => r is Ok,
        },
{
    CtuGrid::new(width, height, ctu_size)?;
    Ok(())
}

/// Splits a picture into units.
pub fn split_frame_into_ctu_grid(width: u32, height: u32, ctu_size: CtuSize) -> (r: Result<
    CtuGrid,
    CtuError,
>)
    ensures
        match size_refusal(width, height) {
            Some(e) => r == Err::<CtuGrid, CtuError>(e),
            None => r == Ok::<CtuGrid, CtuError>(grid_of(width, height, ctu_size))
                && r->Ok_0.valid(),
        },
{
    CtuGrid::new(width, height, ctu_size)
}

/// The samples of a unit.
pub fn map_ctu_to_yuv420_bounds(grid: &CtuGrid, raster_index: u32) -> (r: Result<
    CtuBounds,
    CtuError,
>)
    requires
        grid.valid(),
    ensures
        r == bounds_at(*grid, raster_index),
{
    grid.bounds_for_index(raster_index)
}

/// What a report says of the grid of a picture.
pub fn ctu_grid_stats(width: u32, height: u32, ctu_size: CtuSize) -> (r: Result<
    CtuGridStats,
    CtuError,
>)
    ensures
        match size_refusal(width, height) {
            Some(e) => r == Err::<CtuGridStats, CtuError>(e),
            None => r is Ok && ({
                let g = grid_of(width, height, ctu_size);
                let s = r->Ok_0;
                &&& s.ctu_size == edge_of(ctu_size)
                &&& s.ctu_cols == g.cols
                &&& s.ctu_rows == g.rows
                &&& s.ctu_count == g.count
                &&& s.edge_ctu_count == cut_upto(g, g.count as int)
                &&& s.total_luma_area == width * height
                &&& s.max_ctu_luma_area == largest_upto(g, g.count as int)
            }),
        },
{
    let g: CtuGrid = split_frame_into_ctu_grid(width, height, ctu_size)?;
    Ok(g.stats())
}

/// Units are numbered row by row.
pub proof fn units_are_numbered_row_by_row(g: CtuGrid, x: int, y: int)
    requires
        g.valid(),
        0 <= x < g.cols,
        0 <= y < g.rows,
    ensures
        ({
            let i = y * g.cols + x;
            let a = unit_address(g, i);
            &&& 0 <= i < g.count
            &&& a.x_ctu == x
            &&& a.y_ctu == y
            &&& a.raster_index == i
        }),
{
    lemma_grid(g);
    super::frame::lemma_packed_at(x, y, g.cols as int, g.rows as int);
    vstd::arithmetic::div_mod::lemma_fundamental_div_mod_converse(
        y * g.cols + x,
        g.cols as int,
        y,
        x,
    );
}

/// Only units of the last column or row are cut, and they are where the picture does not end with a
/// whole unit.
pub proof fn only_the_last_units_are_cut(g: CtuGrid, x: int, y: int)
    requires
        g.valid(),
        0 <= x < g.cols,
        0 <= y < g.rows,
    ensures
        ({
            let e = edge_of(g.ctu_size);
            unit_is_cut(g, y * g.cols + x) <==> (x + 1 == g.cols && g.width as int % e != 0) || (y + 1
                == g.rows && g.height as int % e != 0)
        }),
        edge_of(CtuSize::Ctu16) == 16,
        edge_of(CtuSize::Ctu32) == 32,
        edge_of(CtuSize::Ctu64) == 64,
{
    lemma_grid(g);
    units_lie_inside(g, x, y);
    let c = g.cols as int;
    super::frame::lemma_packed_at(x, y, c, g.rows as int);
    let e = edge_of(g.ctu_size);
    lemma_last_unit(g.width as int, e, c, x);
    lemma_last_unit(g.height as int, e, g.rows as int, y);
}

proof fn lemma_last_unit(n: int, e: int, c: int, x: int)
    requires
        e == 16 || e == 32 || e == 64,
        0 <= x < c,
        (c - 1) * e < n <= c * e,
    ensures
        x * e + e > n <==> x + 1 == c && n % e != 0,
{
    if x + 1 < c {
        assert(x * e + e <= (c - 1) * e) by (nonlinear_arith)
            requires
                x + 1 <= c - 1,
                e > 0,
        ;
    } else {
        assert(x * e + e == c * e) by (nonlinear_arith)
            requires
                x + 1 == c,
        ;
        let k = c - 1;
        assert(k * e + e == c * e) by (nonlinear_arith)
            requires
                k == c - 1,
        ;
        if n == c * e {
            vstd::arithmetic::div_mod::lemma_mod_multiples_basic(c, e);
        } else {
            vstd::arithmetic::div_mod::lemma_fundamental_div_mod_converse(n, e, k, n - k * e);
        }
    }
}

/// The units of a grid cover the picture, and no row or column of them lies outside.
pub proof fn grids_cover_the_picture(width: u32, height: u32, ctu_size: CtuSize)
    requires
        size_refusal(width, height) is None,
    ensures
        ({
            let g = grid_of(width, height, ctu_size);
            let e = edge_of(ctu_size);
            &&& (g.cols - 1) * e < width <= g.cols * e
            &&& (g.rows - 1) * e < height <= g.rows * e
            &&& g.count == g.cols * g.rows
            &&& g.width == width
            &&& g.height == height
        }),
        width > 0,
        height > 0,
        width * height <= MAX_LUMA_SAMPLES,
{
    let c = units_across(width as int, edge_of(ctu_size));
    let r = units_across(height as int, edge_of(ctu_size));
    assert(c * r <= 16777216) by (nonlinear_arith)
        requires
            0 <= c <= 4096,
            0 <= r <= 4096,
    ;
}

/// Whether the picture ends within its last units, as a number.
pub open spec fn is_ragged(n: int, e: int) -> int {
    if n % e != 0 {
        1
    } else {
        0
    }
}

proof fn lemma_row_cut(g: CtuGrid, y: int, x: int)
    requires
        g.valid(),
        0 <= y < g.rows,
        0 <= x <= g.cols,
    ensures
        ({
            let e = edge_of(g.ctu_size);
            let last = y + 1 == g.rows && is_ragged(g.height as int, e) == 1;
            cut_upto(g, y * g.cols + x) - cut_upto(g, y * g.cols) == if last {
                x
            } else if x == g.cols {
                is_ragged(g.width as int, e)
            } else {
                0
            }
        }),
    decreases x,
{
    if x > 0 {
        lemma_row_cut(g, y, x - 1);
        only_the_last_units_are_cut(g, x - 1, y);
        assert(y * g.cols >= 0) by (nonlinear_arith)
            requires
                y >= 0,
        ;
    }
}

proof fn lemma_rows_cut(g: CtuGrid, y: int)
    requires
        g.valid(),
        0 <= y <= g.rows,
        g.cols > 0,
    ensures
        ({
            let e = edge_of(g.ctu_size);
            cut_upto(g, y * g.cols) == if y < g.rows {
                y * is_ragged(g.width as int, e)
            } else {
                g.rows * is_ragged(g.width as int, e) + is_ragged(g.height as int, e) * (g.cols
                    - is_ragged(g.width as int, e))
            }
        }),
    decreases y,
{
    if y > 0 {
        lemma_rows_cut(g, y - 1);
        lemma_row_cut(g, y - 1, g.cols as int);
        assert((y - 1) * g.cols + g.cols == y * g.cols) by (nonlinear_arith);
        let w = is_ragged(g.width as int, edge_of(g.ctu_size));
        let t = is_ragged(g.height as int, edge_of(g.ctu_size));
        assert((y - 1) * w + w == y * w) by (nonlinear_arith);
        assert(t == 0 ==> t * (g.cols - w) == 0) by (nonlinear_arith);
        assert(t == 1 ==> t * (g.cols - w) == g.cols - w) by (nonlinear_arith);
    } else {
        assert(0 * g.cols == 0);
    }
}

/// How many units are cut: those of the last column where the width does not end with a unit, those of
/// the last row where the height does not, and the corner once.
pub proof fn cut_units_are_counted_once(g: CtuGrid)
    requires
        g.valid(),
    ensures
        ({
            let e = edge_of(g.ctu_size);
            let right = if g.width as int % e != 0 {
                g.rows as int
            } else {
                0
            };
            let below = if g.height as int % e != 0 {
                g.cols as int
            } else {
                0
            };
            let corner = if right > 0 && below > 0 {
                1int
            } else {
                0
            };
            cut_upto(g, g.count as int) == right + below - corner
        }),
{
    lemma_grid(g);
    lemma_rows_cut(g, g.rows as int);
    let (c, r) = (g.cols as int, g.rows as int);
    let w = is_ragged(g.width as int, edge_of(g.ctu_size));
    let t = is_ragged(g.height as int, edge_of(g.ctu_size));
    assert(w == 0 ==> r * w == 0) by (nonlinear_arith);
    assert(w == 1 ==> r * w == r) by (nonlinear_arith);
    assert(t == 0 ==> t * (c - w) == 0) by (nonlinear_arith);
    assert(t == 1 ==> t * (c - w) == c - w) by (nonlinear_arith);
    assert(r * c == g.count) by (nonlinear_arith)
        requires
            g.cols * g.rows == g.count,
            c == g.cols,
            r == g.rows,
    ;
}

} // verus!
