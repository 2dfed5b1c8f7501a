//! Reading bidirectional pictures.
use vstd::prelude::*;

use crate::arith::{least, sat_mul_usize};
use crate::bytes::{get_u32, le32};
use super::b_frame_codec::{
    compact_check, mb_blend, picture_blend, validate_b_compact_mv_unit,
    validate_b_prediction_weights, BBlendModeWire,
};
use super::error::SrsV2Error;
use super::frame::{plane_refusal, DecodedVideoFrameV2, VideoPlane};
use super::inter_frame::{
    bit_set, closed_state, inter_error, inter_planes, inter_state, inter_step, job_views,
    lemma_chroma_accepted, lemma_inter_fault, lemma_inter_lengths, read_job, rebuild_inter_frame,
    ChunkStyle, InterMb, InterParse, InterState, ResidualJob,
};
use super::inter_mv::{checked_reading_settles, decode_mv_grid_compact, raw_grid, settle, GridRead};
use super::intra_codec::step_of;
use super::limits::MAX_FRAME_PAYLOAD_BYTES;
use super::model::{PixelFormat, VideoSequenceHeaderV2};
use super::p_frame_codec::{mb_count, validate_mv, whole_mv_ok};
use super::reader::{
    read_i16, read_i32, read_u32, read_u8, take_i16, take_i32, take_u32, take_u8, Read,
};
use super::reference_manager::{slot_refusal, SrsV2ReferenceManager, SrsV2ReferenceSlot};
use super::subpel::{qpel_refusal, validate_mv_qpel_halfgrid};

verus! {

/// Two vector grids, one for each reference.
pub struct Grids {
    pub a: Seq<(i32, i32)>,
    pub b: Seq<(i32, i32)>,
}

/// What the fields ahead of the macroblocks fix for all of them.
pub struct BContext {
    /// The blend of the whole picture, if it is fixed.
    pub blend: Option<BBlendModeWire>,
    /// A macroblock may carry weights.
    pub weighted: bool,
    /// Vectors are half-pel.
    pub qpel: bool,
    /// The vectors, where they are not in the macroblocks.
    pub grids: Option<Grids>,
}

/// The blend of a macroblock.
pub open spec fn take_blend(data: Seq<u8>, ctx: BContext, cur: int) -> Read<BBlendModeWire> {
    match ctx.blend {
        Some(b) => Read { value: Ok(b), next: cur },
        None => {
            let t = take_u8(data, cur);
            match t.value {
                Err(e) => Read { value: Err(e), next: t.next },
                Ok(v) => Read { value: mb_blend(ctx.weighted, v), next: t.next },
            }
        },
    }
}

/// The weights of a macroblock, where its blend has any.
pub open spec fn take_weights(
    data: Seq<u8>,
    ctx: BContext,
    blend: BBlendModeWire,
    cur: int,
) -> Read<(int, int)> {
    if ctx.weighted && blend == BBlendModeWire::Weighted {
        let a = take_u8(data, cur);
        match a.value {
            Err(e) => Read { value: Err(e), next: a.next },
            Ok(wa) => {
                let b = take_u8(data, a.next);
                match b.value {
                    Err(e) => Read { value: Err(e), next: b.next },
                    Ok(wb) => if wa + wb == 256 {
                        Read { value: Ok((wa, wb)), next: b.next }
                    } else {
                        Read {
                            value: Err(
                                SrsV2Error::Syntax("B weighted prediction weights must sum to 256"),
                            ),
                            next: b.next,
                        }
                    },
                }
            },
        }
    } else {
        Read { value: Ok((0, 0)), next: cur }
    }
}

/// One component of a vector.
pub open spec fn take_component(data: Seq<u8>, qpel: bool, cur: int) -> Read<int> {
    if qpel {
        take_i32(data, cur)
    } else {
        take_i16(data, cur)
    }
}

/// Why a vector is refused, if it is.
pub open spec fn vector_refusal(qpel: bool, mx: int, my: int) -> Option<SrsV2Error> {
    if qpel {
        qpel_refusal(mx, my)
    } else if whole_mv_ok(mx, my) {
        None
    } else {
        Some(SrsV2Error::CorruptedMotionVector)
    }
}

/// A component in quarter-pel units.
pub open spec fn in_qpel(qpel: bool, v: int) -> int {
    if qpel {
        v
    } else {
        v * 4
    }
}

/// Two vectors in quarter-pel units.
pub struct VectorPair {
    pub ax: int,
    pub ay: int,
    pub bx: int,
    pub by: int,
}

/// The vectors of macroblock `i`.
pub open spec fn take_vectors(data: Seq<u8>, ctx: BContext, cur: int, i: int) -> Read<VectorPair> {
    match ctx.grids {
        Some(g) => Read {
            value: Ok(
                VectorPair {
                    ax: g.a[i].0 as int,
                    ay: g.a[i].1 as int,
                    bx: g.b[i].0 as int,
                    by: g.b[i].1 as int,
                },
            ),
            next: cur,
        },
        None => {
            let q = ctx.qpel;
            let ax = take_component(data, q, cur);
            let ay = take_component(data, q, ax.next);
            let bx = take_component(data, q, ay.next);
            let by = take_component(data, q, bx.next);
            if ax.value is Err || ay.value is Err || bx.value is Err || by.value is Err {
                Read { value: Err(SrsV2Error::Truncated), next: cur }
            } else {
                match vector_refusal(q, ax.value->Ok_0, ay.value->Ok_0) {
                    Some(e) => Read { value: Err(e), next: by.next },
                    None => match vector_refusal(q, bx.value->Ok_0, by.value->Ok_0) {
                        Some(e) => Read { value: Err(e), next: by.next },
                        None => Read {
                            value: Ok(
                                VectorPair {
                                    ax: in_qpel(q, ax.value->Ok_0),
                                    ay: in_qpel(q, ay.value->Ok_0),
                                    bx: in_qpel(q, bx.value->Ok_0),
                                    by: in_qpel(q, by.value->Ok_0),
                                },
                            ),
                            next: by.next,
                        },
                    },
                }
            }
        },
    }
}

/// The header of macroblock `i`: blend, weights, vectors, skip bits.
#[verifier::opaque]
pub open spec fn b_header(data: Seq<u8>, ctx: BContext, cur: int, i: int) -> Read<(InterMb, int)> {
    let b = take_blend(data, ctx, cur);
    match b.value {
        Err(e) => Read { value: Err(e), next: b.next },
        Ok(blend) => {
            let w = take_weights(data, ctx, blend, b.next);
            match w.value {
                Err(e) => Read { value: Err(e), next: w.next },
                Ok(weights) => {
                    let v = take_vectors(data, ctx, w.next, i);
                    match v.value {
                        Err(e) => Read { value: Err(e), next: v.next },
                        Ok(mv) => {
                            let p = take_u8(data, v.next);
                            match p.value {
                                Err(e) => Read { value: Err(e), next: p.next },
                                Ok(pattern) => Read {
                                    value: Ok(
                                        (
                                            InterMb {
                                                blend,
                                                weight_a: weights.0 as u8,
                                                weight_b: weights.1 as u8,
                                                mv_aqx: mv.ax as i32,
                                                mv_aqy: mv.ay as i32,
                                                mv_bqx: mv.bx as i32,
                                                mv_bqy: mv.by as i32,
                                            },
                                            pattern,
                                        ),
                                    ),
                                    next: p.next,
                                },
                            }
                        },
                    }
                },
            }
        },
    }
}

/// The same in executable form.
#[derive(Debug, Clone)]
pub struct BFields {
    pub blend: Option<BBlendModeWire>,
    pub weighted: bool,
    pub qpel: bool,
    pub grids: Option<(Vec<(i32, i32)>, Vec<(i32, i32)>)>,
}

/// Every vector of a grid is within bounds.
pub open spec fn grid_bounded(g: Seq<(i32, i32)>) -> bool {
    forall|i: int|
        0 <= i < g.len() ==> -1024 <= (#[trigger] g[i]).0 <= 1024 && -1024 <= g[i].1 <= 1024
}

impl BFields {
    pub open spec fn context(self) -> BContext {
        BContext {
            blend: self.blend,
            weighted: self.weighted,
            qpel: self.qpel,
            grids: match self.grids {
                Some(g) => Some(Grids { a: g.0@, b: g.1@ }),
                None => None,
            },
        }
    }

    /// Grids hold `n` vectors within bounds, and a picture is never weighted as a whole.
    pub open spec fn wf(self, n: int) -> bool {
        &&& self.blend != Some(BBlendModeWire::Weighted)
        &&& self.grids matches Some(g) ==> g.0@.len() == n && g.1@.len() == n && grid_bounded(g.0@)
            && grid_bounded(g.1@)
    }

    fn read_blend(&self, data: &[u8], cur: &mut usize) -> (r: Result<BBlendModeWire, SrsV2Error>)
        ensures
            ({
                let s = take_blend(data@, self.context(), *old(cur) as int);
                match s.value {
                    Ok(b) => r == Ok::<BBlendModeWire, SrsV2Error>(b) && *final(cur) == s.next,
                    Err(e) => r == Err::<BBlendModeWire, SrsV2Error>(e),
                }
            }),
    {
        match self.blend {
            Some(b) => Ok(b),
            None => match read_u8(data, cur) {
                Err(e) => Err(e),
                Ok(tag) => BBlendModeWire::from_u8_per_mb(self.weighted, tag),
            },
        }
    }

    fn read_weights(&self, data: &[u8], blend: BBlendModeWire, cur: &mut usize) -> (r: Result<
        (u8, u8),
        SrsV2Error,
    >)
        ensures
            ({
                let s = take_weights(data@, self.context(), blend, *old(cur) as int);
                match s.value {
                    Ok(w) => r is Ok && r->Ok_0.0 == w.0 && r->Ok_0.1 == w.1 && *final(cur)
                        == s.next && (self.weighted && blend == BBlendModeWire::Weighted ==> w.0
                        + w.1 == 256),
                    Err(e) => r == Err::<(u8, u8), SrsV2Error>(e),
                }
            }),
    {
        if self.weighted && blend == BBlendModeWire::Weighted {
            let wa: u8 = match read_u8(data, cur) {
                Ok(v) => v,
                Err(e) => {
                    return Err(e);
                },
            };
            let wb: u8 = match read_u8(data, cur) {
                Ok(v) => v,
                Err(e) => {
                    return Err(e);
                },
            };
            match validate_b_prediction_weights(wa, wb) {
                Err(e) => Err(e),
                Ok(_) => Ok((wa, wb)),
            }
        } else {
            Ok((0, 0))
        }
    }

    fn read_vectors(&self, data: &[u8], cur: &mut usize, i: usize) -> (r: Result<
        (i32, i32, i32, i32),
        SrsV2Error,
    >)
        requires
            self.grids matches Some(g) ==> i < g.0@.len() && i < g.1@.len() && grid_bounded(g.0@)
                && grid_bounded(g.1@),
        ensures
            ({
                let s = take_vectors(data@, self.context(), *old(cur) as int, i as int);
                match s.value {
                    Ok(v) => r is Ok && r->Ok_0.0 == v.ax && r->Ok_0.1 == v.ay && r->Ok_0.2 == v.bx
                        && r->Ok_0.3 == v.by && *final(cur) == s.next && -1024 <= v.ax <= 1024
                        && -1024 <= v.ay <= 1024 && -1024 <= v.bx <= 1024 && -1024 <= v.by <= 1024,
                    Err(e) => r == Err::<(i32, i32, i32, i32), SrsV2Error>(e),
                }
            }),
    {
        match &self.grids {
            Some(g) => {
                let a = g.0[i];
                let b = g.1[i];
                Ok((a.0, a.1, b.0, b.1))
            },
            None => {
                if self.qpel {
                    let ax: i32 = match read_i32(data, cur) {
                        Ok(v) => v,
                        Err(e) => {
                            return Err(e);
                        },
                    };
                    let ay: i32 = match read_i32(data, cur) {
                        Ok(v) => v,
                        Err(e) => {
                            return Err(e);
                        },
                    };
                    let bx: i32 = match read_i32(data, cur) {
                        Ok(v) => v,
                        Err(e) => {
                            return Err(e);
                        },
                    };
                    let by: i32 = match read_i32(data, cur) {
                        Ok(v) => v,
                        Err(e) => {
                            return Err(e);
                        },
                    };
                    match validate_mv_qpel_halfgrid(ax, ay) {
                        Err(e) => {
                            return Err(e);
                        },
                        Ok(_) => {},
                    }
                    match validate_mv_qpel_halfgrid(bx, by) {
                        Err(e) => {
                            return Err(e);
                        },
                        Ok(_) => {},
                    }
                    Ok((ax, ay, bx, by))
                } else {
                    let ax: i16 = match read_i16(data, cur) {
                        Ok(v) => v,
                        Err(e) => {
                            return Err(e);
                        },
                    };
                    let ay: i16 = match read_i16(data, cur) {
                        Ok(v) => v,
                        Err(e) => {
                            return Err(e);
                        },
                    };
                    let bx: i16 = match read_i16(data, cur) {
                        Ok(v) => v,
                        Err(e) => {
                            return Err(e);
                        },
                    };
                    let by: i16 = match read_i16(data, cur) {
                        Ok(v) => v,
                        Err(e) => {
                            return Err(e);
                        },
                    };
                    match validate_mv(ax, ay) {
                        Err(e) => {
                            return Err(e);
                        },
                        Ok(_) => {},
                    }
                    match validate_mv(bx, by) {
                        Err(e) => {
                            return Err(e);
                        },
                        Ok(_) => {},
                    }
                    Ok((ax as i32 * 4, ay as i32 * 4, bx as i32 * 4, by as i32 * 4))
                }
            },
        }
    }

    fn read_header(&self, data: &[u8], cur: &mut usize, i: usize) -> (r: Result<
        (InterMb, u8),
        SrsV2Error,
    >)
        requires
            self.blend != Some(BBlendModeWire::Weighted),
            self.grids matches Some(g) ==> i < g.0@.len() && i < g.1@.len() && grid_bounded(g.0@)
                && grid_bounded(g.1@),
        ensures
            ({
                let s = b_header(data@, self.context(), *old(cur) as int, i as int);
                match s.value {
                    Ok(v) => r is Ok && r->Ok_0.0 == v.0 && r->Ok_0.1 == v.1 && v.0.wf()
                        && *final(cur) == s.next,
                    Err(e) => r == Err::<(InterMb, u8), SrsV2Error>(e),
                }
            }),
    {
        proof {
            reveal(b_header);
        }
        let blend = match self.read_blend(data, cur) {
            Err(e) => {
                return Err(e);
            },
            Ok(b) => b,
        };
        let (weight_a, weight_b) = match self.read_weights(data, blend, cur) {
            Err(e) => {
                return Err(e);
            },
            Ok(w) => w,
        };
        let (ax, ay, bx, by) = match self.read_vectors(data, cur, i) {
            Err(e) => {
                return Err(e);
            },
            Ok(v) => v,
        };
        match read_u8(data, cur) {
            Err(e) => Err(e),
            Ok(pattern) => Ok(
                (
                    InterMb {
                        blend,
                        weight_a,
                        weight_b,
                        mv_aqx: ax,
                        mv_aqy: ay,
                        mv_bqx: bx,
                        mv_bqy: by,
                    },
                    pattern,
                ),
            ),
        }
    }
}

/// An entropy-coded vector section of a payload: the bytes from `start` up to `end` decode to
/// `sym_count` symbols in at most `budget` steps.
#[derive(Debug, Clone, Copy, PartialEq, Eq)]
pub struct MvSection {
    pub sym_count: usize,
    pub start: usize,
    pub end: usize,
    pub budget: usize,
}

/// Where a vector section of `n` macroblocks lies and how many symbols it holds.
pub struct SectionView {
    pub sym_count: int,
    pub start: int,
    pub end: int,
}

/// The vector section at the cursor.
pub open spec fn take_section(data: Seq<u8>, cur: int, n: int) -> Read<SectionView> {
    let s = take_u32(data, cur);
    match s.value {
        Err(e) => Read { value: Err(e), next: s.next },
        Ok(sym) => {
            let l = take_u32(data, s.next);
            match l.value {
                Err(e) => Read { value: Err(e), next: l.next },
                Ok(len) => if sym > least(n * 16, MAX_FRAME_PAYLOAD_BYTES as int) {
                    Read {
                        value: Err(SrsV2Error::Syntax("B MV compact length out of range")),
                        next: l.next,
                    }
                } else if l.next + len > usize::MAX {
                    Read { value: Err(SrsV2Error::Overflow("b mv rans blob")), next: l.next }
                } else if l.next + len > data.len() {
                    Read { value: Err(SrsV2Error::Truncated), next: l.next }
                } else {
                    Read {
                        value: Ok(
                            SectionView { sym_count: sym, start: l.next, end: l.next + len },
                        ),
                        next: l.next + len,
                    }
                },
            }
        },
    }
}

fn read_section(data: &[u8], cur: &mut usize, cols: u32, rows: u32) -> (r: Result<
    MvSection,
    SrsV2Error,
>)
    ensures
        ({
            let s = take_section(data@, *old(cur) as int, cols * rows);
            match s.value {
                Ok(v) => r is Ok && r->Ok_0.sym_count == v.sym_count && r->Ok_0.start == v.start
                    && r->Ok_0.end == v.end && r->Ok_0.budget == least(
                    (v.end - v.start) * 64,
                    512000,
                ) && *final(cur) == s.next && v.start <= v.end <= data@.len(),
                Err(e) => r == Err::<MvSection, SrsV2Error>(e),
            }
        }),
{
    let sym_count: usize = match read_u32(data, cur) {
        Ok(v) => v as usize,
        Err(e) => {
            return Err(e);
        },
    };
    let len: usize = match read_u32(data, cur) {
        Ok(v) => v as usize,
        Err(e) => {
            return Err(e);
        },
    };
    assert(cols * rows >= 0) by (nonlinear_arith);
    let room: usize = sat_mul_usize(sat_mul_usize(cols as usize, rows as usize), 16);
    let cap: usize = if room < MAX_FRAME_PAYLOAD_BYTES { room } else { MAX_FRAME_PAYLOAD_BYTES };
    if sym_count > cap {
        return Err(SrsV2Error::Syntax("B MV compact length out of range"));
    }
    let start: usize = *cur;
    match start.checked_add(len) {
        None => Err(SrsV2Error::Overflow("b mv rans blob")),
        Some(end) => {
            if end > data.len() {
                return Err(SrsV2Error::Truncated);
            }
            *cur = end;
            let steps: usize = sat_mul_usize(len, 64);
            let budget: usize = if steps < 512_000 { steps } else { 512_000 };
            Ok(MvSection { sym_count, start, end, budget })
        },
    }
}

/// The vector sections of an entropy-coded payload that can be found; its fixed fields take 12
/// bytes.
pub open spec fn found_sections(data: Seq<u8>, n: int) -> Seq<SectionView> {
    if data.len() < 12 || data[3] != 18 {
        seq![]
    } else {
        let a = take_section(data, 12, n);
        match a.value {
            Err(_) => seq![],
            Ok(sa) => {
                let b = take_section(data, a.next, n);
                match b.value {
                    Err(_) => seq![sa],
                    Ok(sb) => seq![sa, sb],
                }
            },
        }
    }
}

/// Lists the vector sections of an entropy-coded payload, for the caller to decode.
pub fn find_b_mv_sections(seq: &VideoSequenceHeaderV2, payload: &[u8]) -> (r: Vec<MvSection>)
    ensures
        r@.len() == found_sections(payload@, mb_count(*seq)).len(),
        forall|i: int|
            0 <= i < r@.len() ==> {
                let s = found_sections(payload@, mb_count(*seq))[i];
                &&& (#[trigger] r@[i]).sym_count == s.sym_count
                &&& r@[i].start == s.start
                &&& r@[i].end == s.end
                &&& r@[i].budget == least((s.end - s.start) * 64, 512000)
                &&& s.start <= s.end <= payload@.len()
            },
{
    let mut out: Vec<MvSection> = Vec::new();
    if payload.len() < 12 || payload[3] != 18 {
        return out;
    }
    let cols: u32 = seq.width / 16;
    let rows: u32 = seq.height / 16;
    let mut cur: usize = 12;
    match read_section(payload, &mut cur, cols, rows) {
        Err(_) => {},
        Ok(a) => {
            out.push(a);
            match read_section(payload, &mut cur, cols, rows) {
                Err(_) => {},
                Ok(b) => {
                    out.push(b);
                },
            }
        },
    }
    out
}

/// The grid that the decoded bytes of a vector section hold.
pub open spec fn section_grid(
    bytes: Result<Vec<u8>, SrsV2Error>,
    sym_count: int,
    cols: int,
    n: int,
    qpel: bool,
) -> Result<Seq<(i32, i32)>, SrsV2Error> {
    match bytes {
        Err(e) => Err(e),
        Ok(b) => if b@.len() != sym_count {
            Err(SrsV2Error::Syntax("B MV rANS output length mismatch"))
        } else {
            let raw = raw_grid(b@, 0, cols, n);
            match settle(raw, compact_check(qpel)) {
                Err(e) => Err(e),
                Ok(g) => if raw.next != b@.len() {
                    Err(SrsV2Error::Syntax("B MV compact trailing bytes"))
                } else {
                    Ok(g)
                },
            }
        },
    }
}

/// The grid at the cursor of a compact payload.
pub open spec fn take_grid(
    data: Seq<u8>,
    cur: int,
    cols: int,
    n: int,
    qpel: bool,
) -> Read<Seq<(i32, i32)>> {
    let raw = raw_grid(data, cur, cols, n);
    Read { value: settle(raw, compact_check(qpel)), next: raw.next }
}

/// One grid of an entropy-coded payload.
pub open spec fn take_section_grid(
    data: Seq<u8>,
    bytes: Result<Vec<u8>, SrsV2Error>,
    cur: int,
    cols: int,
    n: int,
    qpel: bool,
) -> Read<Seq<(i32, i32)>> {
    let s = take_section(data, cur, n);
    match s.value {
        Err(e) => Read { value: Err(e), next: s.next },
        Ok(v) => Read { value: section_grid(bytes, v.sym_count, cols, n, qpel), next: s.next },
    }
}

/// Both grids of a payload.
#[verifier::opaque]
pub open spec fn take_grids(
    data: Seq<u8>,
    mv_bytes: Seq<Result<Vec<u8>, SrsV2Error>>,
    cols: int,
    n: int,
    qpel: bool,
) -> Read<Grids> {
    let entropy = data[3] == 18;
    let a = if entropy {
        take_section_grid(data, mv_bytes[0], 12, cols, n, qpel)
    } else {
        take_grid(data, 12, cols, n, qpel)
    };
    match a.value {
        Err(e) => Read { value: Err(e), next: a.next },
        Ok(ga) => {
            let b = if entropy {
                take_section_grid(data, mv_bytes[1], a.next, cols, n, qpel)
            } else {
                take_grid(data, a.next, cols, n, qpel)
            };
            match b.value {
                Err(e) => Read { value: Err(e), next: b.next },
                Ok(gb) => Read { value: Ok(Grids { a: ga, b: gb }), next: b.next },
            }
        },
    }
}

/// A payload of revision 16 or 18 comes as far as its first vector grid: all of its compact bytes
/// are there.
pub open spec fn grid_is_read(
    data: Seq<u8>,
    mv_bytes: Seq<Result<Vec<u8>, SrsV2Error>>,
    n: int,
) -> bool {
    data[3] == 18 ==> {
        let s = take_section(data, 12, n);
        s.value is Ok && (mv_bytes[0] matches Ok(b) && b@.len() == s.value->Ok_0.sym_count)
    }
}

/// A settled grid holds `n` vectors within bounds.
proof fn lemma_settled(raw: GridRead, cols: int, n: int, data: Seq<u8>, cur: int, qpel: bool)
    requires
        raw == raw_grid(data, cur, cols, n),
        0 <= n,
        settle(raw, compact_check(qpel)) is Ok,
    ensures
        raw.mvs.len() == n,
        grid_bounded(raw.mvs),
{
    lemma_raw_len(data, cur, cols, n);
    assert forall|i: int| 0 <= i < raw.mvs.len() implies -1024 <= (#[trigger] raw.mvs[i]).0 <= 1024
        && -1024 <= raw.mvs[i].1 <= 1024 by {
        lemma_accepts_all(raw.mvs, compact_check(qpel), 0, i);
    }
}

proof fn lemma_raw_len(data: Seq<u8>, cur: int, cols: int, n: int)
    requires
        0 <= n,
        raw_grid(data, cur, cols, n).fault is None,
    ensures
        raw_grid(data, cur, cols, n).mvs.len() == n,
    decreases n,
{
    if n > 0 {
        lemma_raw_len(data, cur, cols, n - 1);
    }
}

proof fn lemma_accepts_all(
    mvs: Seq<(i32, i32)>,
    check: spec_fn(i32, i32) -> Result<(), SrsV2Error>,
    j: int,
    i: int,
)
    requires
        0 <= j <= i < mvs.len(),
        super::inter_mv::first_refusal(mvs, check, j) is None,
    ensures
        check(mvs[i].0, mvs[i].1) is Ok,
    decreases i - j,
{
    if j < i {
        lemma_accepts_all(mvs, check, j + 1, i);
    }
}

fn read_grid(data: &[u8], cur: &mut usize, cols: u32, rows: u32, qpel: bool) -> (r: Result<
    Vec<(i32, i32)>,
    SrsV2Error,
>)
    requires
        cols * rows <= u32::MAX,
    ensures
        ({
            let s = take_grid(data@, *old(cur) as int, cols as int, cols * rows, qpel);
            match s.value {
                Ok(g) => r is Ok && r->Ok_0@ == g && *final(cur) == s.next && g.len() == cols * rows
                    && grid_bounded(g),
                Err(e) => r == Err::<Vec<(i32, i32)>, SrsV2Error>(e),
            }
        }),
{
    let validate = |mx: i32, my: i32| -> (a: Result<(), SrsV2Error>)
        ensures
            a == compact_check(qpel)(mx, my),
        { validate_b_compact_mv_unit(qpel, mx, my) };
    let r = decode_mv_grid_compact(data, cur, cols, rows, validate);
    proof {
        let raw = raw_grid(data@, *old(cur) as int, cols as int, cols * rows);
        checked_reading_settles(raw, validate, compact_check(qpel), r);
        if r is Ok {
            assert(0 <= cols * rows) by (nonlinear_arith);
            lemma_settled(raw, cols as int, cols * rows, data@, *old(cur) as int, qpel);
        }
    }
    r
}

fn read_section_grid(
    data: &[u8],
    bytes: &Result<Vec<u8>, SrsV2Error>,
    sym_count: usize,
    cols: u32,
    rows: u32,
    qpel: bool,
) -> (r: Result<Vec<(i32, i32)>, SrsV2Error>)
    requires
        (bytes matches Ok(b) && b@.len() == sym_count) ==> cols * rows <= u32::MAX,
    ensures
        match section_grid(*bytes, sym_count as int, cols as int, cols * rows, qpel) {
            Ok(g) => r is Ok && r->Ok_0@ == g && g.len() == cols * rows && grid_bounded(g),
            Err(e) => r == Err::<Vec<(i32, i32)>, SrsV2Error>(e),
        },
{
    match bytes {
        Err(e) => Err(*e),
        Ok(b) => {
            if b.len() != sym_count {
                return Err(SrsV2Error::Syntax("B MV rANS output length mismatch"));
            }
            let mut cc: usize = 0;
            match read_grid(b.as_slice(), &mut cc, cols, rows, qpel) {
                Err(e) => Err(e),
                Ok(g) => {
                    if cc != b.len() {
                        return Err(SrsV2Error::Syntax("B MV compact trailing bytes"));
                    }
                    Ok(g)
                },
            }
        },
    }
}

fn read_grids(
    data: &[u8],
    mv_bytes: &[Result<Vec<u8>, SrsV2Error>],
    cur: &mut usize,
    cols: u32,
    rows: u32,
    qpel: bool,
) -> (r: Result<(Vec<(i32, i32)>, Vec<(i32, i32)>), SrsV2Error>)
    requires
        grid_is_read(data@, mv_bytes@, cols * rows) ==> cols * rows <= u32::MAX,
        data@.len() >= 12,
        *old(cur) == 12,
        data@[3] == 18 ==> mv_bytes@.len() == found_sections(data@, cols * rows).len(),
    ensures
        ({
            let s = take_grids(data@, mv_bytes@, cols as int, cols * rows, qpel);
            match s.value {
                Ok(g) => r is Ok && r->Ok_0.0@ == g.a && r->Ok_0.1@ == g.b && *final(cur) == s.next
                    && g.a.len() == cols * rows && g.b.len() == cols * rows && grid_bounded(g.a)
                    && grid_bounded(g.b),
                Err(e) => r == Err::<(Vec<(i32, i32)>, Vec<(i32, i32)>), SrsV2Error>(e),
            }
        }),
{
    proof {
        reveal(take_grids);
    }
    if data[3] == 18 {
        let a = match read_section(data, cur, cols, rows) {
            Err(e) => {
                return Err(e);
            },
            Ok(s) => s,
        };
        let ga = match read_section_grid(data, &mv_bytes[0], a.sym_count, cols, rows, qpel) {
            Err(e) => {
                return Err(e);
            },
            Ok(g) => g,
        };
        let b = match read_section(data, cur, cols, rows) {
            Err(e) => {
                return Err(e);
            },
            Ok(s) => s,
        };
        match read_section_grid(data, &mv_bytes[1], b.sym_count, cols, rows, qpel) {
            Err(e) => Err(e),
            Ok(gb) => Ok((ga, gb)),
        }
    } else {
        let ga = match read_grid(data, cur, cols, rows, qpel) {
            Err(e) => {
                return Err(e);
            },
            Ok(g) => g,
        };
        match read_grid(data, cur, cols, rows, qpel) {
            Err(e) => Err(e),
            Ok(gb) => Ok((ga, gb)),
        }
    }
}

/// The fields between the slots and the macroblocks or grids.
pub struct BPrefix {
    pub blend: Option<BBlendModeWire>,
    pub flags: int,
    pub next: int,
}

/// A revision that carries vector grids.
pub open spec fn is_compact(rev: int) -> bool {
    rev == 16 || rev == 18
}

/// The revision is one of a bidirectional payload.
pub open spec fn is_b_revision(rev: int) -> bool {
    rev == 10 || rev == 11 || rev == 13 || rev == 14 || is_compact(rev)
}

/// The picture blend or the flags, where the revision has them.
pub open spec fn take_prefix(data: Seq<u8>) -> Result<BPrefix, SrsV2Error> {
    let rev = data[3] as int;
    let t = take_u8(data, 11);
    if rev == 10 || rev == 11 {
        match t.value {
            Err(e) => Err(e),
            Ok(v) => match picture_blend(v) {
                Err(e) => Err(e),
                Ok(b) => Ok(BPrefix { blend: Some(b), flags: 0, next: 12 }),
            },
        }
    } else if is_compact(rev) {
        match t.value {
            Err(e) => Err(e),
            Ok(v) => if v > 3 {
                Err(SrsV2Error::Syntax("unknown B compact inter flags"))
            } else {
                Ok(BPrefix { blend: None, flags: v, next: 12 })
            },
        }
    } else {
        Ok(BPrefix { blend: None, flags: 0, next: 11 })
    }
}

/// The occupied slot `idx`.
pub open spec fn slot_at(m: SrsV2ReferenceManager, idx: int) -> Result<
    SrsV2ReferenceSlot,
    SrsV2Error,
> {
    match slot_refusal(m.slots@.len() as int, idx) {
        Some(e) => Err(e),
        None => match m.slots@[idx] {
            None => Err(SrsV2Error::PFrameWithoutReference),
            Some(s) => Ok(s),
        },
    }
}

/// Why the references of a bidirectional picture are refused, if they are: the first has to be
/// an earlier picture and the second a later one, both of the right format and width.
pub open spec fn b_references_refusal(
    seq: VideoSequenceHeaderV2,
    frame_index: int,
    a: SrsV2ReferenceSlot,
    b: SrsV2ReferenceSlot,
) -> Option<SrsV2Error> {
    if a.frame_index >= frame_index {
        Some(SrsV2Error::Syntax("B-frame backward reference must use an earlier frame_index"))
    } else if b.frame_index <= frame_index {
        Some(SrsV2Error::Syntax("B-frame forward reference must use a later frame_index"))
    } else if a.frame.format != PixelFormat::Yuv420p8 || b.frame.format != PixelFormat::Yuv420p8 {
        Some(SrsV2Error::Unsupported("B refs must be YUV420p8"))
    } else if seq.width % 16 != 0 || seq.height % 16 != 0 {
        Some(SrsV2Error::Syntax("bad dimensions for B-frame"))
    } else if a.frame.y.width != seq.width || b.frame.y.width != seq.width {
        Some(SrsV2Error::Syntax("reference geometry mismatch"))
    } else {
        None
    }
}

/// Why a bidirectional payload is refused before its vectors are read, if it is.
pub open spec fn b_refusal(
    seq: VideoSequenceHeaderV2,
    data: Seq<u8>,
    m: SrsV2ReferenceManager,
) -> Option<SrsV2Error> {
    if seq.max_ref_frames < 2 {
        Some(SrsV2Error::Syntax("B-frame requires max_ref_frames >= 2"))
    } else if seq.pixel_format != PixelFormat::Yuv420p8 {
        Some(SrsV2Error::Unsupported("B decode YUV420p8 only"))
    } else if data.len() < 11 {
        Some(SrsV2Error::Truncated)
    } else if data[0] != 70 || data[1] != 82 || data[2] != 50 {
        Some(SrsV2Error::BadMagic)
    } else if data[3] == 31 {
        Some(SrsV2Error::Unsupported("FR2 rev31 B payloads are reserved"))
    } else if !is_b_revision(data[3] as int) {
        Some(SrsV2Error::BadMagic)
    } else {
        match take_prefix(data) {
            Err(e) => Some(e),
            Ok(_) => match slot_at(m, data[9] as int) {
                Err(e) => Some(e),
                Ok(a) => match slot_at(m, data[10] as int) {
                    Err(e) => Some(e),
                    Ok(b) => b_references_refusal(seq, le32(data, 4), a, b),
                },
            },
        }
    }
}

/// What an accepted payload fixes for its macroblocks, and where they start; the error of broken
/// vector grids or of an unacceptable picture size.
pub open spec fn b_opening(
    seq: VideoSequenceHeaderV2,
    data: Seq<u8>,
    mv_bytes: Seq<Result<Vec<u8>, SrsV2Error>>,
) -> Read<BContext> {
    let rev = data[3] as int;
    let p = take_prefix(data)->Ok_0;
    let subpel = p.flags % 2 == 1;
    let ctx = BContext {
        blend: p.blend,
        weighted: rev == 14 || p.flags >= 2,
        qpel: rev == 11 || rev == 14 || (is_compact(rev) && subpel),
        grids: None,
    };
    let size = plane_refusal(seq.width as int, seq.height as int, seq.width as int);
    if is_compact(rev) {
        let g = take_grids(data, mv_bytes, seq.width as int / 16, mb_count(seq), subpel);
        match g.value {
            Err(e) => Read { value: Err(e), next: g.next },
            Ok(v) => match size {
                Some(e) => Read { value: Err(e), next: g.next },
                None => Read { value: Ok(BContext { grids: Some(v), ..ctx }), next: g.next },
            },
        }
    } else {
        match size {
            Some(e) => Read { value: Err(e), next: p.next },
            None => Read { value: Ok(ctx), next: p.next },
        }
    }
}

/// Where an accepted payload has its vectors in grids and comes to read one, the macroblocks can be
/// counted in 32 bits.
pub open spec fn grids_countable(
    seq: VideoSequenceHeaderV2,
    data: Seq<u8>,
    m: SrsV2ReferenceManager,
    mv_bytes: Seq<Result<Vec<u8>, SrsV2Error>>,
) -> bool {
    b_refusal(seq, data, m) is None && is_compact(data[3] as int) && grid_is_read(
        data,
        mv_bytes,
        mb_count(seq),
    ) ==> mb_count(seq) <= u32::MAX
}

/// How the chunks of a bidirectional payload are read.
pub open spec fn b_style(data: Seq<u8>) -> ChunkStyle {
    ChunkStyle {
        label: "b residual chunk",
        entropy: true,
        qp: step_of(data[8] as int),
        deltas: None,
    }
}

/// The reading of the macroblocks of a bidirectional payload.
pub open spec fn b_reading(
    seq: VideoSequenceHeaderV2,
    data: Seq<u8>,
    ctx: BContext,
    start: int,
) -> InterState {
    closed_state(
        data,
        "trailing B-frame bytes",
        inter_state(
            |cur: int, i: int| b_header(data, ctx, cur, i),
            data,
            b_style(data),
            start,
            4 * mb_count(seq),
        ),
    )
}

/// The reading of a whole bidirectional payload, or why there is none.
pub open spec fn b_parse(
    seq: VideoSequenceHeaderV2,
    data: Seq<u8>,
    m: SrsV2ReferenceManager,
    mv_bytes: Seq<Result<Vec<u8>, SrsV2Error>>,
) -> Result<InterState, SrsV2Error> {
    match b_refusal(seq, data, m) {
        Some(e) => Err(e),
        None => {
            let o = b_opening(seq, data, mv_bytes);
            match o.value {
                Err(e) => Err(e),
                Ok(ctx) => Ok(b_reading(seq, data, ctx, o.next)),
            }
        },
    }
}

fn check_b_payload(
    seq: &VideoSequenceHeaderV2,
    payload: &[u8],
    manager: &SrsV2ReferenceManager,
) -> (r: Result<(), SrsV2Error>)
    ensures
        r == match b_refusal(*seq, payload@, *manager) {
            Some(e) => Err::<(), SrsV2Error>(e),
            None => Ok::<(), SrsV2Error>(()),
        },
{
    if seq.max_ref_frames < 2 {
        return Err(SrsV2Error::Syntax("B-frame requires max_ref_frames >= 2"));
    }
    if seq.pixel_format != PixelFormat::Yuv420p8 {
        return Err(SrsV2Error::Unsupported("B decode YUV420p8 only"));
    }
    if payload.len() < 11 {
        return Err(SrsV2Error::Truncated);
    }
    if payload[0] != 70 || payload[1] != 82 || payload[2] != 50 {
        return Err(SrsV2Error::BadMagic);
    }
    let rev: u8 = payload[3];
    if rev == 31 {
        return Err(SrsV2Error::Unsupported("FR2 rev31 B payloads are reserved"));
    }
    if !(rev == 10 || rev == 11 || rev == 13 || rev == 14 || rev == 16 || rev == 18) {
        return Err(SrsV2Error::BadMagic);
    }
    let frame_index: u32 = get_u32(payload, 4);
    let slot_a: u8 = payload[9];
    let slot_b: u8 = payload[10];
    match read_prefix(payload) {
        Err(e) => {
            return Err(e);
        },
        Ok(_) => {},
    }
    let ref_a = match manager.frame_at_slot_index(slot_a) {
        Err(e) => {
            return Err(e);
        },
        Ok(f) => f,
    };
    let ref_b = match manager.frame_at_slot_index(slot_b) {
        Err(e) => {
            return Err(e);
        },
        Ok(f) => f,
    };
    let fi_a: u32 = match manager.slot_frame_index(slot_a) {
        Err(e) => {
            return Err(e);
        },
        Ok(v) => v,
    };
    let fi_b: u32 = match manager.slot_frame_index(slot_b) {
        Err(e) => {
            return Err(e);
        },
        Ok(v) => v,
    };
    if fi_a >= frame_index {
        return Err(
            SrsV2Error::Syntax("B-frame backward reference must use an earlier frame_index"),
        );
    }
    if fi_b <= frame_index {
        return Err(SrsV2Error::Syntax("B-frame forward reference must use a later frame_index"));
    }
    if ref_a.format != PixelFormat::Yuv420p8 || ref_b.format != PixelFormat::Yuv420p8 {
        return Err(SrsV2Error::Unsupported("B refs must be YUV420p8"));
    }
    if seq.width % 16 != 0 || seq.height % 16 != 0 {
        return Err(SrsV2Error::Syntax("bad dimensions for B-frame"));
    }
    if ref_a.y.width != seq.width || ref_b.y.width != seq.width {
        return Err(SrsV2Error::Syntax("reference geometry mismatch"));
    }
    Ok(())
}

fn read_prefix(payload: &[u8]) -> (r: Result<(Option<BBlendModeWire>, u8, usize), SrsV2Error>)
    requires
        payload@.len() >= 11,
    ensures
        match take_prefix(payload@) {
            Err(e) => r == Err::<(Option<BBlendModeWire>, u8, usize), SrsV2Error>(e),
            Ok(p) => r is Ok && r->Ok_0.0 == p.blend && r->Ok_0.1 == p.flags && r->Ok_0.2 == p.next
                && p.next <= payload@.len() && p.blend != Some(BBlendModeWire::Weighted),
        },
{
    let rev: u8 = payload[3];
    let mut cur: usize = 11;
    if rev == 10 || rev == 11 {
        match read_u8(payload, &mut cur) {
            Err(e) => Err(e),
            Ok(v) => match BBlendModeWire::from_u8(v) {
                Err(e) => Err(e),
                Ok(b) => Ok((Some(b), 0, cur)),
            },
        }
    } else if rev == 16 || rev == 18 {
        match read_u8(payload, &mut cur) {
            Err(e) => Err(e),
            Ok(v) => if v > 3 {
                Err(SrsV2Error::Syntax("unknown B compact inter flags"))
            } else {
                Ok((None, v, cur))
            },
        }
    } else {
        Ok((None, 0, cur))
    }
}

fn read_opening(
    seq: &VideoSequenceHeaderV2,
    payload: &[u8],
    mv_bytes: &[Result<Vec<u8>, SrsV2Error>],
) -> (r: Result<(BFields, usize), SrsV2Error>)
    requires
        payload@.len() >= 11,
        take_prefix(payload@) is Ok,
        is_compact(payload@[3] as int) && grid_is_read(payload@, mv_bytes@, mb_count(*seq))
            ==> mb_count(*seq) <= u32::MAX,
        mv_bytes@.len() == found_sections(payload@, mb_count(*seq)).len(),
    ensures
        ({
            let o = b_opening(*seq, payload@, mv_bytes@);
            match o.value {
                Err(e) => r == Err::<(BFields, usize), SrsV2Error>(e),
                Ok(ctx) => r is Ok && r->Ok_0.0.context() == ctx && r->Ok_0.0.wf(mb_count(*seq))
                    && r->Ok_0.1 == o.next && plane_refusal(
                    seq.width as int,
                    seq.height as int,
                    seq.width as int,
                ) is None,
            }
        }),
{
    let rev: u8 = payload[3];
    let (blend, flags, start) = match read_prefix(payload) {
        Err(e) => {
            return Err(e);
        },
        Ok(p) => p,
    };
    let subpel: bool = flags % 2 == 1;
    let weighted: bool = rev == 14 || flags >= 2;
    let compact: bool = rev == 16 || rev == 18;
    let qpel: bool = rev == 11 || rev == 14 || (compact && subpel);
    let mut cur: usize = start;
    let grids = if compact {
        match read_grids(
            payload,
            mv_bytes,
            &mut cur,
            seq.width / 16,
            seq.height / 16,
            subpel,
        ) {
            Err(e) => {
                return Err(e);
            },
            Ok(g) => Some(g),
        }
    } else {
        None
    };
    match VideoPlane::try_new(seq.width, seq.height, seq.width as usize) {
        Err(e) => {
            return Err(e);
        },
        Ok(_) => {},
    }
    Ok((BFields { blend, weighted, qpel, grids }, cur))
}

/// Takes a bidirectional payload apart: what is left to do is to compute the residual samples of
/// its sub-blocks. `mv_bytes` are the decoded vector sections that [`find_b_mv_sections`] lists.
pub fn parse_b_payload(
    seq: &VideoSequenceHeaderV2,
    payload: &[u8],
    manager: &SrsV2ReferenceManager,
    mv_bytes: &[Result<Vec<u8>, SrsV2Error>],
) -> (r: Result<InterParse, SrsV2Error>)
    requires
        grids_countable(*seq, payload@, *manager, mv_bytes@),
        mv_bytes@.len() == found_sections(payload@, mb_count(*seq)).len(),
    ensures
        match b_parse(*seq, payload@, *manager, mv_bytes@) {
            Err(e) => r == Err::<InterParse, SrsV2Error>(e),
            Ok(st) => r is Ok && r->Ok_0.matches(st) && r->Ok_0.wf(mb_count(*seq))
                && r->Ok_0.frame_index == le32(payload@, 4) && r->Ok_0.qp == payload@[8]
                && plane_refusal(seq.width as int, seq.height as int, seq.width as int) is None,
        },
{
    match check_b_payload(seq, payload, manager) {
        Err(e) => {
            return Err(e);
        },
        Ok(_) => {},
    }
    let (fields, start) = match read_opening(seq, payload, mv_bytes) {
        Err(e) => {
            return Err(e);
        },
        Ok(o) => o,
    };
    let w: u32 = seq.width;
    let h: u32 = seq.height;
    proof {
        lemma_chroma_accepted(w as int, h as int);
        assert((w as int / 16) * (h as int / 16) <= 512 * 512) by (nonlinear_arith)
            requires
                0 <= w as int / 16 <= 512,
                0 <= h as int / 16 <= 512,
        ;
    }
    let frame_index: u32 = get_u32(payload, 4);
    let qp: u8 = payload[8];
    let qp_i: i16 = if qp < 1 { 1 } else { qp as i16 };
    let n: usize = 4 * ((w / 16) as usize * (h / 16) as usize);
    let mut mbs: Vec<InterMb> = Vec::new();
    let mut blocks: Vec<Option<ResidualJob>> = Vec::new();
    let mut fault: Option<SrsV2Error> = None;
    let mut cur: usize = start;
    let mut pattern: u8 = 0;
    let ghost data = payload@;
    let ghost ctx = fields.context();
    let ghost header = |cur: int, i: int| b_header(data, ctx, cur, i);
    let mut k: usize = 0;
    while k < n && fault.is_none()
        invariant
            k <= n,
            n == 4 * mb_count(*seq),
            data == payload@,
            data.len() >= 11,
            ctx == fields.context(),
            fields.wf(mb_count(*seq)),
            qp_i == b_style(data).qp,
            header == (|cur: int, i: int| b_header(data, ctx, cur, i)),
            ({
                let st = inter_state(header, data, b_style(data), start as int, k as int);
                &&& mbs@ == st.mbs
                &&& job_views(blocks@) == st.blocks
                &&& fault == st.fault
                &&& fault is None ==> cur == st.cur && pattern == st.pattern
            }),
            forall|i: int| 0 <= i < mbs@.len() ==> (#[trigger] mbs@[i]).wf(),
        decreases n - k,
    {
        let ghost st = inter_state(header, data, b_style(data), start as int, k as int);
        assert(inter_state(header, data, b_style(data), start as int, k + 1) == inter_step(
            header,
            data,
            b_style(data),
            k as int,
            st,
        ));
        if k % 4 == 0 {
            match fields.read_header(payload, &mut cur, k / 4) {
                Err(e) => {
                    fault = Some(e);
                },
                Ok((mb, p)) => {
                    mbs.push(mb);
                    pattern = p;
                },
            }
        }
        if fault.is_none() {
            if bit_set(pattern, k % 4) {
                blocks.push(None);
                assert(job_views(blocks@) =~= st.blocks.push(None));
            } else {
                match read_job(payload, &mut cur, "b residual chunk", true, qp_i, None) {
                    Err(e) => {
                        fault = Some(e);
                    },
                    Ok(job) => {
                        blocks.push(Some(job));
                        assert(job_views(blocks@) =~= st.blocks.push(Some(job@)));
                    },
                }
            }
        }
        k += 1;
    }
    proof {
        if fault is Some {
            lemma_inter_fault(header, data, b_style(data), start as int, k as int, n as int);
        } else {
            lemma_inter_lengths(header, data, b_style(data), start as int, n as int);
        }
    }
    if fault.is_none() && cur != payload.len() {
        fault = Some(SrsV2Error::Syntax("trailing B-frame bytes"));
    }
    Ok(InterParse { frame_index, qp, mbs, blocks, fault })
}

/// The picture of a bidirectional payload.
pub open spec fn b_decoded(
    seq: VideoSequenceHeaderV2,
    data: Seq<u8>,
    manager: SrsV2ReferenceManager,
    mv_bytes: Seq<Result<Vec<u8>, SrsV2Error>>,
    residuals: Seq<Result<[i16; 64], SrsV2Error>>,
    r: Result<DecodedVideoFrameV2, SrsV2Error>,
) -> bool {
    match b_parse(seq, data, manager, mv_bytes) {
        Err(e) => r == Err::<DecodedVideoFrameV2, SrsV2Error>(e),
        Ok(st) => match inter_error(st, residuals) {
            Some(e) => r == Err::<DecodedVideoFrameV2, SrsV2Error>(e),
            None => r is Ok && r->Ok_0.frame_index == le32(data, 4) && r->Ok_0.width == seq.width
                && r->Ok_0.height == seq.height && r->Ok_0.is_displayable && r->Ok_0.yuv.format
                == PixelFormat::Yuv420p8 && inter_planes(
                r->Ok_0.yuv,
                seq.width as int,
                seq.height as int,
                manager.slots@[data[9] as int]->0.frame,
                manager.slots@[data[10] as int]->0.frame,
                st.mbs,
                st.blocks,
                residuals,
            ) && r->Ok_0.yuv.valid(),
        },
    }
}

/// Decodes a bidirectional payload; `manager` supplies the two reference pictures, `mv_bytes` the
/// decoded vector sections and `residuals` the residual samples, in the order in which
/// [`find_b_mv_sections`] and [`parse_b_payload`] list them.
pub fn decode_yuv420_b_payload(
    seq: &VideoSequenceHeaderV2,
    payload: &[u8],
    manager: &SrsV2ReferenceManager,
    mv_bytes: &[Result<Vec<u8>, SrsV2Error>],
    residuals: &[Result<[i16; 64], SrsV2Error>],
) -> (r: Result<DecodedVideoFrameV2, SrsV2Error>)
    requires
        grids_countable(*seq, payload@, *manager, mv_bytes@),
        manager.frames_valid(),
        mv_bytes@.len() == found_sections(payload@, mb_count(*seq)).len(),
        b_parse(*seq, payload@, *manager, mv_bytes@) is Ok ==> residuals@.len() == b_parse(
            *seq,
            payload@,
            *manager,
            mv_bytes@,
        )->Ok_0.blocks.len(),
    ensures
        b_decoded(*seq, payload@, *manager, mv_bytes@, residuals@, r),
{
    let parse = match parse_b_payload(seq, payload, manager, mv_bytes) {
        Err(e) => {
            return Err(e);
        },
        Ok(p) => p,
    };
    let ref_a = match manager.frame_at_slot_index(payload[9]) {
        Err(e) => {
            return Err(e);
        },
        Ok(f) => f,
    };
    let ref_b = match manager.frame_at_slot_index(payload[10]) {
        Err(e) => {
            return Err(e);
        },
        Ok(f) => f,
    };
    rebuild_inter_frame(&parse, seq.width, seq.height, ref_a, ref_b, residuals)
}

} // verus!
