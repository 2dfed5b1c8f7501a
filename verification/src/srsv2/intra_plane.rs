//! Whole planes of intra blocks.
use vstd::prelude::*;

use crate::arith::magnitude;
use crate::bytes::clip;
use super::error::SrsV2Error;
use super::frame::{lemma_packed_at, lemma_packed_position, VideoPlane};
use super::intra_codec::{
    block_bytes, block_fits, block_round_trip, chosen_mode, dequantize, dequantized_block,
    lemma_prediction_range, pick_mode, predict_block, prediction, quantize, quantized_block,
    read_block, read_block_at, write_block, PredMode,
};
use super::limits::MAX_FRAME_PAYLOAD_BYTES;
use super::reader::Read;

verus! {

/// A length rounded up to whole blocks.
pub open spec fn padded_len(v: int) -> int {
    (v + 7) / 8 * 8
}

/// Blocks of a plane.
pub open spec fn block_count(pw: int, ph: int) -> int {
    (pw / 8) * (ph / 8)
}

/// Rounds a length up to whole blocks.
pub fn round_up_8(v: usize) -> (r: usize)
    requires
        v <= 8192,
    ensures
        r == padded_len(v as int),
        v <= r < v + 8,
        r % 8 == 0,
        r <= 8192,
{
    (v + 7) / 8 * 8
}

/// A coded block before its coefficients are transformed.
#[derive(Debug, Clone, Copy)]
pub struct IntraBlock {
    pub mode: PredMode,
    pub levels: [i16; 64],
}

impl View for IntraBlock {
    type V = (PredMode, Seq<i16>);

    open spec fn view(&self) -> (PredMode, Seq<i16>) {
        (self.mode, self.levels@)
    }
}

/// What a list of coded blocks holds.
pub open spec fn blocks_view(v: Seq<IntraBlock>) -> Seq<(PredMode, Seq<i16>)> {
    Seq::new(v.len(), |i: int| v[i]@)
}

/// `n` coded blocks in a row.
pub open spec fn read_blocks(data: Seq<u8>, cur: int, n: int) -> Read<
    Seq<(PredMode, Seq<i16>)>,
>
    decreases n,
{
    if n <= 0 {
        Read { value: Ok(seq![]), next: cur }
    } else {
        let p = read_blocks(data, cur, n - 1);
        match p.value {
            Err(e) => p,
            Ok(seen) => {
                let b = read_block_at(data, p.next);
                match b.value {
                    Err(e) => Read { value: Err(e), next: b.next },
                    Ok(v) => Read { value: Ok(seen.push(v)), next: b.next },
                }
            },
        }
    }
}

proof fn lemma_read_blocks_fault(data: Seq<u8>, cur: int, k: int, n: int)
    requires
        k <= n,
        read_blocks(data, cur, k).value is Err,
    ensures
        read_blocks(data, cur, n) == read_blocks(data, cur, k),
    decreases n - k,
{
    if k < n {
        lemma_read_blocks_fault(data, cur, k, n - 1);
    }
}

/// Reads the blocks of a plane.
pub fn parse_plane_intra(data: &[u8], cursor: &mut usize, n: usize) -> (r: Result<
    Vec<IntraBlock>,
    SrsV2Error,
>)
    ensures
        ({
            let s = read_blocks(data@, *old(cursor) as int, n as int);
            match s.value {
                Ok(v) => r is Ok && blocks_view(r->Ok_0@) == v && *final(cursor) == s.next
                    && r->Ok_0@.len() == n,
                Err(e) => r == Err::<Vec<IntraBlock>, SrsV2Error>(e),
            }
        }),
{
    let ghost c0 = *cursor as int;
    let mut out: Vec<IntraBlock> = Vec::new();
    assert(blocks_view(out@) =~= seq![]);
    let mut k: usize = 0;
    while k < n
        invariant
            k <= n,
            c0 == *old(cursor),
            out@.len() == k,
            ({
                let s = read_blocks(data@, c0, k as int);
                s.value == Ok::<Seq<(PredMode, Seq<i16>)>, SrsV2Error>(blocks_view(out@)) && s.next
                    == *cursor
            }),
        decreases n - k,
    {
        match read_block(data, cursor) {
            Ok((mode, levels)) => {
                let ghost before = out@;
                out.push(IntraBlock { mode, levels });
                assert(blocks_view(out@) =~= blocks_view(before).push((mode, levels@)));
            },
            Err(e) => {
                proof {
                    lemma_read_blocks_fault(data@, c0, k + 1, n as int);
                }
                return Err(e);
            },
        }
        k += 1;
    }
    Ok(out)
}

/// Where position `i` of an area lies inside its block, counted row by row.
pub open spec fn place_in_block(i: int, pw: int) -> int {
    (i / pw % 8) * 8 + i % pw % 8
}

/// Position `i` of an area belongs to block (`bx`, `by`).
pub open spec fn in_block(i: int, pw: int, bx: int, by: int) -> bool {
    i % pw / 8 == bx && i / pw / 8 == by
}

/// The area with one block replaced.
pub open spec fn with_block(rec: Seq<u8>, pw: int, bx: int, by: int, vals: Seq<u8>) -> Seq<u8> {
    Seq::new(
        rec.len(),
        |i: int|
            if in_block(i, pw, bx, by) {
                vals[place_in_block(i, pw)]
            } else {
                rec[i]
            },
    )
}

/// A predicted block plus its residual, each sample held between 0 and 255.
pub open spec fn summed(pred: Seq<i16>, res: Seq<i16>) -> Seq<u8> {
    Seq::new(64, |i: int| clip(pred[i] + res[i], 0, 255) as u8)
}

/// An area where nothing was decoded yet.
pub open spec fn blank(n: int) -> Seq<u8> {
    Seq::new(n as nat, |i: int| 128u8)
}

/// The area after its first `n` blocks were predicted and corrected by their residuals.
pub open spec fn reconstructed(
    modes: Seq<PredMode>,
    residuals: Seq<Seq<i16>>,
    pw: int,
    ph: int,
    n: int,
) -> Seq<u8>
    decreases n,
{
    if n <= 0 {
        blank(pw * ph)
    } else {
        let rec = reconstructed(modes, residuals, pw, ph, n - 1);
        let bx = (n - 1) % (pw / 8);
        let by = (n - 1) / (pw / 8);
        with_block(
            rec,
            pw,
            bx,
            by,
            summed(prediction(modes[n - 1], rec, pw, ph, bx, by), residuals[n - 1]),
        )
    }
}

pub proof fn lemma_reconstructed_len(
    modes: Seq<PredMode>,
    residuals: Seq<Seq<i16>>,
    pw: int,
    ph: int,
    n: int,
)
    requires
        0 <= pw * ph,
    ensures
        reconstructed(modes, residuals, pw, ph, n).len() == pw * ph,
    decreases n,
{
    if n > 0 {
        lemma_reconstructed_len(modes, residuals, pw, ph, n - 1);
    }
}

proof fn lemma_block_position(k: int, pw: int, ph: int, bx: int, by: int)
    requires
        0 <= k < 64,
        0 <= bx,
        0 <= by,
        bx * 8 + 8 <= pw,
        by * 8 + 8 <= ph,
    ensures
        ({
            let i = (by * 8 + k / 8) * pw + bx * 8 + k % 8;
            &&& 0 <= i < pw * ph
            &&& in_block(i, pw, bx, by)
            &&& place_in_block(i, pw) == k
        }),
        forall|i: int|
            0 <= i < pw * ph && #[trigger] in_block(i, pw, bx, by) && place_in_block(i, pw) == k
                ==> i == (by * 8 + k / 8) * pw + bx * 8 + k % 8,
{
    let x = bx * 8 + k % 8;
    let y = by * 8 + k / 8;
    lemma_packed_at(x, y, pw, ph);
    assert forall|i: int|
        0 <= i < pw * ph && #[trigger] in_block(i, pw, bx, by) && place_in_block(i, pw)
            == k implies i == y * pw + x by {
        lemma_packed_position(i, pw, ph);
        assert(i % pw == x);
        assert(i / pw == y);
    }
}

fn put_block(rec: &mut Vec<u8>, pw: usize, ph: usize, bx: usize, by: usize, vals: &[u8; 64])
    requires
        block_fits(old(rec)@, pw as int, ph as int, bx as int, by as int),
    ensures
        final(rec)@ == with_block(old(rec)@, pw as int, bx as int, by as int, vals@),
{
    let ghost start = rec@;
    assert(pw * ph <= 16384 * 16384) by (nonlinear_arith)
        requires
            pw <= 16384,
            ph <= 16384,
    ;
    let mut k: usize = 0;
    while k < 64
        invariant
            k <= 64,
            block_fits(start, pw as int, ph as int, bx as int, by as int),
            pw * ph <= 16384 * 16384,
            rec@.len() == start.len(),
            forall|i: int|
                0 <= i < start.len() ==> #[trigger] rec@[i] == if in_block(
                    i,
                    pw as int,
                    bx as int,
                    by as int,
                ) && place_in_block(i, pw as int) < k {
                    vals@[place_in_block(i, pw as int)]
                } else {
                    start[i]
                },
        decreases 64 - k,
    {
        proof {
            lemma_block_position(k as int, pw as int, ph as int, bx as int, by as int);
            assert((by * 8 + k as int / 8) * pw >= 0) by (nonlinear_arith)
                requires
                    by >= 0,
                    k >= 0,
                    pw >= 0,
            ;
        }
        let at: usize = (by * 8 + k / 8) * pw + bx * 8 + k % 8;
        rec[at] = vals[k];
        k += 1;
    }
    proof {
        assert forall|i: int| 0 <= i < start.len() implies rec@[i] == with_block(
            start,
            pw as int,
            bx as int,
            by as int,
            vals@,
        )[i] by {
            lemma_packed_position(i, pw as int, ph as int);
            assert(place_in_block(i, pw as int) < 64);
        }
        assert(rec@ =~= with_block(start, pw as int, bx as int, by as int, vals@));
    }
}

/// Adds residual samples to a prediction.
pub fn add_residual(pred: &[i16; 64], res: &[i16; 64]) -> (vals: [u8; 64])
    ensures
        vals@ == summed(pred@, res@),
{
    let mut vals: [u8; 64] = [0u8; 64];
    let mut i: usize = 0;
    while i < 64
        invariant
            i <= 64,
            forall|j: int| 0 <= j < i ==> vals@[j] == clip(pred@[j] + res@[j], 0, 255),
        decreases 64 - i,
    {
        let v: i32 = pred[i] as i32 + res[i] as i32;
        vals[i] = if v < 0 {
            0
        } else if v > 255 {
            255
        } else {
            v as u8
        };
        i += 1;
    }
    assert(vals@ =~= summed(pred@, res@));
    vals
}

fn blank_area(n: usize) -> (v: Vec<u8>)
    ensures
        v@ == blank(n as int),
{
    let v: Vec<u8> = vec![128u8; n];
    assert(v@ =~= blank(n as int));
    v
}

/// The residual blocks of a list.
pub open spec fn residual_views(v: Seq<[i16; 64]>) -> Seq<Seq<i16>> {
    Seq::new(v.len(), |i: int| v[i]@)
}

/// The modes of a list of coded blocks.
pub open spec fn modes_of(v: Seq<(PredMode, Seq<i16>)>) -> Seq<PredMode> {
    Seq::new(v.len(), |i: int| v[i].0)
}

/// Block `k` of an area lies in it.
pub proof fn lemma_block_in_area(k: int, pw: int, ph: int)
    requires
        0 <= k < block_count(pw, ph),
        0 <= pw <= 16384,
        0 <= ph <= 16384,
        pw % 8 == 0,
        ph % 8 == 0,
    ensures
        pw >= 8,
        ({
            let bx = k % (pw / 8);
            let by = k / (pw / 8);
            0 <= bx && 0 <= by && bx * 8 + 8 <= pw && by * 8 + 8 <= ph
        }),
{
    assert(pw / 8 > 0) by {
        if pw / 8 == 0 {
            assert((pw / 8) * (ph / 8) == 0) by (nonlinear_arith)
                requires
                    pw / 8 == 0,
            ;
        }
    }
    lemma_packed_position(k, pw / 8, ph / 8);
}

/// The samples of a `w` by `h` plane out of a wider area.
pub open spec fn cropped(rec: Seq<u8>, pw: int, w: int, h: int) -> Seq<u8> {
    Seq::new((w * h) as nat, |i: int| rec[i / w * pw + i % w])
}

/// Reconstructs a plane from its modes and residual samples.
pub fn reconstruct_plane_intra(
    w: usize,
    h: usize,
    blocks: &[IntraBlock],
    residuals: &[[i16; 64]],
) -> (samples: Vec<u8>)
    requires
        w <= 8192,
        h <= 8192,
        blocks@.len() == block_count(padded_len(w as int), padded_len(h as int)),
        residuals@.len() == blocks@.len(),
    ensures
        samples@ == cropped(
            reconstructed(
                modes_of(blocks_view(blocks@)),
                residual_views(residuals@),
                padded_len(w as int),
                padded_len(h as int),
                blocks@.len() as int,
            ),
            padded_len(w as int),
            w as int,
            h as int,
        ),
{
    let pw: usize = round_up_8(w);
    let ph: usize = round_up_8(h);
    assert(pw * ph <= 8192 * 8192) by (nonlinear_arith)
        requires
            pw <= 8192,
            ph <= 8192,
    ;
    let mut rec: Vec<u8> = blank_area(pw * ph);
    let bw: usize = pw / 8;
    let ghost modes = modes_of(blocks_view(blocks@));
    let ghost res = residual_views(residuals@);
    let mut k: usize = 0;
    while k < blocks.len()
        invariant
            k <= blocks@.len(),
            pw <= 8192,
            ph <= 8192,
            pw % 8 == 0,
            ph % 8 == 0,
            bw == pw / 8,
            blocks@.len() == block_count(pw as int, ph as int),
            residuals@.len() == blocks@.len(),
            modes == modes_of(blocks_view(blocks@)),
            res == residual_views(residuals@),
            rec@.len() == pw * ph,
            rec@ == reconstructed(modes, res, pw as int, ph as int, k as int),
        decreases blocks@.len() - k,
    {
        proof {
            lemma_block_in_area(k as int, pw as int, ph as int);
        }
        let bx: usize = k % bw;
        let by: usize = k / bw;
        let pred = predict_block(blocks[k].mode, rec.as_slice(), pw, ph, bx, by);
        let vals = add_residual(&pred, &residuals[k]);
        put_block(&mut rec, pw, ph, bx, by, &vals);
        k += 1;
    }
    crop_plane(rec.as_slice(), pw, ph, w, h)
}

fn crop_plane(rec: &[u8], pw: usize, ph: usize, w: usize, h: usize) -> (samples: Vec<u8>)
    requires
        w <= pw <= 8192,
        h <= ph <= 8192,
        rec@.len() == pw * ph,
    ensures
        samples@ == cropped(rec@, pw as int, w as int, h as int),
{
    assert(w * h <= 8192 * 8192) by (nonlinear_arith)
        requires
            w <= 8192,
            h <= 8192,
    ;
    let n: usize = w * h;
    let mut samples: Vec<u8> = Vec::with_capacity(n);
    let mut i: usize = 0;
    while i < n
        invariant
            i <= n,
            n == w * h,
            w <= pw <= 8192,
            h <= ph <= 8192,
            rec@.len() == pw * ph,
            samples@.len() == i,
            forall|j: int| 0 <= j < i ==> #[trigger] samples@[j] == rec@[j / w as int * pw + j % w as int],
        decreases n - i,
    {
        assert(w > 0) by (nonlinear_arith)
            requires
                0 < w * h,
        ;
        proof {
            lemma_packed_position(i as int, w as int, h as int);
            lemma_packed_at(i as int % w as int, i as int / w as int, pw as int, ph as int);
            assert(pw * ph <= 8192 * 8192) by (nonlinear_arith)
                requires
                    pw <= 8192,
                    ph <= 8192,
            ;
            assert((i as int / w as int) * pw >= 0) by (nonlinear_arith)
                requires
                    i as int / w as int >= 0,
                    pw >= 0,
            ;
        }
        samples.push(rec[i / w * pw + i % w]);
        i += 1;
    }
    assert(samples@ =~= cropped(rec@, pw as int, w as int, h as int));
    samples
}

/// The bytes of the first `n` blocks.
pub open spec fn blocks_bytes(modes: Seq<PredMode>, levels: Seq<Seq<i16>>, n: int) -> Seq<u8>
    decreases n,
{
    if n <= 0 {
        seq![]
    } else {
        blocks_bytes(modes, levels, n - 1) + block_bytes(modes[n - 1], levels[n - 1])
    }
}

/// The source samples of a block, with 128 outside of the plane.
pub open spec fn source_block(plane: VideoPlane<u8>, bx: int, by: int) -> Seq<i16> {
    Seq::new(
        64,
        |i: int|
            if bx * 8 + i % 8 < plane.width && by * 8 + i / 8 < plane.height {
                plane.at(bx * 8 + i % 8, by * 8 + i / 8) as i16
            } else {
                128i16
            },
    )
}

/// The difference of two blocks.
pub open spec fn difference(a: Seq<i16>, b: Seq<i16>) -> Seq<i16> {
    Seq::new(64, |i: int| (a[i] - b[i]) as i16)
}

/// Encodes a plane block by block. For each block in turn, `begin_block` gives the residual to be
/// transformed, `code_block` takes its coefficients and gives those that a decoder will see, and
/// `finish_block` takes their inverse transform.
pub struct IntraPlaneEncoder {
    pub pw: usize,
    pub ph: usize,
    pub qp: i16,
    pub done: usize,
    pub coded: bool,
    pub mode: PredMode,
    pub rec: Vec<u8>,
    pub out: Vec<u8>,
    pub modes: Ghost<Seq<PredMode>>,
    pub levels: Ghost<Seq<Seq<i16>>>,
    pub residuals: Ghost<Seq<Seq<i16>>>,
}

impl IntraPlaneEncoder {
    /// Number of blocks of the plane.
    pub open spec fn total(self) -> int {
        block_count(self.pw as int, self.ph as int)
    }

    /// The output holds the blocks coded so far, and the reconstruction is what a decoder has
    /// after the finished ones.
    pub open spec fn wf(self) -> bool {
        &&& self.pw <= 8192
        &&& self.ph <= 8192
        &&& self.pw % 8 == 0
        &&& self.ph % 8 == 0
        &&& self.done <= self.total()
        &&& self.coded ==> self.done < self.total()
        &&& self.residuals@.len() == self.done
        &&& self.modes@.len() == self.done + (if self.coded { 1int } else { 0 })
        &&& self.levels@.len() == self.modes@.len()
        &&& forall|i: int| 0 <= i < self.levels@.len() ==> (#[trigger] self.levels@[i]).len() == 64
        &&& self.coded ==> self.mode == self.modes@[self.done as int]
        &&& self.rec@.len() == self.pw * self.ph
        &&& self.rec@ == reconstructed(
            self.modes@,
            self.residuals@,
            self.pw as int,
            self.ph as int,
            self.done as int,
        )
        &&& self.out@ == blocks_bytes(self.modes@, self.levels@, self.modes@.len() as int)
    }

    /// Column and row of the current block.
    pub open spec fn column(self) -> int {
        self.done as int % (self.pw as int / 8)
    }

    pub open spec fn row(self) -> int {
        self.done as int / (self.pw as int / 8)
    }

    pub fn new(plane: &VideoPlane<u8>, qp: i16) -> (e: Self)
        requires
            plane.valid(),
        ensures
            e.wf(),
            e.pw == padded_len(plane.width as int),
            e.ph == padded_len(plane.height as int),
            e.qp == qp,
            e.done == 0,
            !e.coded,
            e.out@ == Seq::<u8>::empty(),
    {
        let pw: usize = round_up_8(plane.width as usize);
        let ph: usize = round_up_8(plane.height as usize);
        assert(pw * ph <= 8192 * 8192) by (nonlinear_arith)
            requires
                pw <= 8192,
                ph <= 8192,
        ;
        let rec: Vec<u8> = blank_area(pw * ph);
        assert(block_count(pw as int, ph as int) >= 0) by (nonlinear_arith)
            requires
                pw >= 0,
                ph >= 0,
        ;
        IntraPlaneEncoder {
            pw,
            ph,
            qp,
            done: 0,
            coded: false,
            mode: PredMode::Dc,
            rec,
            out: Vec::new(),
            modes: Ghost(Seq::empty()),
            levels: Ghost(Seq::empty()),
            residuals: Ghost(Seq::empty()),
        }
    }

    /// Whether every block is finished.
    pub fn is_finished(&self) -> (b: bool)
        requires
            self.wf(),
        ensures
            b == (self.done == self.total()),
    {
        assert(block_count(self.pw as int, self.ph as int) <= 1024 * 1024) by (nonlinear_arith)
            requires
                0 <= self.pw <= 8192,
                0 <= self.ph <= 8192,
        ;
        self.done == (self.pw / 8) * (self.ph / 8)
    }

    /// Picks the mode of the current block and gives its residual.
    pub fn begin_block(&mut self, plane: &VideoPlane<u8>) -> (res: [i16; 64])
        requires
            old(self).wf(),
            !old(self).coded,
            old(self).done < old(self).total(),
            plane.valid(),
            old(self).pw == padded_len(plane.width as int),
            old(self).ph == padded_len(plane.height as int),
        ensures
            final(self).wf(),
            *final(self) == (IntraPlaneEncoder {
                mode: chosen_mode(
                    old(self).rec@,
                    old(self).pw as int,
                    old(self).ph as int,
                    old(self).column(),
                    old(self).row(),
                    source_block(*plane, old(self).column(), old(self).row()),
                ),
                ..*old(self)
            }),
            res@ == difference(
                source_block(*plane, old(self).column(), old(self).row()),
                prediction(
                    final(self).mode,
                    old(self).rec@,
                    old(self).pw as int,
                    old(self).ph as int,
                    old(self).column(),
                    old(self).row(),
                ),
            ),
    {
        proof {
            lemma_block_in_area(self.done as int, self.pw as int, self.ph as int);
        }
        let bw: usize = self.pw / 8;
        let bx: usize = self.done % bw;
        let by: usize = self.done / bw;
        let orig = load_block(plane, bx, by);
        self.mode = pick_mode(self.rec.as_slice(), self.pw, self.ph, bx, by, &orig);
        let pred = predict_block(self.mode, self.rec.as_slice(), self.pw, self.ph, bx, by);
        let mut res: [i16; 64] = [0i16; 64];
        let mut i: usize = 0;
        while i < 64
            invariant
                i <= 64,
                forall|j: int| 0 <= j < 64 ==> 0 <= #[trigger] orig@[j] <= 255,
                forall|j: int| 0 <= j < 64 ==> 0 <= #[trigger] pred@[j] <= 255,
                forall|j: int| 0 <= j < i ==> res@[j] == orig@[j] - pred@[j],
            decreases 64 - i,
        {
            res[i] = orig[i] - pred[i];
            i += 1;
        }
        assert(res@ =~= difference(orig@, pred@));
        res
    }

    /// Codes the coefficients of the current block and gives those that a decoder will see.
    pub fn code_block(&mut self, freq: &[i16; 64]) -> (r: Result<[i16; 64], SrsV2Error>)
        requires
            old(self).wf(),
            !old(self).coded,
            old(self).done < old(self).total(),
        ensures
            ({
                let levels = quantized_block(freq@, old(self).qp as int);
                let grown = old(self).out@ + block_bytes(old(self).mode, levels);
                if grown.len() > MAX_FRAME_PAYLOAD_BYTES {
                    r == Err::<[i16; 64], SrsV2Error>(
                        SrsV2Error::AllocationLimit { context: "plane bitstream" },
                    )
                } else {
                    &&& r is Ok
                    &&& r->Ok_0@ == dequantized_block(levels, old(self).qp as int)
                    &&& final(self).wf()
                    &&& final(self).coded
                    &&& final(self).out@ == grown
                    &&& final(self).mode == old(self).mode
                    &&& final(self).modes@ == old(self).modes@.push(old(self).mode)
                    &&& final(self).levels@ == old(self).levels@.push(levels)
                    &&& final(self).residuals@ == old(self).residuals@
                    &&& final(self).rec@ == old(self).rec@
                    &&& final(self).done == old(self).done
                    &&& final(self).pw == old(self).pw
                    &&& final(self).ph == old(self).ph
                    &&& final(self).qp == old(self).qp
                }
            }),
    {
        let levels = quantize(freq, self.qp);
        match write_block(self.mode, &levels, &mut self.out) {
            Ok(_) => {},
            Err(e) => {
                return Err(e);
            },
        }
        proof {
            let n = self.done as int;
            let m0 = old(self).modes@;
            let l0 = old(self).levels@;
            self.modes@ = m0.push(self.mode);
            self.levels@ = l0.push(levels@);
            lemma_blocks_bytes_prefix(m0, l0, m0.push(self.mode), l0.push(levels@), n);
            lemma_reconstructed_prefix(
                m0,
                m0.push(self.mode),
                self.residuals@,
                self.residuals@,
                self.pw as int,
                self.ph as int,
                n,
            );
        }
        self.coded = true;
        Ok(dequantize(&levels, self.qp))
    }

    /// Adds the residual samples that a decoder will see and moves on to the next block.
    pub fn finish_block(&mut self, pixels: &[i16; 64])
        requires
            old(self).wf(),
            old(self).coded,
        ensures
            final(self).wf(),
            !final(self).coded,
            final(self).done == old(self).done + 1,
            final(self).out@ == old(self).out@,
            final(self).modes@ == old(self).modes@,
            final(self).levels@ == old(self).levels@,
            final(self).residuals@ == old(self).residuals@.push(pixels@),
            final(self).rec@ == with_block(
                old(self).rec@,
                old(self).pw as int,
                old(self).column(),
                old(self).row(),
                summed(
                    prediction(
                        old(self).mode,
                        old(self).rec@,
                        old(self).pw as int,
                        old(self).ph as int,
                        old(self).column(),
                        old(self).row(),
                    ),
                    pixels@,
                ),
            ),
            final(self).pw == old(self).pw,
            final(self).ph == old(self).ph,
            final(self).qp == old(self).qp,
    {
        proof {
            lemma_block_in_area(self.done as int, self.pw as int, self.ph as int);
            assert(block_count(self.pw as int, self.ph as int) <= 1024 * 1024) by (nonlinear_arith)
                requires
                    0 <= self.pw <= 8192,
                    0 <= self.ph <= 8192,
            ;
        }
        let bw: usize = self.pw / 8;
        let bx: usize = self.done % bw;
        let by: usize = self.done / bw;
        let pred = predict_block(self.mode, self.rec.as_slice(), self.pw, self.ph, bx, by);
        let vals = add_residual(&pred, pixels);
        put_block(&mut self.rec, self.pw, self.ph, bx, by, &vals);
        proof {
            let r0 = old(self).residuals@;
            lemma_reconstructed_prefix(
                self.modes@,
                self.modes@,
                r0,
                r0.push(pixels@),
                self.pw as int,
                self.ph as int,
                self.done as int,
            );
            self.residuals@ = r0.push(pixels@);
        }
        self.done = self.done + 1;
        self.coded = false;
    }
}

fn load_block(plane: &VideoPlane<u8>, bx: usize, by: usize) -> (b: [i16; 64])
    requires
        plane.valid(),
        bx <= 2048,
        by <= 2048,
    ensures
        b@ == source_block(*plane, bx as int, by as int),
        forall|i: int| 0 <= i < 64 ==> 0 <= #[trigger] b@[i] <= 255,
{
    let mut b: [i16; 64] = [0i16; 64];
    let mut i: usize = 0;
    while i < 64
        invariant
            i <= 64,
            plane.valid(),
            bx <= 2048,
            by <= 2048,
            forall|j: int|
                0 <= j < i ==> #[trigger] b@[j] == source_block(*plane, bx as int, by as int)[j]
                    && 0 <= b@[j] <= 255,
        decreases 64 - i,
    {
        let x: usize = bx * 8 + i % 8;
        let y: usize = by * 8 + i / 8;
        b[i] = if x < plane.width as usize && y < plane.height as usize {
            plane.get(x, y) as i16
        } else {
            128
        };
        i += 1;
    }
    assert(b@ =~= source_block(*plane, bx as int, by as int));
    b
}

proof fn lemma_blocks_bytes_prefix(
    ma: Seq<PredMode>,
    la: Seq<Seq<i16>>,
    mb: Seq<PredMode>,
    lb: Seq<Seq<i16>>,
    n: int,
)
    requires
        forall|i: int| 0 <= i < n ==> #[trigger] ma[i] == mb[i],
        forall|i: int| 0 <= i < n ==> #[trigger] la[i] == lb[i],
    ensures
        blocks_bytes(ma, la, n) == blocks_bytes(mb, lb, n),
    decreases n,
{
    if n > 0 {
        lemma_blocks_bytes_prefix(ma, la, mb, lb, n - 1);
    }
}

proof fn lemma_reconstructed_prefix(
    ma: Seq<PredMode>,
    mb: Seq<PredMode>,
    ra: Seq<Seq<i16>>,
    rb: Seq<Seq<i16>>,
    pw: int,
    ph: int,
    n: int,
)
    requires
        forall|i: int| 0 <= i < n ==> #[trigger] ma[i] == mb[i],
        forall|i: int| 0 <= i < n ==> #[trigger] ra[i] == rb[i],
    ensures
        reconstructed(ma, ra, pw, ph, n) == reconstructed(mb, rb, pw, ph, n),
    decreases n,
{
    if n > 0 {
        lemma_reconstructed_prefix(ma, mb, ra, rb, pw, ph, n - 1);
    }
}

proof fn lemma_blocks_split(modes: Seq<PredMode>, levels: Seq<Seq<i16>>, k: int, n: int) -> (rest: Seq<
    u8,
>)
    requires
        0 <= k <= n,
    ensures
        blocks_bytes(modes, levels, n) == blocks_bytes(modes, levels, k) + rest,
    decreases n - k,
{
    if k == n {
        assert(blocks_bytes(modes, levels, n) =~= blocks_bytes(modes, levels, k) + Seq::<
            u8,
        >::empty());
        Seq::empty()
    } else {
        let r = lemma_blocks_split(modes, levels, k, n - 1);
        let b = block_bytes(modes[n - 1], levels[n - 1]);
        assert(blocks_bytes(modes, levels, n) =~= blocks_bytes(modes, levels, k) + (r + b));
        r + b
    }
}

proof fn lemma_blocks_round_trip(
    modes: Seq<PredMode>,
    levels: Seq<Seq<i16>>,
    k: int,
    n: int,
)
    requires
        0 <= k <= n,
        modes.len() == n,
        levels.len() == n,
        forall|i: int| 0 <= i < n ==> (#[trigger] levels[i]).len() == 64,
    ensures
        read_blocks(blocks_bytes(modes, levels, n), 0, k) == (Read::<Seq<(PredMode, Seq<i16>)>> {
            value: Ok(Seq::new(k as nat, |i: int| (modes[i], levels[i]))),
            next: blocks_bytes(modes, levels, k).len() as int,
        }),
    decreases k,
{
    let s = blocks_bytes(modes, levels, n);
    if k > 0 {
        lemma_blocks_round_trip(modes, levels, k - 1, n);
        let rest = lemma_blocks_split(modes, levels, k, n);
        let head = blocks_bytes(modes, levels, k - 1);
        let b = block_bytes(modes[k - 1], levels[k - 1]);
        assert(s =~= head + b + rest);
        block_round_trip(head, modes[k - 1], levels[k - 1], rest);
        assert(Seq::new(k as nat, |i: int| (modes[i], levels[i])) =~= Seq::new(
            (k - 1) as nat,
            |i: int| (modes[i], levels[i]),
        ).push((modes[k - 1], levels[k - 1])));
    } else {
        assert(Seq::new(0, |i: int| (modes[i], levels[i])) =~= Seq::empty());
    }
}

/// A decoder stays in step with the encoder: the finished output reads back as the coded blocks
/// to its last byte, and reconstructing them from the same residual samples gives the encoder's
/// own reconstruction.
pub proof fn decoder_matches_encoder(e: IntraPlaneEncoder)
    requires
        e.wf(),
        !e.coded,
        e.done == e.total(),
    ensures
        ({
            let r = read_blocks(e.out@, 0, e.total());
            &&& r.next == e.out@.len()
            &&& r.value is Ok
            &&& modes_of(r.value->Ok_0) == e.modes@
            &&& forall|i: int|
                0 <= i < e.total() ==> (#[trigger] r.value->Ok_0[i]).1 == e.levels@[i]
            &&& reconstructed(
                modes_of(r.value->Ok_0),
                e.residuals@,
                e.pw as int,
                e.ph as int,
                e.total(),
            ) == e.rec@
        }),
{
    lemma_blocks_round_trip(e.modes@, e.levels@, e.total(), e.total());
    let r = read_blocks(e.out@, 0, e.total());
    assert(modes_of(r.value->Ok_0) =~= e.modes@);
}

/// The residual that an encoder of `plane` hands out for block `k`, where `rec` is what a decoder
/// has by then.
pub open spec fn asked_residual(
    plane: VideoPlane<u8>,
    mode: PredMode,
    rec: Seq<u8>,
    k: int,
) -> Seq<i16> {
    let pw = padded_len(plane.width as int);
    let ph = padded_len(plane.height as int);
    let bx = k % (pw / 8);
    let by = k / (pw / 8);
    difference(source_block(plane, bx, by), prediction(mode, rec, pw, ph, bx, by))
}

/// Each residual differs by at most `e` from the one that the encoder handed out: so much is lost
/// between its transform, the coding and the inverse transform.
pub open spec fn residuals_within(
    plane: VideoPlane<u8>,
    modes: Seq<PredMode>,
    residuals: Seq<Seq<i16>>,
    e: int,
) -> bool {
    let pw = padded_len(plane.width as int);
    let ph = padded_len(plane.height as int);
    forall|k: int, i: int|
        0 <= k < block_count(pw, ph) && 0 <= i < 64 ==> magnitude(
            #[trigger] residuals[k][i] - asked_residual(
                plane,
                modes[k],
                reconstructed(modes, residuals, pw, ph, k),
                k,
            )[i],
        ) <= e
}

proof fn lemma_source_restored(
    plane: VideoPlane<u8>,
    modes: Seq<PredMode>,
    residuals: Seq<Seq<i16>>,
    e: int,
    n: int,
    x: int,
    y: int,
)
    requires
        plane.valid(),
        0 <= e,
        residuals_within(plane, modes, residuals, e),
        n <= block_count(padded_len(plane.width as int), padded_len(plane.height as int)),
        0 <= x < plane.width,
        0 <= y < plane.height,
        y / 8 * (padded_len(plane.width as int) / 8) + x / 8 < n,
    ensures
        ({
            let pw = padded_len(plane.width as int);
            let ph = padded_len(plane.height as int);
            let rec = reconstructed(modes, residuals, pw, ph, n);
            magnitude(rec[y * pw + x] - plane.at(x, y)) <= e
        }),
    decreases n,
{
    let pw = padded_len(plane.width as int);
    let ph = padded_len(plane.height as int);
    let bw = pw / 8;
    let k = n - 1;
    let here = y / 8 * bw + x / 8;
    lemma_packed_at(x, y, pw, ph);
    lemma_packed_at(x / 8, y / 8, bw, ph / 8);
    lemma_block_in_area(k, pw, ph);
    let (bx, by) = (k % bw, k / bw);
    let rec = reconstructed(modes, residuals, pw, ph, k);
    assert(0 <= pw * ph) by (nonlinear_arith)
        requires
            0 <= pw,
            0 <= ph,
    ;
    lemma_reconstructed_len(modes, residuals, pw, ph, k);
    let at = y * pw + x;
    if here < k {
        lemma_source_restored(plane, modes, residuals, e, k, x, y);
        if in_block(at, pw, bx, by) {
            lemma_packed_position(k, bw, ph / 8);
            assert(here == by * bw + bx);
        }
    } else {
        assert(here == k);
        assert(in_block(at, pw, bx, by));
        let i = y % 8 * 8 + x % 8;
        assert(place_in_block(at, pw) == i);
        assert(i / 8 == y % 8 && i % 8 == x % 8);
        let pred = prediction(modes[k], rec, pw, ph, bx, by);
        lemma_prediction_range(modes[k], rec, pw, ph, bx, by);
        assert(0 <= pred[i] <= 255);
        assert(bx * 8 + i % 8 == x && by * 8 + i / 8 == y);
        assert(asked_residual(plane, modes[k], rec, k)[i] == plane.at(x, y) - pred[i]);
        assert(magnitude(residuals[k][i] - asked_residual(plane, modes[k], rec, k)[i]) <= e);
    }
}

/// A decoded plane is the source up to what was lost of its residuals: every decoded sample differs
/// from the source sample at the same place by no more than the residuals differ from those that
/// the encoder handed out. Where nothing is lost, the plane comes back as it was.
pub proof fn decoded_plane_is_the_source(
    plane: VideoPlane<u8>,
    modes: Seq<PredMode>,
    residuals: Seq<Seq<i16>>,
    e: int,
    x: int,
    y: int,
)
    requires
        plane.valid(),
        0 <= e,
        residuals_within(plane, modes, residuals, e),
        0 <= x < plane.width,
        0 <= y < plane.height,
    ensures
        ({
            let w = plane.width as int;
            let h = plane.height as int;
            let pw = padded_len(w);
            let ph = padded_len(h);
            let decoded = cropped(
                reconstructed(modes, residuals, pw, ph, block_count(pw, ph)),
                pw,
                w,
                h,
            );
            &&& decoded.len() == w * h
            &&& magnitude(decoded[y * w + x] - plane.at(x, y)) <= e
        }),
{
    let w = plane.width as int;
    let h = plane.height as int;
    let pw = padded_len(w);
    let ph = padded_len(h);
    lemma_packed_at(x / 8, y / 8, pw / 8, ph / 8);
    lemma_packed_at(x, y, w, h);
    lemma_source_restored(plane, modes, residuals, e, block_count(pw, ph), x, y);
}

/// The residual of a block lists its rows one after another: position `8 * r + c` is how far the
/// source sample in row `r`, column `c` of the block lies from its prediction. Past the edges of
/// the plane the source counts as 128.
pub proof fn residuals_run_row_by_row(
    plane: VideoPlane<u8>,
    mode: PredMode,
    rec: Seq<u8>,
    bx: int,
    by: int,
    r: int,
    c: int,
)
    requires
        0 <= bx,
        0 <= by,
        0 <= r < 8,
        0 <= c < 8,
    ensures
        ({
            let pred = prediction(
                mode,
                rec,
                padded_len(plane.width as int),
                padded_len(plane.height as int),
                bx,
                by,
            );
            let inside = 8 * bx + c < plane.width && 8 * by + r < plane.height;
            let d = difference(source_block(plane, bx, by), pred)[8 * r + c] as int;
            &&& inside ==> d + pred[8 * r + c] == plane.at(8 * bx + c, 8 * by + r)
            &&& !inside ==> d + pred[8 * r + c] == 128
        }),
{
    let pw = padded_len(plane.width as int);
    let ph = padded_len(plane.height as int);
    let i = 8 * r + c;
    assert(i / 8 == r && i % 8 == c);
    lemma_prediction_range(mode, rec, pw, ph, bx, by);
    assert(0 <= prediction(mode, rec, pw, ph, bx, by)[i] <= 255);
}

} // verus!
