//! Contexts of compact motion vector bytes: each byte is coded with a table that the vector
//! before it selects.
use vstd::prelude::*;

use crate::arith::{least, magnitude};
use crate::bytes::{get_u32, le32};
use super::error::SrsV2Error;
use super::inter_mv::{pu_count_partition_wire, read_signed, read_signed_varint, units, varint_from};

verus! {

/// Contexts that a byte can have.
pub const MV_CONTEXT_COUNT: usize = 16;

/// The class of a difference by its size, in quarter samples.
pub open spec fn delta_class(d: int) -> int {
    if d == 0 {
        0
    } else if magnitude(d) <= 8 {
        1
    } else if magnitude(d) <= 32 {
        2
    } else {
        3
    }
}

/// The context that a pair of differences selects for the next pair.
pub open spec fn mv_context(prev: (int, int)) -> u8 {
    (4 * delta_class(prev.0) + delta_class(prev.1)) as u8
}

fn delta_mag_bucket_qpel(d: i32) -> (c: u8)
    ensures
        c == delta_class(d as int),
        c <= 3,
{
    if d == 0 {
        0
    } else if -8 <= d && d <= 8 {
        1
    } else if -32 <= d && d <= 32 {
        2
    } else {
        3
    }
}

fn mv_context_id_from_prev_residual_deltas(prev_dx: i32, prev_dy: i32) -> (c: u8)
    ensures
        c == mv_context((prev_dx as int, prev_dy as int)),
        c < MV_CONTEXT_COUNT,
{
    4 * delta_mag_bucket_qpel(prev_dx) + delta_mag_bucket_qpel(prev_dy)
}

/// How far a stream was labelled.
pub struct Labels {
    /// The last pair of differences.
    pub prev: (int, int),
    pub next: int,
    /// The context of each byte so far.
    pub labels: Seq<u8>,
    pub fault: Option<SrsV2Error>,
}

/// `n` times the same context.
pub open spec fn same_context(c: u8, n: int) -> Seq<u8> {
    Seq::new(n as nat, |i: int| c)
}

/// Before the first byte.
pub open spec fn unlabelled() -> Labels {
    Labels { prev: (0, 0), next: 0, labels: seq![], fault: None }
}

/// Labels the bytes of the next pair of differences.
pub open spec fn label_pair(data: Seq<u8>, st: Labels) -> Labels {
    let x = read_signed(data, st.next);
    let y = read_signed(data, x.next);
    if st.fault is Some {
        st
    } else if x.value is Err {
        Labels { fault: Some(x.value->Err_0), ..st }
    } else if y.value is Err {
        Labels { fault: Some(y.value->Err_0), ..st }
    } else {
        Labels {
            prev: (x.value->Ok_0, y.value->Ok_0),
            next: y.next,
            labels: st.labels + same_context(mv_context(st.prev), y.next - st.next),
            fault: None,
        }
    }
}

/// Labels the bytes of the next `n` pairs.
pub open spec fn label_pairs(data: Seq<u8>, st: Labels, n: int) -> Labels
    decreases n,
{
    if n <= 0 {
        st
    } else {
        label_pair(data, label_pairs(data, st, n - 1))
    }
}

/// Labels the bytes of the first `i` macroblocks of a partitioned picture.
pub open spec fn label_blocks(data: Seq<u8>, parts: Seq<u8>, i: int) -> Labels
    decreases i,
{
    if i <= 0 {
        unlabelled()
    } else {
        let st = label_blocks(data, parts, i - 1);
        if st.fault is Some {
            st
        } else if parts[i - 1] > 3 {
            Labels { fault: Some(SrsV2Error::Syntax("P partition reserved bits")), ..st }
        } else {
            label_pairs(data, st, units(parts[i - 1]))
        }
    }
}

/// The contexts of a stream, or why it has none.
pub open spec fn labelled(data: Seq<u8>, st: Labels, message: &'static str) -> Result<
    Seq<u8>,
    SrsV2Error,
> {
    match st.fault {
        Some(e) => Err(e),
        None => if st.next != data.len() {
            Err(SrsV2Error::Syntax(message))
        } else {
            Ok(st.labels)
        },
    }
}

/// A stream is labelled as far as `st` says.
spec fn stands(st: Labels, cur: usize, prev: (i32, i32), v: Seq<u8>, len: int) -> bool {
    &&& st.fault is None
    &&& st.next == cur
    &&& st.prev == (prev.0 as int, prev.1 as int)
    &&& st.labels == v
    &&& v.len() == cur
    &&& cur <= len
}

fn label_next_pair(
    data: &[u8],
    cur: &mut usize,
    prev: (i32, i32),
    v: &mut Vec<u8>,
    Ghost(st): Ghost<Labels>,
) -> (r: Result<(i32, i32), SrsV2Error>)
    requires
        stands(st, *old(cur), prev, old(v)@, data@.len() as int),
    ensures
        ({
            let now = label_pair(data@, st);
            match now.fault {
                Some(e) => r == Err::<(i32, i32), SrsV2Error>(e),
                None => r is Ok && stands(now, *final(cur), r->Ok_0, final(v)@, data@.len() as int),
            }
        }),
{
    let c: u8 = mv_context_id_from_prev_residual_deltas(prev.0, prev.1);
    let start: usize = *cur;
    let dx: i32 = read_signed_varint(data, cur)?;
    let dy: i32 = read_signed_varint(data, cur)?;
    let n: usize = *cur - start;
    let ghost before = v@;
    let mut k: usize = 0;
    assert(v@ =~= before + same_context(c, 0));
    while k < n
        invariant
            k <= n,
            v@ == before + same_context(c, k as int),
        decreases n - k,
    {
        v.push(c);
        k += 1;
        assert(v@ =~= before + same_context(c, k as int));
    }
    Ok((dx, dy))
}

proof fn lemma_pairs_fault(data: Seq<u8>, st: Labels, k: int, n: int)
    requires
        k <= n,
        label_pairs(data, st, k).fault is Some,
    ensures
        label_pairs(data, st, n) == label_pairs(data, st, k),
    decreases n - k,
{
    if k < n {
        lemma_pairs_fault(data, st, k, n - 1);
    }
}

proof fn lemma_blocks_fault(data: Seq<u8>, parts: Seq<u8>, k: int, n: int)
    requires
        k <= n,
        label_blocks(data, parts, k).fault is Some,
    ensures
        label_blocks(data, parts, n) == label_blocks(data, parts, k),
    decreases n - k,
{
    if k < n {
        lemma_blocks_fault(data, parts, k, n - 1);
    }
}

fn label_next_pairs(
    data: &[u8],
    cur: &mut usize,
    prev: (i32, i32),
    v: &mut Vec<u8>,
    n: usize,
    Ghost(st): Ghost<Labels>,
) -> (r: Result<(i32, i32), SrsV2Error>)
    requires
        stands(st, *old(cur), prev, old(v)@, data@.len() as int),
    ensures
        ({
            let now = label_pairs(data@, st, n as int);
            match now.fault {
                Some(e) => r == Err::<(i32, i32), SrsV2Error>(e),
                None => r is Ok && stands(now, *final(cur), r->Ok_0, final(v)@, data@.len() as int),
            }
        }),
{
    let mut last: (i32, i32) = prev;
    let mut k: usize = 0;
    while k < n
        invariant
            k <= n,
            stands(label_pairs(data@, st, k as int), *cur, last, v@, data@.len() as int),
        decreases n - k,
    {
        proof {
            if label_pairs(data@, st, k + 1).fault is Some {
                lemma_pairs_fault(data@, st, k + 1, n as int);
            }
        }
        last = label_next_pair(data, cur, last, v, Ghost(label_pairs(data@, st, k as int)))?;
        k += 1;
    }
    Ok(last)
}

/// The context of each byte of a compact grid.
pub fn mv_fixed_grid_compact_contexts(compact: &[u8], mb_cols: u32, mb_rows: u32) -> (r: Result<
    Vec<u8>,
    SrsV2Error,
>)
    requires
        mb_cols * mb_rows <= u32::MAX,
    ensures
        match labelled(
            compact@,
            label_pairs(compact@, unlabelled(), mb_cols * mb_rows),
            "MV compact/context labeling mismatch",
        ) {
            Ok(l) => r is Ok && r->Ok_0@ == l && l.len() == compact@.len(),
            Err(e) => r == Err::<Vec<u8>, SrsV2Error>(e),
        },
{
    let mut v: Vec<u8> = Vec::new();
    let mut cur: usize = 0;
    assert(v@ =~= unlabelled().labels);
    label_next_pairs(
        compact,
        &mut cur,
        (0, 0),
        &mut v,
        (mb_cols * mb_rows) as usize,
        Ghost(unlabelled()),
    )?;
    if cur != compact.len() {
        return Err(SrsV2Error::syntax("MV compact/context labeling mismatch"));
    }
    Ok(v)
}

/// The context of each byte of a partitioned vector stream.
pub fn mv_partitioned_compact_contexts(
    compact: &[u8],
    mb_cols: u32,
    mb_rows: u32,
    partition_types: &[u8],
) -> (r: Result<Vec<u8>, SrsV2Error>)
    requires
        mb_cols * mb_rows <= u32::MAX,
    ensures
        match if partition_types@.len() != mb_cols * mb_rows {
            Err::<Seq<u8>, SrsV2Error>(SrsV2Error::Syntax("partition map length mismatch"))
        } else {
            labelled(
                compact@,
                label_blocks(compact@, partition_types@, mb_cols * mb_rows),
                "partition MV compact/context labeling mismatch",
            )
        } {
            Ok(l) => r is Ok && r->Ok_0@ == l && l.len() == compact@.len(),
            Err(e) => r == Err::<Vec<u8>, SrsV2Error>(e),
        },
{
    let n_mb: usize = (mb_cols * mb_rows) as usize;
    if partition_types.len() != n_mb {
        return Err(SrsV2Error::syntax("partition map length mismatch"));
    }
    let ghost parts = partition_types@;
    let mut v: Vec<u8> = Vec::new();
    let mut cur: usize = 0;
    let mut last: (i32, i32) = (0, 0);
    assert(v@ =~= unlabelled().labels);
    let mut i: usize = 0;
    while i < n_mb
        invariant
            i <= n_mb,
            n_mb == mb_cols * mb_rows,
            parts == partition_types@,
            parts.len() == n_mb,
            stands(label_blocks(compact@, parts, i as int), cur, last, v@, compact@.len() as int),
        decreases n_mb - i,
    {
        proof {
            if label_blocks(compact@, parts, i + 1).fault is Some {
                lemma_blocks_fault(compact@, parts, i + 1, n_mb as int);
            }
        }
        let npu: usize = pu_count_partition_wire(partition_types[i])?;
        last = label_next_pairs(
            compact,
            &mut cur,
            last,
            &mut v,
            npu,
            Ghost(label_blocks(compact@, parts, i as int)),
        )?;
        i += 1;
    }
    if cur != compact.len() {
        return Err(SrsV2Error::syntax("partition MV compact/context labeling mismatch"));
    }
    Ok(v)
}

/// The frequency table of a context, for tables that add up to `scale`.
pub open spec fn context_freqs(scale: int, ctx: int) -> Seq<u32> {
    let t = least(ctx * 11 % 64, (scale - 3570) / 4);
    Seq::new(
        256,
        |i: int|
            if i == 0 {
                (scale - 3570 - t) as u32
            } else if i == 1 {
                (14 + t) as u32
            } else {
                14u32
            },
    )
}

/// The frequency table of a context, for tables that add up to `scale`.
pub fn mv_context_freqs(scale: u32, ctx: usize) -> (f: Vec<u32>)
    requires
        scale >= 3570,
        ctx < MV_CONTEXT_COUNT,
    ensures
        f@ == context_freqs(scale as int, ctx as int),
{
    let first: u32 = scale - 255 * 14;
    let spread: u32 = (ctx as u32 * 11) % 64;
    let t: u32 = if spread < first / 4 { spread } else { first / 4 };
    let mut f: Vec<u32> = Vec::new();
    f.push(first - t);
    f.push(14 + t);
    let mut i: usize = 2;
    while i < 256
        invariant
            2 <= i <= 256,
            scale >= 3570,
            t == least(ctx * 11 % 64, (scale - 3570) / 4),
            first == scale - 3570,
            t <= first,
            f@ =~= context_freqs(scale as int, ctx as int).take(i as int),
        decreases 256 - i,
    {
        f.push(14);
        i += 1;
    }
    assert(f@ =~= context_freqs(scale as int, ctx as int));
    f
}

/// The sum of the first `n` frequencies.
pub open spec fn freq_sum(f: Seq<u32>, n: int) -> int
    decreases n,
{
    if n <= 0 {
        0
    } else {
        freq_sum(f, n - 1) + f[n - 1]
    }
}

/// The frequencies of every context add up to the scale of the coder.
pub proof fn context_freqs_fill_the_scale(scale: u32, ctx: int)
    requires
        scale >= 3570,
        0 <= ctx < MV_CONTEXT_COUNT,
    ensures
        freq_sum(context_freqs(scale as int, ctx), 256) == scale,
{
    lemma_tail_sum(scale as int, ctx, 256);
}

proof fn lemma_tail_sum(scale: int, ctx: int, n: int)
    requires
        3570 <= scale <= u32::MAX,
        0 <= ctx < MV_CONTEXT_COUNT,
        2 <= n <= 256,
    ensures
        freq_sum(context_freqs(scale, ctx), n) == scale - 3570 + 14 + 14 * (n - 2),
    decreases n,
{
    if n == 2 {
        let f = context_freqs(scale, ctx);
        assert(freq_sum(f, 2) == freq_sum(f, 1) + f[1]);
        assert(freq_sum(f, 1) == freq_sum(f, 0) + f[0]);
    } else {
        lemma_tail_sum(scale, ctx, n - 1);
    }
}

/// Why bytes and contexts cannot be coded together, if they cannot.
pub open spec fn context_refusal(compact: Seq<u8>, contexts: Seq<u8>) -> Option<SrsV2Error> {
    if compact.len() != contexts.len() {
        Some(SrsV2Error::Syntax("MV context length mismatch"))
    } else if exists|i: int| 0 <= i < contexts.len() && #[trigger] contexts[i] >= MV_CONTEXT_COUNT {
        Some(SrsV2Error::Syntax("MV context id out of range"))
    } else {
        None
    }
}

/// Checks that bytes and contexts can be coded together.
pub fn check_mv_contexts(compact: &[u8], contexts: &[u8]) -> (r: Result<(), SrsV2Error>)
    ensures
        match context_refusal(compact@, contexts@) {
            Some(e) => r == Err::<(), SrsV2Error>(e),
            None => r == Ok::<(), SrsV2Error>(()),
        },
{
    if compact.len() != contexts.len() {
        return Err(SrsV2Error::syntax("MV context length mismatch"));
    }
    let mut i: usize = 0;
    while i < contexts.len()
        invariant
            i <= contexts@.len(),
            compact@.len() == contexts@.len(),
            forall|k: int| 0 <= k < i ==> #[trigger] contexts@[k] < MV_CONTEXT_COUNT,
        decreases contexts@.len() - i,
    {
        if contexts[i] as usize >= MV_CONTEXT_COUNT {
            assert(contexts@[i as int] >= MV_CONTEXT_COUNT);
            return Err(SrsV2Error::syntax("MV context id out of range"));
        }
        i += 1;
    }
    Ok(())
}

/// Hands out what the entropy coder made of `compact` under `contexts`; `None` is its failure.
pub fn rans_encode_mv_bytes_context_v1(
    compact: &[u8],
    contexts: &[u8],
    coded: Option<Vec<u8>>,
) -> (r: Result<Vec<u8>, SrsV2Error>)
    ensures
        match context_refusal(compact@, contexts@) {
            Some(e) => r == Err::<Vec<u8>, SrsV2Error>(e),
            None => match coded {
                Some(b) => r == Ok::<Vec<u8>, SrsV2Error>(b),
                None => r == Err::<Vec<u8>, SrsV2Error>(
                    SrsV2Error::Syntax("MV context rANS encode"),
                ),
            },
        },
{
    match check_mv_contexts(compact, contexts) {
        Err(e) => {
            return Err(e);
        },
        Ok(_) => {},
    }
    match coded {
        Some(b) => Ok(b),
        None => Err(SrsV2Error::syntax("MV context rANS encode")),
    }
}

/// The state that the entropy decoder starts with: the first four bytes of a blob.
pub fn open_mv_context_blob(blob: &[u8]) -> (r: Result<u32, SrsV2Error>)
    ensures
        r == if blob@.len() < 4 {
            Err::<u32, SrsV2Error>(SrsV2Error::Truncated)
        } else {
            Ok::<u32, SrsV2Error>(le32(blob@, 0) as u32)
        },
{
    if blob.len() < 4 {
        return Err(SrsV2Error::Truncated);
    }
    Ok(get_u32(blob, 0))
}

/// Hands out the decoded bytes of a blob if the decoder, which stands at `at`, has used all of it.
pub fn close_mv_context_blob(blob: &[u8], at: usize, bytes: Vec<u8>) -> (r: Result<
    Vec<u8>,
    SrsV2Error,
>)
    ensures
        r == if at != blob@.len() {
            Err::<Vec<u8>, SrsV2Error>(SrsV2Error::Syntax("trailing rANS bytes"))
        } else {
            Ok::<Vec<u8>, SrsV2Error>(bytes)
        },
{
    if at != blob.len() {
        return Err(SrsV2Error::syntax("trailing rANS bytes"));
    }
    Ok(bytes)
}

/// The pairs of differences of a stream, taken byte by byte.
pub struct MvPairParse {
    pub phase_dx: bool,
    pub prev: (i32, i32),
    pub dx_hold: i32,
    pub buf: Vec<u8>,
}

/// What a pair parser holds.
pub struct PairState {
    pub phase_dx: bool,
    pub prev: (int, int),
    pub dx_hold: int,
    pub buf: Seq<u8>,
}

/// What the parser holds after a byte, and whether that byte ended a pair.
pub struct PairStep {
    pub state: PairState,
    pub ended: bool,
    pub fault: Option<SrsV2Error>,
}

/// Takes a byte.
pub open spec fn pair_step(st: PairState, b: u8) -> PairStep {
    let buf = st.buf.push(b);
    let r = read_signed(buf, 0);
    if r.value is Err {
        PairStep { state: PairState { buf, ..st }, ended: false, fault: None }
    } else if r.next != buf.len() {
        PairStep {
            state: PairState { buf, ..st },
            ended: false,
            fault: Some(SrsV2Error::Syntax("MV varint parse trailing")),
        }
    } else if st.phase_dx {
        PairStep {
            state: PairState {
                phase_dx: false,
                dx_hold: r.value->Ok_0,
                buf: seq![],
                prev: st.prev,
            },
            ended: false,
            fault: None,
        }
    } else {
        PairStep {
            state: PairState {
                phase_dx: true,
                prev: (st.dx_hold, r.value->Ok_0),
                dx_hold: st.dx_hold,
                buf: seq![],
            },
            ended: true,
            fault: None,
        }
    }
}

impl MvPairParse {
    /// What the parser holds.
    pub open spec fn state(self) -> PairState {
        PairState {
            phase_dx: self.phase_dx,
            prev: (self.prev.0 as int, self.prev.1 as int),
            dx_hold: self.dx_hold as int,
            buf: self.buf@,
        }
    }

    pub fn new() -> (p: Self)
        ensures
            p.state() == fresh_pair(),
    {
        let p: Self = MvPairParse { phase_dx: true, prev: (0, 0), dx_hold: 0, buf: Vec::new() };
        assert(p.buf@ =~= seq![]);
        p
    }

    /// The context of the next byte.
    pub fn peek_context(&self) -> (c: u8)
        ensures
            c == mv_context(self.state().prev),
            c < MV_CONTEXT_COUNT,
    {
        mv_context_id_from_prev_residual_deltas(self.prev.0, self.prev.1)
    }

    /// Takes a byte; says whether it ended a pair.
    pub fn push_byte(&mut self, b: u8) -> (r: Result<bool, SrsV2Error>)
        ensures
            ({
                let s = pair_step(old(self).state(), b);
                &&& final(self).state() == s.state
                &&& match s.fault {
                    Some(e) => r == Err::<bool, SrsV2Error>(e),
                    None => r == Ok::<bool, SrsV2Error>(s.ended),
                }
            }),
    {
        self.buf.push(b);
        let mut c: usize = 0;
        match read_signed_varint(self.buf.as_slice(), &mut c) {
            Err(_) => Ok(false),
            Ok(v) => {
                if c != self.buf.len() {
                    return Err(SrsV2Error::syntax("MV varint parse trailing"));
                }
                self.buf = Vec::new();
                assert(self.buf@ =~= seq![]);
                if self.phase_dx {
                    self.dx_hold = v;
                    self.phase_dx = false;
                    Ok(false)
                } else {
                    self.prev = (self.dx_hold, v);
                    self.phase_dx = true;
                    Ok(true)
                }
            },
        }
    }
}

/// Before the first byte.
pub open spec fn fresh_pair() -> PairState {
    PairState { phase_dx: true, prev: (0, 0), dx_hold: 0, buf: seq![] }
}

/// The byte parser of a compact grid.
pub struct MvFixedCtxParse {
    pub mb_left: usize,
    pub pairs: MvPairParse,
}

impl MvFixedCtxParse {
    pub fn new(mb_cols: u32, mb_rows: u32) -> (p: Self)
        requires
            mb_cols * mb_rows <= u32::MAX,
        ensures
            p.mb_left == mb_cols * mb_rows,
            p.pairs.state() == fresh_pair(),
    {
        MvFixedCtxParse { mb_left: (mb_cols * mb_rows) as usize, pairs: MvPairParse::new() }
    }

    /// The context of the next byte.
    pub fn peek_context(&self) -> (c: u8)
        ensures
            c == mv_context(self.pairs.state().prev),
            c < MV_CONTEXT_COUNT,
    {
        self.pairs.peek_context()
    }

    /// Takes a byte.
    pub fn push_symbol_byte(&mut self, b: u8) -> (r: Result<(), SrsV2Error>)
        ensures
            ({
                let s = pair_step(old(self).pairs.state(), b);
                &&& final(self).pairs.state() == s.state
                &&& match s.fault {
                    Some(e) => r == Err::<(), SrsV2Error>(e) && final(self).mb_left == old(
                        self,
                    ).mb_left,
                    None => r is Ok && final(self).mb_left == if s.ended && old(self).mb_left > 0 {
                        old(self).mb_left - 1
                    } else {
                        old(self).mb_left as int
                    },
                }
            }),
    {
        let ended: bool = self.pairs.push_byte(b)?;
        if ended && self.mb_left > 0 {
            self.mb_left = self.mb_left - 1;
        }
        Ok(())
    }
}

/// The byte parser of a partitioned vector stream.
pub struct MvPartitionCtxParse<'a> {
    pub partition_types: &'a [u8],
    pub mb: usize,
    pub pu_idx: usize,
    pub npu_this_mb: usize,
    pub pairs: MvPairParse,
}

/// Where a partitioned parser stands after a pair ended.
pub struct BlockPlace {
    pub mb: int,
    pub pu_idx: int,
    pub npu: int,
    pub fault: Option<SrsV2Error>,
}

/// Moves on by one prediction unit.
pub open spec fn next_unit(parts: Seq<u8>, mb: int, pu_idx: int, npu: int) -> BlockPlace {
    if pu_idx + 1 < npu {
        BlockPlace { mb, pu_idx: pu_idx + 1, npu, fault: None }
    } else if mb + 1 >= parts.len() {
        BlockPlace { mb: parts.len() as int, pu_idx: 0, npu: 0, fault: None }
    } else if parts[mb + 1] > 3 {
        BlockPlace {
            mb: mb + 1,
            pu_idx: 0,
            npu,
            fault: Some(SrsV2Error::Syntax("P partition reserved bits")),
        }
    } else {
        BlockPlace { mb: mb + 1, pu_idx: 0, npu: units(parts[mb + 1]), fault: None }
    }
}

impl<'a> MvPartitionCtxParse<'a> {
    /// The parser stands at a macroblock of the picture or behind the last one.
    pub open spec fn valid(self) -> bool {
        &&& self.mb <= self.partition_types@.len()
        &&& self.pu_idx <= self.npu_this_mb <= 4
    }

    pub fn new(mb_cols: u32, mb_rows: u32, partition_types: &'a [u8]) -> (r: Result<
        Self,
        SrsV2Error,
    >)
        requires
            0 < mb_cols * mb_rows <= u32::MAX,
        ensures
            partition_types@.len() != mb_cols * mb_rows ==> r == Err::<Self, SrsV2Error>(
                SrsV2Error::Syntax("partition map"),
            ),
            partition_types@.len() == mb_cols * mb_rows ==> if partition_types@[0] > 3 {
                r == Err::<Self, SrsV2Error>(SrsV2Error::Syntax("P partition reserved bits"))
            } else {
                &&& r is Ok
                &&& r->Ok_0.valid()
                &&& r->Ok_0.partition_types@ == partition_types@
                &&& r->Ok_0.mb == 0
                &&& r->Ok_0.pu_idx == 0
                &&& r->Ok_0.npu_this_mb == units(partition_types@[0])
                &&& r->Ok_0.pairs.state() == fresh_pair()
            },
    {
        let n: usize = (mb_cols * mb_rows) as usize;
        if partition_types.len() != n {
            return Err(SrsV2Error::syntax("partition map"));
        }
        let npu: usize = pu_count_partition_wire(partition_types[0])?;
        Ok(
            MvPartitionCtxParse {
                partition_types,
                mb: 0,
                pu_idx: 0,
                npu_this_mb: npu,
                pairs: MvPairParse::new(),
            },
        )
    }

    /// The context of the next byte.
    pub fn peek_context(&self) -> (c: u8)
        ensures
            c == mv_context(self.pairs.state().prev),
            c < MV_CONTEXT_COUNT,
    {
        self.pairs.peek_context()
    }

    /// Takes a byte.
    pub fn push_symbol_byte(&mut self, b: u8) -> (r: Result<(), SrsV2Error>)
        requires
            old(self).valid(),
        ensures
            final(self).valid(),
            final(self).partition_types@ == old(self).partition_types@,
            ({
                let s = pair_step(old(self).pairs.state(), b);
                let p = next_unit(
                    old(self).partition_types@,
                    old(self).mb as int,
                    old(self).pu_idx as int,
                    old(self).npu_this_mb as int,
                );
                &&& final(self).pairs.state() == s.state
                &&& match s.fault {
                    Some(e) => r == Err::<(), SrsV2Error>(e),
                    None => if !s.ended {
                        &&& r is Ok
                        &&& final(self).mb == old(self).mb
                        &&& final(self).pu_idx == old(self).pu_idx
                        &&& final(self).npu_this_mb == old(self).npu_this_mb
                    } else {
                        &&& final(self).mb == p.mb
                        &&& final(self).pu_idx == p.pu_idx
                        &&& final(self).npu_this_mb == p.npu
                        &&& match p.fault {
                            Some(e) => r == Err::<(), SrsV2Error>(e),
                            None => r is Ok,
                        }
                    },
                }
            }),
    {
        let ended: bool = self.pairs.push_byte(b)?;
        if !ended {
            return Ok(());
        }
        if self.pu_idx + 1 < self.npu_this_mb {
            self.pu_idx = self.pu_idx + 1;
            return Ok(());
        }
        self.pu_idx = 0;
        let n: usize = self.partition_types.len();
        if self.mb >= n || self.mb + 1 >= n {
            self.mb = n;
            self.npu_this_mb = 0;
            return Ok(());
        }
        self.mb = self.mb + 1;
        self.npu_this_mb = pu_count_partition_wire(self.partition_types[self.mb])?;
        Ok(())
    }
}

/// A parser that was fed the bytes of `data` from `from` up to `to`.
pub open spec fn fed(data: Seq<u8>, st: PairState, from: int, to: int) -> PairStep
    decreases to - from,
{
    if to <= from {
        PairStep { state: st, ended: false, fault: None }
    } else {
        let before = fed(data, st, from, to - 1);
        if before.fault is Some {
            before
        } else {
            pair_step(before.state, data[to - 1])
        }
    }
}

/// A varint that is cut off cannot be read; one that is not gives the same number.
proof fn lemma_cut(data: Seq<u8>, s: int, k: int, c: int, i: int, acc: int)
    requires
        0 <= s <= c <= k <= data.len(),
        varint_from(data, c, i, acc).value is Ok,
    ensures
        ({
            let whole = varint_from(data, c, i, acc);
            let part = varint_from(data.subrange(s, k), c - s, i, acc);
            if whole.next <= k {
                part.value == whole.value && part.next == whole.next - s
            } else {
                part.value is Err
            }
        }),
    decreases 6 - i,
{
    if c < k {
        assert(data.subrange(s, k)[c - s] == data[c]);
        if data[c] >= 128 {
            let part = data[c] % 128 * super::inter_mv::varint_weight(i) % 4294967296;
            lemma_cut(data, s, k, c + 1, i + 1, acc + part);
        } else {
        }
    } else {
        lemma_moves(data, c, i, acc);
    }
}

/// A number that was read has at least one byte.
proof fn lemma_moves(data: Seq<u8>, c: int, i: int, acc: int)
    requires
        varint_from(data, c, i, acc).value is Ok,
    ensures
        c < varint_from(data, c, i, acc).next <= data.len(),
    decreases 6 - i,
{
    if data[c] >= 128 {
        let part = data[c] % 128 * super::inter_mv::varint_weight(i) % 4294967296;
        lemma_moves(data, c + 1, i + 1, acc + part);
    }
}

/// Feeding the bytes of one number: nothing happens before the last one.
proof fn lemma_number_fed(data: Seq<u8>, st: PairState, s: int, k: int)
    requires
        0 <= s <= k,
        read_signed(data, s).value is Ok,
        k < read_signed(data, s).next,
        st.buf == Seq::<u8>::empty(),
    ensures
        fed(data, st, s, k) == (PairStep {
            state: PairState { buf: data.subrange(s, k), ..st },
            ended: false,
            fault: None,
        }),
    decreases k - s,
{
    lemma_moves(data, s, 0, 0);
    if k == s {
        assert(data.subrange(s, s) =~= seq![]);
    } else {
        lemma_number_fed(data, st, s, k - 1);
        assert(data.subrange(s, k - 1).push(data[k - 1]) =~= data.subrange(s, k));
        lemma_cut(data, s, k, s, 0, 0);
    }
}

/// Feeding all bytes of one number.
proof fn lemma_number_done(data: Seq<u8>, st: PairState, s: int)
    requires
        0 <= s,
        read_signed(data, s).value is Ok,
        st.buf == Seq::<u8>::empty(),
    ensures
        ({
            let r = read_signed(data, s);
            fed(data, st, s, r.next) == if st.phase_dx {
                PairStep {
                    state: PairState { phase_dx: false, dx_hold: r.value->Ok_0, ..st },
                    ended: false,
                    fault: None,
                }
            } else {
                PairStep {
                    state: PairState {
                        phase_dx: true,
                        prev: (st.dx_hold, r.value->Ok_0),
                        dx_hold: st.dx_hold,
                        buf: seq![],
                    },
                    ended: true,
                    fault: None,
                }
            }
        }),
        s < read_signed(data, s).next <= data.len(),
{
    let e = read_signed(data, s).next;
    lemma_moves(data, s, 0, 0);
    lemma_number_fed(data, st, s, e - 1);
    assert(data.subrange(s, e - 1).push(data[e - 1]) =~= data.subrange(s, e));
    lemma_cut(data, s, e, s, 0, 0);
}

/// Feeding goes on from where it stopped.
proof fn lemma_fed_joins(data: Seq<u8>, st: PairState, a: int, b: int, c: int)
    requires
        a <= b <= c,
        fed(data, st, a, b).fault is None,
    ensures
        ({
            let m = fed(data, st, a, b);
            let whole = fed(data, st, a, c);
            let tail = fed(data, m.state, b, c);
            &&& whole.state == tail.state
            &&& whole.fault == tail.fault
            &&& c > b ==> whole.ended == tail.ended
        }),
    decreases c - b,
{
    if b < c {
        lemma_fed_joins(data, st, a, b, c - 1);
    }
}

/// The state of a parser between two pairs.
pub open spec fn between(prev: (int, int), dx_hold: int) -> PairState {
    PairState { phase_dx: true, prev, dx_hold, buf: seq![] }
}

/// Feeding one pair: the context holds until its last byte.
proof fn lemma_pair_fed(data: Seq<u8>, st: Labels, hold: int, k: int)
    requires
        st.fault is None,
        0 <= st.next,
        label_pair(data, st).fault is None,
        st.next <= k < label_pair(data, st).next,
    ensures
        ({
            let s = fed(data, between(st.prev, hold), st.next, k);
            s.fault is None && s.state.prev == st.prev
        }),
{
    let a = st.next;
    let x = read_signed(data, a);
    let p = between(st.prev, hold);
    lemma_number_done(data, p, a);
    if k < x.next {
        lemma_number_fed(data, p, a, k);
    } else {
        let m = fed(data, p, a, x.next);
        lemma_number_done(data, m.state, x.next);
        lemma_number_fed(data, m.state, x.next, k);
        lemma_fed_joins(data, p, a, x.next, k);
    }
}

/// After a pair the parser holds its differences.
proof fn lemma_pair_done(data: Seq<u8>, st: Labels, hold: int)
    requires
        st.fault is None,
        0 <= st.next,
        label_pair(data, st).fault is None,
    ensures
        ({
            let now = label_pair(data, st);
            let s = fed(data, between(st.prev, hold), st.next, now.next);
            &&& s.fault is None
            &&& s.state == between(now.prev, now.prev.0)
            &&& st.next < now.next <= data.len()
        }),
{
    let a = st.next;
    let x = read_signed(data, a);
    let p = between(st.prev, hold);
    lemma_number_done(data, p, a);
    let m = fed(data, p, a, x.next);
    lemma_number_done(data, m.state, x.next);
    let y = read_signed(data, x.next);
    lemma_fed_joins(data, p, a, x.next, y.next);
}

/// After `n` pairs the parser holds the last one.
proof fn lemma_pairs_done(data: Seq<u8>, n: int) -> (hold: int)
    requires
        0 <= n,
        label_pairs(data, unlabelled(), n).fault is None,
    ensures
        ({
            let now = label_pairs(data, unlabelled(), n);
            let s = fed(data, fresh_pair(), 0, now.next);
            &&& s.fault is None
            &&& s.state == between(now.prev, hold)
            &&& 0 <= now.next <= data.len()
            &&& now.labels.len() == now.next
        }),
    decreases n,
{
    if n == 0 {
        0
    } else {
        let before = label_pairs(data, unlabelled(), n - 1);
        let hold = lemma_pairs_done(data, n - 1);
        let now = label_pair(data, before);
        lemma_pair_done(data, before, hold);
        lemma_fed_joins(data, fresh_pair(), 0, before.next, now.next);
        now.prev.0
    }
}

/// Labels of earlier bytes stay, and a byte is labelled by the pair that holds it.
proof fn lemma_label_of_byte(data: Seq<u8>, n: int, k: int)
    requires
        0 <= n,
        label_pairs(data, unlabelled(), n).fault is None,
        0 <= k < label_pairs(data, unlabelled(), n).next,
    ensures
        ({
            let s = fed(data, fresh_pair(), 0, k);
            &&& s.fault is None
            &&& label_pairs(data, unlabelled(), n).labels[k] == mv_context(s.state.prev)
        }),
    decreases n,
{
    if n > 0 {
        let before = label_pairs(data, unlabelled(), n - 1);
        let hold = lemma_pairs_done(data, n - 1);
        if k < before.next {
            lemma_label_of_byte(data, n - 1, k);
        } else {
            lemma_pair_fed(data, before, hold, k);
            lemma_fed_joins(data, fresh_pair(), 0, before.next, k);
        }
    }
}

/// A decoder that knows only the bytes before one selects for it the context that it was coded
/// with.
pub proof fn decoder_finds_the_contexts(data: Seq<u8>, n: int, k: int)
    requires
        0 <= n,
        labelled(data, label_pairs(data, unlabelled(), n), "") is Ok,
        0 <= k < data.len(),
    ensures
        ({
            let s = fed(data, fresh_pair(), 0, k);
            &&& s.fault is None
            &&& labelled(data, label_pairs(data, unlabelled(), n), "")->Ok_0[k] == mv_context(
                s.state.prev,
            )
        }),
{
    lemma_label_of_byte(data, n, k);
}

/// Labelling a partitioned picture is labelling the pairs of all its prediction units.
pub proof fn blocks_are_pairs(data: Seq<u8>, parts: Seq<u8>, i: int) -> (n: int)
    requires
        0 <= i <= parts.len(),
        label_blocks(data, parts, i).fault is None,
    ensures
        n == super::inter_mv::pu_start(parts, i),
        n >= 0,
        label_blocks(data, parts, i) == label_pairs(data, unlabelled(), n),
    decreases i,
{
    if i == 0 {
        0
    } else {
        let m = blocks_are_pairs(data, parts, i - 1);
        lemma_pairs_join(data, m, units(parts[i - 1]));
        m + units(parts[i - 1])
    }
}

proof fn lemma_pairs_join(data: Seq<u8>, m: int, k: int)
    requires
        0 <= m,
        0 <= k,
    ensures
        label_pairs(data, label_pairs(data, unlabelled(), m), k) == label_pairs(
            data,
            unlabelled(),
            m + k,
        ),
    decreases k,
{
    if k > 0 {
        lemma_pairs_join(data, m, k - 1);
    }
}

/// The context of a pair of differences counts their sizes, whatever their signs: four times the
/// class of the horizontal one plus the class of the vertical one; nothing, up to 8, up to 32 and
/// beyond are the classes.
pub proof fn contexts_count_sizes(dx: int, dy: int)
    ensures
        mv_context((dx, dy)) < 16,
        mv_context((0, 0)) == 0,
        mv_context((dx, dy)) == mv_context((-dx, dy)),
        mv_context((dx, dy)) == mv_context((dx, -dy)),
        mv_context((dx, dy)) / 4 == mv_context((dy, dx)) % 4,
        mv_context((dx, dy)) / 4 == 0 <==> dx == 0,
        mv_context((dx, dy)) / 4 == 1 <==> dx != 0 && -8 <= dx <= 8,
        mv_context((dx, dy)) / 4 == 3 <==> dx > 32 || dx < -32,
{
}

/// Every byte has a frequency in every context, the least of them 14; what a context takes from the
/// first byte it gives to the second, eleven for each context modulo 64.
pub proof fn contexts_shift_frequencies(scale: int, ctx: int, i: int)
    requires
        3570 + 256 <= scale <= u32::MAX,
        0 <= ctx < 16,
        0 <= i < 256,
    ensures
        ({
            let f = context_freqs(scale, ctx);
            let g = context_freqs(scale, 0);
            &&& f.len() == 256
            &&& f[i] >= 14
            &&& i > 1 ==> f[i] == 14
            &&& f[0] + f[1] == g[0] + g[1]
            &&& f[1] == 14 + 11 * ctx % 64
        }),
{
}

/// Every byte of a pair of differences is labelled with the context of the pair before it, and the
/// pairs follow one another.
pub proof fn pairs_are_labelled_by_the_pair_before(data: Seq<u8>, st: Labels)
    requires
        label_pair(data, label_pair(data, st)).fault is None,
        st.next <= label_pair(data, st).next <= label_pair(data, label_pair(data, st)).next,
    ensures
        ({
            let first = label_pair(data, st);
            let second = label_pair(data, first);
            let x = read_signed(data, st.next);
            let y = read_signed(data, x.next);
            let n = first.labels.len() as int;
            &&& x.value is Ok && y.value is Ok
            &&& first.next == y.next
            &&& second.labels.len() - n == second.next - first.next
            &&& second.labels.take(n) == first.labels
            &&& forall|i: int|
                n <= i < second.labels.len() ==> #[trigger] second.labels[i] == mv_context(
                    (x.value->Ok_0 as int, y.value->Ok_0 as int),
                )
        }),
{
    let first = label_pair(data, st);
    let second = label_pair(data, first);
    assert(second.labels.take(first.labels.len() as int) =~= first.labels);
}

} // verus!
