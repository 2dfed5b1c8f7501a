//! Compact partition maps: one partition mode for each macroblock, in a blob of its own.
use vstd::prelude::*;

use crate::bytes::{bytes16, get_u16, le16, le16_reads_bytes16, push_u16};
use super::inter_mv::{pu_start, units};
use super::mv_share::{encode_mv_share_groups_v2, member_lists, share_payload, MvShareGroupV2};
use super::partition_map::{
    expanded, lemma_expanded_len, lemma_run_bytes_tail, repeated, run_bytes, runs_of,
    runs_spell_the_map, PartitionRun,
};

verus! {

/// `S2P` and the format version.
pub const PARTITION_MAP_V2_MAGIC: [u8; 4] = [0x53, 0x32, 0x50, 0x01];

/// Every macroblock has the same mode.
pub const MAP_KIND_UNIFORM: u8 = 0;

/// Runs of equal modes.
pub const MAP_KIND_RLE: u8 = 1;

/// One byte for each macroblock of a small grid.
pub const MAP_KIND_RAW_SMALL: u8 = 2;

/// Macroblocks that a side of the grid may have.
pub const PARTITION_V2_MAX_MB_DIM: u32 = 4096;

/// How a macroblock is split.
#[derive(Debug, Clone, Copy, PartialEq, Eq, Hash, Structural)]
pub enum PartitionModeV2 {
    Int16x16,
    Int16x8,
    Int8x16,
    Int8x8,
}

/// The partition byte of a mode.
pub open spec fn mode_code(m: PartitionModeV2) -> u8 {
    match m {
        PartitionModeV2::Int16x16 => 0,
        PartitionModeV2::Int16x8 => 1,
        PartitionModeV2::Int8x16 => 2,
        PartitionModeV2::Int8x8 => 3,
    }
}

/// The partition bytes of a sequence of modes.
pub open spec fn mode_codes(modes: Seq<PartitionModeV2>) -> Seq<u8> {
    Seq::new(modes.len(), |i: int| mode_code(modes[i]))
}

impl PartitionModeV2 {
    pub fn from_wire(b: u8) -> (r: Result<Self, PartitionSyntaxV2Error>)
        ensures
            b <= 3 ==> r is Ok && mode_code(r->Ok_0) == b,
            b > 3 ==> r == Err::<Self, PartitionSyntaxV2Error>(
                PartitionSyntaxV2Error::InvalidMode(b),
            ),
    {
        match b {
            0 => Ok(PartitionModeV2::Int16x16),
            1 => Ok(PartitionModeV2::Int16x8),
            2 => Ok(PartitionModeV2::Int8x16),
            3 => Ok(PartitionModeV2::Int8x8),
            _ => Err(PartitionSyntaxV2Error::InvalidMode(b)),
        }
    }

    pub fn to_wire(self) -> (b: u8)
        ensures
            b == mode_code(self),
            b <= 3,
    {
        match self {
            PartitionModeV2::Int16x16 => 0,
            PartitionModeV2::Int16x8 => 1,
            PartitionModeV2::Int8x16 => 2,
            PartitionModeV2::Int8x8 => 3,
        }
    }
}

/// Why a map or a set of share groups is refused.
#[derive(Debug, Clone, Copy, PartialEq, Eq)]
pub enum PartitionSyntaxV2Error {
    Truncated,
    BadMapHeader,
    BadMvShareHeader,
    UnknownMapKind(u8),
    InvalidMode(u8),
    ZeroRunLength,
    RleRunCountOutOfRange { got: u32, n_mb: u32 },
    RleLengthMismatch { expected: usize, got: usize },
    TrailingMapBytes,
    TrailingMvShareBytes,
    RawSmallMapTooLarge,
    ZeroGrid,
    GridTooLarge,
    ModeCountMismatch { expected: usize, got: usize },
    MvGroupTooSmall,
    DuplicatePuIndexInGroup,
    PuIndexOutOfRange { index: u32, total: usize },
    DuplicatePuAcrossGroups(u32),
    MissingPuLeaf { index: u32, total: usize },
}

/// A mode for each macroblock, row by row.
#[derive(Debug, Clone, PartialEq, Eq)]
pub struct PartitionMapV2 {
    pub mb_cols: u32,
    pub mb_rows: u32,
    pub modes: Vec<PartitionModeV2>,
}

/// Why a grid of modes is no map, if it is none.
pub open spec fn grid_refusal(cols: u32, rows: u32, count: int) -> Option<PartitionSyntaxV2Error> {
    if cols == 0 || rows == 0 {
        Some(PartitionSyntaxV2Error::ZeroGrid)
    } else if cols > PARTITION_V2_MAX_MB_DIM || rows > PARTITION_V2_MAX_MB_DIM {
        Some(PartitionSyntaxV2Error::GridTooLarge)
    } else if count != cols * rows {
        Some(
            PartitionSyntaxV2Error::ModeCountMismatch {
                expected: (cols * rows) as usize,
                got: count as usize,
            },
        )
    } else {
        None
    }
}

fn check_grid(mb_cols: u32, mb_rows: u32, count: usize) -> (r: Result<(), PartitionSyntaxV2Error>)
    ensures
        match grid_refusal(mb_cols, mb_rows, count as int) {
            Some(e) => r == Err::<(), PartitionSyntaxV2Error>(e),
            None => r is Ok && 1 <= mb_cols <= 4096 && 1 <= mb_rows <= 4096 && 1 <= count
                <= 16777216,
        },
{
    if mb_cols == 0 || mb_rows == 0 {
        return Err(PartitionSyntaxV2Error::ZeroGrid);
    }
    if mb_cols > PARTITION_V2_MAX_MB_DIM || mb_rows > PARTITION_V2_MAX_MB_DIM {
        return Err(PartitionSyntaxV2Error::GridTooLarge);
    }
    assert(1 <= mb_cols * mb_rows <= 16777216) by (nonlinear_arith)
        requires
            1 <= mb_cols <= 4096,
            1 <= mb_rows <= 4096,
    ;
    let n: usize = mb_cols as usize * mb_rows as usize;
    if count != n {
        return Err(PartitionSyntaxV2Error::ModeCountMismatch { expected: n, got: count });
    }
    Ok(())
}

impl PartitionMapV2 {
    /// The grid is one that a map can have, and each macroblock has its mode.
    pub open spec fn valid(self) -> bool {
        grid_refusal(self.mb_cols, self.mb_rows, self.modes@.len() as int) is None
    }

    pub fn new(mb_cols: u32, mb_rows: u32, modes: Vec<PartitionModeV2>) -> (r: Result<
        Self,
        PartitionSyntaxV2Error,
    >)
        ensures
            match grid_refusal(mb_cols, mb_rows, modes@.len() as int) {
                Some(e) => r == Err::<Self, PartitionSyntaxV2Error>(e),
                None => r == Ok::<Self, PartitionSyntaxV2Error>(
                    PartitionMapV2 { mb_cols, mb_rows, modes },
                ),
            },
    {
        check_grid(mb_cols, mb_rows, modes.len())?;
        Ok(PartitionMapV2 { mb_cols, mb_rows, modes })
    }

    pub fn n_mb(&self) -> (n: usize)
        ensures
            n == self.modes@.len(),
    {
        self.modes.len()
    }
}

/// A mode and how many macroblocks in a row have it.
#[derive(Debug, Clone, Copy, PartialEq, Eq, Structural)]
pub struct PartitionRunV2 {
    pub mode: PartitionModeV2,
    pub count: u32,
}

/// What a map and its share groups cost.
#[derive(Debug, Clone, Copy, PartialEq, Eq, Structural)]
pub struct PartitionSyntaxV2Stats {
    pub map_wire_bytes: usize,
    pub mv_groups_wire_bytes: usize,
    pub map_kind: u8,
    pub n_mb: u32,
    pub n_runs: u32,
    /// One byte for each macroblock.
    pub v1_legacy_map_bytes: usize,
}

/// Bytes of a map with one byte for each macroblock.
pub fn v1_legacy_partition_map_bytes(n_mb: usize) -> (n: usize)
    ensures
        n == n_mb,
{
    n_mb
}

/// Prediction units of a sequence of modes.
pub fn total_pu_slots_for_modes(modes: &[PartitionModeV2]) -> (r: Result<
    usize,
    PartitionSyntaxV2Error,
>)
    ensures
        r == if pu_start(mode_codes(modes@), modes@.len() as int) <= usize::MAX {
            Ok::<usize, PartitionSyntaxV2Error>(
                pu_start(mode_codes(modes@), modes@.len() as int) as usize,
            )
        } else {
            Err::<usize, PartitionSyntaxV2Error>(PartitionSyntaxV2Error::GridTooLarge)
        },
{
    let mut t: usize = 0;
    let mut i: usize = 0;
    let n: usize = modes.len();
    while i < n
        invariant
            i <= n,
            n == modes@.len(),
            t == pu_start(mode_codes(modes@), i as int),
        decreases n - i,
    {
        let k: usize = match modes[i] {
            PartitionModeV2::Int16x16 => 1,
            PartitionModeV2::Int16x8 | PartitionModeV2::Int8x16 => 2,
            PartitionModeV2::Int8x8 => 4,
        };
        assert(k == units(mode_codes(modes@)[i as int]));
        match t.checked_add(k) {
            Some(v) => {
                t = v;
            },
            None => {
                proof {
                    lemma_units_grow(mode_codes(modes@), i + 1, n as int);
                }
                return Err(PartitionSyntaxV2Error::GridTooLarge);
            },
        }
        i += 1;
    }
    Ok(t)
}

proof fn lemma_units_grow(parts: Seq<u8>, i: int, n: int)
    requires
        0 <= i <= n,
    ensures
        pu_start(parts, i) <= pu_start(parts, n),
    decreases n - i,
{
    if i < n {
        lemma_units_grow(parts, i, n - 1);
    }
}

/// Whether a map has a grid that it can have and a mode for each macroblock.
pub fn validate_partition_map_v2(map: &PartitionMapV2) -> (r: Result<(), PartitionSyntaxV2Error>)
    ensures
        match grid_refusal(map.mb_cols, map.mb_rows, map.modes@.len() as int) {
            Some(e) => r == Err::<(), PartitionSyntaxV2Error>(e),
            None => r is Ok && 1 <= map.modes@.len() <= 16777216,
        },
{
    check_grid(map.mb_cols, map.mb_rows, map.modes.len())
}

/// A run as the partition byte and length that stand for it.
pub open spec fn run_of(r: PartitionRunV2) -> PartitionRun {
    PartitionRun { wire: mode_code(r.mode), len: r.count as u16 }
}

/// `runs` are the runs of the first `n` modes.
pub open spec fn runs_match(runs: Seq<PartitionRunV2>, parts: Seq<u8>, n: int) -> bool {
    &&& runs.len() == runs_of(parts, n).len()
    &&& forall|k: int|
        0 <= k < runs.len() ==> run_of(#[trigger] runs[k]) == runs_of(parts, n)[k] && 1
            <= runs[k].count <= u16::MAX
}

fn modes_to_rle_runs(modes: &[PartitionModeV2]) -> (runs: Vec<PartitionRunV2>)
    ensures
        runs_match(runs@, mode_codes(modes@), modes@.len() as int),
{
    let mut runs: Vec<PartitionRunV2> = Vec::new();
    let n: usize = modes.len();
    if n == 0 {
        return runs;
    }
    let ghost parts = mode_codes(modes@);
    let mut cur: PartitionModeV2 = modes[0];
    let mut cnt: u32 = 1;
    let mut i: usize = 1;
    proof {
        reveal_with_fuel(runs_of, 2);
        assert(runs_of(parts, 1) =~= seq![PartitionRun { wire: mode_code(cur), len: 1 }]);
    }
    while i < n
        invariant
            1 <= i <= n,
            n == modes@.len(),
            parts == mode_codes(modes@),
            1 <= cnt <= u16::MAX,
            runs_match(
                runs@.push(PartitionRunV2 { mode: cur, count: cnt }),
                parts,
                i as int,
            ),
        decreases n - i,
    {
        let m: PartitionModeV2 = modes[i];
        let ghost before = runs_of(parts, i as int);
        let ghost had = runs@.push(PartitionRunV2 { mode: cur, count: cnt });
        assert(run_of(had.last()) == before.last());
        assert(parts[i as int] == mode_code(m));
        assert(mode_code(m) == mode_code(cur) <==> m == cur);
        if m == cur && cnt < 65535 {
            cnt += 1;
            let ghost now = runs@.push(PartitionRunV2 { mode: cur, count: cnt });
            proof {
                assert forall|k: int| 0 <= k < now.len() implies run_of(#[trigger] now[k])
                    == runs_of(parts, i + 1)[k] && 1 <= now[k].count <= u16::MAX by {
                    if k < runs@.len() {
                        assert(had[k] == now[k]);
                    }
                }
            }
        } else {
            runs.push(PartitionRunV2 { mode: cur, count: cnt });
            assert(runs@ == had);
            cur = m;
            cnt = 1;
        }
        i += 1;
    }
    runs.push(PartitionRunV2 { mode: cur, count: cnt });
    runs
}

/// Every byte is the first one.
pub open spec fn all_equal(parts: Seq<u8>) -> bool {
    forall|i: int| 0 <= i < parts.len() ==> #[trigger] parts[i] == parts[0]
}

/// How a map with these partition bytes is coded.
pub open spec fn kind_of_map(parts: Seq<u8>) -> u8 {
    if all_equal(parts) {
        MAP_KIND_UNIFORM
    } else if parts.len() <= 5 {
        MAP_KIND_RAW_SMALL
    } else {
        MAP_KIND_RLE
    }
}

/// The blob of a map that is none of the refused ones, unless it has too many runs.
pub open spec fn map_blob(parts: Seq<u8>) -> Result<Seq<u8>, PartitionSyntaxV2Error> {
    let head = PARTITION_MAP_V2_MAGIC@.push(kind_of_map(parts));
    let runs = runs_of(parts, parts.len() as int);
    if kind_of_map(parts) == MAP_KIND_UNIFORM {
        Ok(head.push(parts[0]))
    } else if kind_of_map(parts) == MAP_KIND_RAW_SMALL {
        Ok(head + parts)
    } else if runs.len() > u16::MAX {
        Err(PartitionSyntaxV2Error::GridTooLarge)
    } else {
        Ok(head + bytes16(runs.len() as int) + run_bytes(runs, runs.len() as int))
    }
}

/// The blob of a map, or why it is refused.
pub open spec fn encoded_map(map: PartitionMapV2) -> Result<Seq<u8>, PartitionSyntaxV2Error> {
    match grid_refusal(map.mb_cols, map.mb_rows, map.modes@.len() as int) {
        Some(e) => Err(e),
        None => map_blob(mode_codes(map.modes@)),
    }
}

/// Runs that a coded map counts.
pub open spec fn counted_runs(parts: Seq<u8>) -> int {
    if kind_of_map(parts) == MAP_KIND_UNIFORM {
        1
    } else if kind_of_map(parts) == MAP_KIND_RAW_SMALL {
        parts.len() as int
    } else {
        runs_of(parts, parts.len() as int).len() as int
    }
}

fn same_modes(modes: &[PartitionModeV2]) -> (r: bool)
    requires
        modes@.len() > 0,
    ensures
        r == all_equal(mode_codes(modes@)),
{
    let n: usize = modes.len();
    let ghost parts = mode_codes(modes@);
    let mut i: usize = 1;
    while i < n
        invariant
            1 <= i <= n,
            n == modes@.len(),
            parts == mode_codes(modes@),
            forall|k: int| 0 <= k < i ==> #[trigger] parts[k] == parts[0],
        decreases n - i,
    {
        if modes[i] != modes[0] {
            assert(parts[i as int] != parts[0]);
            return false;
        }
        i += 1;
    }
    true
}

fn start_blob(kind: u8) -> (v: Vec<u8>)
    ensures
        v@ == PARTITION_MAP_V2_MAGIC@.push(kind),
{
    let mut v: Vec<u8> = Vec::new();
    v.push(PARTITION_MAP_V2_MAGIC[0]);
    v.push(PARTITION_MAP_V2_MAGIC[1]);
    v.push(PARTITION_MAP_V2_MAGIC[2]);
    v.push(PARTITION_MAP_V2_MAGIC[3]);
    v.push(kind);
    assert(v@ =~= PARTITION_MAP_V2_MAGIC@.push(kind));
    v
}

fn encode_map_inner(map: &PartitionMapV2) -> (r: Result<
    (Vec<u8>, u8, u32),
    PartitionSyntaxV2Error,
>)
    ensures
        match encoded_map(*map) {
            Err(e) => r == Err::<(Vec<u8>, u8, u32), PartitionSyntaxV2Error>(e),
            Ok(b) => {
                let parts = mode_codes(map.modes@);
                &&& r is Ok
                &&& r->Ok_0.0@ == b
                &&& r->Ok_0.1 == kind_of_map(parts)
                &&& r->Ok_0.2 == counted_runs(parts)
                &&& 1 <= map.modes@.len() <= 16777216
            },
        },
{
    validate_partition_map_v2(map)?;
    let n: usize = map.modes.len();
    let ghost parts = mode_codes(map.modes@);
    if same_modes(map.modes.as_slice()) {
        let mut v: Vec<u8> = start_blob(MAP_KIND_UNIFORM);
        v.push(map.modes[0].to_wire());
        return Ok((v, MAP_KIND_UNIFORM, 1));
    }
    if n <= 5 {
        let mut v: Vec<u8> = start_blob(MAP_KIND_RAW_SMALL);
        let ghost head = v@;
        let mut i: usize = 0;
        while i < n
            invariant
                i <= n,
                n == map.modes@.len(),
                parts == mode_codes(map.modes@),
                v@ == head + parts.take(i as int),
            decreases n - i,
        {
            v.push(map.modes[i].to_wire());
            i += 1;
            assert(v@ =~= head + parts.take(i as int));
        }
        assert(parts.take(n as int) =~= parts);
        return Ok((v, MAP_KIND_RAW_SMALL, n as u32));
    }
    let runs: Vec<PartitionRunV2> = modes_to_rle_runs(map.modes.as_slice());
    let count: usize = runs.len();
    let ghost wires = runs_of(parts, n as int);
    proof {
        runs_spell_the_map(parts, n as int);
    }
    if count > 65535 {
        return Err(PartitionSyntaxV2Error::GridTooLarge);
    }
    let mut v: Vec<u8> = start_blob(MAP_KIND_RLE);
    push_u16(&mut v, count as u16);
    let ghost head = v@;
    let mut k: usize = 0;
    assert(v@ =~= head + run_bytes(wires, 0));
    while k < count
        invariant
            k <= count,
            count == runs@.len(),
            wires == runs_of(parts, n as int),
            runs_match(runs@, parts, n as int),
            v@ == head + run_bytes(wires, k as int),
        decreases count - k,
    {
        assert(run_of(runs@[k as int]) == wires[k as int]);
        v.push(runs[k].mode.to_wire());
        push_u16(&mut v, runs[k].count as u16);
        k += 1;
        assert(v@ =~= head + run_bytes(wires, k as int));
    }
    Ok((v, MAP_KIND_RLE, count as u32))
}

/// Codes a map.
pub fn encode_partition_map_v2(map: &PartitionMapV2) -> (r: Result<
    Vec<u8>,
    PartitionSyntaxV2Error,
>)
    ensures
        match encoded_map(*map) {
            Err(e) => r == Err::<Vec<u8>, PartitionSyntaxV2Error>(e),
            Ok(b) => r is Ok && r->Ok_0@ == b,
        },
{
    match encode_map_inner(map) {
        Ok((v, _, _)) => Ok(v),
        Err(e) => Err(e),
    }
}

/// The first partition byte among `data[from..from + n]` that no mode has.
pub open spec fn first_bad(data: Seq<u8>, from: int, n: int) -> Option<u8>
    decreases n,
{
    if n <= 0 {
        None
    } else {
        match first_bad(data, from, n - 1) {
            Some(b) => Some(b),
            None => if data[from + n - 1] > 3 {
                Some(data[from + n - 1])
            } else {
                None
            },
        }
    }
}

/// How far the runs of a map were expanded.
pub struct RunsRead {
    pub parts: Seq<u8>,
    pub fault: Option<PartitionSyntaxV2Error>,
}

/// Expanding the first `k` runs of a blob for a grid of `n_mb` macroblocks.
pub open spec fn runs_read(data: Seq<u8>, n_mb: int, k: int) -> RunsRead
    decreases k,
{
    if k <= 0 {
        RunsRead { parts: seq![], fault: None }
    } else {
        let st = runs_read(data, n_mb, k - 1);
        let at = 7 + 3 * (k - 1);
        if st.fault is Some {
            st
        } else if data.len() < at + 3 {
            RunsRead { fault: Some(PartitionSyntaxV2Error::Truncated), ..st }
        } else if data[at] > 3 {
            RunsRead { fault: Some(PartitionSyntaxV2Error::InvalidMode(data[at])), ..st }
        } else if le16(data, at + 1) == 0 {
            RunsRead { fault: Some(PartitionSyntaxV2Error::ZeroRunLength), ..st }
        } else if st.parts.len() + le16(data, at + 1) > n_mb {
            RunsRead {
                fault: Some(
                    PartitionSyntaxV2Error::RleLengthMismatch {
                        expected: n_mb as usize,
                        got: (st.parts.len() + le16(data, at + 1)) as usize,
                    },
                ),
                ..st
            }
        } else {
            RunsRead { parts: st.parts + repeated(data[at], le16(data, at + 1)), fault: None }
        }
    }
}

/// The partition bytes of a run-length blob.
pub open spec fn rle_map(data: Seq<u8>, n_mb: int) -> Result<Seq<u8>, PartitionSyntaxV2Error> {
    let n = le16(data, 5);
    let st = runs_read(data, n_mb, n);
    if data.len() < 7 {
        Err(PartitionSyntaxV2Error::Truncated)
    } else if n == 0 || n > n_mb {
        Err(
            PartitionSyntaxV2Error::RleRunCountOutOfRange {
                got: n as u32,
                n_mb: (n_mb % 0x1_0000_0000) as u32,
            },
        )
    } else if st.fault is Some {
        Err(st.fault->Some_0)
    } else if st.parts.len() != n_mb {
        Err(
            PartitionSyntaxV2Error::RleLengthMismatch {
                expected: n_mb as usize,
                got: st.parts.len() as usize,
            },
        )
    } else if data.len() != 7 + 3 * n {
        Err(PartitionSyntaxV2Error::TrailingMapBytes)
    } else {
        Ok(st.parts)
    }
}

/// The partition bytes that a blob holds for a grid, or why it is refused.
pub open spec fn decoded_map(data: Seq<u8>, cols: u32, rows: u32) -> Result<
    Seq<u8>,
    PartitionSyntaxV2Error,
> {
    let n = cols * rows;
    let parts = if data[4] == MAP_KIND_UNIFORM {
        if data.len() < 6 {
            Err(PartitionSyntaxV2Error::Truncated)
        } else if data[5] > 3 {
            Err(PartitionSyntaxV2Error::InvalidMode(data[5]))
        } else if data.len() != 6 {
            Err(PartitionSyntaxV2Error::TrailingMapBytes)
        } else {
            Ok(repeated(data[5], n))
        }
    } else if data[4] == MAP_KIND_RAW_SMALL {
        if n > 5 {
            Err(PartitionSyntaxV2Error::RawSmallMapTooLarge)
        } else if data.len() < 5 + n {
            Err(PartitionSyntaxV2Error::Truncated)
        } else if first_bad(data, 5, n) is Some {
            Err(PartitionSyntaxV2Error::InvalidMode(first_bad(data, 5, n)->Some_0))
        } else if data.len() != 5 + n {
            Err(PartitionSyntaxV2Error::TrailingMapBytes)
        } else {
            Ok(data.subrange(5, 5 + n))
        }
    } else if data[4] == MAP_KIND_RLE {
        rle_map(data, n)
    } else {
        Err(PartitionSyntaxV2Error::UnknownMapKind(data[4]))
    };
    if cols == 0 || rows == 0 {
        Err(PartitionSyntaxV2Error::ZeroGrid)
    } else if n > usize::MAX {
        Err(PartitionSyntaxV2Error::GridTooLarge)
    } else if data.len() < 5 {
        Err(PartitionSyntaxV2Error::Truncated)
    } else if data.take(4) != PARTITION_MAP_V2_MAGIC@ {
        Err(PartitionSyntaxV2Error::BadMapHeader)
    } else if parts is Err {
        parts
    } else if cols > PARTITION_V2_MAX_MB_DIM || rows > PARTITION_V2_MAX_MB_DIM {
        Err(PartitionSyntaxV2Error::GridTooLarge)
    } else {
        parts
    }
}

proof fn lemma_runs_fault(data: Seq<u8>, n_mb: int, k: int, n: int)
    requires
        k <= n,
        runs_read(data, n_mb, k).fault is Some,
    ensures
        runs_read(data, n_mb, n) == runs_read(data, n_mb, k),
    decreases n - k,
{
    if k < n {
        lemma_runs_fault(data, n_mb, k, n - 1);
    }
}

fn push_modes(out: &mut Vec<PartitionModeV2>, m: PartitionModeV2, n: usize)
    ensures
        mode_codes(final(out)@) == mode_codes(old(out)@) + repeated(mode_code(m), n as int),
{
    let ghost start = mode_codes(out@);
    let mut i: usize = 0;
    assert(start =~= start + repeated(mode_code(m), 0));
    while i < n
        invariant
            i <= n,
            mode_codes(out@) == start + repeated(mode_code(m), i as int),
        decreases n - i,
    {
        let ghost before = out@;
        out.push(m);
        i += 1;
        assert(mode_codes(out@) =~= mode_codes(before).push(mode_code(m)));
        assert(mode_codes(out@) =~= start + repeated(mode_code(m), i as int));
    }
}

fn decode_rle_modes(data: &[u8], n_mb: usize) -> (r: Result<
    Vec<PartitionModeV2>,
    PartitionSyntaxV2Error,
>)
    requires
        data@.len() >= 5,
    ensures
        match rle_map(data@, n_mb as int) {
            Ok(p) => r is Ok && mode_codes(r->Ok_0@) == p,
            Err(e) => r == Err::<Vec<PartitionModeV2>, PartitionSyntaxV2Error>(e),
        },
{
    let have: usize = data.len();
    if have < 7 {
        return Err(PartitionSyntaxV2Error::Truncated);
    }
    let n_runs: usize = get_u16(data, 5) as usize;
    if n_runs == 0 || n_runs > n_mb {
        return Err(
            PartitionSyntaxV2Error::RleRunCountOutOfRange {
                got: n_runs as u32,
                n_mb: (n_mb as u64 % 0x1_0000_0000) as u32,
            },
        );
    }
    let mut out: Vec<PartitionModeV2> = Vec::new();
    let mut k: usize = 0;
    assert(mode_codes(out@) =~= seq![]);
    while k < n_runs
        invariant
            k <= n_runs <= 65535,
            n_runs <= n_mb,
            n_runs > 0,
            have == data@.len(),
            have >= 7 + 3 * k,
            n_runs == le16(data@, 5),
            out@.len() <= n_mb,
            out@.len() <= 65535 * k,
            runs_read(data@, n_mb as int, k as int) == (RunsRead {
                parts: mode_codes(out@),
                fault: None,
            }),
        decreases n_runs - k,
    {
        let at: usize = 7 + 3 * k;
        proof {
            if runs_read(data@, n_mb as int, k + 1).fault is Some {
                lemma_runs_fault(data@, n_mb as int, k + 1, n_runs as int);
            }
        }
        if have - at < 3 {
            return Err(PartitionSyntaxV2Error::Truncated);
        }
        let mode: PartitionModeV2 = PartitionModeV2::from_wire(data[at])?;
        let count: usize = get_u16(data, at + 1) as usize;
        if count == 0 {
            return Err(PartitionSyntaxV2Error::ZeroRunLength);
        }
        let had: usize = out.len();
        let total: usize = had + count;
        if total > n_mb {
            return Err(PartitionSyntaxV2Error::RleLengthMismatch { expected: n_mb, got: total });
        }
        let ghost before = mode_codes(out@);
        push_modes(&mut out, mode, count);
        assert(out@.len() == mode_codes(out@).len());
        k += 1;
    }
    let total: usize = out.len();
    if total != n_mb {
        return Err(PartitionSyntaxV2Error::RleLengthMismatch { expected: n_mb, got: total });
    }
    if have != 7 + 3 * n_runs {
        return Err(PartitionSyntaxV2Error::TrailingMapBytes);
    }
    Ok(out)
}

proof fn lemma_bad_stays(data: Seq<u8>, from: int, k: int, n: int)
    requires
        0 <= k <= n,
        first_bad(data, from, k) is Some,
    ensures
        first_bad(data, from, n) == first_bad(data, from, k),
    decreases n - k,
{
    if k < n {
        lemma_bad_stays(data, from, k, n - 1);
    }
}

fn decode_raw_modes(data: &[u8], n_mb: usize) -> (r: Result<
    Vec<PartitionModeV2>,
    PartitionSyntaxV2Error,
>)
    requires
        n_mb <= 5,
        data@.len() >= 5 + n_mb,
    ensures
        match first_bad(data@, 5, n_mb as int) {
            Some(b) => r == Err::<Vec<PartitionModeV2>, PartitionSyntaxV2Error>(
                PartitionSyntaxV2Error::InvalidMode(b),
            ),
            None => r is Ok && mode_codes(r->Ok_0@) == data@.subrange(5, 5 + n_mb),
        },
{
    let mut out: Vec<PartitionModeV2> = Vec::new();
    let mut i: usize = 0;
    assert(mode_codes(out@) =~= data@.subrange(5, 5));
    while i < n_mb
        invariant
            i <= n_mb <= 5,
            data@.len() >= 5 + n_mb,
            first_bad(data@, 5, i as int) is None,
            mode_codes(out@) == data@.subrange(5, 5 + i),
        decreases n_mb - i,
    {
        proof {
            if data@[5 + i] > 3 {
                lemma_bad_stays(data@, 5, i + 1, n_mb as int);
            }
        }
        let m: PartitionModeV2 = PartitionModeV2::from_wire(data[5 + i])?;
        let ghost before = out@;
        out.push(m);
        i += 1;
        assert(mode_codes(out@) =~= mode_codes(before).push(mode_code(m)));
        assert(mode_codes(out@) =~= data@.subrange(5, 5 + i));
    }
    Ok(out)
}

/// Reads the map of a known grid.
pub fn decode_partition_map_v2(data: &[u8], mb_cols: u32, mb_rows: u32) -> (r: Result<
    PartitionMapV2,
    PartitionSyntaxV2Error,
>)
    ensures
        match decoded_map(data@, mb_cols, mb_rows) {
            Ok(p) => {
                &&& r is Ok
                &&& r->Ok_0.mb_cols == mb_cols
                &&& r->Ok_0.mb_rows == mb_rows
                &&& mode_codes(r->Ok_0.modes@) == p
                &&& r->Ok_0.valid()
            },
            Err(e) => r == Err::<PartitionMapV2, PartitionSyntaxV2Error>(e),
        },
{
    if mb_cols == 0 || mb_rows == 0 {
        return Err(PartitionSyntaxV2Error::ZeroGrid);
    }
    assert(mb_cols * mb_rows <= u32::MAX * u32::MAX) by (nonlinear_arith)
        requires
            mb_cols <= u32::MAX,
            mb_rows <= u32::MAX,
    ;
    let n: u64 = mb_cols as u64 * mb_rows as u64;
    if n > usize::MAX as u64 {
        return Err(PartitionSyntaxV2Error::GridTooLarge);
    }
    let n_mb: usize = n as usize;
    let have: usize = data.len();
    if have < 5 {
        return Err(PartitionSyntaxV2Error::Truncated);
    }
    let ghost m = data@.take(4);
    assert(m[0] == data@[0] && m[1] == data@[1] && m[2] == data@[2] && m[3] == data@[3]);
    if data[0] != PARTITION_MAP_V2_MAGIC[0] || data[1] != PARTITION_MAP_V2_MAGIC[1] || data[2]
        != PARTITION_MAP_V2_MAGIC[2] || data[3] != PARTITION_MAP_V2_MAGIC[3] {
        return Err(PartitionSyntaxV2Error::BadMapHeader);
    }
    assert(m =~= PARTITION_MAP_V2_MAGIC@);
    let kind: u8 = data[4];
    let too_large: bool = mb_cols > PARTITION_V2_MAX_MB_DIM || mb_rows > PARTITION_V2_MAX_MB_DIM;
    let mut modes: Vec<PartitionModeV2> = Vec::new();
    assert(mode_codes(modes@) =~= seq![]);
    if kind == MAP_KIND_UNIFORM {
        if have < 6 {
            return Err(PartitionSyntaxV2Error::Truncated);
        }
        let mode: PartitionModeV2 = PartitionModeV2::from_wire(data[5])?;
        if have != 6 {
            return Err(PartitionSyntaxV2Error::TrailingMapBytes);
        }
        if too_large {
            return Err(PartitionSyntaxV2Error::GridTooLarge);
        }
        push_modes(&mut modes, mode, n_mb);
        assert(mode_codes(modes@) =~= repeated(data@[5], n as int));
    } else if kind == MAP_KIND_RAW_SMALL {
        if n_mb > 5 {
            return Err(PartitionSyntaxV2Error::RawSmallMapTooLarge);
        }
        if have - 5 < n_mb {
            return Err(PartitionSyntaxV2Error::Truncated);
        }
        modes = decode_raw_modes(data, n_mb)?;
        if have != 5 + n_mb {
            return Err(PartitionSyntaxV2Error::TrailingMapBytes);
        }
    } else if kind == MAP_KIND_RLE {
        modes = decode_rle_modes(data, n_mb)?;
    } else {
        return Err(PartitionSyntaxV2Error::UnknownMapKind(kind));
    }
    assert(mode_codes(modes@).len() == modes@.len());
    PartitionMapV2::new(mb_cols, mb_rows, modes)
}

/// Bytes of a map and, where there are any, of its share groups.
pub fn estimate_partition_syntax_v2_bytes(
    map: &PartitionMapV2,
    mv_groups: Option<&[MvShareGroupV2]>,
    total_pu_slots: usize,
) -> (r: Result<PartitionSyntaxV2Stats, PartitionSyntaxV2Error>)
    ensures
        match encoded_map(*map) {
            Err(e) => r == Err::<PartitionSyntaxV2Stats, PartitionSyntaxV2Error>(e),
            Ok(b) => {
                let parts = mode_codes(map.modes@);
                let groups = match mv_groups {
                    None => Ok::<Seq<u8>, PartitionSyntaxV2Error>(seq![]),
                    Some(gs) => share_payload(member_lists(gs@), total_pu_slots),
                };
                match groups {
                    Err(e) => r == Err::<PartitionSyntaxV2Stats, PartitionSyntaxV2Error>(e),
                    Ok(g) => {
                        &&& r is Ok
                        &&& r->Ok_0.map_wire_bytes == b.len()
                        &&& r->Ok_0.mv_groups_wire_bytes == g.len()
                        &&& r->Ok_0.map_kind == kind_of_map(parts)
                        &&& r->Ok_0.n_mb == parts.len()
                        &&& r->Ok_0.n_runs == counted_runs(parts)
                        &&& r->Ok_0.v1_legacy_map_bytes == parts.len()
                    },
                }
            },
        },
{
    let (wire, kind, n_runs): (Vec<u8>, u8, u32) = encode_map_inner(map)?;
    let mv_b: usize = match mv_groups {
        Some(gs) => encode_mv_share_groups_v2(gs, total_pu_slots)?.len(),
        None => 0,
    };
    let n: usize = map.modes.len();
    Ok(
        PartitionSyntaxV2Stats {
            map_wire_bytes: wire.len(),
            mv_groups_wire_bytes: mv_b,
            map_kind: kind,
            n_mb: n as u32,
            n_runs,
            v1_legacy_map_bytes: v1_legacy_partition_map_bytes(n),
        },
    )
}

proof fn lemma_runs_read(pre: Seq<u8>, runs: Seq<PartitionRun>, n_mb: int, k: int)
    requires
        pre.len() == 7,
        0 <= k <= runs.len(),
        expanded(runs, runs.len() as int).len() <= n_mb,
        forall|j: int| 0 <= j < runs.len() ==> (#[trigger] runs[j]).len >= 1 && runs[j].wire <= 3,
    ensures
        runs_read(pre + run_bytes(runs, runs.len() as int), n_mb, k) == (RunsRead {
            parts: expanded(runs, k),
            fault: None,
        }),
        run_bytes(runs, k).len() == 3 * k,
    decreases k,
{
    if k > 0 {
        let d = pre + run_bytes(runs, runs.len() as int);
        lemma_runs_read(pre, runs, n_mb, k - 1);
        lemma_expanded_len(runs, k, runs.len() as int);
        let rest = lemma_run_bytes_tail(runs, k, runs.len() as int);
        let r = runs[k - 1];
        let head = pre + run_bytes(runs, k - 1) + seq![r.wire];
        le16_reads_bytes16(head, r.len as int, rest);
        assert(d =~= head + bytes16(r.len as int) + rest);
        assert(d[7 + 3 * (k - 1)] == r.wire);
    }
}

/// Reading a coded map gives it back.
pub proof fn partition_map_round_trip(map: PartitionMapV2)
    requires
        encoded_map(map) is Ok,
    ensures
        decoded_map(encoded_map(map)->Ok_0, map.mb_cols, map.mb_rows) == Ok::<
            Seq<u8>,
            PartitionSyntaxV2Error,
        >(mode_codes(map.modes@)),
{
    let parts = mode_codes(map.modes@);
    let n = parts.len() as int;
    let d = encoded_map(map)->Ok_0;
    let cols = map.mb_cols as int;
    let rows = map.mb_rows as int;
    assert(1 <= cols * rows <= 16777216) by (nonlinear_arith)
        requires
            1 <= cols <= 4096,
            1 <= rows <= 4096,
    ;
    assert(d.take(4) =~= PARTITION_MAP_V2_MAGIC@);
    assert(d[4] == kind_of_map(parts));
    assert forall|i: int| 0 <= i < n implies #[trigger] parts[i] <= 3 by {}
    if kind_of_map(parts) == MAP_KIND_UNIFORM {
        assert(repeated(d[5], n) =~= parts);
    } else if kind_of_map(parts) == MAP_KIND_RAW_SMALL {
        assert(d.subrange(5, 5 + n) =~= parts);
        assert forall|i: int| 5 <= i < 5 + n implies #[trigger] d[i] <= 3 by {
            assert(d[i] == parts[i - 5]);
        }
        lemma_none_bad(d, 5, n);
    } else {
        let runs = runs_of(parts, n);
        runs_spell_the_map(parts, n);
        assert(parts.take(n) =~= parts);
        let head = PARTITION_MAP_V2_MAGIC@.push(MAP_KIND_RLE);
        let c = bytes16(runs.len() as int);
        let body = run_bytes(runs, runs.len() as int);
        le16_reads_bytes16(head, runs.len() as int, body);
        lemma_runs_read(head + c, runs, n, runs.len() as int);
    }
}

proof fn lemma_none_bad(data: Seq<u8>, from: int, n: int)
    requires
        forall|i: int| from <= i < from + n ==> #[trigger] data[i] <= 3,
    ensures
        first_bad(data, from, n) is None,
    decreases n,
{
    if n > 0 {
        lemma_none_bad(data, from, n - 1);
    }
}

/// Reading runs looks at no byte behind where it stops.
proof fn lemma_runs_agree(data: Seq<u8>, other: Seq<u8>, n_mb: int, k: int)
    requires
        0 <= k,
        runs_read(data, n_mb, k).fault is None,
        data.len() >= 7,
        other.len() >= 7 + 3 * k,
        forall|i: int| 0 <= i < 7 + 3 * k ==> other[i] == data[i],
    ensures
        data.len() >= 7 + 3 * k,
        runs_read(other, n_mb, k) == runs_read(data, n_mb, k),
    decreases k,
{
    if k > 0 {
        lemma_runs_agree(data, other, n_mb, k - 1);
        assert(le16(other, 7 + 3 * (k - 1) + 1) == le16(data, 7 + 3 * (k - 1) + 1));
    }
}

/// Runs whose bytes are cut off are refused.
proof fn lemma_runs_cut(data: Seq<u8>, n_mb: int, k: int, c: int)
    requires
        runs_read(data, n_mb, k).fault is None,
        7 <= c < 7 + 3 * k,
        c <= data.len(),
    ensures
        runs_read(data.take(c), n_mb, k).fault == Some(PartitionSyntaxV2Error::Truncated),
    decreases k,
{
    if c < 7 + 3 * (k - 1) {
        lemma_runs_cut(data, n_mb, k - 1, c);
    } else {
        lemma_runs_agree(data, data.take(c), n_mb, k - 1);
    }
}

proof fn lemma_bad_agrees(data: Seq<u8>, other: Seq<u8>, from: int, n: int)
    requires
        forall|i: int| from <= i < from + n ==> other[i] == data[i],
    ensures
        first_bad(other, from, n) == first_bad(data, from, n),
    decreases n,
{
    if n > 0 {
        lemma_bad_agrees(data, other, from, n - 1);
    }
}

/// A map blob that is accepted, such as the one of any map that can be coded, is truncated with
/// any bytes cut off, and has trailing bytes with any byte behind it.
pub proof fn cut_or_extended_map_is_refused(data: Seq<u8>, cols: u32, rows: u32, k: int, b: u8)
    requires
        decoded_map(data, cols, rows) is Ok,
        0 <= k < data.len(),
    ensures
        decoded_map(data.take(k), cols, rows) == Err::<Seq<u8>, PartitionSyntaxV2Error>(
            PartitionSyntaxV2Error::Truncated,
        ),
        decoded_map(data.push(b), cols, rows) == Err::<Seq<u8>, PartitionSyntaxV2Error>(
            PartitionSyntaxV2Error::TrailingMapBytes,
        ),
{
    let n = cols * rows;
    let long = data.push(b);
    let short = data.take(k);
    assert(long.take(4) =~= data.take(4));
    if k >= 5 {
        assert(short.take(4) =~= data.take(4));
    }
    if data[4] == MAP_KIND_RAW_SMALL {
        lemma_bad_agrees(data, long, 5, n);
    } else if data[4] == MAP_KIND_RLE {
        let r = le16(data, 5);
        assert(le16(long, 5) == r);
        lemma_runs_agree(data, long, n, r);
        if k >= 7 {
            assert(le16(short, 5) == r);
            lemma_runs_cut(data, n, r, k);
        }
    }
}

/// A map is accepted when its grid has macroblocks, stays within the limit of its sides, and names a
/// mode for each.
pub proof fn maps_name_every_macroblock(cols: u32, rows: u32, count: int)
    ensures
        grid_refusal(cols, rows, count) is None <==> 1 <= cols <= PARTITION_V2_MAX_MB_DIM && 1
            <= rows <= PARTITION_V2_MAX_MB_DIM && count == cols * rows,
{
}

/// How a map is coded: as one byte where all macroblocks are alike, as it is up to five of them, and
/// in runs beyond; the fifth byte tells which.
pub proof fn maps_take_the_form_of_their_size(parts: Seq<u8>, i: int)
    requires
        parts.len() > 0,
        map_blob(parts) is Ok,
        0 <= i < parts.len(),
    ensures
        ({
            let d = map_blob(parts)->Ok_0;
            let alike = forall|k: int| 0 <= k < parts.len() ==> #[trigger] parts[k] == parts[0];
            &&& d.take(4) == PARTITION_MAP_V2_MAGIC@
            &&& d[4] == 0 <==> alike
            &&& d[4] == 2 <==> !alike && parts.len() <= 5
            &&& d[4] == 1 <==> !alike && parts.len() > 5
            &&& d[4] == 0 ==> d.len() == 6 && d[5] == parts[i]
            &&& d[4] == 2 ==> d.len() == 5 + parts.len() && d[5 + i] == parts[i]
            &&& d[4] == 1 ==> le16(d, 5) == runs_of(parts, parts.len() as int).len()
        }),
{
    let d = map_blob(parts)->Ok_0;
    let head = PARTITION_MAP_V2_MAGIC@.push(kind_of_map(parts));
    let runs = runs_of(parts, parts.len() as int);
    assert(d.take(4) =~= PARTITION_MAP_V2_MAGIC@);
    if kind_of_map(parts) == MAP_KIND_RLE {
        le16_reads_bytes16(head, runs.len() as int, run_bytes(runs, runs.len() as int));
    }
    if all_equal(parts) {
        assert(parts[i] == parts[0]);
    }
}

/// The code of a mode is the partition byte of its type: whole, two above each other, two beside each
/// other, four.
pub proof fn modes_are_partition_types(m: PartitionModeV2)
    ensures
        m is Int16x16 <==> mode_code(m) == 0,
        m is Int16x8 <==> mode_code(m) == 1,
        m is Int8x16 <==> mode_code(m) == 2,
        m is Int8x8 <==> mode_code(m) == 3,
{
}

} // verus!
