//! Contexts of coefficient symbols: each symbol of a block is coded with a table that the plane,
//! the texture of the block, the position and the neighbours select.
//!
//! A coded block is a 16-bit symbol count, one context slot for each symbol, and what the entropy
//! coder made of the symbols.
use vstd::prelude::*;

use crate::arith::{greatest, magnitude, total};
use crate::bytes::{bytes16, copy_range, get_u16, le16, le16_reads_bytes16, push_all, push_u16};

verus! {

/// The plane of a block.
#[derive(Debug, Clone, Copy, PartialEq, Eq, Hash, Structural)]
pub enum ResidualPlane {
    Y,
    U,
    V,
}

/// The texture of a block.
#[derive(Debug, Clone, Copy, PartialEq, Eq, Hash, Structural)]
pub enum BlockActivityContext {
    Flat,
    Edge,
    Textured,
}

/// The band that a coefficient lies in.
#[derive(Debug, Clone, Copy, PartialEq, Eq, Hash, Structural)]
pub enum CoeffBandContext {
    Dc,
    LowAc,
    MidAc,
    HighAc,
}

/// The length of a run of zeros.
#[derive(Debug, Clone, Copy, PartialEq, Eq, Hash, Structural)]
pub enum ZeroRunContext {
    Short,
    Medium,
    Long,
}

/// The size of a coefficient.
#[derive(Debug, Clone, Copy, PartialEq, Eq, Hash, Structural)]
pub enum MagnitudeContext {
    Zero,
    One,
    TwoThree,
    FourSeven,
    Large,
}

/// Which neighbours have coefficients.
#[derive(Debug, Clone, Copy, PartialEq, Eq, Hash, Structural)]
pub enum NeighborResidualContext {
    Neither,
    Left,
    Above,
    Both,
}

/// All that selects the table of a symbol.
#[derive(Debug, Clone, Copy, PartialEq, Eq, Hash, Structural)]
pub struct ResidualContextId {
    pub plane: ResidualPlane,
    pub activity: BlockActivityContext,
    pub band: CoeffBandContext,
    pub zero_run: ZeroRunContext,
    pub magnitude: MagnitudeContext,
    pub neighbor: NeighborResidualContext,
}

/// Tables that a model has.
pub const NUM_CONTEXT_SLOTS: usize = 128;

/// Positions of a block besides the first one.
pub const AC_COEFFICIENTS: usize = 63;

/// Symbols of the alphabet: the end mark, 62 runs and 254 values.
pub const RESIDUAL_ALPHABET: usize = 317;

/// What a coder reports of a block.
#[derive(Debug, Clone, Copy, Default, PartialEq, Eq)]
pub struct ResidualContextStats {
    pub symbols_encoded: usize,
    pub output_bytes: usize,
    pub max_context_slot_used: u8,
}

/// Why a block is refused.
#[derive(Debug, Clone, Copy, PartialEq, Eq)]
pub enum ResidualContextEntropyError {
    Entropy(&'static str),
    SymbolBudget { max: usize, got: usize },
    InvalidSymbols,
    InvalidContextSlot(u8, u32),
}

pub open spec fn plane_code(p: ResidualPlane) -> int {
    match p {
        ResidualPlane::Y => 0,
        ResidualPlane::U => 1,
        ResidualPlane::V => 2,
    }
}

pub open spec fn activity_code(a: BlockActivityContext) -> int {
    match a {
        BlockActivityContext::Flat => 0,
        BlockActivityContext::Edge => 1,
        BlockActivityContext::Textured => 2,
    }
}

pub open spec fn band_code(b: CoeffBandContext) -> int {
    match b {
        CoeffBandContext::Dc => 0,
        CoeffBandContext::LowAc => 1,
        CoeffBandContext::MidAc => 2,
        CoeffBandContext::HighAc => 3,
    }
}

pub open spec fn run_code(z: ZeroRunContext) -> int {
    match z {
        ZeroRunContext::Short => 0,
        ZeroRunContext::Medium => 1,
        ZeroRunContext::Long => 2,
    }
}

pub open spec fn magnitude_code(m: MagnitudeContext) -> int {
    match m {
        MagnitudeContext::Zero => 0,
        MagnitudeContext::One => 1,
        MagnitudeContext::TwoThree => 2,
        MagnitudeContext::FourSeven => 3,
        MagnitudeContext::Large => 4,
    }
}

pub open spec fn neighbor_code(n: NeighborResidualContext) -> int {
    match n {
        NeighborResidualContext::Neither => 0,
        NeighborResidualContext::Left => 1,
        NeighborResidualContext::Above => 2,
        NeighborResidualContext::Both => 3,
    }
}

/// The table of a context.
pub open spec fn slot_of(id: ResidualContextId) -> int {
    ((((plane_code(id.plane) * 31 + activity_code(id.activity)) * 31 + band_code(id.band)) * 17
        + run_code(id.zero_run)) * 19 + magnitude_code(id.magnitude)) * 23 + neighbor_code(
        id.neighbor,
    )
}

impl ResidualContextId {
    /// The table that the context selects.
    pub fn to_slot(self) -> (s: u8)
        ensures
            s == slot_of(self) % 128,
            s < NUM_CONTEXT_SLOTS,
    {
        let p: u32 = match self.plane {
            ResidualPlane::Y => 0,
            ResidualPlane::U => 1,
            ResidualPlane::V => 2,
        };
        let a: u32 = match self.activity {
            BlockActivityContext::Flat => 0,
            BlockActivityContext::Edge => 1,
            BlockActivityContext::Textured => 2,
        };
        let b: u32 = match self.band {
            CoeffBandContext::Dc => 0,
            CoeffBandContext::LowAc => 1,
            CoeffBandContext::MidAc => 2,
            CoeffBandContext::HighAc => 3,
        };
        let z: u32 = match self.zero_run {
            ZeroRunContext::Short => 0,
            ZeroRunContext::Medium => 1,
            ZeroRunContext::Long => 2,
        };
        let m: u32 = match self.magnitude {
            MagnitudeContext::Zero => 0,
            MagnitudeContext::One => 1,
            MagnitudeContext::TwoThree => 2,
            MagnitudeContext::FourSeven => 3,
            MagnitudeContext::Large => 4,
        };
        let n: u32 = match self.neighbor {
            NeighborResidualContext::Neither => 0,
            NeighborResidualContext::Left => 1,
            NeighborResidualContext::Above => 2,
            NeighborResidualContext::Both => 3,
        };
        let mix: u32 = ((((p * 31 + a) * 31 + b) * 17 + z) * 19 + m) * 23 + n;
        (mix % 128) as u8
    }

    /// Several contexts share a table, so a slot never gives one back.
    pub fn try_from_slot(slot: u8) -> (r: Option<Self>)
        ensures
            r is None,
    {
        None
    }
}

/// Nonzero coefficients among positions `1..n`.
pub open spec fn nonzero_count(q: Seq<i16>, n: int) -> int
    decreases n,
{
    if n <= 1 {
        0
    } else {
        nonzero_count(q, n - 1) + if q[n - 1] != 0 {
            1int
        } else {
            0int
        }
    }
}

/// Sizes of the coefficients at positions `1..n` together.
pub open spec fn size_sum(q: Seq<i16>, n: int) -> int
    decreases n,
{
    if n <= 1 {
        0
    } else {
        size_sum(q, n - 1) + magnitude(q[n - 1] as int)
    }
}

/// The texture of a block: its nonzero coefficients and their sizes.
pub open spec fn activity_of(q: Seq<i16>) -> BlockActivityContext {
    if nonzero_count(q, 64) <= 2 && size_sum(q, 64) < 24 {
        BlockActivityContext::Flat
    } else if nonzero_count(q, 64) <= 18 {
        BlockActivityContext::Edge
    } else {
        BlockActivityContext::Textured
    }
}

/// The texture of a block.
pub fn classify_activity(freq: &[i16; 64]) -> (a: BlockActivityContext)
    ensures
        a == activity_of(freq@),
{
    let mut nz: u32 = 0;
    let mut sum_abs: u32 = 0;
    let mut i: usize = 1;
    while i < 64
        invariant
            1 <= i <= 64,
            nz == nonzero_count(freq@, i as int),
            nz <= i,
            sum_abs == size_sum(freq@, i as int),
            sum_abs <= 32768 * i,
        decreases 64 - i,
    {
        let v: i32 = freq[i] as i32;
        if v != 0 {
            nz += 1;
        }
        let a: u32 = if v < 0 { (0 - v) as u32 } else { v as u32 };
        sum_abs = sum_abs + a;
        i += 1;
    }
    if nz <= 2 && sum_abs < 24 {
        BlockActivityContext::Flat
    } else if nz <= 18 {
        BlockActivityContext::Edge
    } else {
        BlockActivityContext::Textured
    }
}

pub open spec fn band_of(pos: int) -> CoeffBandContext {
    if pos == 0 {
        CoeffBandContext::Dc
    } else if pos <= 8 {
        CoeffBandContext::LowAc
    } else if pos <= 32 {
        CoeffBandContext::MidAc
    } else {
        CoeffBandContext::HighAc
    }
}

pub open spec fn run_class(run: int) -> ZeroRunContext {
    if 1 <= run <= 5 {
        ZeroRunContext::Short
    } else if 6 <= run <= 20 {
        ZeroRunContext::Medium
    } else {
        ZeroRunContext::Long
    }
}

pub open spec fn magnitude_class(v: int) -> MagnitudeContext {
    if v == 0 {
        MagnitudeContext::Zero
    } else if magnitude(v) == 1 {
        MagnitudeContext::One
    } else if magnitude(v) <= 3 {
        MagnitudeContext::TwoThree
    } else if magnitude(v) <= 7 {
        MagnitudeContext::FourSeven
    } else {
        MagnitudeContext::Large
    }
}

pub open spec fn neighbors_of(left: bool, above: bool) -> NeighborResidualContext {
    if left && above {
        NeighborResidualContext::Both
    } else if left {
        NeighborResidualContext::Left
    } else if above {
        NeighborResidualContext::Above
    } else {
        NeighborResidualContext::Neither
    }
}

fn neighbor_ctx(left: bool, above: bool) -> (n: NeighborResidualContext)
    ensures
        n == neighbors_of(left, above),
{
    match (left, above) {
        (false, false) => NeighborResidualContext::Neither,
        (true, false) => NeighborResidualContext::Left,
        (false, true) => NeighborResidualContext::Above,
        (true, true) => NeighborResidualContext::Both,
    }
}

fn band_for_ac_pos(ac_pos: usize) -> (b: CoeffBandContext)
    ensures
        b == band_of(ac_pos as int),
{
    if ac_pos == 0 {
        CoeffBandContext::Dc
    } else if ac_pos <= 8 {
        CoeffBandContext::LowAc
    } else if ac_pos <= 32 {
        CoeffBandContext::MidAc
    } else {
        CoeffBandContext::HighAc
    }
}

fn zrun_bucket(run: usize) -> (z: ZeroRunContext)
    ensures
        z == run_class(run as int),
{
    if 1 <= run && run <= 5 {
        ZeroRunContext::Short
    } else if 6 <= run && run <= 20 {
        ZeroRunContext::Medium
    } else {
        ZeroRunContext::Long
    }
}

fn magnitude_bucket(v: i16) -> (m: MagnitudeContext)
    ensures
        m == magnitude_class(v as int),
{
    if v == 0 {
        MagnitudeContext::Zero
    } else if -1 <= v && v <= 1 {
        MagnitudeContext::One
    } else if -3 <= v && v <= 3 {
        MagnitudeContext::TwoThree
    } else if -7 <= v && v <= 7 {
        MagnitudeContext::FourSeven
    } else {
        MagnitudeContext::Large
    }
}

/// What the token layer says of its symbols: which one ends a block, which value each of the
/// value symbols stands for, and how many symbols a block may have.
pub struct ResidualAlphabet {
    pub eob: usize,
    /// The value of symbol `62 + z` is entry `z`, where it has one.
    pub values: Vec<Option<i16>>,
    pub max_symbols: usize,
}

/// How far the symbols of a block were labelled.
pub struct SlotsSoFar {
    pub slots: Seq<u8>,
    /// The coefficient that the next symbol speaks of.
    pub pos: int,
    pub valid: bool,
}

/// What the symbols of a block share.
pub struct BlockContext {
    pub plane: ResidualPlane,
    pub activity: BlockActivityContext,
    pub neighbor: NeighborResidualContext,
}

/// The context of a symbol at position `pos`, and where the symbol leaves off; none for a symbol
/// that means nothing.
pub open spec fn symbol_context(
    eob: usize,
    values: Seq<Option<i16>>,
    b: BlockContext,
    s: usize,
    pos: int,
) -> Option<(ResidualContextId, int)> {
    let id = ResidualContextId {
        plane: b.plane,
        activity: b.activity,
        band: band_of(pos),
        zero_run: ZeroRunContext::Short,
        magnitude: MagnitudeContext::Zero,
        neighbor: b.neighbor,
    };
    if s == eob {
        Some((ResidualContextId { band: CoeffBandContext::HighAc, ..id }, pos))
    } else if 1 <= s < 63 {
        Some((ResidualContextId { zero_run: run_class(s as int), ..id }, pos + s))
    } else if 63 <= s < 317 && s - 62 < values.len() && values[s - 62] is Some {
        Some(
            (
                ResidualContextId {
                    magnitude: magnitude_class(values[s - 62]->Some_0 as int),
                    ..id
                },
                pos + 1,
            ),
        )
    } else {
        None
    }
}

/// Labelling the first `n` symbols of a block.
pub open spec fn slots_so_far(
    eob: usize,
    values: Seq<Option<i16>>,
    b: BlockContext,
    symbols: Seq<usize>,
    n: int,
) -> SlotsSoFar
    decreases n,
{
    if n <= 0 {
        SlotsSoFar { slots: seq![], pos: 0, valid: true }
    } else {
        let st = slots_so_far(eob, values, b, symbols, n - 1);
        if !st.valid {
            st
        } else {
            match symbol_context(eob, values, b, symbols[n - 1], st.pos) {
                None => SlotsSoFar { valid: false, ..st },
                Some(c) => if c.1 > AC_COEFFICIENTS {
                    SlotsSoFar { valid: false, ..st }
                } else {
                    SlotsSoFar {
                        slots: st.slots.push((slot_of(c.0) % 128) as u8),
                        pos: c.1,
                        valid: true,
                    }
                },
            }
        }
    }
}

/// The context slots of the symbols of a block; none where they are no symbols of one.
pub open spec fn symbol_slots(
    eob: usize,
    values: Seq<Option<i16>>,
    b: BlockContext,
    symbols: Seq<usize>,
) -> Option<Seq<u8>> {
    let st = slots_so_far(eob, values, b, symbols, symbols.len() as int);
    if st.valid {
        Some(st.slots)
    } else {
        None
    }
}

proof fn lemma_stays_invalid(
    eob: usize,
    values: Seq<Option<i16>>,
    b: BlockContext,
    symbols: Seq<usize>,
    k: int,
    n: int,
)
    requires
        k <= n,
        !slots_so_far(eob, values, b, symbols, k).valid,
    ensures
        !slots_so_far(eob, values, b, symbols, n).valid,
    decreases n - k,
{
    if k < n {
        lemma_stays_invalid(eob, values, b, symbols, k, n - 1);
    }
}

fn context_of_symbol(
    alphabet: &ResidualAlphabet,
    plane: ResidualPlane,
    activity: BlockActivityContext,
    neighbor: NeighborResidualContext,
    s: usize,
    pos: usize,
) -> (r: Option<(ResidualContextId, usize)>)
    requires
        pos <= AC_COEFFICIENTS,
    ensures
        match symbol_context(
            alphabet.eob,
            alphabet.values@,
            BlockContext { plane, activity, neighbor },
            s,
            pos as int,
        ) {
            None => r is None,
            Some(c) => r is Some && r->Some_0.0 == c.0 && r->Some_0.1 == c.1,
        },
{
    let id: ResidualContextId = ResidualContextId {
        plane,
        activity,
        band: band_for_ac_pos(pos),
        zero_run: ZeroRunContext::Short,
        magnitude: MagnitudeContext::Zero,
        neighbor,
    };
    if s == alphabet.eob {
        return Some((ResidualContextId { band: CoeffBandContext::HighAc, ..id }, pos));
    }
    if 1 <= s && s < 63 {
        return Some((ResidualContextId { zero_run: zrun_bucket(s), ..id }, pos + s));
    }
    if 63 <= s && s < 317 && s - 62 < alphabet.values.len() {
        match alphabet.values[s - 62] {
            Some(v) => {
                return Some(
                    (ResidualContextId { magnitude: magnitude_bucket(v), ..id }, pos + 1),
                );
            },
            None => {},
        }
    }
    None
}

/// The context slots of the symbols of a block.
pub fn build_contexts_for_symbols(
    alphabet: &ResidualAlphabet,
    symbols: &[usize],
    plane: ResidualPlane,
    activity: BlockActivityContext,
    neighbor: NeighborResidualContext,
) -> (r: Result<Vec<u8>, ResidualContextEntropyError>)
    ensures
        match symbol_slots(
            alphabet.eob,
            alphabet.values@,
            BlockContext { plane, activity, neighbor },
            symbols@,
        ) {
            Some(v) => r is Ok && r->Ok_0@ == v && v.len() == symbols@.len(),
            None => r == Err::<Vec<u8>, ResidualContextEntropyError>(
                ResidualContextEntropyError::InvalidSymbols,
            ),
        },
{
    let ghost b = BlockContext { plane, activity, neighbor };
    let ghost values = alphabet.values@;
    let n: usize = symbols.len();
    let mut slots: Vec<u8> = Vec::new();
    let mut pos: usize = 0;
    let mut i: usize = 0;
    assert(slots@ =~= seq![]);
    while i < n
        invariant
            i <= n,
            n == symbols@.len(),
            values == alphabet.values@,
            b == (BlockContext { plane, activity, neighbor }),
            pos <= AC_COEFFICIENTS,
            slots@.len() == i,
            slots_so_far(alphabet.eob, values, b, symbols@, i as int) == (SlotsSoFar {
                slots: slots@,
                pos: pos as int,
                valid: true,
            }),
        decreases n - i,
    {
        proof {
            if !slots_so_far(alphabet.eob, values, b, symbols@, i + 1).valid {
                lemma_stays_invalid(alphabet.eob, values, b, symbols@, i + 1, n as int);
            }
        }
        match context_of_symbol(alphabet, plane, activity, neighbor, symbols[i], pos) {
            None => {
                return Err(ResidualContextEntropyError::InvalidSymbols);
            },
            Some((id, next)) => {
                if next > AC_COEFFICIENTS {
                    return Err(ResidualContextEntropyError::InvalidSymbols);
                }
                slots.push(id.to_slot());
                pos = next;
            },
        }
        i += 1;
    }
    Ok(slots)
}

/// The contexts of the symbols of a block, or why the block is refused.
pub open spec fn planned_slots(
    eob: usize,
    values: Seq<Option<i16>>,
    max_symbols: usize,
    plane: ResidualPlane,
    left: bool,
    above: bool,
    q: Seq<i16>,
    symbols: Seq<usize>,
) -> Result<Seq<u8>, ResidualContextEntropyError> {
    let b = BlockContext { plane, activity: activity_of(q), neighbor: neighbors_of(left, above) };
    if symbols.len() > max_symbols {
        Err(
            ResidualContextEntropyError::SymbolBudget {
                max: max_symbols,
                got: symbols.len() as usize,
            },
        )
    } else {
        match symbol_slots(eob, values, b, symbols) {
            Some(v) => Ok(v),
            None => Err(ResidualContextEntropyError::InvalidSymbols),
        }
    }
}

/// Selects the table of each symbol of a block; `symbols` are the tokens of `quantized`.
pub fn plan_residual_context_v1_block(
    alphabet: &ResidualAlphabet,
    plane: ResidualPlane,
    left_neighbor_nonzero: bool,
    above_neighbor_nonzero: bool,
    quantized: &[i16; 64],
    symbols: &[usize],
) -> (r: Result<Vec<u8>, ResidualContextEntropyError>)
    ensures
        match planned_slots(
            alphabet.eob,
            alphabet.values@,
            alphabet.max_symbols,
            plane,
            left_neighbor_nonzero,
            above_neighbor_nonzero,
            quantized@,
            symbols@,
        ) {
            Ok(v) => r is Ok && r->Ok_0@ == v && v.len() == symbols@.len(),
            Err(e) => r == Err::<Vec<u8>, ResidualContextEntropyError>(e),
        },
{
    let n: usize = symbols.len();
    if n > alphabet.max_symbols {
        return Err(
            ResidualContextEntropyError::SymbolBudget { max: alphabet.max_symbols, got: n },
        );
    }
    build_contexts_for_symbols(
        alphabet,
        symbols,
        plane,
        classify_activity(quantized),
        neighbor_ctx(left_neighbor_nonzero, above_neighbor_nonzero),
    )
}

/// The largest of some slots.
pub open spec fn largest_slot(v: Seq<u8>, n: int) -> int
    decreases n,
{
    if n <= 0 {
        0
    } else {
        greatest(largest_slot(v, n - 1), v[n - 1] as int)
    }
}

fn max_slot(v: &[u8]) -> (m: u8)
    ensures
        m == largest_slot(v@, v@.len() as int),
{
    let mut m: u8 = 0;
    let mut i: usize = 0;
    while i < v.len()
        invariant
            i <= v@.len(),
            m == largest_slot(v@, i as int),
        decreases v@.len() - i,
    {
        if v[i] > m {
            m = v[i];
        }
        i += 1;
    }
    m
}

/// A coded block.
pub open spec fn block_blob(slots: Seq<u8>, coded: Seq<u8>) -> Seq<u8> {
    bytes16(slots.len() as int) + slots + coded
}

/// Packs a block: `contexts` are the slots of its symbols and `coded` is what the entropy coder
/// made of the symbols under them.
pub fn encode_residual_context_v1_block(contexts: &[u8], coded: &[u8]) -> (r: (
    Vec<u8>,
    ResidualContextStats,
))
    requires
        contexts@.len() <= u16::MAX,
    ensures
        r.0@ == block_blob(contexts@, coded@),
        r.1 == (ResidualContextStats {
            symbols_encoded: contexts@.len() as usize,
            output_bytes: r.0@.len() as usize,
            max_context_slot_used: largest_slot(contexts@, contexts@.len() as int) as u8,
        }),
{
    let n: usize = contexts.len();
    let mut packed: Vec<u8> = Vec::new();
    push_u16(&mut packed, n as u16);
    push_all(&mut packed, contexts);
    push_all(&mut packed, coded);
    assert(packed@ =~= block_blob(contexts@, coded@));
    let stats: ResidualContextStats = ResidualContextStats {
        symbols_encoded: n,
        output_bytes: packed.len(),
        max_context_slot_used: max_slot(contexts),
    };
    (packed, stats)
}

/// The same for a block of a chroma plane.
pub fn encode_residual_context_v1_plane(contexts: &[u8], coded: &[u8]) -> (r: (
    Vec<u8>,
    ResidualContextStats,
))
    requires
        contexts@.len() <= u16::MAX,
    ensures
        r.0@ == block_blob(contexts@, coded@),
        r.1 == (ResidualContextStats {
            symbols_encoded: contexts@.len() as usize,
            output_bytes: r.0@.len() as usize,
            max_context_slot_used: largest_slot(contexts@, contexts@.len() as int) as u8,
        }),
{
    encode_residual_context_v1_block(contexts, coded)
}

/// The first of `data[2..2 + n]` that is no slot.
pub open spec fn bad_slot(data: Seq<u8>, n: int) -> Option<u8>
    decreases n,
{
    if n <= 0 {
        None
    } else {
        match bad_slot(data, n - 1) {
            Some(b) => Some(b),
            None => if data[2 + n - 1] >= 128 {
                Some(data[2 + n - 1])
            } else {
                None
            },
        }
    }
}

/// The slots and the coded symbols of a blob, or why it is refused.
pub open spec fn blob_parts(max_symbols: usize, blob: Seq<u8>) -> Result<
    (Seq<u8>, Seq<u8>),
    ResidualContextEntropyError,
> {
    let n = le16(blob, 0);
    if blob.len() < 2 {
        Err(ResidualContextEntropyError::Entropy("truncated v1 header"))
    } else if n == 0 {
        Err(ResidualContextEntropyError::InvalidSymbols)
    } else if n > max_symbols {
        Err(ResidualContextEntropyError::SymbolBudget { max: max_symbols, got: n as usize })
    } else if blob.len() < 2 + n {
        Err(ResidualContextEntropyError::Entropy("truncated context bytes"))
    } else if bad_slot(blob, n) is Some {
        Err(ResidualContextEntropyError::InvalidContextSlot(bad_slot(blob, n)->Some_0, 128))
    } else {
        Ok((blob.subrange(2, 2 + n), blob.subrange(2 + n, blob.len() as int)))
    }
}

proof fn lemma_bad_slot_stays(data: Seq<u8>, k: int, n: int)
    requires
        k <= n,
        bad_slot(data, k) is Some,
    ensures
        bad_slot(data, n) == bad_slot(data, k),
    decreases n - k,
{
    if k < n {
        lemma_bad_slot_stays(data, k, n - 1);
    }
}

/// A blob taken apart.
#[derive(Debug, Clone, PartialEq, Eq)]
pub struct ResidualBlob {
    pub contexts: Vec<u8>,
    /// What the entropy decoder is to decode, `contexts.len()` symbols in all.
    pub payload: Vec<u8>,
    /// How many steps the decoder may take.
    pub decode_budget: usize,
}

/// Takes a coded block apart.
pub fn parse_residual_context_v1_block(max_symbols: usize, blob: &[u8]) -> (r: Result<
    ResidualBlob,
    ResidualContextEntropyError,
>)
    ensures
        match blob_parts(max_symbols, blob@) {
            Ok(p) => {
                &&& r is Ok
                &&& r->Ok_0.contexts@ == p.0
                &&& r->Ok_0.payload@ == p.1
                &&& r->Ok_0.decode_budget == greatest(
                    crate::arith::least(p.1.len() as int * 32, usize::MAX as int),
                    4096,
                )
            },
            Err(e) => r == Err::<ResidualBlob, ResidualContextEntropyError>(e),
        },
{
    let have: usize = blob.len();
    if have < 2 {
        return Err(ResidualContextEntropyError::Entropy("truncated v1 header"));
    }
    let n: usize = get_u16(blob, 0) as usize;
    if n == 0 {
        return Err(ResidualContextEntropyError::InvalidSymbols);
    }
    if n > max_symbols {
        return Err(ResidualContextEntropyError::SymbolBudget { max: max_symbols, got: n });
    }
    if have - 2 < n {
        return Err(ResidualContextEntropyError::Entropy("truncated context bytes"));
    }
    let mut i: usize = 0;
    while i < n
        invariant
            i <= n <= 65535,
            have == blob@.len(),
            2 <= have,
            n == le16(blob@, 0),
            0 < n <= max_symbols,
            2 + n <= have,
            bad_slot(blob@, i as int) is None,
        decreases n - i,
    {
        let c: u8 = blob[2 + i];
        if c >= 128 {
            proof {
                lemma_bad_slot_stays(blob@, i + 1, n as int);
            }
            return Err(ResidualContextEntropyError::InvalidContextSlot(c, 128));
        }
        i += 1;
    }
    let payload: Vec<u8> = copy_range(blob, 2 + n, have);
    let steps: usize = crate::arith::sat_mul_usize(payload.len(), 32);
    Ok(
        ResidualBlob {
            contexts: copy_range(blob, 2, 2 + n),
            payload,
            decode_budget: if steps < 4096 { 4096 } else { steps },
        },
    )
}

/// Checks a decoded block: `symbols` are the decoded symbols, `block` the coefficients that they
/// stand for, and `again` the tokens of `block`.
pub fn decode_residual_context_v1_block(
    alphabet: &ResidualAlphabet,
    plane: ResidualPlane,
    left_neighbor_nonzero: bool,
    above_neighbor_nonzero: bool,
    blob_len: usize,
    contexts: &[u8],
    symbols: &[usize],
    block: &[i16; 64],
    again: &[usize],
) -> (r: Result<ResidualContextStats, ResidualContextEntropyError>)
    ensures
        r == if again@ != symbols@ {
            Err::<ResidualContextStats, ResidualContextEntropyError>(
                ResidualContextEntropyError::InvalidSymbols,
            )
        } else {
            match symbol_slots(
                alphabet.eob,
                alphabet.values@,
                BlockContext {
                    plane,
                    activity: activity_of(block@),
                    neighbor: neighbors_of(left_neighbor_nonzero, above_neighbor_nonzero),
                },
                symbols@,
            ) {
                None => Err::<ResidualContextStats, ResidualContextEntropyError>(
                    ResidualContextEntropyError::InvalidSymbols,
                ),
                Some(v) => if v != contexts@ {
                    Err::<ResidualContextStats, ResidualContextEntropyError>(
                        ResidualContextEntropyError::Entropy(
                            "plane/neighbor/context metadata mismatch",
                        ),
                    )
                } else {
                    Ok::<ResidualContextStats, ResidualContextEntropyError>(
                        ResidualContextStats {
                            symbols_encoded: symbols@.len() as usize,
                            output_bytes: blob_len,
                            max_context_slot_used: largest_slot(
                                contexts@,
                                contexts@.len() as int,
                            ) as u8,
                        },
                    )
                },
            }
        },
{
    if !same_symbols(again, symbols) {
        return Err(ResidualContextEntropyError::InvalidSymbols);
    }
    let recomputed: Vec<u8> = build_contexts_for_symbols(
        alphabet,
        symbols,
        plane,
        classify_activity(block),
        neighbor_ctx(left_neighbor_nonzero, above_neighbor_nonzero),
    )?;
    if !same_bytes(recomputed.as_slice(), contexts) {
        return Err(
            ResidualContextEntropyError::Entropy("plane/neighbor/context metadata mismatch"),
        );
    }
    Ok(
        ResidualContextStats {
            symbols_encoded: symbols.len(),
            output_bytes: blob_len,
            max_context_slot_used: max_slot(contexts),
        },
    )
}

/// The same for a block of a chroma plane.
pub fn decode_residual_context_v1_plane(
    alphabet: &ResidualAlphabet,
    plane: ResidualPlane,
    left_neighbor_nonzero: bool,
    above_neighbor_nonzero: bool,
    blob_len: usize,
    contexts: &[u8],
    symbols: &[usize],
    block: &[i16; 64],
    again: &[usize],
) -> (r: Result<ResidualContextStats, ResidualContextEntropyError>)
    ensures
        r == if again@ != symbols@ {
            Err::<ResidualContextStats, ResidualContextEntropyError>(
                ResidualContextEntropyError::InvalidSymbols,
            )
        } else {
            match symbol_slots(
                alphabet.eob,
                alphabet.values@,
                BlockContext {
                    plane,
                    activity: activity_of(block@),
                    neighbor: neighbors_of(left_neighbor_nonzero, above_neighbor_nonzero),
                },
                symbols@,
            ) {
                None => Err::<ResidualContextStats, ResidualContextEntropyError>(
                    ResidualContextEntropyError::InvalidSymbols,
                ),
                Some(v) => if v != contexts@ {
                    Err::<ResidualContextStats, ResidualContextEntropyError>(
                        ResidualContextEntropyError::Entropy(
                            "plane/neighbor/context metadata mismatch",
                        ),
                    )
                } else {
                    Ok::<ResidualContextStats, ResidualContextEntropyError>(
                        ResidualContextStats {
                            symbols_encoded: symbols@.len() as usize,
                            output_bytes: blob_len,
                            max_context_slot_used: largest_slot(
                                contexts@,
                                contexts@.len() as int,
                            ) as u8,
                        },
                    )
                },
            }
        },
{
    decode_residual_context_v1_block(
        alphabet,
        plane,
        left_neighbor_nonzero,
        above_neighbor_nonzero,
        blob_len,
        contexts,
        symbols,
        block,
        again,
    )
}

fn same_symbols(a: &[usize], b: &[usize]) -> (r: bool)
    ensures
        r == (a@ == b@),
{
    let n: usize = a.len();
    if n != b.len() {
        return false;
    }
    let mut i: usize = 0;
    while i < n
        invariant
            i <= n,
            n == a@.len(),
            n == b@.len(),
            forall|k: int| 0 <= k < i ==> #[trigger] a@[k] == b@[k],
        decreases n - i,
    {
        if a[i] != b[i] {
            assert(a@[i as int] != b@[i as int]);
            return false;
        }
        i += 1;
    }
    assert(a@ =~= b@);
    true
}

fn same_bytes(a: &[u8], b: &[u8]) -> (r: bool)
    ensures
        r == (a@ == b@),
{
    let n: usize = a.len();
    if n != b.len() {
        return false;
    }
    let mut i: usize = 0;
    while i < n
        invariant
            i <= n,
            n == a@.len(),
            n == b@.len(),
            forall|k: int| 0 <= k < i ==> #[trigger] a@[k] == b@[k],
        decreases n - i,
    {
        if a[i] != b[i] {
            assert(a@[i as int] != b@[i as int]);
            return false;
        }
        i += 1;
    }
    assert(a@ =~= b@);
    true
}

/// The frequency table of each slot.
#[derive(Debug, Clone)]
pub struct ResidualContextModel {
    pub slots: Vec<Vec<u32>>,
}

/// Frequencies before a slot changes them, for tables that add up to `scale`.
pub open spec fn baseline_freq(scale: int, i: int) -> int {
    let rem = scale - 2370;
    if i == 0 {
        200
    } else if i < 63 {
        35
    } else {
        rem / 254 + if i - 63 < rem % 254 {
            1int
        } else {
            0int
        }
    }
}

/// The frequency of symbol `i` in a slot.
pub open spec fn slot_freq(scale: int, slot: int, i: int) -> int {
    let shift = slot % 17 + 1;
    if i == 0 {
        200 - shift
    } else if i == 63 + slot % 254 {
        baseline_freq(scale, i) + shift
    } else {
        baseline_freq(scale, i)
    }
}

/// The frequency table of a slot.
pub open spec fn slot_freqs(scale: int, slot: int) -> Seq<u32> {
    Seq::new(317, |i: int| slot_freq(scale, slot, i) as u32)
}

fn build_slot_freqs(scale: u32, slot: usize) -> (f: Vec<u32>)
    requires
        2370 <= scale <= 0x7fff_ffff,
        slot < NUM_CONTEXT_SLOTS,
    ensures
        f@ == slot_freqs(scale as int, slot as int),
{
    let rem: u32 = scale - 2370;
    let shift: u32 = (slot % 17) as u32 + 1;
    let mut f: Vec<u32> = Vec::new();
    let mut i: usize = 0;
    while i < RESIDUAL_ALPHABET
        invariant
            i <= RESIDUAL_ALPHABET,
            2370 <= scale <= 0x7fff_ffff,
            rem == scale - 2370,
            slot < NUM_CONTEXT_SLOTS,
            shift == slot as int % 17 + 1,
            f@ =~= slot_freqs(scale as int, slot as int).take(i as int),
        decreases RESIDUAL_ALPHABET - i,
    {
        let base: u32 = if i == 0 {
            200 - shift
        } else if i < 63 {
            35
        } else {
            rem / 254 + if ((i - 63) as u32) < rem % 254 { 1 } else { 0 }
        };
        f.push(if i == 63 + slot % 254 { base + shift } else { base });
        i += 1;
    }
    assert(f@ =~= slot_freqs(scale as int, slot as int));
    f
}

impl ResidualContextModel {
    /// The tables of all slots, for a coder whose tables add up to `scale`.
    pub fn new(scale: u32) -> (m: Self)
        requires
            2370 <= scale <= 0x7fff_ffff,
        ensures
            m.slots@.len() == NUM_CONTEXT_SLOTS,
            forall|s: int|
                0 <= s < NUM_CONTEXT_SLOTS ==> (#[trigger] m.slots@[s])@ == slot_freqs(
                    scale as int,
                    s,
                ),
    {
        let mut slots: Vec<Vec<u32>> = Vec::new();
        let mut s: usize = 0;
        while s < NUM_CONTEXT_SLOTS
            invariant
                s <= NUM_CONTEXT_SLOTS,
                2370 <= scale <= 0x7fff_ffff,
                slots@.len() == s,
                forall|k: int|
                    0 <= k < s ==> (#[trigger] slots@[k])@ == slot_freqs(scale as int, k),
            decreases NUM_CONTEXT_SLOTS - s,
        {
            slots.push(build_slot_freqs(scale, s));
            s += 1;
        }
        ResidualContextModel { slots }
    }
}

/// The frequencies of the first `n` symbols of a slot.
pub open spec fn slot_sum(scale: int, slot: int, n: int) -> int
    decreases n,
{
    if n <= 0 {
        0
    } else {
        slot_sum(scale, slot, n - 1) + slot_freqs(scale, slot)[n - 1]
    }
}

/// The frequencies of every slot add up to the scale of the coder.
pub proof fn slot_freqs_fill_the_scale(scale: u32, slot: int)
    requires
        2370 <= scale <= 0x7fff_ffff,
        0 <= slot < NUM_CONTEXT_SLOTS,
    ensures
        slot_sum(scale as int, slot, 317) == scale,
{
    lemma_slot_sum(scale as int, slot, 317);
}

proof fn lemma_slot_sum(scale: int, slot: int, n: int)
    requires
        2370 <= scale <= 0x7fff_ffff,
        0 <= slot < NUM_CONTEXT_SLOTS,
        0 <= n <= 317,
    ensures
        ({
            let rem = scale - 2370;
            let shift = slot % 17 + 1;
            slot_sum(scale, slot, n) == if n == 0 {
                0
            } else if n <= 63 {
                200 - shift + 35 * (n - 1)
            } else {
                2370 - shift + (rem / 254) * (n - 63) + crate::arith::least(n - 63, rem % 254)
                    + if n > 63 + slot {
                    shift
                } else {
                    0
                }
            }
        }),
    decreases n,
{
    if n > 0 {
        lemma_slot_sum(scale, slot, n - 1);
        let rem = scale - 2370;
        assert(slot_freqs(scale, slot)[n - 1] == slot_freq(scale, slot, n - 1));
        if n > 63 {
            let q = rem / 254;
            assert(q * (n - 63) == q * (n - 1 - 63) + q) by (nonlinear_arith);
            assert(n == 64 ==> q * (n - 63) == q) by (nonlinear_arith);
        }
    }
}

/// Taking a packed block apart gives back its slots and its coded symbols.
pub proof fn residual_blob_round_trip(max_symbols: usize, slots: Seq<u8>, coded: Seq<u8>)
    requires
        0 < slots.len() <= max_symbols,
        slots.len() <= u16::MAX,
        forall|i: int| 0 <= i < slots.len() ==> #[trigger] slots[i] < 128,
    ensures
        blob_parts(max_symbols, block_blob(slots, coded)) == Ok::<
            (Seq<u8>, Seq<u8>),
            ResidualContextEntropyError,
        >((slots, coded)),
{
    let n = slots.len() as int;
    let d = block_blob(slots, coded);
    le16_reads_bytes16(seq![], n, slots + coded);
    assert(seq![] + bytes16(n) + (slots + coded) =~= d);
    assert(d.subrange(2, 2 + n) =~= slots);
    assert(d.subrange(2 + n, d.len() as int) =~= coded);
    assert forall|i: int| 0 <= i < n implies #[trigger] d[2 + i] < 128 by {
        assert(d[2 + i] == slots[i]);
    }
    lemma_no_bad_slot(d, n);
}

proof fn lemma_no_bad_slot(d: Seq<u8>, n: int)
    requires
        forall|i: int| 0 <= i < n ==> #[trigger] d[2 + i] < 128,
    ensures
        bad_slot(d, n) is None,
    decreases n,
{
    if n > 0 {
        lemma_no_bad_slot(d, n - 1);
        assert(d[2 + (n - 1)] < 128);
    }
}

/// The classes of the parts of a context: the size of a coefficient counts by its bits, up to four,
/// whatever its sign; runs count as short up to 5, medium up to 20 and long beyond; positions
/// belong to the low band up to 8, to the middle band up to 32 and to the high band beyond.
pub proof fn classes_follow_sizes(v: int, run: int, pos: int)
    requires
        1 <= run,
        1 <= pos,
    ensures
        ({
            let m = magnitude_code(magnitude_class(v));
            let r = run_code(run_class(run));
            let b = band_code(band_of(pos));
            let size = if v < 0 {
                -v
            } else {
                v
            };
            &&& m == 0 <==> size == 0
            &&& m == 1 <==> size == 1
            &&& m == 2 <==> 2 <= size < 4
            &&& m == 3 <==> 4 <= size < 8
            &&& m == 4 <==> 8 <= size
            &&& magnitude_class(v) == magnitude_class(-v)
            &&& r == 0 <==> run <= 5
            &&& r == 2 <==> run > 20
            &&& b == 1 <==> pos <= 8
            &&& b == 3 <==> pos > 32
            &&& b != 0
            &&& band_code(band_of(0)) == 0
        }),
{
}

/// The neighbours of a block count one for the left one and two for the one above.
pub proof fn neighbours_add_up(left: bool, above: bool)
    ensures
        neighbor_code(neighbors_of(left, above)) == (if left {
            1int
        } else {
            0
        }) + (if above {
            2int
        } else {
            0
        }),
{
}

/// How far the table of a context moves with each of its parts: by 1 for the neighbours, 23 for the
/// size, 19 times as much for the run, 17 times as much for the band, and 31 times as much each
/// for the texture and the plane.
pub proof fn parts_move_the_table(id: ResidualContextId, other: ResidualContextId)
    ensures
        ({
            let d = slot_of(other) - slot_of(id);
            d == (neighbor_code(other.neighbor) - neighbor_code(id.neighbor)) + 23 * (magnitude_code(
                other.magnitude,
            ) - magnitude_code(id.magnitude)) + 437 * (run_code(other.zero_run) - run_code(
                id.zero_run,
            )) + 7429 * (band_code(other.band) - band_code(id.band)) + 230299 * (activity_code(
                other.activity,
            ) - activity_code(id.activity)) + 7139269 * (plane_code(other.plane) - plane_code(
                id.plane,
            ))
        }),
        slot_of(id) == 0 <==> plane_code(id.plane) == 0 && activity_code(id.activity) == 0
            && band_code(id.band) == 0 && run_code(id.zero_run) == 0 && magnitude_code(id.magnitude)
            == 0 && neighbor_code(id.neighbor) == 0,
{
    lemma_table_parts(
        plane_code(id.plane),
        activity_code(id.activity),
        band_code(id.band),
        run_code(id.zero_run),
        magnitude_code(id.magnitude),
        neighbor_code(id.neighbor),
    );
    lemma_table_parts(
        plane_code(other.plane),
        activity_code(other.activity),
        band_code(other.band),
        run_code(other.zero_run),
        magnitude_code(other.magnitude),
        neighbor_code(other.neighbor),
    );
}

proof fn lemma_table_parts(p: int, a: int, b: int, r: int, m: int, n: int)
    ensures
        ((((p * 31 + a) * 31 + b) * 17 + r) * 19 + m) * 23 + n == 7139269 * p + 230299 * a + 7429 * b
            + 437 * r + 23 * m + n,
{
}

proof fn lemma_counts(q: Seq<i16>, n: int)
    requires
        1 <= n,
    ensures
        nonzero_count(q, n) == total(n - 1, |i: int| if q[i + 1] != 0 { 1int } else { 0 }),
        size_sum(q, n) == total(n - 1, |i: int| magnitude(q[i + 1] as int)),
    decreases n,
{
    if n > 1 {
        lemma_counts(q, n - 1);
    }
}

/// The texture of a block follows from its 63 coefficients behind the first: flat with at most two
/// that are not 0 and sizes below 24 together, textured with more than 18.
pub proof fn texture_counts_coefficients(q: Seq<i16>, first: i16)
    requires
        q.len() == 64,
    ensures
        ({
            let n = total(63, |i: int| if q[i + 1] != 0 { 1int } else { 0 });
            let size = total(63, |i: int| magnitude(q[i + 1] as int));
            let a = activity_code(activity_of(q));
            &&& a == 0 <==> n <= 2 && size < 24
            &&& a == 2 <==> n > 18
            &&& activity_of(q.update(0, first)) == activity_of(q)
        }),
{
    let p = q.update(0, first);
    lemma_counts(q, 64);
    lemma_counts(p, 64);
    let f = |i: int| if q[i + 1] != 0 { 1int } else { 0 };
    let g = |i: int| if p[i + 1] != 0 { 1int } else { 0 };
    crate::arith::lemma_total_equal(63, f, g);
    let s = |i: int| magnitude(q[i + 1] as int);
    let t = |i: int| magnitude(p[i + 1] as int);
    crate::arith::lemma_total_equal(63, s, t);
}

proof fn lemma_slots_grow(
    eob: usize,
    values: Seq<Option<i16>>,
    b: BlockContext,
    symbols: Seq<usize>,
    n: int,
)
    requires
        0 <= n,
        slots_so_far(eob, values, b, symbols, n).valid,
    ensures
        ({
            let st = slots_so_far(eob, values, b, symbols, n);
            &&& st.slots.len() == n
            &&& 0 <= st.pos <= 63
            &&& forall|i: int| 0 <= i < n ==> #[trigger] st.slots[i] < 128
        }),
    decreases n,
{
    if n > 0 {
        lemma_slots_grow(eob, values, b, symbols, n - 1);
    }
}

/// Every symbol of a block has a table, and the symbols stand for no more than the 63 coefficients
/// behind the first: a run for as many as its number says, a value for one, the end for none.
pub proof fn every_symbol_has_a_table(
    eob: usize,
    values: Seq<Option<i16>>,
    b: BlockContext,
    symbols: Seq<usize>,
    k: int,
)
    requires
        symbol_slots(eob, values, b, symbols) is Some,
        0 <= k < symbols.len(),
    ensures
        ({
            let v = symbol_slots(eob, values, b, symbols)->0;
            let before = slots_so_far(eob, values, b, symbols, k);
            let after = slots_so_far(eob, values, b, symbols, k + 1);
            let s = symbols[k];
            &&& v.len() == symbols.len()
            &&& v[k] < 128
            &&& 0 <= before.pos <= after.pos <= 63
            &&& s == eob ==> after.pos == before.pos
            &&& s != eob && 1 <= s <= 62 ==> after.pos == before.pos + s
            &&& s != eob && s > 62 ==> after.pos == before.pos + 1
        }),
{
    let n = symbols.len() as int;
    lemma_slots_grow(eob, values, b, symbols, n);
    if !slots_so_far(eob, values, b, symbols, k).valid {
        lemma_stays_invalid(eob, values, b, symbols, k, n);
    }
    if !slots_so_far(eob, values, b, symbols, k + 1).valid {
        lemma_stays_invalid(eob, values, b, symbols, k + 1, n);
    }
    lemma_slots_grow(eob, values, b, symbols, k);
    lemma_slots_grow(eob, values, b, symbols, k + 1);
}

/// The largest slot is one of the slots, and none is larger.
pub proof fn largest_slot_is_the_largest(v: Seq<u8>, n: int, k: int)
    requires
        0 <= k < n <= v.len(),
    ensures
        v[k] <= largest_slot(v, n),
        exists|i: int| 0 <= i < n && #[trigger] v[i] == largest_slot(v, n),
    decreases n,
{
    if n > 1 {
        largest_slot_is_the_largest(v, n - 1, if k < n - 1 {
            k
        } else {
            0
        });
        let i = choose|i: int| 0 <= i < n - 1 && #[trigger] v[i] == largest_slot(v, n - 1);
        assert(v[i] == largest_slot(v, n - 1));
        assert(v[n - 1] == v[n - 1]);
    } else {
        assert(largest_slot(v, 0) == 0);
        assert(v[0] == largest_slot(v, 1));
    }
}

/// Which table a symbol takes: a run that of its length, a value that of its size, and the end of a
/// block that of the high band; nothing else of the symbol counts.
pub proof fn symbols_take_the_table_of_their_kind(
    eob: usize,
    values: Seq<Option<i16>>,
    b: BlockContext,
    symbols: Seq<usize>,
    k: int,
)
    requires
        symbol_slots(eob, values, b, symbols) is Some,
        0 <= k < symbols.len(),
    ensures
        ({
            let v = symbol_slots(eob, values, b, symbols)->0;
            let pos = slots_so_far(eob, values, b, symbols, k).pos;
            let s = symbols[k] as int;
            let start = 7139269 * plane_code(b.plane) + 230299 * activity_code(b.activity)
                + neighbor_code(b.neighbor);
            &&& s == eob ==> v[k] == (start + 7429 * 3) % 128
            &&& s != eob && s <= 62 ==> v[k] == (start + 7429 * band_code(band_of(pos)) + 437
                * run_code(run_class(s))) % 128
            &&& s != eob && s > 62 ==> values[s - 62] is Some && v[k] == (start + 7429 * band_code(
                band_of(pos),
            ) + 23 * magnitude_code(magnitude_class(values[s - 62]->0 as int))) % 128
        }),
{
    let n = symbols.len() as int;
    every_symbol_has_a_table(eob, values, b, symbols, k);
    lemma_slot_kept(eob, values, b, symbols, k, n);
    let before = slots_so_far(eob, values, b, symbols, k);
    if !slots_so_far(eob, values, b, symbols, k + 1).valid {
        lemma_stays_invalid(eob, values, b, symbols, k + 1, n);
    }
    if !before.valid {
        lemma_stays_invalid(eob, values, b, symbols, k, n);
    }
    lemma_slots_grow(eob, values, b, symbols, k);
    let id = (symbol_context(eob, values, b, symbols[k], before.pos)->Some_0).0;
    lemma_table_parts(
        plane_code(id.plane),
        activity_code(id.activity),
        band_code(id.band),
        run_code(id.zero_run),
        magnitude_code(id.magnitude),
        neighbor_code(id.neighbor),
    );
}

proof fn lemma_slot_kept(
    eob: usize,
    values: Seq<Option<i16>>,
    b: BlockContext,
    symbols: Seq<usize>,
    k: int,
    n: int,
)
    requires
        0 <= k < n,
        slots_so_far(eob, values, b, symbols, n).valid,
    ensures
        slots_so_far(eob, values, b, symbols, n).slots[k] == slots_so_far(
            eob,
            values,
            b,
            symbols,
            k + 1,
        ).slots[k],
    decreases n,
{
    if k + 1 < n {
        lemma_slots_grow(eob, values, b, symbols, n - 1);
        lemma_slot_kept(eob, values, b, symbols, k, n - 1);
    }
}

/// How likely the symbols of a table are: a run is as likely in every table, the values share what
/// is left almost evenly, and each table takes its own share from the end of a block and gives it
/// to a value of its own.
pub proof fn tables_favour_a_value_each(scale: int, slot: int, i: int, j: int)
    requires
        2370 + 254 <= scale <= u32::MAX,
        0 <= slot < 128,
        63 <= i < 317,
        63 <= j < 317,
    ensures
        ({
            let f = slot_freqs(scale, slot);
            let own = 63 + slot;
            let share = slot % 17 + 1;
            &&& f.len() == 317
            &&& f[0] == 200 - share
            &&& forall|r: int| 1 <= r < 63 ==> #[trigger] f[r] == 35
            &&& i != own && j != own && i <= j ==> f[j] <= f[i] <= f[j] + 1
            &&& i != own && i <= own ==> f[own] - share <= f[i] <= f[own] - share + 1
            &&& i != own && i >= own ==> f[i] <= f[own] - share <= f[i] + 1
        }),
{
}

} // verus!
