//! Run-length partition maps: a 16-bit run count, then a partition byte and a 16-bit length for
//! each run.
use vstd::prelude::*;

use crate::bytes::{bytes16, le16_reads_bytes16, push_u16};
use super::error::SrsV2Error;
use super::inter_mv::validate_partition_reserved_bits;
use super::reader::{read_u16_le, read_u8, take_u16, take_u8, Read};

verus! {

/// A partition byte and how often it is repeated.
#[derive(Debug, Clone, Copy, PartialEq, Eq, Structural)]
pub struct PartitionRun {
    pub wire: u8,
    pub len: u16,
}

/// The runs of the first `n` bytes of a map; a run is as long as it can be.
pub open spec fn runs_of(parts: Seq<u8>, n: int) -> Seq<PartitionRun>
    decreases n,
{
    if n <= 0 {
        seq![]
    } else {
        let r = runs_of(parts, n - 1);
        let b = parts[n - 1];
        if r.len() > 0 && r.last().wire == b && r.last().len < u16::MAX {
            r.drop_last().push(PartitionRun { wire: b, len: (r.last().len + 1) as u16 })
        } else {
            r.push(PartitionRun { wire: b, len: 1 })
        }
    }
}

/// The map that the first `n` runs spell out.
pub open spec fn expanded(runs: Seq<PartitionRun>, n: int) -> Seq<u8>
    decreases n,
{
    if n <= 0 {
        seq![]
    } else {
        expanded(runs, n - 1) + repeated(runs[n - 1].wire, runs[n - 1].len as int)
    }
}

/// `n` copies of a byte.
pub open spec fn repeated(b: u8, n: int) -> Seq<u8> {
    Seq::new(n as nat, |i: int| b)
}

/// The bytes of the first `n` runs.
pub open spec fn run_bytes(runs: Seq<PartitionRun>, n: int) -> Seq<u8>
    decreases n,
{
    if n <= 0 {
        seq![]
    } else {
        run_bytes(runs, n - 1) + seq![runs[n - 1].wire] + bytes16(runs[n - 1].len as int)
    }
}

/// The first reserved partition byte makes a map invalid.
pub open spec fn all_partitions(parts: Seq<u8>) -> bool {
    forall|i: int| 0 <= i < parts.len() ==> #[trigger] parts[i] <= 3
}

/// A run-length map.
pub open spec fn rle_payload(parts: Seq<u8>) -> Result<Seq<u8>, SrsV2Error> {
    let runs = runs_of(parts, parts.len() as int);
    if parts.len() == 0 {
        Err(SrsV2Error::Syntax("empty partition map"))
    } else if !all_partitions(parts) {
        Err(SrsV2Error::Syntax("P partition reserved bits"))
    } else if runs.len() > u16::MAX {
        Err(SrsV2Error::Overflow("partition rle run count"))
    } else {
        Ok(bytes16(runs.len() as int) + run_bytes(runs, runs.len() as int))
    }
}

fn check_partitions(parts: &[u8]) -> (r: Result<(), SrsV2Error>)
    ensures
        r == if all_partitions(parts@) {
            Ok::<(), SrsV2Error>(())
        } else {
            Err::<(), SrsV2Error>(SrsV2Error::Syntax("P partition reserved bits"))
        },
{
    let mut i: usize = 0;
    while i < parts.len()
        invariant
            i <= parts@.len(),
            forall|j: int| 0 <= j < i ==> #[trigger] parts@[j] <= 3,
        decreases parts@.len() - i,
    {
        match validate_partition_reserved_bits(parts[i]) {
            Err(e) => {
                return Err(e);
            },
            Ok(_) => {},
        }
        i += 1;
    }
    Ok(())
}

/// Packs a partition map into runs.
pub fn rle_partition_payload(partitions: &[u8]) -> (r: Result<Vec<u8>, SrsV2Error>)
    ensures
        match rle_payload(partitions@) {
            Err(e) => r == Err::<Vec<u8>, SrsV2Error>(e),
            Ok(b) => r is Ok && r->Ok_0@ == b,
        },
{
    if partitions.len() == 0 {
        return Err(SrsV2Error::Syntax("empty partition map"));
    }
    match check_partitions(partitions) {
        Err(e) => {
            return Err(e);
        },
        Ok(_) => {},
    }
    let mut runs: Vec<PartitionRun> = Vec::new();
    let mut cur_b: u8 = partitions[0];
    let mut cnt: u16 = 1;
    let mut i: usize = 1;
    proof {
        reveal_with_fuel(runs_of, 2);
        assert(runs_of(partitions@, 1) =~= runs@.push(PartitionRun { wire: cur_b, len: cnt }));
    }
    while i < partitions.len()
        invariant
            1 <= i <= partitions@.len(),
            runs_of(partitions@, i as int) == runs@.push(PartitionRun { wire: cur_b, len: cnt }),
        decreases partitions@.len() - i,
    {
        let b: u8 = partitions[i];
        let ghost before = runs_of(partitions@, i as int);
        assert(before.last() == PartitionRun { wire: cur_b, len: cnt });
        assert(before.drop_last() =~= runs@);
        if b == cur_b && cnt < u16::MAX {
            cnt += 1;
        } else {
            runs.push(PartitionRun { wire: cur_b, len: cnt });
            cur_b = b;
            cnt = 1;
        }
        i += 1;
    }
    runs.push(PartitionRun { wire: cur_b, len: cnt });
    if runs.len() > u16::MAX as usize {
        return Err(SrsV2Error::Overflow("partition rle run count"));
    }
    let mut out: Vec<u8> = Vec::new();
    push_u16(&mut out, runs.len() as u16);
    let ghost head = out@;
    let mut k: usize = 0;
    assert(out@ =~= head + Seq::<u8>::empty());
    while k < runs.len()
        invariant
            k <= runs@.len(),
            out@ == head + run_bytes(runs@, k as int),
        decreases runs@.len() - k,
    {
        out.push(runs[k].wire);
        push_u16(&mut out, runs[k].len);
        assert(out@ =~= head + run_bytes(runs@, k + 1));
        k += 1;
    }
    assert(head =~= bytes16(runs@.len() as int));
    Ok(out)
}

/// How far a run-length map was expanded.
pub struct RleState {
    pub parts: Seq<u8>,
    pub next: int,
    pub fault: Option<SrsV2Error>,
}

/// Expanding the first `k` runs of a map of `n_mb` macroblocks.
pub open spec fn rle_state(data: Seq<u8>, cur: int, n_mb: int, k: int) -> RleState
    decreases k,
{
    if k <= 0 {
        RleState { parts: seq![], next: cur, fault: None }
    } else {
        let st = rle_state(data, cur, n_mb, k - 1);
        if st.fault is Some {
            st
        } else {
            let w = take_u8(data, st.next);
            match w.value {
                Err(e) => RleState { fault: Some(e), ..st },
                Ok(b) => if b > 3 {
                    RleState { fault: Some(SrsV2Error::Syntax("P partition reserved bits")), ..st }
                } else {
                    let c = take_u16(data, w.next);
                    match c.value {
                        Err(e) => RleState { fault: Some(e), ..st },
                        Ok(len) => if len == 0 {
                            RleState {
                                fault: Some(SrsV2Error::Syntax("partition rle zero-length run")),
                                ..st
                            }
                        } else if st.parts.len() + len > n_mb {
                            RleState {
                                fault: Some(
                                    SrsV2Error::Syntax("partition rle overflow macroblock count"),
                                ),
                                ..st
                            }
                        } else {
                            RleState {
                                parts: st.parts + repeated(b as u8, len),
                                next: c.next,
                                fault: None,
                            }
                        },
                    }
                },
            }
        }
    }
}

/// The run-length map of `n_mb` macroblocks at the cursor.
pub open spec fn take_rle(data: Seq<u8>, cur: int, n_mb: int) -> Read<Seq<u8>> {
    if n_mb == 0 {
        Read { value: Ok(seq![]), next: cur }
    } else {
        let r = take_u16(data, cur);
        match r.value {
            Err(e) => Read { value: Err(e), next: r.next },
            Ok(n) => if n == 0 || n > n_mb {
                Read {
                    value: Err(SrsV2Error::Syntax("partition rle run count out of range")),
                    next: r.next,
                }
            } else {
                let st = rle_state(data, r.next, n_mb, n);
                match st.fault {
                    Some(e) => Read { value: Err(e), next: st.next },
                    None => if st.parts.len() != n_mb {
                        Read {
                            value: Err(SrsV2Error::Syntax("partition rle length mismatch")),
                            next: st.next,
                        }
                    } else {
                        Read { value: Ok(st.parts), next: st.next }
                    },
                }
            },
        }
    }
}

proof fn lemma_rle_fault(data: Seq<u8>, cur: int, n_mb: int, k: int, n: int)
    requires
        k <= n,
        rle_state(data, cur, n_mb, k).fault is Some,
    ensures
        rle_state(data, cur, n_mb, n) == rle_state(data, cur, n_mb, k),
    decreases n - k,
{
    if k < n {
        lemma_rle_fault(data, cur, n_mb, k, n - 1);
    }
}

/// Expands the run-length map at the cursor.
pub fn decode_rle_partition_map(data: &[u8], cur: &mut usize, n_mb: usize) -> (r: Result<
    Vec<u8>,
    SrsV2Error,
>)
    ensures
        ({
            let s = take_rle(data@, *old(cur) as int, n_mb as int);
            match s.value {
                Ok(p) => r is Ok && r->Ok_0@ == p && *final(cur) == s.next && p.len() == n_mb
                    && all_partitions(p),
                Err(e) => r == Err::<Vec<u8>, SrsV2Error>(e),
            }
        }),
{
    let mut out: Vec<u8> = Vec::new();
    if n_mb == 0 {
        return Ok(out);
    }
    let n_runs: usize = match read_u16_le(data, cur) {
        Ok(v) => v as usize,
        Err(e) => {
            return Err(e);
        },
    };
    if n_runs == 0 || n_runs > n_mb {
        return Err(SrsV2Error::Syntax("partition rle run count out of range"));
    }
    let ghost c0 = *cur as int;
    let mut k: usize = 0;
    while k < n_runs
        invariant
            k <= n_runs <= n_mb,
            n_mb > 0,
            take_u16(data@, *old(cur) as int).value == Ok::<int, SrsV2Error>(n_runs as int),
            take_u16(data@, *old(cur) as int).next == c0,
            n_runs > 0,
            ({
                let st = rle_state(data@, c0, n_mb as int, k as int);
                &&& st.fault is None
                &&& st.parts == out@
                &&& st.next == *cur
            }),
            out@.len() <= n_mb,
            all_partitions(out@),
        decreases n_runs - k,
    {
        let ghost next = rle_state(data@, c0, n_mb as int, k + 1);
        proof {
            if next.fault is Some {
                lemma_rle_fault(data@, c0, n_mb as int, k + 1, n_runs as int);
            }
        }
        let w: u8 = match read_u8(data, cur) {
            Ok(v) => v,
            Err(e) => {
                return Err(e);
            },
        };
        match validate_partition_reserved_bits(w) {
            Err(e) => {
                return Err(e);
            },
            Ok(_) => {},
        }
        let c: usize = match read_u16_le(data, cur) {
            Ok(v) => v as usize,
            Err(e) => {
                return Err(e);
            },
        };
        if c == 0 {
            return Err(SrsV2Error::Syntax("partition rle zero-length run"));
        }
        if c > n_mb - out.len() {
            return Err(SrsV2Error::Syntax("partition rle overflow macroblock count"));
        }
        let ghost before = out@;
        let mut j: usize = 0;
        assert(out@ =~= before + repeated(w, 0));
        while j < c
            invariant
                j <= c,
                w <= 3,
                out@ == before + repeated(w, j as int),
                all_partitions(before),
            decreases c - j,
        {
            out.push(w);
            assert(out@ =~= before + repeated(w, j + 1));
            j += 1;
        }
        k += 1;
    }
    if out.len() != n_mb {
        return Err(SrsV2Error::Syntax("partition rle length mismatch"));
    }
    Ok(out)
}

/// The runs of a map spell it out, each is at least one long, and there are no more runs than
/// bytes.
pub proof fn runs_spell_the_map(parts: Seq<u8>, n: int)
    requires
        0 <= n <= parts.len(),
    ensures
        expanded(runs_of(parts, n), runs_of(parts, n).len() as int) == parts.take(n),
        runs_of(parts, n).len() <= n,
        n > 0 ==> runs_of(parts, n).len() > 0,
        forall|k: int|
            0 <= k < runs_of(parts, n).len() ==> (#[trigger] runs_of(parts, n)[k]).len >= 1,
        all_partitions(parts) ==> forall|k: int|
            0 <= k < runs_of(parts, n).len() ==> (#[trigger] runs_of(parts, n)[k]).wire <= 3,
    decreases n,
{
    if n > 0 {
        runs_spell_the_map(parts, n - 1);
        let r = runs_of(parts, n - 1);
        let s = runs_of(parts, n);
        let b = parts[n - 1];
        assert(parts.take(n) =~= parts.take(n - 1).push(b));
        let m = s.len() as int;
        if r.len() > 0 && r.last().wire == b && r.last().len < u16::MAX {
            lemma_expanded_prefix(r, s, m - 1);
            assert(s[m - 1].wire == b && s[m - 1].len == r[m - 1].len + 1);
            assert(repeated(b, s[m - 1].len as int) =~= repeated(b, r[m - 1].len as int).push(b));
            assert(expanded(s, m) =~= expanded(r, m).push(b));
        } else {
            lemma_expanded_prefix(r, s, m - 1);
            assert(repeated(b, 1) =~= seq![b]);
            assert(expanded(s, m) =~= expanded(r, m - 1).push(b));
        }
    } else {
        assert(parts.take(0) =~= Seq::<u8>::empty());
    }
}

proof fn lemma_expanded_prefix(r: Seq<PartitionRun>, s: Seq<PartitionRun>, n: int)
    requires
        0 <= n <= r.len(),
        n <= s.len(),
        forall|k: int| 0 <= k < n ==> r[k] == s[k],
    ensures
        expanded(r, n) == expanded(s, n),
    decreases n,
{
    if n > 0 {
        lemma_expanded_prefix(r, s, n - 1);
        assert(r[n - 1] == s[n - 1]);
    }
}

pub proof fn lemma_expanded_len(runs: Seq<PartitionRun>, k: int, n: int)
    requires
        0 <= k <= n <= runs.len(),
    ensures
        expanded(runs, k).len() <= expanded(runs, n).len(),
    decreases n - k,
{
    if k < n {
        lemma_expanded_len(runs, k, n - 1);
    }
}

pub proof fn lemma_run_bytes_tail(runs: Seq<PartitionRun>, k: int, n: int) -> (rest: Seq<u8>)
    requires
        0 <= k <= n <= runs.len(),
    ensures
        run_bytes(runs, n) == run_bytes(runs, k) + rest,
    decreases n - k,
{
    if k == n {
        assert(run_bytes(runs, n) =~= run_bytes(runs, k) + Seq::<u8>::empty());
        seq![]
    } else {
        let r = lemma_run_bytes_tail(runs, k, n - 1);
        let more = seq![runs[n - 1].wire] + bytes16(runs[n - 1].len as int);
        assert(run_bytes(runs, n) =~= run_bytes(runs, k) + (r + more));
        r + more
    }
}

proof fn lemma_rle_read(pre: Seq<u8>, runs: Seq<PartitionRun>, post: Seq<u8>, n_mb: int, k: int)
    requires
        0 <= k <= runs.len(),
        expanded(runs, runs.len() as int).len() <= n_mb,
        forall|j: int| 0 <= j < runs.len() ==> (#[trigger] runs[j]).len >= 1 && runs[j].wire <= 3,
    ensures
        rle_state(
            pre + run_bytes(runs, runs.len() as int) + post,
            pre.len() as int,
            n_mb,
            k,
        ) == (RleState {
            parts: expanded(runs, k),
            next: (pre.len() + run_bytes(runs, k).len()) as int,
            fault: None,
        }),
    decreases k,
{
    if k > 0 {
        lemma_rle_read(pre, runs, post, n_mb, k - 1);
        let n = runs.len() as int;
        let d = pre + run_bytes(runs, n) + post;
        let rest = lemma_run_bytes_tail(runs, k, n);
        let head = pre + run_bytes(runs, k - 1);
        let w = seq![runs[k - 1].wire];
        let l = bytes16(runs[k - 1].len as int);
        assert(d =~= head + w + l + (rest + post));
        le16_reads_bytes16(head + w, runs[k - 1].len as int, rest + post);
        assert(d[head.len() as int] == runs[k - 1].wire);
        lemma_expanded_len(runs, k, n);
    }
}

/// Expanding a packed map gives it back and stops right behind it, whatever stands before and
/// after.
pub proof fn rle_round_trip(pre: Seq<u8>, parts: Seq<u8>, post: Seq<u8>)
    requires
        rle_payload(parts) is Ok,
    ensures
        take_rle(
            pre + rle_payload(parts)->Ok_0 + post,
            pre.len() as int,
            parts.len() as int,
        ) == (Read::<Seq<u8>> {
            value: Ok(parts),
            next: (pre.len() + rle_payload(parts)->Ok_0.len()) as int,
        }),
{
    let n = parts.len() as int;
    let runs = runs_of(parts, n);
    runs_spell_the_map(parts, n);
    assert(parts.take(n) =~= parts);
    let c = bytes16(runs.len() as int);
    let body = run_bytes(runs, runs.len() as int);
    let d = pre + (c + body) + post;
    le16_reads_bytes16(pre, runs.len() as int, body + post);
    assert(d =~= pre + c + (body + post));
    lemma_rle_read(pre + c, runs, post, n, runs.len() as int);
    assert(d =~= pre + c + body + post);
}

proof fn lemma_runs_take_three(runs: Seq<PartitionRun>, n: int)
    requires
        0 <= n,
    ensures
        run_bytes(runs, n).len() == 3 * n,
    decreases n,
{
    if n > 0 {
        lemma_runs_take_three(runs, n - 1);
    }
}

/// A run takes three bytes: what it repeats, and how often from the low byte on.
pub proof fn runs_take_three_bytes(runs: Seq<PartitionRun>, n: int, i: int)
    requires
        0 <= i < n,
    ensures
        run_bytes(runs, n).len() == 3 * n,
        run_bytes(runs, n)[3 * i] == runs[i].wire,
        run_bytes(runs, n)[3 * i + 1] + 256 * run_bytes(runs, n)[3 * i + 2] == runs[i].len,
    decreases n,
{
    lemma_runs_take_three(runs, n);
    lemma_runs_take_three(runs, n - 1);
    if i < n - 1 {
        runs_take_three_bytes(runs, n - 1, i);
    }
}

} // verus!
