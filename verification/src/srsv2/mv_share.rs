//! Share groups: prediction units that have one motion vector between them.
use std::collections::HashSet;

use vstd::prelude::*;
use vstd::slice::slice_subrange;

use crate::bytes::{bytes16, get_u16, le16, le16_reads_bytes16, push_u16};
use super::partition_syntax_v2::PartitionSyntaxV2Error;

verus! {

/// `S2G` and the format version.
pub const MV_SHARE_GROUPS_V2_MAGIC: [u8; 4] = [0x53, 0x32, 0x47, 0x01];

/// Prediction units with one vector; the first one carries it.
#[derive(Debug, Clone, PartialEq, Eq)]
pub struct MvShareGroupV2 {
    pub members: Vec<u32>,
}

/// The members of each group.
pub open spec fn member_lists(groups: Seq<MvShareGroupV2>) -> Seq<Seq<u32>> {
    Seq::new(groups.len(), |i: int| groups[i].members@)
}

impl MvShareGroupV2 {
    pub fn new(members: Vec<u32>) -> (r: Result<Self, PartitionSyntaxV2Error>)
        ensures
            r == if members@.len() < 2 {
                Err::<Self, PartitionSyntaxV2Error>(PartitionSyntaxV2Error::MvGroupTooSmall)
            } else if !members@.no_duplicates() {
                Err::<Self, PartitionSyntaxV2Error>(PartitionSyntaxV2Error::DuplicatePuIndexInGroup)
            } else {
                Ok::<Self, PartitionSyntaxV2Error>(MvShareGroupV2 { members })
            },
    {
        broadcast use vstd::std_specs::hash::group_hash_axioms;

        if members.len() < 2 {
            return Err(PartitionSyntaxV2Error::MvGroupTooSmall);
        }
        let mut seen: HashSet<u32> = HashSet::new();
        let mut i: usize = 0;
        while i < members.len()
            invariant
                i <= members@.len(),
                forall|x: u32| #[trigger] seen@.contains(x) <==> members@.take(i as int).contains(x),
                members@.take(i as int).no_duplicates(),
            decreases members@.len() - i,
        {
            let m: u32 = members[i];
            let ghost had = members@.take(i as int);
            assert(members@.take(i + 1) =~= had.push(m));
            if !seen.insert(m) {
                proof {
                    let j = choose|j: int| 0 <= j < had.len() && had[j] == m;
                    assert(members@[j] == members@[i as int] && j != i);
                }
                return Err(PartitionSyntaxV2Error::DuplicatePuIndexInGroup);
            }
            proof {
                assert forall|x: u32| #[trigger] seen@.contains(x) <==> had.push(m).contains(x) by {
                    if had.contains(x) {
                        let j = choose|j: int| 0 <= j < had.len() && had[j] == x;
                        assert(had.push(m)[j] == x);
                    }
                    assert(had.push(m)[had.len() as int] == m);
                }
            }
            i += 1;
        }
        assert(members@.take(members@.len() as int) =~= members@);
        Ok(MvShareGroupV2 { members })
    }
}

/// Some group before group `g` has the member `x`.
pub open spec fn claimed(groups: Seq<Seq<u32>>, g: int, x: u32) -> bool {
    exists|h: int| 0 <= h < g && (#[trigger] groups[h]).contains(x)
}

/// What is wrong with member `i` of group `g`, if anything is.
pub open spec fn member_fault(groups: Seq<Seq<u32>>, g: int, i: int, total: usize) -> Option<
    PartitionSyntaxV2Error,
> {
    let m = groups[g];
    if m[i] >= total {
        Some(PartitionSyntaxV2Error::MissingPuLeaf { index: m[i], total })
    } else if m.take(i).contains(m[i]) {
        Some(PartitionSyntaxV2Error::DuplicatePuIndexInGroup)
    } else if claimed(groups, g, m[i]) {
        Some(PartitionSyntaxV2Error::DuplicatePuAcrossGroups(m[i]))
    } else {
        None
    }
}

/// The first fault among the first `k` members of group `g`.
pub open spec fn members_fault(groups: Seq<Seq<u32>>, g: int, k: int, total: usize) -> Option<
    PartitionSyntaxV2Error,
>
    decreases k,
{
    if k <= 0 {
        None
    } else {
        match members_fault(groups, g, k - 1, total) {
            Some(e) => Some(e),
            None => member_fault(groups, g, k - 1, total),
        }
    }
}

/// The first fault among the first `g` groups.
pub open spec fn groups_fault(groups: Seq<Seq<u32>>, g: int, total: usize) -> Option<
    PartitionSyntaxV2Error,
>
    decreases g,
{
    if g <= 0 {
        None
    } else {
        match groups_fault(groups, g - 1, total) {
            Some(e) => Some(e),
            None => if groups[g - 1].len() < 2 {
                Some(PartitionSyntaxV2Error::MvGroupTooSmall)
            } else {
                members_fault(groups, g - 1, groups[g - 1].len() as int, total)
            },
        }
    }
}

proof fn lemma_member_fault_stays(groups: Seq<Seq<u32>>, g: int, k: int, n: int, total: usize)
    requires
        k <= n,
        members_fault(groups, g, k, total) is Some,
    ensures
        members_fault(groups, g, n, total) == members_fault(groups, g, k, total),
    decreases n - k,
{
    if k < n {
        lemma_member_fault_stays(groups, g, k, n - 1, total);
    }
}

proof fn lemma_group_fault_stays(groups: Seq<Seq<u32>>, g: int, n: int, total: usize)
    requires
        g <= n,
        groups_fault(groups, g, total) is Some,
    ensures
        groups_fault(groups, n, total) == groups_fault(groups, g, total),
    decreases n - g,
{
    if g < n {
        lemma_group_fault_stays(groups, g, n - 1, total);
    }
}

fn check_members(
    groups: &[MvShareGroupV2],
    g: usize,
    total_pu_slots: usize,
    claimed_before: &mut HashSet<u32>,
) -> (r: Result<(), PartitionSyntaxV2Error>)
    requires
        g < groups@.len(),
        forall|x: u32| #[trigger]
            old(claimed_before)@.contains(x) <==> claimed(member_lists(groups@), g as int, x),
    ensures
        match members_fault(
            member_lists(groups@),
            g as int,
            groups@[g as int].members@.len() as int,
            total_pu_slots,
        ) {
            Some(e) => r == Err::<(), PartitionSyntaxV2Error>(e),
            None => r is Ok && forall|x: u32| #[trigger]
                final(claimed_before)@.contains(x) <==> claimed(member_lists(groups@), g + 1, x),
        },
{
    broadcast use vstd::std_specs::hash::group_hash_axioms;

    let ghost lists = member_lists(groups@);
    let members: &Vec<u32> = &groups[g].members;
    let ghost m = members@;
    assert(lists[g as int] == m);
    let mut local: HashSet<u32> = HashSet::new();
    let mut i: usize = 0;
    while i < members.len()
        invariant
            i <= m.len(),
            m == members@,
            g < groups@.len(),
            m == groups@[g as int].members@,
            lists == member_lists(groups@),
            lists[g as int] == m,
            forall|x: u32| #[trigger] local@.contains(x) <==> m.take(i as int).contains(x),
            forall|x: u32| #[trigger]
                claimed_before@.contains(x) <==> (claimed(lists, g as int, x) || m.take(
                    i as int,
                ).contains(x)),
            members_fault(lists, g as int, i as int, total_pu_slots) is None,
        decreases m.len() - i,
    {
        let idx: u32 = members[i];
        proof {
            if member_fault(lists, g as int, i as int, total_pu_slots) is Some {
                lemma_member_fault_stays(lists, g as int, i + 1, m.len() as int, total_pu_slots);
            }
        }
        if idx as usize >= total_pu_slots {
            return Err(PartitionSyntaxV2Error::MissingPuLeaf { index: idx, total: total_pu_slots });
        }
        if !local.insert(idx) {
            return Err(PartitionSyntaxV2Error::DuplicatePuIndexInGroup);
        }
        if !claimed_before.insert(idx) {
            return Err(PartitionSyntaxV2Error::DuplicatePuAcrossGroups(idx));
        }
        proof {
            let had = m.take(i as int);
            assert(m.take(i + 1) =~= had.push(idx));
            assert forall|x: u32| had.push(idx).contains(x) <==> (had.contains(x) || x == idx) by {
                if had.contains(x) {
                    let j = choose|j: int| 0 <= j < had.len() && had[j] == x;
                    assert(had.push(idx)[j] == x);
                }
                assert(had.push(idx)[had.len() as int] == idx);
            }
        }
        i += 1;
    }
    proof {
        assert(m.take(m.len() as int) =~= m);
        assert forall|x: u32|
            claimed(lists, g + 1, x) <==> (claimed(lists, g as int, x) || m.contains(x)) by {
            if claimed(lists, g as int, x) {
                let h = choose|h: int| 0 <= h < g && (#[trigger] lists[h]).contains(x);
                assert(lists[h].contains(x));
            }
            if m.contains(x) {
                assert(lists[g as int].contains(x));
            }
        }
    }
    Ok(())
}

fn validate_mv_groups_indices(groups: &[MvShareGroupV2], total_pu_slots: usize) -> (r: Result<
    (),
    PartitionSyntaxV2Error,
>)
    ensures
        match groups_fault(member_lists(groups@), groups@.len() as int, total_pu_slots) {
            Some(e) => r == Err::<(), PartitionSyntaxV2Error>(e),
            None => r is Ok,
        },
{
    broadcast use vstd::std_specs::hash::group_hash_axioms;

    let ghost lists = member_lists(groups@);
    let n: usize = groups.len();
    let mut seen: HashSet<u32> = HashSet::new();
    let mut g: usize = 0;
    while g < n
        invariant
            g <= n,
            n == groups@.len(),
            lists == member_lists(groups@),
            forall|x: u32| #[trigger] seen@.contains(x) <==> claimed(lists, g as int, x),
            groups_fault(lists, g as int, total_pu_slots) is None,
        decreases n - g,
    {
        proof {
            if groups_fault(lists, g + 1, total_pu_slots) is Some {
                lemma_group_fault_stays(lists, g + 1, n as int, total_pu_slots);
            }
        }
        assert(lists[g as int] == groups@[g as int].members@);
        if groups[g].members.len() < 2 {
            return Err(PartitionSyntaxV2Error::MvGroupTooSmall);
        }
        check_members(groups, g, total_pu_slots, &mut seen)?;
        g += 1;
    }
    Ok(())
}

/// The bytes of the first `k` members of a group.
pub open spec fn member_bytes(m: Seq<u32>, k: int) -> Seq<u8>
    decreases k,
{
    if k <= 0 {
        seq![]
    } else {
        member_bytes(m, k - 1) + bytes16(m[k - 1] as int)
    }
}

/// The bytes of the first `g` groups.
pub open spec fn group_bytes(groups: Seq<Seq<u32>>, g: int) -> Seq<u8>
    decreases g,
{
    if g <= 0 {
        seq![]
    } else {
        group_bytes(groups, g - 1) + bytes16(groups[g - 1].len() as int) + member_bytes(
            groups[g - 1],
            groups[g - 1].len() as int,
        )
    }
}

/// The first of the first `k` members that does not fit 16 bits.
pub open spec fn wide_member(m: Seq<u32>, k: int) -> Option<u32>
    decreases k,
{
    if k <= 0 {
        None
    } else {
        match wide_member(m, k - 1) {
            Some(x) => Some(x),
            None => if m[k - 1] > u16::MAX {
                Some(m[k - 1])
            } else {
                None
            },
        }
    }
}

/// Why the first `g` groups cannot be written, if they cannot.
pub open spec fn width_fault(groups: Seq<Seq<u32>>, g: int, total: usize) -> Option<
    PartitionSyntaxV2Error,
>
    decreases g,
{
    if g <= 0 {
        None
    } else {
        match width_fault(groups, g - 1, total) {
            Some(e) => Some(e),
            None => if groups[g - 1].len() > u16::MAX {
                Some(PartitionSyntaxV2Error::GridTooLarge)
            } else {
                match wide_member(groups[g - 1], groups[g - 1].len() as int) {
                    Some(x) => Some(PartitionSyntaxV2Error::PuIndexOutOfRange { index: x, total }),
                    None => None,
                }
            },
        }
    }
}

/// The blob of share groups, or why they are refused.
pub open spec fn share_payload(groups: Seq<Seq<u32>>, total: usize) -> Result<
    Seq<u8>,
    PartitionSyntaxV2Error,
> {
    let n = groups.len() as int;
    match groups_fault(groups, n, total) {
        Some(e) => Err(e),
        None => if n > u16::MAX {
            Err(PartitionSyntaxV2Error::GridTooLarge)
        } else {
            match width_fault(groups, n, total) {
                Some(e) => Err(e),
                None => Ok(MV_SHARE_GROUPS_V2_MAGIC@ + bytes16(n) + group_bytes(groups, n)),
            }
        },
    }
}

proof fn lemma_width_fault_stays(groups: Seq<Seq<u32>>, g: int, n: int, total: usize)
    requires
        g <= n,
        width_fault(groups, g, total) is Some,
    ensures
        width_fault(groups, n, total) == width_fault(groups, g, total),
    decreases n - g,
{
    if g < n {
        lemma_width_fault_stays(groups, g, n - 1, total);
    }
}

proof fn lemma_wide_stays(m: Seq<u32>, k: int, n: int)
    requires
        k <= n,
        wide_member(m, k) is Some,
    ensures
        wide_member(m, n) == wide_member(m, k),
    decreases n - k,
{
    if k < n {
        lemma_wide_stays(m, k, n - 1);
    }
}

fn push_members(v: &mut Vec<u8>, members: &[u32], total_pu_slots: usize) -> (r: Result<
    (),
    PartitionSyntaxV2Error,
>)
    ensures
        match wide_member(members@, members@.len() as int) {
            Some(x) => r == Err::<(), PartitionSyntaxV2Error>(
                PartitionSyntaxV2Error::PuIndexOutOfRange { index: x, total: total_pu_slots },
            ),
            None => r is Ok && final(v)@ == old(v)@ + member_bytes(
                members@,
                members@.len() as int,
            ),
        },
{
    let ghost start = v@;
    let n: usize = members.len();
    let mut i: usize = 0;
    assert(v@ =~= start + member_bytes(members@, 0));
    while i < n
        invariant
            i <= n,
            n == members@.len(),
            wide_member(members@, i as int) is None,
            v@ == start + member_bytes(members@, i as int),
        decreases n - i,
    {
        let x: u32 = members[i];
        proof {
            if x > u16::MAX {
                lemma_wide_stays(members@, i + 1, n as int);
            }
        }
        if x > 65535 {
            return Err(
                PartitionSyntaxV2Error::PuIndexOutOfRange { index: x, total: total_pu_slots },
            );
        }
        push_u16(v, x as u16);
        i += 1;
        assert(v@ =~= start + member_bytes(members@, i as int));
    }
    Ok(())
}

/// Codes share groups for a map with `total_pu_slots` prediction units.
pub fn encode_mv_share_groups_v2(groups: &[MvShareGroupV2], total_pu_slots: usize) -> (r: Result<
    Vec<u8>,
    PartitionSyntaxV2Error,
>)
    ensures
        match share_payload(member_lists(groups@), total_pu_slots) {
            Err(e) => r == Err::<Vec<u8>, PartitionSyntaxV2Error>(e),
            Ok(b) => r is Ok && r->Ok_0@ == b,
        },
{
    let ghost lists = member_lists(groups@);
    validate_mv_groups_indices(groups, total_pu_slots)?;
    let n: usize = groups.len();
    if n > 65535 {
        return Err(PartitionSyntaxV2Error::GridTooLarge);
    }
    let mut v: Vec<u8> = Vec::new();
    v.push(MV_SHARE_GROUPS_V2_MAGIC[0]);
    v.push(MV_SHARE_GROUPS_V2_MAGIC[1]);
    v.push(MV_SHARE_GROUPS_V2_MAGIC[2]);
    v.push(MV_SHARE_GROUPS_V2_MAGIC[3]);
    assert(v@ =~= MV_SHARE_GROUPS_V2_MAGIC@);
    push_u16(&mut v, n as u16);
    let ghost head = v@;
    let mut g: usize = 0;
    assert(v@ =~= head + group_bytes(lists, 0));
    while g < n
        invariant
            g <= n <= 65535,
            n == groups@.len(),
            lists == member_lists(groups@),
            groups_fault(lists, n as int, total_pu_slots) is None,
            width_fault(lists, g as int, total_pu_slots) is None,
            v@ == head + group_bytes(lists, g as int),
        decreases n - g,
    {
        proof {
            if width_fault(lists, g + 1, total_pu_slots) is Some {
                lemma_width_fault_stays(lists, g + 1, n as int, total_pu_slots);
            }
        }
        assert(lists[g as int] == groups@[g as int].members@);
        let k: usize = groups[g].members.len();
        if k > 65535 {
            return Err(PartitionSyntaxV2Error::GridTooLarge);
        }
        push_u16(&mut v, k as u16);
        push_members(&mut v, groups[g].members.as_slice(), total_pu_slots)?;
        g += 1;
        assert(v@ =~= head + group_bytes(lists, g as int));
    }
    Ok(v)
}

/// How far share groups were read.
pub struct SharesRead {
    pub groups: Seq<Seq<u32>>,
    pub next: int,
    pub fault: Option<PartitionSyntaxV2Error>,
}

/// `n` members at a place of a blob.
pub open spec fn members_at(data: Seq<u8>, at: int, n: int) -> Seq<u32> {
    Seq::new(n as nat, |i: int| le16(data, at + 2 * i) as u32)
}

/// Reading the first `k` groups of a blob.
pub open spec fn shares_read(data: Seq<u8>, k: int) -> SharesRead
    decreases k,
{
    if k <= 0 {
        SharesRead { groups: seq![], next: 6, fault: None }
    } else {
        let st = shares_read(data, k - 1);
        let n = le16(data, st.next);
        if st.fault is Some {
            st
        } else if data.len() < st.next + 2 {
            SharesRead { fault: Some(PartitionSyntaxV2Error::Truncated), ..st }
        } else if n < 2 {
            SharesRead { fault: Some(PartitionSyntaxV2Error::MvGroupTooSmall), ..st }
        } else if data.len() < st.next + 2 + 2 * n {
            SharesRead { fault: Some(PartitionSyntaxV2Error::Truncated), ..st }
        } else {
            SharesRead {
                groups: st.groups.push(members_at(data, st.next + 2, n)),
                next: st.next + 2 + 2 * n,
                fault: None,
            }
        }
    }
}

/// The share groups that a blob holds, or why it is refused.
pub open spec fn decoded_shares(data: Seq<u8>, total: usize) -> Result<
    Seq<Seq<u32>>,
    PartitionSyntaxV2Error,
> {
    let st = shares_read(data, le16(data, 4));
    if data.len() < 6 {
        Err(PartitionSyntaxV2Error::Truncated)
    } else if data.take(4) != MV_SHARE_GROUPS_V2_MAGIC@ {
        Err(PartitionSyntaxV2Error::BadMvShareHeader)
    } else if st.fault is Some {
        Err(st.fault->Some_0)
    } else if st.next != data.len() {
        Err(PartitionSyntaxV2Error::TrailingMvShareBytes)
    } else {
        match groups_fault(st.groups, st.groups.len() as int, total) {
            Some(e) => Err(e),
            None => Ok(st.groups),
        }
    }
}

proof fn lemma_read_fault_stays(data: Seq<u8>, k: int, n: int)
    requires
        k <= n,
        shares_read(data, k).fault is Some,
    ensures
        shares_read(data, n) == shares_read(data, k),
    decreases n - k,
{
    if k < n {
        lemma_read_fault_stays(data, k, n - 1);
    }
}

fn read_members(data: &[u8], at: usize, n: usize) -> (m: Vec<u32>)
    requires
        n <= 65535,
        at + 2 * n <= data@.len(),
    ensures
        m@ == members_at(data@, at as int, n as int),
{
    let have: usize = data.len();
    let mut m: Vec<u32> = Vec::new();
    let mut i: usize = 0;
    while i < n
        invariant
            i <= n,
            have == data@.len(),
            at + 2 * n <= have,
            m@ == members_at(data@, at as int, i as int),
        decreases n - i,
    {
        m.push(get_u16(data, at + 2 * i) as u32);
        i += 1;
        assert(m@ =~= members_at(data@, at as int, i as int));
    }
    m
}

/// Reads share groups; nothing may follow them.
pub fn decode_mv_share_groups_v2(data: &[u8], total_pu_slots: usize) -> (r: Result<
    Vec<MvShareGroupV2>,
    PartitionSyntaxV2Error,
>)
    ensures
        match decoded_shares(data@, total_pu_slots) {
            Ok(g) => r is Ok && member_lists(r->Ok_0@) == g,
            Err(e) => r == Err::<Vec<MvShareGroupV2>, PartitionSyntaxV2Error>(e),
        },
{
    let have: usize = data.len();
    if have < 6 {
        return Err(PartitionSyntaxV2Error::Truncated);
    }
    let ghost m = data@.take(4);
    assert(m[0] == data@[0] && m[1] == data@[1] && m[2] == data@[2] && m[3] == data@[3]);
    if data[0] != MV_SHARE_GROUPS_V2_MAGIC[0] || data[1] != MV_SHARE_GROUPS_V2_MAGIC[1] || data[2]
        != MV_SHARE_GROUPS_V2_MAGIC[2] || data[3] != MV_SHARE_GROUPS_V2_MAGIC[3] {
        return Err(PartitionSyntaxV2Error::BadMvShareHeader);
    }
    assert(m =~= MV_SHARE_GROUPS_V2_MAGIC@);
    let n: usize = get_u16(data, 4) as usize;
    let mut cur: usize = 6;
    let mut groups: Vec<MvShareGroupV2> = Vec::new();
    let mut k: usize = 0;
    assert(member_lists(groups@) =~= seq![]);
    while k < n
        invariant
            k <= n,
            have == data@.len(),
            6 <= cur <= have,
            m == data@.take(4),
            m == MV_SHARE_GROUPS_V2_MAGIC@,
            n == le16(data@, 4),
            shares_read(data@, k as int) == (SharesRead {
                groups: member_lists(groups@),
                next: cur as int,
                fault: None,
            }),
        decreases n - k,
    {
        proof {
            if shares_read(data@, k + 1).fault is Some {
                lemma_read_fault_stays(data@, k + 1, n as int);
            }
        }
        if have - cur < 2 {
            return Err(PartitionSyntaxV2Error::Truncated);
        }
        let n_mem: usize = get_u16(data, cur) as usize;
        if n_mem < 2 {
            return Err(PartitionSyntaxV2Error::MvGroupTooSmall);
        }
        if have - cur - 2 < n_mem * 2 {
            return Err(PartitionSyntaxV2Error::Truncated);
        }
        let members: Vec<u32> = read_members(data, cur + 2, n_mem);
        let ghost before = groups@;
        groups.push(MvShareGroupV2 { members });
        assert(member_lists(groups@) =~= member_lists(before).push(members@));
        cur = cur + 2 + 2 * n_mem;
        k += 1;
    }
    if cur != have {
        return Err(PartitionSyntaxV2Error::TrailingMvShareBytes);
    }
    validate_mv_groups_indices(groups.as_slice(), total_pu_slots)?;
    Ok(groups)
}

proof fn lemma_member_bytes_len(m: Seq<u32>, k: int)
    requires
        0 <= k,
    ensures
        member_bytes(m, k).len() == 2 * k,
    decreases k,
{
    if k > 0 {
        lemma_member_bytes_len(m, k - 1);
    }
}

proof fn lemma_members_back(pre: Seq<u8>, m: Seq<u32>, k: int, post: Seq<u8>)
    requires
        0 <= k <= m.len(),
        wide_member(m, k) is None,
    ensures
        forall|i: int|
            0 <= i < k ==> le16(pre + member_bytes(m, k) + post, pre.len() + 2 * i)
                == #[trigger] m[i],
    decreases k,
{
    if k > 0 {
        let last = bytes16(m[k - 1] as int);
        let d = pre + member_bytes(m, k) + post;
        lemma_member_bytes_len(m, k - 1);
        lemma_members_back(pre, m, k - 1, last + post);
        assert(pre + member_bytes(m, k - 1) + (last + post) =~= d);
        le16_reads_bytes16(pre + member_bytes(m, k - 1), m[k - 1] as int, post);
        assert(pre + member_bytes(m, k - 1) + last + post =~= d);
    }
}

proof fn lemma_groups_tail(groups: Seq<Seq<u32>>, k: int, n: int) -> (rest: Seq<u8>)
    requires
        0 <= k <= n,
    ensures
        group_bytes(groups, n) == group_bytes(groups, k) + rest,
    decreases n - k,
{
    if k >= n {
        assert(group_bytes(groups, n) =~= group_bytes(groups, k) + Seq::<u8>::empty());
        Seq::empty()
    } else {
        let r = lemma_groups_tail(groups, k, n - 1);
        let last = bytes16(groups[n - 1].len() as int) + member_bytes(
            groups[n - 1],
            groups[n - 1].len() as int,
        );
        assert(group_bytes(groups, n) =~= group_bytes(groups, k) + (r + last));
        r + last
    }
}

proof fn lemma_fits(groups: Seq<Seq<u32>>, k: int, n: int, total: usize)
    requires
        0 < k <= n,
        groups_fault(groups, n, total) is None,
        width_fault(groups, n, total) is None,
    ensures
        2 <= groups[k - 1].len() <= u16::MAX,
        wide_member(groups[k - 1], groups[k - 1].len() as int) is None,
    decreases n - k,
{
    if k < n {
        lemma_fits(groups, k, n - 1, total);
    }
}

proof fn lemma_shares_read(groups: Seq<Seq<u32>>, total: usize, k: int)
    requires
        0 <= k <= groups.len() <= u16::MAX,
        groups_fault(groups, groups.len() as int, total) is None,
        width_fault(groups, groups.len() as int, total) is None,
    ensures
        shares_read(
            MV_SHARE_GROUPS_V2_MAGIC@ + bytes16(groups.len() as int) + group_bytes(
                groups,
                groups.len() as int,
            ),
            k,
        ) == (SharesRead {
            groups: groups.take(k),
            next: 6 + group_bytes(groups, k).len() as int,
            fault: None,
        }),
    decreases k,
{
    let n = groups.len() as int;
    let head = MV_SHARE_GROUPS_V2_MAGIC@ + bytes16(n);
    let d = head + group_bytes(groups, n);
    if k == 0 {
        assert(groups.take(0) =~= seq![]);
    } else {
        lemma_shares_read(groups, total, k - 1);
        lemma_fits(groups, k, n, total);
        let rest = lemma_groups_tail(groups, k, n);
        let m = groups[k - 1];
        let c = bytes16(m.len() as int);
        let b = member_bytes(m, m.len() as int);
        let pre = head + group_bytes(groups, k - 1);
        le16_reads_bytes16(pre, m.len() as int, b + rest);
        assert(d =~= pre + c + (b + rest));
        lemma_members_back(pre + c, m, m.len() as int, rest);
        assert(d =~= pre + c + b + rest);
        lemma_member_bytes_len(m, m.len() as int);
        let st = shares_read(d, k - 1);
        assert(st.next == pre.len());
        assert forall|i: int| 0 <= i < m.len() implies members_at(
            d,
            st.next + 2,
            m.len() as int,
        )[i] == #[trigger] m[i] by {
            assert(le16(d, pre.len() + 2 + 2 * i) == m[i]);
        }
        assert(members_at(d, st.next + 2, m.len() as int) =~= m);
        assert(groups.take(k - 1).push(m) =~= groups.take(k));
    }
}

/// Reading coded share groups gives them back.
pub proof fn share_groups_round_trip(groups: Seq<Seq<u32>>, total: usize)
    requires
        share_payload(groups, total) is Ok,
    ensures
        decoded_shares(share_payload(groups, total)->Ok_0, total) == Ok::<
            Seq<Seq<u32>>,
            PartitionSyntaxV2Error,
        >(groups),
{
    let n = groups.len() as int;
    let d = share_payload(groups, total)->Ok_0;
    assert(d.take(4) =~= MV_SHARE_GROUPS_V2_MAGIC@);
    le16_reads_bytes16(MV_SHARE_GROUPS_V2_MAGIC@, n, group_bytes(groups, n));
    lemma_shares_read(groups, total, n);
    assert(groups.take(n) =~= groups);
}

proof fn lemma_members_free_of_fault(groups: Seq<Seq<u32>>, g: int, i: int, k: int, total: usize)
    requires
        0 <= i < k,
        members_fault(groups, g, k, total) is None,
    ensures
        member_fault(groups, g, i, total) is None,
    decreases k - i,
{
    if i < k - 1 {
        lemma_members_free_of_fault(groups, g, i, k - 1, total);
    }
}

proof fn lemma_groups_free_of_fault(groups: Seq<Seq<u32>>, g: int, n: int, total: usize)
    requires
        0 <= g < n,
        groups_fault(groups, n, total) is None,
    ensures
        groups[g].len() >= 2,
        members_fault(groups, g, groups[g].len() as int, total) is None,
    decreases n - g,
{
    if g < n - 1 {
        lemma_groups_free_of_fault(groups, g, n - 1, total);
    }
}

/// Each group has two members or more, each member stands for one of `total` prediction units,
/// and none stands in two places.
pub open spec fn groups_valid(groups: Seq<Seq<u32>>, total: usize) -> bool {
    &&& forall|g: int| 0 <= g < groups.len() ==> (#[trigger] groups[g]).len() >= 2
    &&& forall|g: int, i: int|
        0 <= g < groups.len() && 0 <= i < groups[g].len() ==> #[trigger] groups[g][i] < total
    &&& forall|g: int, i: int, h: int, j: int|
        0 <= g < groups.len() && 0 <= i < groups[g].len() && 0 <= h < groups.len() && 0 <= j
            < groups[h].len() && #[trigger] groups[g][i] == #[trigger] groups[h][j] ==> g == h && i
            == j
}

proof fn lemma_no_fault_is_valid(groups: Seq<Seq<u32>>, total: usize)
    requires
        groups_fault(groups, groups.len() as int, total) is None,
    ensures
        groups_valid(groups, total),
{
    let n = groups.len() as int;
    assert forall|g: int| 0 <= g < n implies (#[trigger] groups[g]).len() >= 2 by {
        lemma_groups_free_of_fault(groups, g, n, total);
    }
    assert forall|g: int, i: int|
        0 <= g < n && 0 <= i < groups[g].len() implies #[trigger] groups[g][i] < total by {
        lemma_groups_free_of_fault(groups, g, n, total);
        lemma_members_free_of_fault(groups, g, i, groups[g].len() as int, total);
    }
    assert forall|g: int, i: int, h: int, j: int|
        0 <= g < n && 0 <= i < groups[g].len() && 0 <= h < n && 0 <= j < groups[h].len()
            && #[trigger] groups[g][i] == #[trigger] groups[h][j] implies g == h && i == j by {
        lemma_groups_free_of_fault(groups, g, n, total);
        lemma_groups_free_of_fault(groups, h, n, total);
        lemma_members_free_of_fault(groups, g, i, groups[g].len() as int, total);
        lemma_members_free_of_fault(groups, h, j, groups[h].len() as int, total);
        if g < h {
            assert(groups[g].contains(groups[h][j]));
        } else if h < g {
            assert(groups[h].contains(groups[g][i]));
        } else if i < j {
            assert(groups[g].take(j)[i] == groups[h][j]);
        } else if j < i {
            assert(groups[g].take(i)[j] == groups[g][i]);
        }
    }
}

proof fn lemma_group_bytes_of_prefix(groups: Seq<Seq<u32>>, x: Seq<u32>, k: int, total: usize)
    requires
        k <= groups.len(),
    ensures
        group_bytes(groups.push(x), k) == group_bytes(groups, k),
        width_fault(groups.push(x), k, total) == width_fault(groups, k, total),
    decreases k,
{
    if k > 0 {
        lemma_group_bytes_of_prefix(groups, x, k - 1, total);
        assert(groups.push(x)[k - 1] == groups[k - 1]);
    }
}

proof fn lemma_members_spell(data: Seq<u8>, at: int, n: int, k: int)
    requires
        0 <= at,
        0 <= k <= n,
        at + 2 * n <= data.len(),
    ensures
        member_bytes(members_at(data, at, n), k) == data.subrange(at, at + 2 * k),
        wide_member(members_at(data, at, n), k) is None,
    decreases k,
{
    if k > 0 {
        lemma_members_spell(data, at, n, k - 1);
        let m = members_at(data, at, n);
        assert(m[k - 1] == le16(data, at + 2 * (k - 1)));
        assert(bytes16(m[k - 1] as int) =~= data.subrange(at + 2 * (k - 1), at + 2 * k));
    }
    assert(member_bytes(members_at(data, at, n), k) =~= data.subrange(at, at + 2 * k));
}

proof fn lemma_shares_spell(data: Seq<u8>, k: int, total: usize)
    requires
        0 <= k,
        data.len() >= 6,
        shares_read(data, k).fault is None,
    ensures
        ({
            let st = shares_read(data, k);
            &&& st.groups.len() == k
            &&& 6 <= st.next <= data.len()
            &&& width_fault(st.groups, k, total) is None
            &&& group_bytes(st.groups, k) == data.subrange(6, st.next)
        }),
    decreases k,
{
    let st = shares_read(data, k);
    if k > 0 {
        let before = shares_read(data, k - 1);
        lemma_shares_spell(data, k - 1, total);
        let n = le16(data, before.next);
        let m = members_at(data, before.next + 2, n);
        lemma_group_bytes_of_prefix(before.groups, m, k - 1, total);
        lemma_members_spell(data, before.next + 2, n, n);
        assert(st.groups[k - 1] == m);
        assert(bytes16(n) =~= data.subrange(before.next, before.next + 2));
    }
    assert(group_bytes(st.groups, k) =~= data.subrange(6, st.next));
}

/// Share groups that are read are valid, and coding them again gives the bytes that they were read
/// from: groups have one blob.
pub proof fn decoded_share_groups_are_canonical(data: Seq<u8>, total: usize)
    requires
        decoded_shares(data, total) is Ok,
    ensures
        groups_valid(decoded_shares(data, total)->Ok_0, total),
        share_payload(decoded_shares(data, total)->Ok_0, total) == Ok::<
            Seq<u8>,
            PartitionSyntaxV2Error,
        >(data),
{
    let n = le16(data, 4);
    let groups = decoded_shares(data, total)->Ok_0;
    lemma_no_fault_is_valid(groups, total);
    lemma_shares_spell(data, n, total);
    assert(bytes16(n) =~= data.subrange(4, 6));
    assert(MV_SHARE_GROUPS_V2_MAGIC@ + bytes16(n) + group_bytes(groups, n) =~= data) by {
        assert forall|i: int| 0 <= i < 4 implies MV_SHARE_GROUPS_V2_MAGIC@[i] == data[i] by {
            assert(data.take(4)[i] == data[i]);
        }
    }
}

proof fn lemma_valid_members(groups: Seq<Seq<u32>>, g: int, k: int, total: usize)
    requires
        groups_valid(groups, total),
        0 <= g < groups.len(),
        0 <= k <= groups[g].len(),
    ensures
        members_fault(groups, g, k, total) is None,
    decreases k,
{
    if k > 0 {
        lemma_valid_members(groups, g, k - 1, total);
        let m = groups[g];
        assert(groups[g][k - 1] < total);
        if m.take(k - 1).contains(m[k - 1]) {
            let t = m.take(k - 1);
            let i = choose|i: int| 0 <= i < t.len() && #[trigger] t[i] == m[k - 1];
            assert(groups[g][i] == groups[g][k - 1]);
        }
        if claimed(groups, g, m[k - 1]) {
            let h = choose|h: int| 0 <= h < g && (#[trigger] groups[h]).contains(m[k - 1]);
            let j = choose|j: int| 0 <= j < groups[h].len() && groups[h][j] == m[k - 1];
            assert(groups[h][j] == groups[g][k - 1]);
        }
    }
}

proof fn lemma_valid_groups(groups: Seq<Seq<u32>>, g: int, total: usize)
    requires
        groups_valid(groups, total),
        0 <= g <= groups.len(),
    ensures
        groups_fault(groups, g, total) is None,
    decreases g,
{
    if g > 0 {
        lemma_valid_groups(groups, g - 1, total);
        assert(groups[g - 1].len() >= 2);
        lemma_valid_members(groups, g - 1, groups[g - 1].len() as int, total);
    }
}

/// Groups are accepted exactly when each has two members or more, all of them units that exist, and
/// no unit stands twice, in one group or in two.
pub proof fn groups_share_no_unit(groups: Seq<Seq<u32>>, total: usize)
    ensures
        groups_fault(groups, groups.len() as int, total) is None <==> groups_valid(groups, total),
{
    if groups_fault(groups, groups.len() as int, total) is None {
        lemma_no_fault_is_valid(groups, total);
    }
    if groups_valid(groups, total) {
        lemma_valid_groups(groups, groups.len() as int, total);
    }
}

} // verus!
