//! What a container writer and a container reader decide; the blocks themselves are bytes of
//! another layer.
use vstd::prelude::*;

verus! {

/// Where a packet stands in a file.
#[derive(Debug, Clone, Copy, PartialEq, Eq, Structural)]
pub struct IndexEntry {
    pub packet_number: u64,
    pub file_offset: u64,
    pub track_id: u16,
    pub flags: u16,
    pub pts: u64,
}

/// The head of a packet block.
#[derive(Debug, Clone, Copy, PartialEq, Eq, Structural)]
pub struct PacketHeader {
    pub track_id: u16,
    pub flags: u16,
    pub sequence: u64,
    pub pts: u64,
    pub dts: u64,
    pub payload_len: u32,
}

/// A cue: the entries of the packets since the cue before.
#[derive(Debug, Clone, PartialEq, Eq)]
pub struct CueBlock {
    pub cue_id: u64,
    pub first_packet_number: u64,
    pub entries: Vec<IndexEntry>,
}

/// Why something cannot be written.
#[derive(Debug, Clone, Copy, PartialEq, Eq, Structural)]
pub enum MuxError {
    TooManyTracks,
    PayloadTooLarge,
}

/// The bookkeeping of a container writer.
pub struct MuxWriter {
    pub cue_interval_packets: u32,
    pub keyframe_flag: u16,
    pub entries: Vec<IndexEntry>,
    pub cue_count: u64,
    pub pending_cue_start: usize,
}

/// The entries from `from` on.
pub open spec fn entries_from(e: Seq<IndexEntry>, from: int) -> Seq<IndexEntry> {
    e.subrange(from, e.len() as int)
}

/// `c` is the cue of the entries from `from` on.
pub open spec fn is_cue(c: CueBlock, id: u64, e: Seq<IndexEntry>, from: int) -> bool {
    &&& c.cue_id == id
    &&& c.first_packet_number == from
    &&& c.entries@ == entries_from(e, from)
}

/// How many tracks a file header counts.
pub fn track_count(tracks: usize) -> (r: Result<u16, MuxError>)
    ensures
        r == if tracks > u16::MAX {
            Err::<u16, MuxError>(MuxError::TooManyTracks)
        } else {
            Ok::<u16, MuxError>(tracks as u16)
        },
{
    if tracks > 65535 {
        return Err(MuxError::TooManyTracks);
    }
    Ok(tracks as u16)
}

impl MuxWriter {
    /// Entries are numbered as they come, and the pending ones are the last ones.
    pub open spec fn valid(self) -> bool {
        &&& self.cue_count <= self.pending_cue_start <= self.entries@.len()
        &&& self.entries@.len() < u64::MAX
        &&& forall|k: int|
            0 <= k < self.entries@.len() ==> (#[trigger] self.entries@[k]).packet_number == k
    }

    /// The entries that cues have listed so far.
    pub open spec fn cued(self) -> Seq<IndexEntry> {
        self.entries@.take(self.pending_cue_start as int)
    }

    /// No packet yet. `keyframe_flag` is the bit that marks a keyframe; a cue follows every
    /// `cue_interval_packets` packets, or none where that is zero.
    pub fn new(cue_interval_packets: u32, keyframe_flag: u16) -> (m: Self)
        ensures
            m.valid(),
            m.entries@.len() == 0,
            m.cue_count == 0,
            m.pending_cue_start == 0,
            m.cue_interval_packets == cue_interval_packets,
            m.keyframe_flag == keyframe_flag,
    {
        MuxWriter {
            cue_interval_packets,
            keyframe_flag,
            entries: Vec::new(),
            cue_count: 0,
            pending_cue_start: 0,
        }
    }

    /// The head of the next packet.
    pub fn next_header(
        &self,
        track_id: u16,
        pts: u64,
        dts: u64,
        keyframe: bool,
        payload_len: usize,
    ) -> (r: Result<PacketHeader, MuxError>)
        requires
            self.valid(),
        ensures
            r == if payload_len > u32::MAX {
                Err::<PacketHeader, MuxError>(MuxError::PayloadTooLarge)
            } else {
                Ok::<PacketHeader, MuxError>(
                    PacketHeader {
                        track_id,
                        flags: if keyframe {
                            self.keyframe_flag
                        } else {
                            0
                        },
                        sequence: self.entries@.len() as u64,
                        pts,
                        dts,
                        payload_len: payload_len as u32,
                    },
                )
            },
    {
        if payload_len as u64 > 0xffff_ffff {
            return Err(MuxError::PayloadTooLarge);
        }
        Ok(
            PacketHeader {
                track_id,
                flags: if keyframe { self.keyframe_flag } else { 0 },
                sequence: self.entries.len() as u64,
                pts,
                dts,
                payload_len: payload_len as u32,
            },
        )
    }

    /// Notes that a packet was written at an offset; hands out the cue that is due, if one is.
    pub fn write_packet(&mut self, header: PacketHeader, file_offset: u64) -> (r: Option<CueBlock>)
        requires
            old(self).valid(),
            old(self).entries@.len() + 1 < u64::MAX,
            header.sequence == old(self).entries@.len(),
        ensures
            final(self).valid(),
            final(self).cue_interval_packets == old(self).cue_interval_packets,
            final(self).keyframe_flag == old(self).keyframe_flag,
            final(self).entries@ == old(self).entries@.push(
                IndexEntry {
                    packet_number: header.sequence,
                    file_offset,
                    track_id: header.track_id,
                    flags: header.flags,
                    pts: header.pts,
                },
            ),
            if old(self).cue_interval_packets > 0 && final(self).entries@.len() as int
                % old(self).cue_interval_packets as int == 0 {
                &&& r is Some
                &&& is_cue(
                    r->Some_0,
                    old(self).cue_count,
                    final(self).entries@,
                    old(self).pending_cue_start as int,
                )
                &&& final(self).cue_count == old(self).cue_count + 1
                &&& final(self).pending_cue_start == final(self).entries@.len()
                &&& final(self).cued() == old(self).cued() + r->Some_0.entries@
            } else {
                &&& r is None
                &&& final(self).cued() == old(self).cued()
                &&& final(self).cue_count == old(self).cue_count
                &&& final(self).pending_cue_start == old(self).pending_cue_start
            },
    {
        self.entries.push(
            IndexEntry {
                packet_number: header.sequence,
                file_offset,
                track_id: header.track_id,
                flags: header.flags,
                pts: header.pts,
            },
        );
        let n: usize = self.entries.len();
        assert(self.cued() =~= old(self).cued());
        if self.cue_interval_packets > 0 && n as u64 % self.cue_interval_packets as u64 == 0 {
            Some(self.write_periodic_cue())
        } else {
            None
        }
    }

    fn write_periodic_cue(&mut self) -> (c: CueBlock)
        requires
            old(self).valid(),
            old(self).pending_cue_start < old(self).entries@.len(),
        ensures
            final(self).cued() == old(self).cued() + c.entries@,
            is_cue(
                c,
                old(self).cue_count,
                old(self).entries@,
                old(self).pending_cue_start as int,
            ),
            final(self).valid(),
            final(self).entries@ == old(self).entries@,
            final(self).cue_interval_packets == old(self).cue_interval_packets,
            final(self).keyframe_flag == old(self).keyframe_flag,
            final(self).cue_count == old(self).cue_count + 1,
            final(self).pending_cue_start == old(self).entries@.len(),
    {
        let from: usize = self.pending_cue_start;
        let n: usize = self.entries.len();
        let mut entries: Vec<IndexEntry> = Vec::new();
        let mut i: usize = from;
        while i < n
            invariant
                from <= i <= n,
                n == self.entries@.len(),
                entries@ == self.entries@.subrange(from as int, i as int),
            decreases n - i,
        {
            entries.push(self.entries[i]);
            i += 1;
            assert(entries@ =~= self.entries@.subrange(from as int, i as int));
        }
        let first_packet_number: u64 = self.entries[from].packet_number;
        let cue: CueBlock = CueBlock { cue_id: self.cue_count, first_packet_number, entries };
        self.cue_count = self.cue_count + 1;
        self.pending_cue_start = n;
        assert(self.cued() =~= old(self).cued() + cue.entries@);
        cue
    }

    /// The last cue, if packets wait for one; the index block that follows holds `entries`.
    pub fn finalize(&mut self) -> (r: Option<CueBlock>)
        requires
            old(self).valid(),
        ensures
            final(self).valid(),
            final(self).entries@ == old(self).entries@,
            final(self).pending_cue_start == final(self).entries@.len(),
            final(self).cued() == final(self).entries@,
            final(self).cued() == match r {
                Some(c) => old(self).cued() + c.entries@,
                None => old(self).cued(),
            },
            if old(self).pending_cue_start < old(self).entries@.len() {
                r is Some && is_cue(
                    r->Some_0,
                    old(self).cue_count,
                    old(self).entries@,
                    old(self).pending_cue_start as int,
                )
            } else {
                r is None
            },
    {
        let r: Option<CueBlock> = if self.pending_cue_start < self.entries.len() {
            Some(self.write_periodic_cue())
        } else {
            None
        };
        assert(self.cued() =~= self.entries@);
        r
    }
}

/// The entry nearest before a time: of those that are not later, the last one with the largest
/// time.
pub open spec fn is_nearest(index: Seq<IndexEntry>, pts: u64, n: int, i: int) -> bool {
    &&& 0 <= i < n
    &&& index[i].pts <= pts
    &&& forall|k: int|
        0 <= k < n && (#[trigger] index[k]).pts <= pts ==> index[k].pts <= index[i].pts
    &&& forall|k: int| i < k < n && (#[trigger] index[k]).pts <= pts ==> index[k].pts < index[i].pts
}

/// The entry to seek to for a time.
pub fn seek_nearest(index: &[IndexEntry], pts: u64) -> (r: Option<IndexEntry>)
    ensures
        match r {
            Some(e) => exists|i: int|
                is_nearest(index@, pts, index@.len() as int, i) && #[trigger] index@[i] == e,
            None => forall|k: int| 0 <= k < index@.len() ==> (#[trigger] index@[k]).pts > pts,
        },
{
    let n: usize = index.len();
    let mut best: Option<usize> = None;
    let mut i: usize = 0;
    while i < n
        invariant
            i <= n,
            n == index@.len(),
            match best {
                Some(b) => is_nearest(index@, pts, i as int, b as int),
                None => forall|k: int| 0 <= k < i ==> (#[trigger] index@[k]).pts > pts,
            },
        decreases n - i,
    {
        if index[i].pts <= pts {
            match best {
                Some(b) => {
                    if index[i].pts >= index[b].pts {
                        best = Some(i);
                    }
                },
                None => {
                    best = Some(i);
                },
            }
        }
        i += 1;
    }
    match best {
        Some(b) => {
            assert(is_nearest(index@, pts, n as int, b as int) && index@[b as int] == index@[b as int]);
            Some(index[b])
        },
        None => None,
    }
}

/// A block as the index sees it.
#[derive(Debug, Clone, PartialEq, Eq)]
pub enum ParsedBlock {
    Packet(u64, PacketHeader),
    Cue(Vec<IndexEntry>),
    Index(Vec<IndexEntry>),
}

/// The index after a block.
pub open spec fn index_after(index: Seq<IndexEntry>, b: ParsedBlock) -> Seq<IndexEntry> {
    match b {
        ParsedBlock::Packet(offset, h) => index.push(
            IndexEntry {
                packet_number: h.sequence,
                file_offset: offset,
                track_id: h.track_id,
                flags: h.flags,
                pts: h.pts,
            },
        ),
        ParsedBlock::Cue(e) => index + e@,
        ParsedBlock::Index(e) => e@,
    }
}

/// Takes a block into an index that is being rebuilt; says whether the index is complete.
pub fn rebuild_index(index: &mut Vec<IndexEntry>, block: ParsedBlock) -> (done: bool)
    ensures
        final(index)@ == index_after(old(index)@, block),
        done == (block is Index),
{
    match block {
        ParsedBlock::Packet(offset, h) => {
            index.push(
                IndexEntry {
                    packet_number: h.sequence,
                    file_offset: offset,
                    track_id: h.track_id,
                    flags: h.flags,
                    pts: h.pts,
                },
            );
            false
        },
        ParsedBlock::Cue(e) => {
            let ghost before = index@;
            let mut i: usize = 0;
            assert(index@ =~= before + e@.take(0));
            while i < e.len()
                invariant
                    i <= e@.len(),
                    index@ == before + e@.take(i as int),
                decreases e@.len() - i,
            {
                index.push(e[i]);
                i += 1;
                assert(index@ =~= before + e@.take(i as int));
            }
            assert(e@.take(e@.len() as int) =~= e@);
            false
        },
        ParsedBlock::Index(e) => {
            *index = e;
            true
        },
    }
}

/// Where to go on after a block header that cannot be read: `read` bytes were probed at
/// `block_start`, of which a block magic has `magic_len`, and `found` is where the next magic
/// stands in them. `None` gives up.
pub fn resync_target(block_start: u64, read: usize, magic_len: usize, found: Option<usize>) -> (r:
    Option<u64>)
    ensures
        r == if read < magic_len || found is None || block_start + found->Some_0 > u64::MAX {
            None::<u64>
        } else {
            Some((block_start + found->Some_0) as u64)
        },
{
    if read < magic_len {
        return None;
    }
    match found {
        Some(offset) => block_start.checked_add(offset as u64),
        None => None,
    }
}

/// The index after the first `n` blocks.
pub open spec fn rebuilt(blocks: Seq<ParsedBlock>, n: int) -> Seq<IndexEntry>
    decreases n,
{
    if n <= 0 {
        seq![]
    } else {
        index_after(rebuilt(blocks, n - 1), blocks[n - 1])
    }
}

/// An index block has the last word: what came before it does not matter.
pub proof fn index_block_decides(blocks: Seq<ParsedBlock>, n: int)
    requires
        0 < n <= blocks.len(),
        blocks[n - 1] is Index,
    ensures
        rebuilt(blocks, n) == blocks[n - 1]->Index_0@,
{
}

/// Packets are listed in the order in which they stand.
pub proof fn packets_are_listed_in_order(blocks: Seq<ParsedBlock>, n: int, k: int)
    requires
        0 <= k < n <= blocks.len(),
        forall|i: int| 0 <= i < n ==> #[trigger] blocks[i] is Packet,
    ensures
        rebuilt(blocks, n).len() == n,
        rebuilt(blocks, n)[k].file_offset == blocks[k]->Packet_0,
        rebuilt(blocks, n)[k].packet_number == blocks[k]->Packet_1.sequence,
        rebuilt(blocks, n)[k].pts == blocks[k]->Packet_1.pts,
        rebuilt(blocks, n)[k].track_id == blocks[k]->Packet_1.track_id,
        rebuilt(blocks, n)[k].flags == blocks[k]->Packet_1.flags,
    decreases n,
{
    assert(blocks[n - 1] is Packet);
    if k < n - 1 {
        packets_are_listed_in_order(blocks, n - 1, k);
    } else if n > 1 {
        packets_are_listed_in_order(blocks, n - 1, 0);
    } else {
        assert(rebuilt(blocks, 0) =~= seq![]);
    }
}

/// A cue adds its entries behind those that are known, in their order.
pub proof fn cues_add_their_entries(blocks: Seq<ParsedBlock>, n: int, e: Vec<IndexEntry>, k: int)
    requires
        0 < n <= blocks.len(),
        blocks[n - 1] == ParsedBlock::Cue(e),
    ensures
        rebuilt(blocks, n).len() == rebuilt(blocks, n - 1).len() + e@.len(),
        0 <= k < rebuilt(blocks, n - 1).len() ==> rebuilt(blocks, n)[k] == rebuilt(
            blocks,
            n - 1,
        )[k],
        0 <= k < e@.len() ==> rebuilt(blocks, n)[rebuilt(blocks, n - 1).len() + k] == e@[k],
{
}

/// Where entries stand in the order of their times, seeking the time of a packet, or any time
/// before the next one, leads to that packet.
pub proof fn seeking_a_packet_finds_it(index: Seq<IndexEntry>, k: int, pts: u64, i: int)
    requires
        0 <= k < index.len(),
        forall|a: int, b: int|
            0 <= a < b < index.len() ==> (#[trigger] index[a]).pts < (#[trigger] index[b]).pts,
        index[k].pts <= pts,
        k + 1 < index.len() ==> pts < index[k + 1].pts,
        is_nearest(index, pts, index.len() as int, i),
    ensures
        i == k,
{
    if i > k {
        assert(i == k + 1 || index[k + 1].pts < index[i].pts);
    }
}

/// A later time never leads further back, and a time never leads to a packet that is later. Of
/// packets with one time the last one is taken.
pub proof fn seeking_follows_the_time(index: Seq<IndexEntry>, s: u64, t: u64, i: int, j: int, k: int)
    requires
        s <= t,
        is_nearest(index, s, index.len() as int, i),
        is_nearest(index, t, index.len() as int, j),
        0 <= k < index.len(),
    ensures
        index[i].pts <= s,
        index[i].pts <= index[j].pts,
        index[k].pts <= s ==> index[k].pts <= index[i].pts,
        index[k].pts == index[i].pts ==> k <= i,
{
}

/// A cue is named after the first of the packets that it lists, and lists all that came since.
pub proof fn cues_list_what_is_pending(c: CueBlock, id: u64, m: MuxWriter, from: int, k: int)
    requires
        m.valid(),
        0 <= from < m.entries@.len(),
        is_cue(c, id, m.entries@, from),
        0 <= k < c.entries@.len(),
    ensures
        c.cue_id == id,
        c.entries@.len() == m.entries@.len() - from,
        c.entries@[k] == m.entries@[from + k],
        c.entries@[k].packet_number == c.first_packet_number + k,
{
}

} // verus!
