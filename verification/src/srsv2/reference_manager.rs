//! Multi-slot reference picture bookkeeping.
use vstd::prelude::*;

use crate::arith::least;
use super::error::SrsV2Error;
use super::frame::{clone_frame, YuvFrame};
use super::limits::MAX_REF_FRAMES;

verus! {

/// Semantic role of a reference picture.
#[derive(Debug, Clone, Copy, PartialEq, Eq, Structural)]
pub enum SrsV2ReferenceKind {
    Last,
    Golden,
    AltRef,
    Future,
}

/// One occupied reference slot.
#[derive(Debug, Clone)]
pub struct SrsV2ReferenceSlot {
    pub slot_id: u8,
    pub frame_index: u32,
    pub order_index: u64,
    pub kind: SrsV2ReferenceKind,
    pub frame: YuvFrame,
    pub is_displayable: bool,
}

/// Bounded reference store.
#[derive(Debug, Clone)]
pub struct SrsV2ReferenceManager {
    pub max_ref_frames: u8,
    pub slots: Vec<Option<SrsV2ReferenceSlot>>,
    pub next_order: u64,
}

/// `n` empty slots.
pub open spec fn empty_slots(n: int) -> Seq<Option<SrsV2ReferenceSlot>> {
    Seq::new(n as nat, |i: int| None)
}

/// A counter that stays at its largest value once it is there.
pub open spec fn following(order: u64) -> u64 {
    least(order + 1, u64::MAX as int) as u64
}

/// Why a slot index is refused, if it is.
pub open spec fn slot_refusal(slots: int, idx: int) -> Option<SrsV2Error> {
    if slots == 0 {
        Some(SrsV2Error::Syntax("no reference storage (max_ref_frames=0)"))
    } else if idx >= slots {
        Some(SrsV2Error::Syntax("reference slot id out of range"))
    } else {
        None
    }
}

impl SrsV2ReferenceManager {
    /// There is one slot for each reference frame that the sequence allows.
    pub open spec fn wf(self) -> bool {
        &&& self.max_ref_frames <= MAX_REF_FRAMES
        &&& self.slots@.len() == self.max_ref_frames
    }

    /// Every stored picture has valid planes.
    pub open spec fn frames_valid(self) -> bool {
        forall|i: int|
            0 <= i < self.slots@.len() && (#[trigger] self.slots@[i]) is Some
                ==> self.slots@[i]->0.frame.valid()
    }

    pub fn new(max_ref_frames: u8) -> (r: Result<Self, SrsV2Error>)
        ensures
            max_ref_frames > MAX_REF_FRAMES ==> r == Err::<Self, SrsV2Error>(
                SrsV2Error::ExcessiveReferenceFrames(max_ref_frames),
            ),
            max_ref_frames <= MAX_REF_FRAMES ==> r is Ok && r->Ok_0.wf()
                && r->Ok_0.max_ref_frames == max_ref_frames && r->Ok_0.slots@ == empty_slots(
                max_ref_frames as int,
            ) && r->Ok_0.next_order == 0,
    {
        if max_ref_frames > MAX_REF_FRAMES {
            return Err(SrsV2Error::ExcessiveReferenceFrames(max_ref_frames));
        }
        let n: usize = max_ref_frames as usize;
        let slots: Vec<Option<SrsV2ReferenceSlot>> = empty_storage(n);
        Ok(SrsV2ReferenceManager { max_ref_frames, slots, next_order: 0 })
    }

    pub fn max_ref_frames(&self) -> (r: u8)
        ensures
            r == self.max_ref_frames,
    {
        self.max_ref_frames
    }

    /// Empties every slot.
    pub fn clear(&mut self)
        ensures
            final(self).max_ref_frames == old(self).max_ref_frames,
            final(self).slots@ == empty_slots(old(self).slots@.len() as int),
            final(self).next_order == 0,
    {
        self.slots = empty_storage(self.slots.len());
        self.next_order = 0;
    }

    pub fn validate_slot_index(&self, idx: u8) -> (r: Result<(), SrsV2Error>)
        ensures
            r == match slot_refusal(self.slots@.len() as int, idx as int) {
                Some(e) => Err::<(), SrsV2Error>(e),
                None => Ok::<(), SrsV2Error>(()),
            },
    {
        if self.slots.len() == 0 {
            return Err(SrsV2Error::Syntax("no reference storage (max_ref_frames=0)"));
        }
        if idx as usize >= self.slots.len() {
            return Err(SrsV2Error::Syntax("reference slot id out of range"));
        }
        Ok(())
    }

    /// The picture in slot 0, if there is one.
    pub fn primary_ref(&self) -> (r: Option<&YuvFrame>)
        ensures
            match r {
                Some(f) => self.slots@.len() > 0 && self.slots@[0] is Some && *f
                    == self.slots@[0]->0.frame,
                None => self.slots@.len() == 0 || self.slots@[0] is None,
            },
    {
        if self.slots.len() == 0 {
            return None;
        }
        match &self.slots[0] {
            Some(s) => Some(&s.frame),
            None => None,
        }
    }

    /// The picture in slot `idx`.
    pub fn frame_at_slot_index(&self, idx: u8) -> (r: Result<&YuvFrame, SrsV2Error>)
        ensures
            match slot_refusal(self.slots@.len() as int, idx as int) {
                Some(e) => r == Err::<&YuvFrame, SrsV2Error>(e),
                None => match self.slots@[idx as int] {
                    Some(s) => r is Ok && *r->Ok_0 == s.frame,
                    None => r == Err::<&YuvFrame, SrsV2Error>(SrsV2Error::PFrameWithoutReference),
                },
            },
    {
        match self.validate_slot_index(idx) {
            Ok(_) => {},
            Err(e) => {
                return Err(e);
            },
        }
        match &self.slots[idx as usize] {
            Some(s) => Ok(&s.frame),
            None => Err(SrsV2Error::PFrameWithoutReference),
        }
    }

    /// The frame index of the picture in slot `idx`.
    pub fn slot_frame_index(&self, idx: u8) -> (r: Result<u32, SrsV2Error>)
        ensures
            match slot_refusal(self.slots@.len() as int, idx as int) {
                Some(e) => r == Err::<u32, SrsV2Error>(e),
                None => match self.slots@[idx as int] {
                    Some(s) => r == Ok::<u32, SrsV2Error>(s.frame_index),
                    None => r == Err::<u32, SrsV2Error>(SrsV2Error::PFrameWithoutReference),
                },
            },
    {
        match self.validate_slot_index(idx) {
            Ok(_) => {},
            Err(e) => {
                return Err(e);
            },
        }
        match &self.slots[idx as usize] {
            Some(s) => Ok(s.frame_index),
            None => Err(SrsV2Error::PFrameWithoutReference),
        }
    }

    /// Slot `i` holds a picture whose index is before `target`.
    pub open spec fn before(self, i: int, target: u32) -> bool {
        0 <= i < self.slots@.len() && self.slots@[i] is Some && self.slots@[i]->0.frame_index
            < target
    }

    /// Slot `i` holds a picture whose index is after `target`.
    pub open spec fn after(self, i: int, target: u32) -> bool {
        0 <= i < self.slots@.len() && self.slots@[i] is Some && self.slots@[i]->0.frame_index
            > target
    }

    /// Largest stored frame index below `target`.
    pub fn nearest_previous_frame_index(&self, target: u32) -> (r: Option<u32>)
        ensures
            match r {
                Some(b) => (exists|i: int| #[trigger]
                    self.before(i, target) && self.slots@[i]->0.frame_index == b) && forall|i: int|
                    #[trigger]
                    self.before(i, target) ==> self.slots@[i]->0.frame_index <= b,
                None => forall|i: int| !#[trigger] self.before(i, target),
            },
    {
        let mut best: Option<u32> = None;
        let mut i: usize = 0;
        while i < self.slots.len()
            invariant
                i <= self.slots@.len(),
                match best {
                    Some(b) => (exists|k: int| #[trigger]
                        self.before(k, target) && k < i && self.slots@[k]->0.frame_index == b)
                        && forall|k: int| #[trigger]
                        self.before(k, target) && k < i ==> self.slots@[k]->0.frame_index <= b,
                    None => forall|k: int| #[trigger] self.before(k, target) ==> k >= i,
                },
            decreases self.slots@.len() - i,
        {
            if let Some(s) = &self.slots[i] {
                if s.frame_index < target {
                    assert(self.before(i as int, target));
                    best = match best {
                        None => Some(s.frame_index),
                        Some(b) => if b >= s.frame_index {
                            Some(b)
                        } else {
                            Some(s.frame_index)
                        },
                    };
                }
            }
            i += 1;
        }
        best
    }

    /// The picture with the smallest stored frame index above `target`; the one in the lowest
    /// slot where several share it.
    pub fn future_reference_if_any(&self, target: u32) -> (r: Option<&YuvFrame>)
        ensures
            match r {
                Some(f) => exists|j: int| #[trigger]
                    self.after(j, target) && *f == self.slots@[j]->0.frame && forall|i: int|
                        #[trigger]
                        self.after(i, target) ==> self.slots@[j]->0.frame_index
                            < self.slots@[i]->0.frame_index || (self.slots@[j]->0.frame_index
                            == self.slots@[i]->0.frame_index && j <= i),
                None => forall|i: int| !#[trigger] self.after(i, target),
            },
    {
        let mut best: Option<usize> = None;
        let mut i: usize = 0;
        while i < self.slots.len()
            invariant
                i <= self.slots@.len(),
                match best {
                    Some(j) => self.after(j as int, target) && j < i && forall|k: int| #[trigger]
                        self.after(k, target) && k < i ==> self.slots@[j as int]->0.frame_index
                            < self.slots@[k]->0.frame_index || (
                        self.slots@[j as int]->0.frame_index == self.slots@[k]->0.frame_index && j
                            <= k),
                    None => forall|k: int| #[trigger] self.after(k, target) ==> k >= i,
                },
            decreases self.slots@.len() - i,
        {
            if let Some(s) = &self.slots[i] {
                if s.frame_index > target {
                    assert(self.after(i as int, target));
                    match best {
                        None => {
                            best = Some(i);
                        },
                        Some(j) => {
                            if let Some(t) = &self.slots[j] {
                                if s.frame_index < t.frame_index {
                                    best = Some(i);
                                }
                            }
                        },
                    }
                }
            }
            i += 1;
        }
        match best {
            None => None,
            Some(j) => match &self.slots[j] {
                Some(s) => Some(&s.frame),
                None => None,
            },
        }
    }

    /// Drops every reference and stores an intra picture in slot 0.
    pub fn replace_after_keyframe(&mut self, frame_index: u32, frame: YuvFrame)
        ensures
            final(self).max_ref_frames == old(self).max_ref_frames,
            old(self).slots@.len() == 0 ==> final(self).slots@ == old(self).slots@
                && final(self).next_order == 0,
            old(self).slots@.len() > 0 ==> final(self).slots@ == empty_slots(
                old(self).slots@.len() as int,
            ).update(
                0,
                Some(
                    SrsV2ReferenceSlot {
                        slot_id: 0,
                        frame_index,
                        order_index: 0,
                        kind: SrsV2ReferenceKind::Golden,
                        frame,
                        is_displayable: true,
                    },
                ),
            ) && final(self).next_order == 1,
    {
        self.clear();
        if self.slots.len() == 0 {
            assert(self.slots@ =~= old(self).slots@);
            return;
        }
        self.slots[0] = Some(
            SrsV2ReferenceSlot {
                slot_id: 0,
                frame_index,
                order_index: 0,
                kind: SrsV2ReferenceKind::Golden,
                frame,
                is_displayable: true,
            },
        );
        self.next_order = 1;
    }

    /// Stores a displayable picture in slot 0; older references move up by one slot and the
    /// oldest leaves.
    pub fn push_displayable_last(&mut self, frame_index: u32, frame: YuvFrame)
        ensures
            final(self).max_ref_frames == old(self).max_ref_frames,
            old(self).slots@.len() == 0 ==> final(self).slots@ == old(self).slots@
                && final(self).next_order == old(self).next_order,
            old(self).slots@.len() > 0 ==> final(self).slots@ == seq![
                Some(
                    SrsV2ReferenceSlot {
                        slot_id: 0,
                        frame_index,
                        order_index: old(self).next_order,
                        kind: SrsV2ReferenceKind::Last,
                        frame,
                        is_displayable: true,
                    },
                ),
            ] + old(self).slots@.drop_last() && final(self).next_order == following(
                old(self).next_order,
            ),
    {
        if self.slots.len() == 0 {
            return;
        }
        let order: u64 = self.next_order;
        self.next_order = self.next_order.saturating_add(1);
        self.slots.pop();
        self.slots.insert(
            0,
            Some(
                SrsV2ReferenceSlot {
                    slot_id: 0,
                    frame_index,
                    order_index: order,
                    kind: SrsV2ReferenceKind::Last,
                    frame,
                    is_displayable: true,
                },
            ),
        );
        assert(self.slots@ =~= seq![self.slots@[0]] + old(self).slots@.drop_last());
    }

    /// Stores a hidden picture in slot `slot_id`.
    pub fn store_alt_ref_at(&mut self, slot_id: u8, frame_index: u32, frame: YuvFrame) -> (r: Result<
        (),
        SrsV2Error,
    >)
        ensures
            final(self).max_ref_frames == old(self).max_ref_frames,
            match slot_refusal(old(self).slots@.len() as int, slot_id as int) {
                Some(e) => r == Err::<(), SrsV2Error>(e) && final(self).slots@ == old(self).slots@
                    && final(self).next_order == old(self).next_order,
                None => r == Ok::<(), SrsV2Error>(()) && final(self).slots@ == old(
                    self,
                ).slots@.update(
                    slot_id as int,
                    Some(
                        SrsV2ReferenceSlot {
                            slot_id,
                            frame_index,
                            order_index: old(self).next_order,
                            kind: SrsV2ReferenceKind::AltRef,
                            frame,
                            is_displayable: false,
                        },
                    ),
                ) && final(self).next_order == following(old(self).next_order),
            },
    {
        match self.validate_slot_index(slot_id) {
            Ok(_) => {},
            Err(e) => {
                return Err(e);
            },
        }
        let order: u64 = self.next_order;
        self.next_order = self.next_order.saturating_add(1);
        self.slots[slot_id as usize] = Some(
            SrsV2ReferenceSlot {
                slot_id,
                frame_index,
                order_index: order,
                kind: SrsV2ReferenceKind::AltRef,
                frame,
                is_displayable: false,
            },
        );
        Ok(())
    }

    /// Stores a displayable picture in slot 0 and leaves the other slots alone.
    pub fn bootstrap_legacy_primary(&mut self, frame_index: u32, frame: YuvFrame)
        ensures
            final(self).max_ref_frames == old(self).max_ref_frames,
            old(self).slots@.len() == 0 ==> final(self).slots@ == old(self).slots@
                && final(self).next_order == old(self).next_order,
            old(self).slots@.len() > 0 ==> final(self).slots@ == old(self).slots@.update(
                0,
                Some(
                    SrsV2ReferenceSlot {
                        slot_id: 0,
                        frame_index,
                        order_index: old(self).next_order,
                        kind: SrsV2ReferenceKind::Last,
                        frame,
                        is_displayable: true,
                    },
                ),
            ) && final(self).next_order == following(old(self).next_order),
    {
        if self.slots.len() == 0 {
            return;
        }
        let order: u64 = self.next_order;
        self.next_order = self.next_order.saturating_add(1);
        self.slots[0] = Some(
            SrsV2ReferenceSlot {
                slot_id: 0,
                frame_index,
                order_index: order,
                kind: SrsV2ReferenceKind::Last,
                frame,
                is_displayable: true,
            },
        );
    }

    /// A copy of the picture in slot 0, if there is one.
    pub fn legacy_primary_clone(&self) -> (r: Option<YuvFrame>)
        ensures
            match r {
                Some(f) => self.slots@.len() > 0 && self.slots@[0] is Some && f@
                    == self.slots@[0]->0.frame@,
                None => self.slots@.len() == 0 || self.slots@[0] is None,
            },
    {
        match self.primary_ref() {
            Some(f) => Some(clone_frame(f)),
            None => None,
        }
    }
}

fn empty_storage(n: usize) -> (slots: Vec<Option<SrsV2ReferenceSlot>>)
    ensures
        slots@ == empty_slots(n as int),
{
    let mut slots: Vec<Option<SrsV2ReferenceSlot>> = Vec::with_capacity(n);
    let mut i: usize = 0;
    while i < n
        invariant
            i <= n,
            slots@ =~= empty_slots(i as int),
        decreases n - i,
    {
        slots.push(None);
        i += 1;
    }
    slots
}

/// After a push the stored pictures are the new one followed by the earlier ones, so that slot
/// `i + 1` holds what slot `i` held.
pub proof fn push_shifts_references(
    before: Seq<Option<SrsV2ReferenceSlot>>,
    first: Option<SrsV2ReferenceSlot>,
    i: int,
)
    requires
        0 <= i,
        i + 1 < before.len(),
    ensures
        (seq![first] + before.drop_last()).len() == before.len(),
        (seq![first] + before.drop_last())[0] == first,
        (seq![first] + before.drop_last())[i + 1] == before[i],
{
}

/// Pictures are numbered in the order in which they are stored, one after the other.
pub proof fn stored_pictures_are_numbered_in_order(order: u64)
    ensures
        order < u64::MAX ==> following(order) == order + 1,
        following(u64::MAX) == u64::MAX,
{
}

/// A slot can be asked for when it is one of those that there are.
pub proof fn slots_are_those_that_there_are(slots: int, idx: int)
    requires
        0 <= slots,
        0 <= idx,
    ensures
        slot_refusal(slots, idx) is None <==> idx < slots,
{
}

} // verus!
