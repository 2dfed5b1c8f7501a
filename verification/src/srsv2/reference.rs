//! Single-slot reference picture buffer.
use vstd::prelude::*;

use crate::arith::greatest;
use super::error::SrsV2Error;
use super::frame::YuvFrame;
use super::limits::MAX_REF_FRAMES;

verus! {

/// Holds decoded reference frames.
#[derive(Debug, Clone)]
pub struct ReferenceFrameBuffer {
    pub max_slots: u8,
    pub slots: Vec<Option<YuvFrame>>,
}

/// `n` empty slots.
pub open spec fn vacant(n: int) -> Seq<Option<YuvFrame>> {
    Seq::new(n as nat, |i: int| None)
}

impl ReferenceFrameBuffer {
    /// There is at least one slot, and one for each frame that the buffer was made for.
    pub open spec fn wf(self) -> bool {
        self.max_slots <= MAX_REF_FRAMES && self.slots@.len() == greatest(self.max_slots as int, 1)
    }

    pub fn new(max_ref_frames: u8) -> (r: Result<Self, SrsV2Error>)
        ensures
            max_ref_frames > MAX_REF_FRAMES ==> r == Err::<Self, SrsV2Error>(
                SrsV2Error::ExcessiveReferenceFrames(max_ref_frames),
            ),
            max_ref_frames <= MAX_REF_FRAMES ==> r is Ok && r->Ok_0.wf() && r->Ok_0.max_slots
                == max_ref_frames && r->Ok_0.slots@ == vacant(greatest(max_ref_frames as int, 1)),
    {
        if max_ref_frames > MAX_REF_FRAMES {
            return Err(SrsV2Error::ExcessiveReferenceFrames(max_ref_frames));
        }
        let n: usize = if max_ref_frames < 1 { 1 } else { max_ref_frames as usize };
        Ok(ReferenceFrameBuffer { max_slots: max_ref_frames, slots: vacant_storage(n) })
    }

    pub fn max_slots(&self) -> (r: u8)
        ensures
            r == self.max_slots,
    {
        self.max_slots
    }

    /// Empties every slot.
    pub fn clear(&mut self)
        ensures
            final(self).max_slots == old(self).max_slots,
            final(self).slots@ == vacant(old(self).slots@.len() as int),
    {
        self.slots = vacant_storage(self.slots.len());
    }

    /// The picture in slot 0, if there is one.
    pub fn primary_ref(&self) -> (r: Option<&YuvFrame>)
        ensures
            match r {
                Some(f) => self.slots@.len() > 0 && self.slots@[0] == Some(*f),
                None => self.slots@.len() == 0 || self.slots@[0] is None,
            },
    {
        if self.slots.len() == 0 {
            return None;
        }
        self.slots[0].as_ref()
    }

    /// Stores a picture in slot 0.
    pub fn set_primary(&mut self, frame: YuvFrame)
        ensures
            final(self).max_slots == old(self).max_slots,
            final(self).slots@ == if old(self).slots@.len() > 0 {
                old(self).slots@.update(0, Some(frame))
            } else {
                old(self).slots@
            },
    {
        if self.slots.len() > 0 {
            self.slots[0] = Some(frame);
        }
    }
}

fn vacant_storage(n: usize) -> (slots: Vec<Option<YuvFrame>>)
    ensures
        slots@ == vacant(n as int),
{
    let mut slots: Vec<Option<YuvFrame>> = Vec::with_capacity(n);
    let mut i: usize = 0;
    while i < n
        invariant
            i <= n,
            slots@ =~= vacant(i as int),
        decreases n - i,
    {
        slots.push(None);
        i += 1;
    }
    slots
}

} // verus!
