//! The bounded FIFO frame queue between the signal flow and the audio
//! backend: the producer refuses frames when full, the consumer sees the
//! frames in exactly the order they were written.

use vstd::prelude::*;
use crate::types::Stereo;

verus! {

/// A bounded first-in-first-out queue of stereo frames.
pub struct RingBuffer {
    /// The queued frames, oldest first.
    pub buf: Vec<Stereo>,
    /// The most frames the queue holds.
    pub capacity: usize,
}

impl RingBuffer {
    /// The invariant: never fuller than the capacity.
    pub open spec fn wf(&self) -> bool {
        &&& 1 <= self.capacity
        &&& self.buf@.len() <= self.capacity
    }

    /// An empty queue of the given capacity.
    pub fn new(capacity: usize) -> (r: RingBuffer)
        requires
            1 <= capacity,
        ensures
            r.wf(),
            r.capacity == capacity,
            r.buf@.len() == 0,
    {
        RingBuffer { buf: Vec::new(), capacity }
    }

    /// How many frames are queued.
    pub fn len(&self) -> (r: usize)
        ensures
            r == self.buf@.len(),
    {
        self.buf.len()
    }

    /// How many more frames fit.
    pub fn free(&self) -> (r: usize)
        requires
            self.wf(),
        ensures
            r == self.capacity - self.buf@.len(),
    {
        self.capacity - self.buf.len()
    }

    /// Appends a frame at the back; a full queue refuses it unchanged.
    pub fn push(&mut self, frame: Stereo) -> (ok: bool)
        requires
            old(self).wf(),
        ensures
            final(self).wf(),
            final(self).capacity == old(self).capacity,
            if old(self).buf@.len() < old(self).capacity {
                ok && final(self).buf@ == old(self).buf@.push(frame)
            } else {
                !ok && *final(self) == *old(self)
            },
    {
        if self.buf.len() < self.capacity {
            self.buf.push(frame);
            true
        } else {
            false
        }
    }

    /// Removes and returns the oldest frame; `None` when empty. Together
    /// with `push` appending at the back, this is the FIFO law: frames
    /// come out in exactly the order they went in.
    pub fn pop(&mut self) -> (r: Option<Stereo>)
        requires
            old(self).wf(),
        ensures
            final(self).wf(),
            final(self).capacity == old(self).capacity,
            match r {
                Some(f) => old(self).buf@.len() > 0 && f == old(self).buf@[0]
                    && final(self).buf@ == old(self).buf@.subrange(1, old(self).buf@.len() as int),
                None => old(self).buf@.len() == 0 && *final(self) == *old(self),
            },
    {
        if self.buf.len() > 0 {
            Some(self.buf.remove(0))
        } else {
            None
        }
    }
}

/// The FIFO order law: whatever frames already wait, pushing `a` and then
/// `b` leaves the queue so that `a` comes out before `b`, after exactly
/// the frames that were there first.
pub proof fn lemma_fifo_order(s: Seq<Stereo>, a: Stereo, b: Stereo)
    ensures
        s.push(a).push(b)[s.len() as int] == a,
        s.push(a).push(b)[s.len() as int + 1] == b,
        forall|i: int| 0 <= i < s.len() ==> s.push(a).push(b)[i] == s[i],
{
}

} // verus!
