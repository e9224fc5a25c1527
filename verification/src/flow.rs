//! The audio graph driver: one tick pulls a frame from the voice manager,
//! runs it through the filter and the soft limiter, and hands it to the
//! buffering sink, which moves full chunks into the frame queue that the
//! audio backend drains.

use vstd::prelude::*;
use crate::dsp::{ControllableLink, SignalFlow, SignalLink, SignalSink, SignalSource};
use crate::dynamics::{soft_limit_s, SoftLimiter};
use crate::event::{ControlEvent, Controllable};
use crate::filter::{biquad_step_s, filter_handled_s, Filter};
use crate::ring::RingBuffer;
use crate::types::Stereo;
use crate::voice::{frames_sum, vm_handled_rel, vm_ticked_rel, VoiceManager};

verus! {

/// A link that passes frames through untouched.
pub struct IdentityLink {}

impl SignalLink for IdentityLink {
    open spec fn inv(&self) -> bool {
        true
    }

    open spec fn accepts(&self, input: Stereo) -> bool {
        true
    }

    /// Returns the input unchanged.
    fn tick(&mut self, input: Stereo) -> (r: Stereo)
        ensures
            r == input,
    {
        input
    }
}

/// Collects frames into fixed chunks and moves each full chunk into the
/// frame queue.
pub struct BufferSink {
    /// The slot the next frame lands in.
    pub position: usize,
    /// The chunk being filled.
    pub buffer: Vec<Stereo>,
    /// The queue the audio backend drains.
    pub ring_buffer: RingBuffer,
}

impl BufferSink {
    /// The invariant: a nonempty chunk, an in-range position, a sound queue.
    pub open spec fn wf(&self) -> bool {
        &&& 1 <= self.buffer@.len() <= 4096
        &&& self.position < self.buffer@.len()
        &&& self.ring_buffer.wf()
    }

    /// A sink that fills chunks of `chunk_size` frames before moving them
    /// into the given queue.
    pub fn new(ring_buffer: RingBuffer, chunk_size: usize) -> (r: BufferSink)
        requires
            1 <= chunk_size <= 4096,
            ring_buffer.wf(),
        ensures
            r.wf(),
            r.position == 0,
            r.buffer@.len() == chunk_size,
            forall|i: int| 0 <= i < chunk_size ==> #[trigger] r.buffer@[i] == Stereo(0i64, 0i64),
            r.ring_buffer == ring_buffer,
    {
        let mut buffer: Vec<Stereo> = Vec::new();
        let mut i: usize = 0;
        while i < chunk_size
            invariant
                0 <= i <= chunk_size,
                buffer@.len() == i,
                forall|j: int| 0 <= j < i ==> #[trigger] buffer@[j] == Stereo(0i64, 0i64),
            decreases chunk_size - i,
        {
            buffer.push(Stereo(0, 0));
            i = i + 1;
        }
        BufferSink { position: 0, buffer, ring_buffer }
    }

    /// Removes and returns the oldest queued frame, if any.
    pub fn pop_frame(&mut self) -> (r: Option<Stereo>)
        requires
            old(self).wf(),
        ensures
            final(self).wf(),
            final(self).position == old(self).position,
            final(self).buffer@ == old(self).buffer@,
            match r {
                Some(f) => old(self).ring_buffer.buf@.len() > 0 && f == old(self).ring_buffer.buf@[0]
                    && final(self).ring_buffer.buf@ == old(self).ring_buffer.buf@.subrange(
                    1,
                    old(self).ring_buffer.buf@.len() as int,
                ),
                None => old(self).ring_buffer.buf@.len() == 0 && *final(self) == *old(self),
            },
    {
        self.ring_buffer.pop()
    }
}

impl SignalSink for BufferSink {
    open spec fn inv(&self) -> bool {
        self.wf()
    }

    /// Stores a frame in the chunk; a chunk that just filled is moved into
    /// the queue, oldest frame first, as far as the queue has room.
    fn tick(&mut self, input: Stereo)
        ensures
            final(self).buffer@.len() == old(self).buffer@.len(),
            final(self).buffer@ == old(self).buffer@.update(old(self).position as int, input),
            final(self).position == ((old(self).position + 1) as int) % (old(self).buffer@.len() as int),
            final(self).ring_buffer.capacity == old(self).ring_buffer.capacity,
            old(self).position + 1 < old(self).buffer@.len() ==> final(self).ring_buffer == old(self).ring_buffer,
            old(self).position + 1 == old(self).buffer@.len() ==> ({
                let chunk = old(self).buffer@.update(old(self).position as int, input);
                let room = old(self).ring_buffer.capacity - old(self).ring_buffer.buf@.len();
                let pushed = if room < chunk.len() { room as int } else { chunk.len() as int };
                final(self).ring_buffer.buf@ == old(self).ring_buffer.buf@ + chunk.subrange(0, pushed)
            }),
    {
        let len = self.buffer.len();
        self.buffer[self.position] = input;
        if self.position == len - 1 {
            let mut k: usize = 0;
            while k < len
                invariant
                    0 <= k <= len,
                    len == self.buffer@.len(),
                    self.position < len,
                    self.ring_buffer.wf(),
                    self.ring_buffer.capacity == old(self).ring_buffer.capacity,
                    self.buffer@ == old(self).buffer@.update(old(self).position as int, input),
                    self.position == old(self).position,
                    ({
                        let room = old(self).ring_buffer.capacity - old(self).ring_buffer.buf@.len();
                        let pushed = if room < k { room as int } else { k as int };
                        self.ring_buffer.buf@ == old(self).ring_buffer.buf@ + self.buffer@.subrange(0, pushed)
                    }),
                decreases len - k,
            {
                proof {
                    assert(self.buffer@.subrange(0, 0) =~= Seq::<Stereo>::empty());
                }
                let frame = self.buffer[k];
                let ghost pre = self.ring_buffer.buf@;
                let ok = self.ring_buffer.push(frame);
                proof {
                    let room = old(self).ring_buffer.capacity - old(self).ring_buffer.buf@.len();
                    let pushed_old = if room < k { room as int } else { k as int };
                    let pushed_new = if room < k + 1 { room as int } else { k as int + 1 };
                    if ok {
                        assert(self.ring_buffer.buf@ =~= old(self).ring_buffer.buf@ + self.buffer@.subrange(0, pushed_new));
                    } else {
                        assert(self.ring_buffer.buf@ =~= old(self).ring_buffer.buf@ + self.buffer@.subrange(0, pushed_new));
                    }
                }
                k = k + 1;
            }
            proof {
                assert(self.buffer@.subrange(0, self.buffer@.len() as int) =~= self.buffer@);
            }
        } else {
            proof {
                assert(old(self).position + 1 < old(self).buffer@.len());
            }
        }
        self.position = (self.position + 1) % len;
    }
}

/// The audio graph: the voice pool as source, the filter and the soft
/// limiter in series, the buffering sink at the end.
pub struct Flow {
    pub source: VoiceManager,
    pub filter: Filter,
    pub limiter: SoftLimiter,
    pub sink: BufferSink,
}

impl Flow {
    /// The invariant every reachable flow satisfies.
    pub open spec fn wf(&self) -> bool {
        &&& self.source.wf()
        &&& self.filter.wf()
        &&& self.sink.wf()
    }

    /// A flow over a voice pool and a sink, with a fresh filter for the
    /// sample rate and the stock limiter.
    pub fn new(source: VoiceManager, sink: BufferSink, sample_rate: usize) -> (r: Flow)
        requires
            source.wf(),
            sink.wf(),
            8000 <= sample_rate <= 96000,
        ensures
            r.wf(),
            r.source == source,
            r.sink == sink,
    {
        Flow { source, filter: Filter::new(sample_rate), limiter: SoftLimiter {}, sink }
    }

    /// Removes and returns the oldest queued output frame, if any.
    pub fn pop_frame(&mut self) -> (r: Option<Stereo>)
        requires
            old(self).wf(),
        ensures
            final(self).wf(),
            match r {
                Some(f) => old(self).sink.ring_buffer.buf@.len() > 0 && f == old(self).sink.ring_buffer.buf@[0],
                None => old(self).sink.ring_buffer.buf@.len() == 0,
            },
    {
        self.sink.pop_frame()
    }

    /// How many more frames the output queue can take.
    pub fn room(&self) -> (r: usize)
        requires
            self.wf(),
        ensures
            r == self.sink.ring_buffer.capacity - self.sink.ring_buffer.buf@.len(),
    {
        self.sink.ring_buffer.free()
    }
}

impl Controllable for Flow {
    open spec fn inv(&self) -> bool {
        self.wf()
    }

    /// Dispatches the event to the source and to every link.
    fn handle(&mut self, msg: &ControlEvent)
        ensures
            vm_handled_rel(old(self).source, final(self).source, *msg),
            final(self).filter == filter_handled_s(old(self).filter, *msg),
            final(self).sink == old(self).sink,
            final(self).limiter == old(self).limiter,
    {
        self.source.handle(msg);
        self.filter.handle(msg);
        self.limiter.handle(msg);
    }
}

impl SignalFlow for Flow {
    open spec fn inv(&self) -> bool {
        self.wf()
    }

    /// One frame through the whole chain: the summed voices, filtered,
    /// soft-limited, into the sink.
    fn tick(&mut self)
        ensures
            ({
                let o = *old(self);
                let src = frames_sum(o.source.voices@, o.source.voices@.len() as int);
                let l = biquad_step_s(o.filter.coeffs, src.0, o.filter.x1.0 as int, o.filter.x2.0 as int);
                let rr = biquad_step_s(o.filter.coeffs, src.1, o.filter.x1.1 as int, o.filter.x2.1 as int);
                let out = Stereo(soft_limit_s(l.1) as i64, soft_limit_s(rr.1) as i64);
                &&& final(self).filter == (Filter {
                    x1: Stereo(l.0 as i64, rr.0 as i64),
                    x2: o.filter.x1,
                    ..o.filter
                })
                &&& final(self).sink.buffer@ == o.sink.buffer@.update(o.sink.position as int, out)
                &&& final(self).sink.position == ((o.sink.position + 1) as int) % (o.sink.buffer@.len() as int)
                &&& final(self).sink.ring_buffer.capacity == o.sink.ring_buffer.capacity
                &&& (o.sink.position + 1 < o.sink.buffer@.len() ==> final(self).sink.ring_buffer
                    == o.sink.ring_buffer)
                &&& (o.sink.position + 1 == o.sink.buffer@.len() ==> ({
                    let chunk = o.sink.buffer@.update(o.sink.position as int, out);
                    let room = o.sink.ring_buffer.capacity - o.sink.ring_buffer.buf@.len();
                    let pushed = if room < chunk.len() { room as int } else { chunk.len() as int };
                    final(self).sink.ring_buffer.buf@ == o.sink.ring_buffer.buf@ + chunk.subrange(0, pushed)
                }))
                &&& vm_ticked_rel(o.source, final(self).source)
                &&& final(self).limiter == o.limiter
            }),
    {
        let sample = self.source.tick();
        let sample = self.filter.tick(sample);
        let sample = self.limiter.tick(sample);
        self.sink.tick(sample);
    }
}

} // verus!
