//! Per-channel ring buffering of an interleaved sample stream, zero-copy
//! window views over it, and the sequencer that yields fixed-length,
//! possibly overlapping windows as samples arrive.

use vstd::prelude::*;
use vstd::arithmetic::div_mod::{lemma_fundamental_div_mod, lemma_fundamental_div_mod_converse};
use vstd::slice::slice_subrange;
use vstd::std_specs::vec::{vec_index, vec_index_mut};
use crate::stream::{ChannelCount, Frame, Instant, SampleRate};
use crate::stream::input::{Input, InputAdapter};
use crate::stream::pipeline::Step;

verus! {

/// Why a streaming operation was refused.
#[derive(Copy, Clone, Debug, PartialEq, Eq, Structural)]
pub enum StreamError {
    /// The frame's channel count or sample rate disagrees with the buffer's.
    FormatMismatch,
    /// The frame's flat sample count is not a multiple of its channel count,
    /// or the frame is too large to account for.
    Malformed,
    /// The requested window reaches before the oldest retained sample.
    WindowEvicted,
    /// The requested window reaches past the newest sample so far.
    WindowNotReady,
    /// The sequencer's next window start was evicted before it was read.
    WindowLost,
    /// The upstream input failed or closed.
    Input(crate::stream::input::InputError),
}

/// The samples of channel `ch` within a flat interleaved block: every
/// `channels`-th sample starting at offset `ch`, in order. A trailing
/// partial group, if any, is ignored.
pub open spec fn deinterlace<S>(samples: Seq<S>, channels: int, ch: int) -> Seq<S>
    recommends
        channels >= 1,
        0 <= ch < channels,
{
    Seq::new((samples.len() as int / channels) as nat, |j: int| samples[j * channels + ch])
}

/// The last `n` elements of `s`, or all of `s` if it is shorter.
pub open spec fn tail_of<S>(s: Seq<S>, n: int) -> Seq<S> {
    if s.len() <= n {
        s
    } else {
        s.skip(s.len() - n)
    }
}

/// One fixed-capacity ring of samples for a single channel: a vector of at
/// most `cap` slots plus the index of the oldest retained sample. While
/// fewer than `cap` samples have arrived the vector grows in place and the
/// cursor stays at zero; afterwards each new sample overwrites the slot at
/// the cursor and the cursor advances modulo `cap`. The full pushed history
/// is carried alongside as ghost state.
struct Ring<S> {
    cap: usize,
    data: Vec<S>,
    head: usize,
    hist: Ghost<Seq<S>>,
}

impl<S: Copy> Ring<S> {
    /// The older physical segment: from the cursor to the end of storage.
    spec fn seg0(&self) -> Seq<S> {
        self.data@.subrange(self.head as int, self.data@.len() as int)
    }

    /// The newer physical segment: from the start of storage to the cursor.
    spec fn seg1(&self) -> Seq<S> {
        self.data@.subrange(0, self.head as int)
    }

    /// The retained samples in arrival order.
    spec fn contents(&self) -> Seq<S> {
        self.seg0() + self.seg1()
    }

    /// How many samples have been evicted so far.
    spec fn evicted(&self) -> int {
        if self.hist@.len() > self.cap {
            self.hist@.len() - self.cap
        } else {
            0
        }
    }

    spec fn inv(&self) -> bool {
        &&& self.cap >= 1
        &&& self.data@.len() == (if self.hist@.len() < self.cap {
            self.hist@.len() as int
        } else {
            self.cap as int
        })
        &&& self.head as int == (if self.hist@.len() < self.cap {
            0int
        } else {
            self.hist@.len() as int % self.cap as int
        })
        &&& self.contents() == self.hist@.skip(self.evicted())
    }

    fn new(cap: usize) -> (r: Ring<S>)
        requires
            cap >= 1,
        ensures
            r.inv(),
            r.cap == cap,
            r.hist@ == Seq::<S>::empty(),
    {
        let r = Ring { cap, data: Vec::new(), head: 0, hist: Ghost(Seq::empty()) };
        proof {
            assert(r.contents() =~= r.hist@.skip(0));
        }
        r
    }

    fn len(&self) -> (r: usize)
        requires
            self.inv(),
        ensures
            r as int == self.contents().len(),
    {
        proof {
            assert(self.contents().len() == self.data@.len());
        }
        self.data.len()
    }

    /// Append one sample, evicting the oldest first if the ring is full.
    fn push(&mut self, s: S)
        requires
            old(self).inv(),
        ensures
            final(self).inv(),
            final(self).cap == old(self).cap,
            final(self).hist@ == old(self).hist@.push(s),
    {
        let ghost len: int = self.hist@.len() as int;
        let ghost cap: int = self.cap as int;
        if self.data.len() < self.cap {
            // Still filling: the cursor is at zero and the vector grows.
            proof {
                assert(old(self).head == 0);
            }
            self.data.push(s);
            proof {
                self.hist@ = self.hist@.push(s);
                assert((cap as int) % (cap as int) == 0) by (nonlinear_arith)
                    requires
                        cap >= 1,
                ;
                assert(old(self).contents() =~= old(self).data@);
                assert(self.contents() =~= self.data@);
                assert(self.data@ =~= old(self).data@.push(s));
                assert(self.contents() =~= self.hist@.skip(0));
                assert(self.inv());
            }
        } else {
            // Full: overwrite the oldest slot and advance the cursor.
            let h = self.head;
            self.data[h] = s;
            self.head = if h + 1 == self.cap { 0 } else { h + 1 };
            proof {
                self.hist@ = self.hist@.push(s);
                let q = len / cap;
                lemma_fundamental_div_mod(len, cap);
                assert(q * cap == cap * q) by (nonlinear_arith);
                assert(h as int == len % cap);
                assert(len + 1 == q * cap + (h + 1));
                if h + 1 < old(self).cap {
                    lemma_fundamental_div_mod_converse(len + 1, cap, q, h + 1);
                } else {
                    assert((q + 1) * cap == q * cap + cap) by (nonlinear_arith);
                    lemma_fundamental_div_mod_converse(len + 1, cap, q + 1, 0);
                }
                assert(self.head as int == (len + 1) % cap);
                let oldc = old(self).contents();
                assert(self.contents() =~= oldc.skip(1).push(s));
                assert(self.hist@.skip(self.evicted()) =~= oldc.skip(1).push(s));
                assert(self.inv());
            }
        }
    }

    /// The two physical segments as slices; their concatenation is the
    /// retained contents in arrival order.
    fn segments(&self) -> (r: (&[S], &[S]))
        requires
            self.inv(),
        ensures
            r.0@ == self.seg0(),
            r.1@ == self.seg1(),
    {
        let whole = self.data.as_slice();
        (slice_subrange(whole, self.head, self.data.len()), slice_subrange(whole, 0, self.head))
    }
}

/// A set of per-channel ring buffers. It de-interlaces the frames received
/// from the device, because nearly everything downstream wants contiguous
/// data per channel, and it adapts from whatever block size the device
/// uses to whatever window length processing wants.
pub struct SampleBuffer<S> {
    max_len: usize,
    channels: ChannelCount,
    sample_rate: SampleRate,
    rings: Vec<Ring<S>>,
    sample_count: usize,
}

impl<S: Copy> SampleBuffer<S> {
    /// The fixed per-channel capacity.
    pub closed spec fn capacity(&self) -> int {
        self.max_len as int
    }

    /// How many channels the buffer de-interlaces into.
    pub closed spec fn channel_count(&self) -> int {
        self.channels@
    }

    /// The sample rate every pushed frame must carry.
    pub closed spec fn rate(&self) -> int {
        self.sample_rate@
    }

    /// Samples ever pushed per channel; counts total history, not what is
    /// retained.
    pub closed spec fn total(&self) -> int {
        self.sample_count as int
    }

    /// Every sample ever pushed to channel `ch`, in arrival order.
    pub closed spec fn hist(&self, ch: int) -> Seq<S> {
        self.rings@[ch].hist@
    }

    /// The older physical segment of channel `ch`'s ring.
    pub closed spec fn seg0(&self, ch: int) -> Seq<S> {
        self.rings@[ch].seg0()
    }

    /// The newer physical segment of channel `ch`'s ring.
    pub closed spec fn seg1(&self, ch: int) -> Seq<S> {
        self.rings@[ch].seg1()
    }

    /// The retained samples of channel `ch` in arrival order, read off the
    /// physical ring: older segment first, then the newer one.
    pub closed spec fn contents(&self, ch: int) -> Seq<S> {
        self.rings@[ch].contents()
    }

    /// How many samples each channel currently retains.
    pub open spec fn retained(&self) -> int {
        if self.total() < self.capacity() {
            self.total()
        } else {
            self.capacity()
        }
    }

    /// The absolute index of the oldest sample still retained.
    pub open spec fn oldest(&self) -> int {
        self.total() - self.retained()
    }

    /// The physical shape of every ring: the newer segment is empty until
    /// the ring has wrapped, and afterwards holds exactly `total mod
    /// capacity` samples. Together with `seg0 + seg1 == contents` this
    /// determines both physical segments of every channel — a ring that
    /// rotated its storage into one contiguous slice could not satisfy it.
    pub open spec fn segments_form(&self) -> bool {
        forall|ch: int|
            0 <= ch < self.channel_count() ==> #[trigger] self.seg1(ch).len() == (
            if self.total() <= self.capacity() {
                0int
            } else {
                self.total() % self.capacity()
            })
    }

    pub closed spec fn wf(&self) -> bool {
        &&& self.max_len >= 1
        &&& self.channels@ >= 1
        &&& self.sample_rate@ >= 1
        &&& self.rings@.len() == self.channels@
        &&& forall|ch: int|
            0 <= ch < self.channels@ ==> {
                &&& (#[trigger] self.rings@[ch]).inv()
                &&& self.rings@[ch].cap == self.max_len
                &&& self.rings@[ch].hist@.len() == self.sample_count
            }
    }

    /// Allocate `channels` empty rings of capacity `max_len`.
    pub fn new(channels: ChannelCount, sample_rate: SampleRate, max_len: usize) -> (r:
        SampleBuffer<S>)
        requires
            max_len >= 1,
        ensures
            r.wf(),
            r.capacity() == max_len as int,
            r.channel_count() == channels@,
            r.rate() == sample_rate@,
            r.total() == 0,
            forall|ch: int| 0 <= ch < channels@ ==> #[trigger] r.hist(ch) == Seq::<S>::empty(),
            r.segments_form(),
    {
        proof {
            use_type_invariant(&channels);
            use_type_invariant(&sample_rate);
        }
        let n = channels.as_usize();
        let mut rings: Vec<Ring<S>> = Vec::new();
        for _i in 0..n
            invariant
                rings@.len() == _i,
                forall|ch: int|
                    0 <= ch < _i as int ==> {
                        &&& (#[trigger] rings@[ch]).inv()
                        &&& rings@[ch].cap == max_len
                        &&& rings@[ch].hist@ == Seq::<S>::empty()
                    },
                max_len >= 1,
        {
            rings.push(Ring::new(max_len));
        }
        let r = SampleBuffer { max_len, channels, sample_rate, rings, sample_count: 0 };
        proof {
            lemma_segments_form(&r);
        }
        r
    }

    /// How many samples each channel currently retains.
    pub fn len(&self) -> (r: usize)
        requires
            self.wf(),
        ensures
            r as int == self.retained(),
    {
        if self.sample_count < self.max_len {
            self.sample_count
        } else {
            self.max_len
        }
    }

    /// The absolute index of the oldest sample still retained.
    pub fn oldest_sample_index(&self) -> (r: usize)
        requires
            self.wf(),
        ensures
            r as int == self.oldest(),
    {
        self.sample_count - self.len()
    }

    /// Samples ever pushed per channel.
    pub fn sample_count(&self) -> (r: usize)
        ensures
            r as int == self.total(),
    {
        self.sample_count
    }

    /// De-interlace one frame into the rings: the sample at flat index `i`
    /// goes to channel `i % channels`, in arrival order, evicting each
    /// ring's oldest sample when it is at capacity. The total count grows
    /// by the per-channel sample count whether or not anything was evicted.
    pub fn push(&mut self, f: &Frame<S>) -> (r: Result<(), StreamError>)
        requires
            old(self).wf(),
            old(self).total() + f.samples@.len() as int / old(self).channel_count()
                <= usize::MAX,
        ensures
            final(self).wf(),
            final(self).segments_form(),
            final(self).capacity() == old(self).capacity(),
            final(self).channel_count() == old(self).channel_count(),
            final(self).rate() == old(self).rate(),
            match r {
                Ok(()) => {
                    &&& f.channels@ == old(self).channel_count()
                    &&& f.sample_rate@ == old(self).rate()
                    &&& f.samples@.len() as int % old(self).channel_count() == 0
                    &&& final(self).total() == old(self).total() + f.samples@.len() as int
                        / old(self).channel_count()
                    &&& forall|ch: int|
                        0 <= ch < old(self).channel_count() ==> #[trigger] final(self).hist(ch)
                            == old(self).hist(ch) + deinterlace(
                            f.samples@,
                            old(self).channel_count(),
                            ch,
                        )
                },
                Err(e) => {
                    &&& *final(self) == *old(self)
                    &&& (e == StreamError::FormatMismatch <==> (f.channels@ != old(
                        self,
                    ).channel_count() || f.sample_rate@ != old(self).rate()))
                    &&& (e == StreamError::Malformed ==> f.samples@.len() as int % old(
                        self,
                    ).channel_count() != 0)
                    &&& (e == StreamError::FormatMismatch || e == StreamError::Malformed)
                },
            },
    {
        if self.channels != f.channels || self.sample_rate != f.sample_rate {
            proof {
                lemma_segments_form(self);
            }
            return Err(StreamError::FormatMismatch);
        }
        let cc = self.channels.as_usize();
        if f.samples.len() % cc != 0 {
            proof {
                lemma_segments_form(self);
            }
            return Err(StreamError::Malformed);
        }
        let rows = f.samples.len() / cc;
        let ghost samples: Seq<S> = f.samples@;
        let ghost ccs: int = cc as int;
        let ghost pre: SampleBuffer<S> = *self;
        proof {
            lemma_fundamental_div_mod(samples.len() as int, ccs);
            assert(samples.len() == f.samples.len());
        }
        for t in 0..rows
            invariant
                self.max_len == pre.max_len,
                self.channels == pre.channels,
                self.sample_rate == pre.sample_rate,
                self.sample_count == pre.sample_count,
                self.rings@.len() == ccs,
                forall|c2: int|
                    0 <= c2 < ccs ==> (#[trigger] self.rings@[c2]).inv() && self.rings@[c2].cap
                        == self.max_len,
                cc as int == ccs,
                ccs >= 1,
                rows as int == samples.len() as int / ccs,
                samples.len() as int == ccs * (rows as int),
                samples.len() <= usize::MAX,
                f.samples@ == samples,
                forall|c2: int|
                    0 <= c2 < ccs ==> self.hist(c2) == #[trigger] pre.hist(c2) + Seq::new(
                        t as nat,
                        |j: int| samples[j * ccs + c2],
                    ),
        {
            proof {
                assert((t as int) * ccs + ccs <= ccs * (rows as int)) by (nonlinear_arith)
                    requires
                        0 <= (t as int) < rows as int,
                        ccs >= 1,
                ;
            }
            let base = t * cc;
            for ch in 0..cc
                invariant
                    self.max_len == pre.max_len,
                    self.channels == pre.channels,
                    self.sample_rate == pre.sample_rate,
                    self.sample_count == pre.sample_count,
                    self.rings@.len() == ccs,
                    forall|c2: int|
                        0 <= c2 < ccs ==> (#[trigger] self.rings@[c2]).inv() && self.rings@[c2].cap
                            == self.max_len,
                    cc as int == ccs,
                    ccs >= 1,
                    rows as int == samples.len() as int / ccs,
                    samples.len() as int == ccs * (rows as int),
                    samples.len() <= usize::MAX,
                    f.samples@ == samples,
                    t < rows,
                    base as int == (t as int) * ccs,
                    (t as int) * ccs + ccs <= ccs * (rows as int),
                    forall|c2: int|
                        0 <= c2 < ch as int ==> self.hist(c2) == #[trigger] pre.hist(c2)
                            + Seq::new((t + 1) as nat, |j: int| samples[j * ccs + c2]),
                    forall|c2: int|
                        ch as int <= c2 < ccs ==> self.hist(c2) == #[trigger] pre.hist(c2)
                            + Seq::new(t as nat, |j: int| samples[j * ccs + c2]),
            {
                let s = f.samples[base + ch];
                vec_index_mut(&mut self.rings, ch).push(s);
                proof {
                    let c = ch as int;
                    let prev = pre.hist(c) + Seq::new(t as nat, |j: int| samples[j * ccs + c]);
                    assert(self.hist(c) == prev.push(samples[(t as int) * ccs + c]));
                    assert(prev.push(samples[(t as int) * ccs + c]) =~= pre.hist(c) + Seq::new(
                        (t + 1) as nat,
                        |j: int| samples[j * ccs + c],
                    ));
                }
            }
        }
        self.sample_count = self.sample_count + rows;
        proof {
            assert forall|ch: int| 0 <= ch < ccs implies #[trigger] self.hist(ch) == old(
                self,
            ).hist(ch) + deinterlace(samples, ccs, ch) by {
                assert(self.hist(ch) == pre.hist(ch) + Seq::new(
                    rows as nat,
                    |j: int| samples[j * ccs + ch],
                ));
                assert(Seq::new(rows as nat, |j: int| samples[j * ccs + ch]) =~= deinterlace(
                    samples,
                    ccs,
                    ch,
                ));
            }
            assert forall|ch: int|
                0 <= ch < ccs implies (#[trigger] self.rings@[ch]).hist@.len()
                == self.sample_count as int by {
                assert(old(self).rings@[ch].inv());
                assert(self.hist(ch) == pre.hist(ch) + Seq::new(
                    rows as nat,
                    |j: int| samples[j * ccs + ch],
                ));
                assert(pre.hist(ch) == old(self).hist(ch));
            }
            assert(self.wf());
            lemma_segments_form(self);
        }
        Ok(())
    }

    /// Append up to `max_count` samples from the front of `samples` to a
    /// single-channel buffer, returning how many were taken.
    pub fn push_some_mono(&mut self, samples: &[S], max_count: usize) -> (r: usize)
        requires
            old(self).wf(),
            old(self).channel_count() == 1,
            old(self).total() + (if samples@.len() <= max_count {
                samples@.len() as int
            } else {
                max_count as int
            }) <= usize::MAX,
        ensures
            final(self).wf(),
            final(self).capacity() == old(self).capacity(),
            final(self).channel_count() == old(self).channel_count(),
            final(self).rate() == old(self).rate(),
            r as int == (if samples@.len() <= max_count {
                samples@.len() as int
            } else {
                max_count as int
            }),
            final(self).total() == old(self).total() + r as int,
            final(self).hist(0) == old(self).hist(0) + samples@.take(r as int),
            final(self).segments_form(),
    {
        let count = if samples.len() <= max_count {
            samples.len()
        } else {
            max_count
        };
        let ghost pre: SampleBuffer<S> = *self;
        for i in 0..count
            invariant
                self.max_len == pre.max_len,
                self.channels == pre.channels,
                self.sample_rate == pre.sample_rate,
                self.sample_count == pre.sample_count,
                self.rings@.len() == 1,
                self.rings@[0].inv(),
                self.rings@[0].cap == self.max_len,
                count <= samples@.len(),
                self.hist(0) == pre.hist(0) + samples@.take(i as int),
        {
            let s = *vstd::slice::slice_index_get(samples, i);
            vec_index_mut(&mut self.rings, 0).push(s);
            proof {
                assert((pre.hist(0) + samples@.take(i as int)).push(samples@[i as int]) =~= pre.hist(
                    0,
                ) + samples@.take(i as int + 1));
            }
        }
        self.sample_count = self.sample_count + count;
        proof {
            assert(pre == *old(self));
            assert(old(self).rings@[0].inv());
            assert(self.wf());
            lemma_segments_form(self);
        }
        count
    }

    /// Build a single-channel buffer of capacity `max_len` holding the first
    /// `min(samples.len(), max_len)` of the given samples.
    pub fn from_mono(sample_rate: SampleRate, samples: &[S], max_len: usize) -> (r: SampleBuffer<
        S,
    >)
        requires
            max_len >= 1,
        ensures
            r.wf(),
            r.capacity() == max_len as int,
            r.channel_count() == 1,
            r.rate() == sample_rate@,
            r.total() == (if samples@.len() <= max_len {
                samples@.len() as int
            } else {
                max_len as int
            }),
            r.hist(0) == samples@.take(r.total()),
            r.segments_form(),
    {
        let mut res: SampleBuffer<S> = SampleBuffer::new(ChannelCount::new(1), sample_rate, max_len);
        let _pushed = res.push_some_mono(samples, max_len);
        res
    }

    /// The two physical ring segments of one channel: the older segment
    /// (cursor to end of storage) then the newer one (start of storage to
    /// cursor); their concatenation is that channel's retained samples in
    /// arrival order.
    pub fn channel_segments(&self, channel: usize) -> (r: (&[S], &[S]))
        requires
            self.wf(),
            (channel as int) < self.channel_count(),
        ensures
            r.0@ == self.seg0(channel as int),
            r.1@ == self.seg1(channel as int),
            r.0@ + r.1@ == self.contents(channel as int),
    {
        let ring = vec_index(&self.rings, channel);
        ring.segments()
    }

    /// The last `n` samples of the more recent physical ring segment of one
    /// channel, or fewer if that segment is shorter.
    pub fn peek_tail(&self, channel: usize, n: usize) -> (r: &[S])
        requires
            self.wf(),
            (channel as int) < self.channel_count(),
        ensures
            r@ == (if self.seg1(channel as int).len() == 0 {
                tail_of(self.seg0(channel as int), n as int)
            } else {
                tail_of(self.seg1(channel as int), n as int)
            }),
    {
        let (a, b) = self.channel_segments(channel);
        if b.len() == 0 {
            let avail = if a.len() <= n {
                a.len()
            } else {
                n
            };
            slice_subrange(a, a.len() - avail, a.len())
        } else {
            let avail = if b.len() <= n {
                b.len()
            } else {
                n
            };
            slice_subrange(b, b.len() - avail, b.len())
        }
    }
}

/// The retention law of the ring buffer: under any sequence of pushes, each
/// channel's physical ring holds exactly the most recent
/// `min(total pushed, capacity)` samples of that channel's history, in
/// arrival order, split as older segment followed by newer segment.
pub proof fn lemma_retained_history<S: Copy>(b: &SampleBuffer<S>, ch: int)
    requires
        b.wf(),
        0 <= ch < b.channel_count(),
    ensures
        b.contents(ch) == b.hist(ch).skip(b.oldest()),
        b.contents(ch).len() == b.retained(),
        b.seg0(ch) + b.seg1(ch) == b.contents(ch),
        b.hist(ch).len() == b.total(),
        b.seg1(ch).len() == (if b.total() <= b.capacity() {
            0int
        } else {
            b.total() % b.capacity()
        }),
        b.seg0(ch) == b.contents(ch).take(b.contents(ch).len() - b.seg1(ch).len()),
        b.seg1(ch) == b.contents(ch).skip(b.contents(ch).len() - b.seg1(ch).len()),
{
    assert(b.rings@[ch].inv());
    lemma_segments_form(b);
    assert(b.seg0(ch) =~= b.contents(ch).take(b.contents(ch).len() - b.seg1(ch).len()));
    assert(b.seg1(ch) =~= b.contents(ch).skip(b.contents(ch).len() - b.seg1(ch).len()));
}

/// The physical-shape law of a well-formed buffer: its rings wrap in place
/// without rotating, so each channel's newer segment holds exactly
/// `total mod capacity` samples once the ring is full, and nothing before.
pub proof fn lemma_segments_form<S: Copy>(b: &SampleBuffer<S>)
    requires
        b.wf(),
    ensures
        b.segments_form(),
{
    assert forall|ch: int|
        0 <= ch < b.channel_count() implies #[trigger] b.seg1(ch).len() == (if b.total()
        <= b.capacity() {
        0int
    } else {
        b.total() % b.capacity()
    }) by {
        let r = b.rings@[ch];
        assert(r.inv());
        assert(b.seg1(ch) == r.data@.subrange(0, r.head as int));
        assert(r.head as int <= r.data@.len());
        assert(b.seg1(ch).len() == r.head as int);
        if b.total() == b.capacity() {
            assert(b.capacity() % b.capacity() == 0) by (nonlinear_arith)
                requires
                    b.capacity() >= 1,
            ;
        }
    }
}

impl<S: Copy> SampleBuffer<S> {
    /// A zero-copy view of the logical sample range `period` describes, or
    /// the reason it is unavailable: already evicted, or not yet produced.
    pub fn get_window<'a>(&'a self, period: crate::stream::Period) -> (r: Result<
        Period<'a, S>,
        StreamError,
    >)
        requires
            self.wf(),
            period.rate() == self.rate(),
            period.start_spec() + period.count() <= usize::MAX,
        ensures
            match r {
                Ok(w) => {
                    &&& period.start_spec() >= self.oldest()
                    &&& period.start_spec() + period.count() <= self.total()
                    &&& w.wf()
                    &&& w.buf() == *self
                    &&& w.start_spec() == period.start_spec()
                    &&& w.len_spec() == period.count()
                },
                Err(StreamError::WindowEvicted) => period.start_spec() < self.oldest(),
                Err(StreamError::WindowNotReady) => period.start_spec() >= self.oldest()
                    && period.start_spec() + period.count() > self.total(),
                Err(_) => false,
            },
    {
        let start_index = period.start().index(self.sample_rate);
        if start_index < self.oldest_sample_index() {
            return Err(StreamError::WindowEvicted);
        }
        let end_index = period.end().index(self.sample_rate);
        if end_index > self.sample_count {
            return Err(StreamError::WindowNotReady);
        }
        Ok(Period { buffer: self, len: end_index - start_index, start_sample_num: start_index })
    }
}

/// A zero-copy reference to a contiguous logical range of samples in a
/// `SampleBuffer`, across all channels.
pub struct Period<'a, S> {
    buffer: &'a SampleBuffer<S>,
    start_sample_num: usize,
    len: usize,
}

impl<'a, S: Copy> Period<'a, S> {
    /// The buffer this view reads from.
    pub closed spec fn buf(&self) -> SampleBuffer<S> {
        *self.buffer
    }

    /// The absolute sample index where the window starts.
    pub closed spec fn start_spec(&self) -> int {
        self.start_sample_num as int
    }

    /// The window length in samples.
    pub closed spec fn len_spec(&self) -> int {
        self.len as int
    }

    pub open spec fn wf(&self) -> bool {
        &&& self.buf().wf()
        &&& self.start_spec() >= self.buf().oldest()
        &&& self.start_spec() + self.len_spec() <= self.buf().total()
    }

    /// The logical window of channel `ch`: that channel's history from the
    /// window start, for the window length.
    pub open spec fn window(&self, ch: int) -> Seq<S> {
        self.buf().hist(ch).subrange(self.start_spec(), self.start_spec() + self.len_spec())
    }

    pub fn channel_count(&self) -> (r: ChannelCount)
        ensures
            r@ == self.buf().channel_count(),
    {
        self.buffer.channels
    }

    pub fn is_empty(&self) -> (r: bool)
        ensures
            r == (self.len_spec() == 0),
    {
        self.len == 0
    }

    pub fn len(&self) -> (r: usize)
        ensures
            r as int == self.len_spec(),
    {
        self.len
    }

    pub fn sample_rate(&self) -> (r: SampleRate)
        ensures
            r@ == self.buf().rate(),
    {
        self.buffer.sample_rate
    }

    pub fn start_time(&self) -> (r: Instant)
        ensures
            r.idx() == self.start_spec(),
            r.rate() == self.buf().rate(),
    {
        Instant::new(self.start_sample_num, self.buffer.sample_rate)
    }

    pub fn end_time(&self) -> (r: Instant)
        requires
            self.wf(),
        ensures
            r.idx() == self.start_spec() + self.len_spec(),
            r.rate() == self.buf().rate(),
    {
        Instant::new(self.start_sample_num + self.len, self.buffer.sample_rate)
    }

    /// The window of one channel as 1 or 2 physical slices of that
    /// channel's ring, in time order: if the logical range lies within one
    /// physical segment a single slice is returned; if it straddles the
    /// wrap point, the tail of the older segment comes first and the head
    /// of the newer segment second.
    pub fn get_channel(&self, channel: usize) -> (r: ChannelPeriod<'a, S>)
        requires
            self.wf(),
            (channel as int) < self.buf().channel_count(),
        ensures
            r.wf(),
            r.window() == self.window(channel as int),
            r.start_spec() == self.start_spec(),
            r.len_spec() == self.len_spec(),
            r.rate() == self.buf().rate(),
            ({
                let w0 = self.start_spec() - self.buf().oldest();
                let w1 = w0 + self.len_spec();
                let s0 = self.buf().seg0(channel as int);
                let s1 = self.buf().seg1(channel as int);
                if w1 <= s0.len() {
                    r.slices.0@ == s0.subrange(w0, w1) && r.slices.1@ == Seq::<S>::empty()
                } else if w0 < s0.len() {
                    r.slices.0@ == s0.subrange(w0, s0.len() as int) && r.slices.1@ == s1.subrange(
                        0,
                        w1 - s0.len(),
                    )
                } else {
                    r.slices.0@ == s1.subrange(w0 - s0.len(), w1 - s0.len()) && r.slices.1@
                        == Seq::<S>::empty()
                }
            }),
    {
        let ghost ch: int = channel as int;
        // All retained samples of this channel, as the 1-2 physical ring
        // segments.
        let (first_segment, second_segment) = self.buffer.channel_segments(channel);
        proof {
            assert(self.buffer.rings@[ch].inv());
        }

        // Locate the window relative to the first ring segment's indices.
        let len_to_buffer_end = self.buffer.sample_count - self.start_sample_num;
        let retained = self.buffer.len();
        let start = retained - len_to_buffer_end;
        let end = start + self.len;

        let ghost w0: int = start as int;
        let ghost w1: int = end as int;
        let ghost s0: Seq<S> = self.buf().seg0(ch);
        let ghost s1: Seq<S> = self.buf().seg1(ch);
        proof {
            assert(s0 + s1 == self.buf().contents(ch));
            assert(self.buf().contents(ch) == self.buf().hist(ch).skip(self.buf().oldest()));
            assert(self.window(ch) =~= (s0 + s1).subrange(w0, w1));
        }

        let slices: (&'a [S], &'a [S]) = if start < first_segment.len() {
            // At least part of the window is in the first segment...
            if end <= first_segment.len() {
                // ... and all of it.
                let a = slice_subrange(first_segment, start, end);
                proof {
                    assert(a@ + s1.subrange(0, 0) =~= (s0 + s1).subrange(w0, w1));
                }
                (a, slice_subrange(second_segment, 0, 0))
            } else {
                // It straddles the wrap point.
                let a = slice_subrange(first_segment, start, first_segment.len());
                let b = slice_subrange(second_segment, 0, end - first_segment.len());
                proof {
                    assert(a@ + b@ =~= (s0 + s1).subrange(w0, w1));
                }
                (a, b)
            }
        } else {
            // It lies entirely in the second segment.
            let a = slice_subrange(
                second_segment,
                start - first_segment.len(),
                end - first_segment.len(),
            );
            proof {
                assert(a@ + s1.subrange(0, 0) =~= (s0 + s1).subrange(w0, w1));
            }
            (a, slice_subrange(first_segment, 0, 0))
        };

        ChannelPeriod {
            slices,
            sample_rate: self.buffer.sample_rate,
            start_sample_num: self.start_sample_num,
            len: self.len,
        }
    }

    /// The window of every channel, in channel order.
    pub fn channels(&self) -> (r: Vec<ChannelPeriod<'a, S>>)
        requires
            self.wf(),
        ensures
            r@.len() == self.buf().channel_count(),
            forall|ch: int|
                0 <= ch < r@.len() ==> {
                    &&& (#[trigger] r@[ch]).wf()
                    &&& r@[ch].window() == self.window(ch)
                    &&& r@[ch].start_spec() == self.start_spec()
                    &&& r@[ch].len_spec() == self.len_spec()
                    &&& r@[ch].rate() == self.buf().rate()
                },
    {
        let cc = self.buffer.channels.as_usize();
        let mut r: Vec<ChannelPeriod<'a, S>> = Vec::new();
        for i in 0..cc
            invariant
                cc as int == self.buf().channel_count(),
                self.wf(),
                r@.len() == i,
                forall|ch: int|
                    0 <= ch < i as int ==> {
                        &&& (#[trigger] r@[ch]).wf()
                        &&& r@[ch].window() == self.window(ch)
                        &&& r@[ch].start_spec() == self.start_spec()
                        &&& r@[ch].len_spec() == self.len_spec()
                        &&& r@[ch].rate() == self.buf().rate()
                    },
        {
            r.push(self.get_channel(i));
        }
        r
    }
}

/// A contiguous single-channel window, materialized as 1-2 borrowed slices
/// of the channel's physical ring whose concatenation is the window in time
/// order.
pub struct ChannelPeriod<'a, S> {
    pub slices: (&'a [S], &'a [S]),
    pub sample_rate: SampleRate,
    pub start_sample_num: usize,
    pub len: usize,
}

impl<'a, S: Copy> ChannelPeriod<'a, S> {
    /// The logical window: both physical slices concatenated in time order.
    pub open spec fn window(&self) -> Seq<S> {
        self.slices.0@ + self.slices.1@
    }

    /// The absolute sample index of the first sample in the window.
    pub closed spec fn start_spec(&self) -> int {
        self.start_sample_num as int
    }

    /// The window length in samples.
    pub closed spec fn len_spec(&self) -> int {
        self.len as int
    }

    /// The sample rate the window is scoped to.
    pub closed spec fn rate(&self) -> int {
        self.sample_rate@
    }

    pub open spec fn wf(&self) -> bool {
        &&& self.window().len() == self.len_spec()
        &&& self.start_spec() + self.len_spec() <= usize::MAX
    }

    pub fn is_empty(&self) -> (r: bool)
        ensures
            r == (self.len_spec() == 0),
    {
        self.len == 0
    }

    pub fn len(&self) -> (r: usize)
        ensures
            r as int == self.len_spec(),
    {
        self.len
    }

    pub fn sample_rate(&self) -> (r: SampleRate)
        ensures
            r@ == self.rate(),
    {
        self.sample_rate
    }

    /// The whole window copied into one contiguous vector, in time order.
    pub fn to_vec(&self) -> (r: Vec<S>)
        ensures
            r@ == self.window(),
    {
        let mut r = vstd::slice::slice_to_vec(self.slices.0);
        let b = self.slices.1;
        proof {
            assert(r@ =~= self.slices.0@ + b@.take(0));
        }
        for i in 0..b.len()
            invariant
                r@ == self.slices.0@ + b@.take(i as int),
                b@ == self.slices.1@,
        {
            r.push(*vstd::slice::slice_index_get(b, i));
            proof {
                assert((self.slices.0@ + b@.take(i as int)).push(b@[i as int]) =~= self.slices.0@
                    + b@.take(i as int + 1));
            }
        }
        proof {
            assert(self.slices.0@ + b@.take(b@.len() as int) =~= self.window());
        }
        r
    }

    /// A restartable pass over the window as `(time, sample)` pairs.
    pub fn into_timeseries(self) -> (r: TimeseriesIterator<'a, S>)
        requires
            self.wf(),
        ensures
            r.wf(),
            r.pos() == 0,
            r.window() == self.window(),
            r.start_spec() == self.start_spec(),
            r.rate() == self.rate(),
    {
        TimeseriesIterator { period: self, first_slice: true, index: 0 }
    }
}

/// Walks a `ChannelPeriod` yielding each sample with the `Instant` it was
/// recorded at: first the older physical slice, then the newer one.
pub struct TimeseriesIterator<'a, S> {
    period: ChannelPeriod<'a, S>,
    first_slice: bool,
    index: usize,
}

impl<'a, S: Copy> TimeseriesIterator<'a, S> {
    /// The window being walked.
    pub closed spec fn window(&self) -> Seq<S> {
        self.period.window()
    }

    /// The absolute sample index of the first window sample.
    pub closed spec fn start_spec(&self) -> int {
        self.period.start_spec()
    }

    /// The sample rate of the window.
    pub closed spec fn rate(&self) -> int {
        self.period.rate()
    }

    /// How many pairs have been yielded so far.
    pub closed spec fn pos(&self) -> int {
        if self.first_slice {
            self.index as int
        } else {
            self.period.slices.0@.len() + self.index as int
        }
    }

    pub closed spec fn wf(&self) -> bool {
        &&& self.period.wf()
        &&& if self.first_slice {
            self.index as int <= self.period.slices.0@.len()
        } else {
            self.index as int <= self.period.slices.1@.len()
        }
    }

    /// The next `(time, sample)` pair, or `None` once the window is done.
    pub fn next(&mut self) -> (r: Option<(Instant, S)>)
        requires
            old(self).wf(),
        ensures
            final(self).wf(),
            final(self).window() == old(self).window(),
            final(self).start_spec() == old(self).start_spec(),
            final(self).rate() == old(self).rate(),
            match r {
                Some(p) => {
                    &&& old(self).pos() < old(self).window().len()
                    &&& p.0.idx() == old(self).start_spec() + old(self).pos()
                    &&& p.0.rate() == old(self).rate()
                    &&& p.1 == old(self).window()[old(self).pos()]
                    &&& final(self).pos() == old(self).pos() + 1
                },
                None => {
                    &&& old(self).pos() == old(self).window().len()
                    &&& final(self).pos() == old(self).pos()
                },
            },
    {
        if self.first_slice {
            if self.index < self.period.slices.0.len() {
                let s = *vstd::slice::slice_index_get(self.period.slices.0, self.index);
                let t = Instant::new(
                    self.period.start_sample_num + self.index,
                    self.period.sample_rate,
                );
                self.index = self.index + 1;
                return Some((t, s));
            }
            // The older slice is exhausted; continue into the newer one.
            self.first_slice = false;
            self.index = 0;
        }
        if self.index < self.period.slices.1.len() {
            let s = *vstd::slice::slice_index_get(self.period.slices.1, self.index);
            let t = Instant::new(
                self.period.start_sample_num + self.period.slices.0.len() + self.index,
                self.period.sample_rate,
            );
            self.index = self.index + 1;
            Some((t, s))
        } else {
            None
        }
    }
}

/// Produces a stream of fixed-length windows over a `SampleBuffer` as
/// samples arrive: each window is `period_len` samples long and each
/// subsequent window starts `period_stride` samples later, so a stride
/// smaller than the length yields overlapping windows.
pub struct PeriodBuffer<S> {
    buffer: SampleBuffer<S>,
    period_len: usize,
    period_stride: usize,
    next_period_end: usize,
}

impl<S: Copy> PeriodBuffer<S> {
    /// The ring buffer the sequencer owns.
    pub closed spec fn buffer_spec(&self) -> SampleBuffer<S> {
        self.buffer
    }

    /// The window length in samples.
    pub closed spec fn period_len_spec(&self) -> int {
        self.period_len as int
    }

    /// How far each subsequent window start advances.
    pub closed spec fn stride_spec(&self) -> int {
        self.period_stride as int
    }

    /// The absolute sample index at which the next window ends.
    pub closed spec fn next_end_spec(&self) -> int {
        self.next_period_end as int
    }

    pub open spec fn wf(&self) -> bool {
        &&& self.buffer_spec().wf()
        &&& self.next_end_spec() >= self.period_len_spec()
    }

    /// Enough samples have arrived for the next scheduled window.
    pub open spec fn has_next_spec(&self) -> bool {
        self.next_end_spec() <= self.buffer_spec().total()
    }

    /// The next scheduled window's start has not been evicted yet. If this
    /// fails the consumer fell behind and a window was permanently lost.
    pub open spec fn next_start_retained(&self) -> bool {
        self.next_end_spec() - self.period_len_spec() >= self.buffer_spec().oldest()
    }

    /// Wrap a buffer that has not yet evicted anything, scheduling the
    /// first window to end once `period_len` samples have arrived.
    pub fn new(buffer: SampleBuffer<S>, period_len: usize, period_stride: usize) -> (r:
        PeriodBuffer<S>)
        requires
            buffer.wf(),
            buffer.total() <= buffer.capacity(),
        ensures
            r.wf(),
            r.buffer_spec() == buffer,
            r.period_len_spec() == period_len as int,
            r.stride_spec() == period_stride as int,
            r.next_end_spec() == period_len as int,
            r.next_start_retained(),
    {
        PeriodBuffer { buffer, period_len, period_stride, next_period_end: period_len }
    }

    /// Forward one frame to the ring buffer, then check that the next
    /// scheduled window's start is still retained; if it was evicted, the
    /// samples are in the ring but the sequencer has permanently lost a
    /// window, which is fatal for this sequencer instance.
    pub fn push(&mut self, f: &Frame<S>) -> (r: Result<(), StreamError>)
        requires
            old(self).wf(),
            old(self).buffer_spec().total() + f.samples@.len() as int / old(
                self,
            ).buffer_spec().channel_count() <= usize::MAX,
        ensures
            final(self).wf(),
            final(self).period_len_spec() == old(self).period_len_spec(),
            final(self).stride_spec() == old(self).stride_spec(),
            final(self).next_end_spec() == old(self).next_end_spec(),
            final(self).buffer_spec().capacity() == old(self).buffer_spec().capacity(),
            final(self).buffer_spec().channel_count() == old(self).buffer_spec().channel_count(),
            final(self).buffer_spec().rate() == old(self).buffer_spec().rate(),
            match r {
                Ok(()) => {
                    &&& f.channels@ == old(self).buffer_spec().channel_count()
                    &&& f.sample_rate@ == old(self).buffer_spec().rate()
                    &&& f.samples@.len() as int % old(self).buffer_spec().channel_count() == 0
                    &&& final(self).buffer_spec().total() == old(self).buffer_spec().total()
                        + f.samples@.len() as int / old(self).buffer_spec().channel_count()
                    &&& forall|ch: int|
                        0 <= ch < old(self).buffer_spec().channel_count()
                            ==> #[trigger] final(self).buffer_spec().hist(ch)
                            == old(self).buffer_spec().hist(ch) + deinterlace(
                            f.samples@,
                            old(self).buffer_spec().channel_count(),
                            ch,
                        )
                    &&& final(self).next_start_retained()
                },
                Err(StreamError::WindowLost) => {
                    &&& f.channels@ == old(self).buffer_spec().channel_count()
                    &&& f.sample_rate@ == old(self).buffer_spec().rate()
                    &&& f.samples@.len() as int % old(self).buffer_spec().channel_count() == 0
                    &&& final(self).buffer_spec().total() == old(self).buffer_spec().total()
                        + f.samples@.len() as int / old(self).buffer_spec().channel_count()
                    &&& forall|ch: int|
                        0 <= ch < old(self).buffer_spec().channel_count()
                            ==> #[trigger] final(self).buffer_spec().hist(ch)
                            == old(self).buffer_spec().hist(ch) + deinterlace(
                            f.samples@,
                            old(self).buffer_spec().channel_count(),
                            ch,
                        )
                    &&& !final(self).next_start_retained()
                },
                Err(e) => {
                    &&& *final(self) == *old(self)
                    &&& (e == StreamError::FormatMismatch <==> (f.channels@ != old(
                        self,
                    ).buffer_spec().channel_count() || f.sample_rate@ != old(
                        self,
                    ).buffer_spec().rate()))
                    &&& (e == StreamError::Malformed ==> f.samples@.len() as int % old(
                        self,
                    ).buffer_spec().channel_count() != 0)
                    &&& (e == StreamError::FormatMismatch || e == StreamError::Malformed)
                },
            },
    {
        match self.buffer.push(f) {
            Err(e) => Err(e),
            Ok(()) => {
                // If too many samples arrived between calls to next(), the
                // start of the next window may have moved out of the ring.
                let next_period_start = self.next_period_end - self.period_len;
                if next_period_start >= self.buffer.oldest_sample_index() {
                    Ok(())
                } else {
                    Err(StreamError::WindowLost)
                }
            },
        }
    }

    /// Whether the next scheduled window is fully available.
    pub fn has_next(&self) -> (r: bool)
        ensures
            r == self.has_next_spec(),
    {
        self.next_period_end <= self.buffer.sample_count
    }

    /// Samples ever pushed per channel of the owned buffer.
    pub fn sample_count(&self) -> (r: usize)
        ensures
            r as int == self.buffer_spec().total(),
    {
        self.buffer.sample_count
    }

    /// The absolute sample index at which the next window ends.
    pub fn next_period_end(&self) -> (r: usize)
        ensures
            r as int == self.next_end_spec(),
    {
        self.next_period_end
    }

    /// The window length in samples.
    pub fn period_len(&self) -> (r: usize)
        ensures
            r as int == self.period_len_spec(),
    {
        self.period_len
    }

    /// How far each subsequent window start advances.
    pub fn period_stride(&self) -> (r: usize)
        ensures
            r as int == self.stride_spec(),
    {
        self.period_stride
    }

    /// The next available window, if any, covering the `period_len` samples
    /// that end at the scheduled position; the schedule then advances by
    /// `period_stride`. Returns nothing if too few samples have arrived, or
    /// if the scheduled window was already evicted.
    pub fn next(&mut self) -> (r: Option<Period<'_, S>>)
        requires
            old(self).wf(),
            old(self).next_end_spec() + old(self).stride_spec() <= usize::MAX,
        ensures
            final(self).wf(),
            final(self).buffer_spec() == old(self).buffer_spec(),
            final(self).period_len_spec() == old(self).period_len_spec(),
            final(self).stride_spec() == old(self).stride_spec(),
            match r {
                Some(w) => {
                    &&& old(self).has_next_spec()
                    &&& old(self).next_start_retained()
                    &&& w.wf()
                    &&& w.buf() == old(self).buffer_spec()
                    &&& w.start_spec() == old(self).next_end_spec() - old(self).period_len_spec()
                    &&& w.len_spec() == old(self).period_len_spec()
                    &&& final(self).next_end_spec() == old(self).next_end_spec() + old(
                        self,
                    ).stride_spec()
                },
                None => {
                    &&& !(old(self).has_next_spec() && old(self).next_start_retained())
                    &&& *final(self) == *old(self)
                },
            },
    {
        if self.next_period_end <= self.buffer.sample_count {
            let start = self.next_period_end - self.period_len;
            if start >= self.buffer.oldest_sample_index() {
                self.next_period_end = self.next_period_end + self.period_stride;
                return Some(
                    Period { buffer: &self.buffer, len: self.period_len, start_sample_num: start },
                );
            }
        }
        None
    }
}

/// Accumulates a flat stream of interleaved scalar samples into fixed-length
/// multi-channel `Frame`s: one output frame for every `frame_len` inputs.
pub struct FrameAccumulator<S> {
    channels: ChannelCount,
    sample_rate: SampleRate,
    frame_len: usize,
    samples: Vec<S>,
}

/// A smallish default frame length; small enough for tests that want small
/// buffers, and the exact value rarely matters otherwise.
pub const DEFAULT_FRAME_LEN: usize = 16;

impl<S: Copy> FrameAccumulator<S> {
    /// The channel count stamped on produced frames.
    pub closed spec fn channels_spec(&self) -> int {
        self.channels@
    }

    /// The sample rate stamped on produced frames.
    pub closed spec fn rate_spec(&self) -> int {
        self.sample_rate@
    }

    /// How many scalars make one frame.
    pub closed spec fn frame_len_spec(&self) -> int {
        self.frame_len as int
    }

    /// The scalars accumulated since the last produced frame.
    pub closed spec fn pending(&self) -> Seq<S> {
        self.samples@
    }

    /// How many scalars make one frame.
    pub fn frame_len(&self) -> (r: usize)
        ensures
            r as int == self.frame_len_spec(),
    {
        self.frame_len
    }

    /// How many scalars have accumulated since the last produced frame.
    pub fn pending_len(&self) -> (r: usize)
        ensures
            r as int == self.pending().len(),
    {
        self.samples.len()
    }

    pub open spec fn wf(&self) -> bool {
        self.frame_len_spec() % self.channels_spec() == 0
    }

    pub fn new(channels: ChannelCount, sample_rate: SampleRate, frame_len: usize) -> (r:
        FrameAccumulator<S>)
        requires
            frame_len as int % channels@ == 0,
        ensures
            r.wf(),
            r.channels_spec() == channels@,
            r.rate_spec() == sample_rate@,
            r.frame_len_spec() == frame_len as int,
            r.pending() == Seq::<S>::empty(),
    {
        FrameAccumulator { channels, sample_rate, frame_len, samples: Vec::new() }
    }

    /// Change the frame length before anything has accumulated.
    pub fn with_frame_len(self, new_len: usize) -> (r: FrameAccumulator<S>)
        requires
            self.pending().len() == 0,
            new_len as int % self.channels_spec() == 0,
        ensures
            r.wf(),
            r.channels_spec() == self.channels_spec(),
            r.rate_spec() == self.rate_spec(),
            r.frame_len_spec() == new_len as int,
            r.pending() == Seq::<S>::empty(),
    {
        FrameAccumulator {
            channels: self.channels,
            sample_rate: self.sample_rate,
            frame_len: new_len,
            samples: self.samples,
        }
    }

    /// Accept one scalar sample.
    pub fn push_input(&mut self, input: S)
        ensures
            final(self).channels_spec() == old(self).channels_spec(),
            final(self).rate_spec() == old(self).rate_spec(),
            final(self).frame_len_spec() == old(self).frame_len_spec(),
            final(self).pending() == old(self).pending().push(input),
    {
        self.samples.push(input);
    }

    /// Once exactly `frame_len` scalars have accumulated, yield them as one
    /// frame and reset; otherwise yield nothing.
    pub fn pop_output(&mut self) -> (r: Option<Frame<S>>)
        ensures
            final(self).channels_spec() == old(self).channels_spec(),
            final(self).rate_spec() == old(self).rate_spec(),
            final(self).frame_len_spec() == old(self).frame_len_spec(),
            match r {
                Some(f) => {
                    &&& old(self).pending().len() == old(self).frame_len_spec()
                    &&& f.channels@ == old(self).channels_spec()
                    &&& f.sample_rate@ == old(self).rate_spec()
                    &&& f.samples@ == old(self).pending()
                    &&& final(self).pending() == Seq::<S>::empty()
                },
                None => {
                    &&& old(self).pending().len() != old(self).frame_len_spec()
                    &&& *final(self) == *old(self)
                },
            },
    {
        if self.samples.len() == self.frame_len {
            let mut out: Vec<S> = Vec::new();
            core::mem::swap(&mut out, &mut self.samples);
            Some(Frame { channels: self.channels, sample_rate: self.sample_rate, samples: out })
        } else {
            None
        }
    }
}

impl<S: Copy> Step for FrameAccumulator<S> {
    type Input = S;

    type Output = Frame<S>;

    fn push_input(&mut self, input: S) {
        FrameAccumulator::push_input(self, input);
    }

    fn pop_output(&mut self) -> Option<Frame<S>> {
        FrameAccumulator::pop_output(self)
    }
}

/// Turns a push-style blocking frame source into a pull-style window
/// source: reading a window pulls frames from the input until the next
/// window is available.
pub struct BufferedInput<S, T> {
    input: T,
    buffer: PeriodBuffer<S>,
}

impl<S: Copy, T: Input<Item = Frame<S>>> BufferedInput<S, T> {
    /// The sequencer this adapter fills.
    pub closed spec fn periods(&self) -> PeriodBuffer<S> {
        self.buffer
    }

    pub open spec fn wf(&self) -> bool {
        self.periods().wf()
    }

    /// Read one frame to learn the input's channel count and sample rate,
    /// then build a sequencer of disjoint `period_len`-sample windows over
    /// a ring of twice that capacity, primed with that first frame.
    pub fn new(input: T, period_len: usize) -> (r: Result<BufferedInput<S, T>, StreamError>)
        requires
            period_len >= 1,
            2 * period_len <= usize::MAX,
        ensures
            match r {
                Ok(b) => {
                    &&& b.wf()
                    &&& b.periods().period_len_spec() == period_len as int
                    &&& b.periods().stride_spec() == period_len as int
                    &&& b.periods().buffer_spec().capacity() == 2 * period_len as int
                },
                Err(_) => true,
            },
    {
        let mut input = input;
        let frame = match input.read() {
            Ok(f) => f,
            Err(e) => {
                return Err(StreamError::Input(e));
            },
        };
        let sb: SampleBuffer<S> = SampleBuffer::new(
            frame.channels,
            frame.sample_rate,
            2 * period_len,
        );
        let mut buffer = PeriodBuffer::new(sb, period_len, period_len);
        // Reading the length brings the fact that it fits a machine word
        // into scope for the overflow reasoning below.
        let _frame_samples = frame.samples.len();
        proof {
            use_type_invariant(&frame.channels);
            vstd::arithmetic::div_mod::lemma_div_nonincreasing(
                frame.samples@.len() as int,
                frame.channels@,
            );
        }
        match buffer.push(&frame) {
            Ok(()) => Ok(BufferedInput { input, buffer }),
            Err(e) => Err(e),
        }
    }

    /// Pull frames from the input until the next window is available, then
    /// return it. Input errors propagate; there is no retry.
    pub fn next(&mut self) -> (r: Result<Period<'_, S>, StreamError>)
        requires
            old(self).wf(),
            old(self).periods().next_end_spec() + old(self).periods().stride_spec() <= usize::MAX,
        ensures
            final(self).wf(),
            final(self).periods().period_len_spec() == old(self).periods().period_len_spec(),
            final(self).periods().stride_spec() == old(self).periods().stride_spec(),
            old(self).periods().has_next_spec() && old(self).periods().next_start_retained()
                ==> r is Ok,
            match r {
                Ok(w) => {
                    &&& w.wf()
                    &&& w.buf() == final(self).periods().buffer_spec()
                    &&& w.start_spec() == old(self).periods().next_end_spec() - old(
                        self,
                    ).periods().period_len_spec()
                    &&& w.len_spec() == old(self).periods().period_len_spec()
                    &&& final(self).periods().next_end_spec() == old(self).periods().next_end_spec()
                        + old(self).periods().stride_spec()
                },
                Err(_) => true,
            },
    {
        let ghost pre: PeriodBuffer<S> = self.buffer;
        while !self.buffer.has_next()
            invariant
                self.buffer.wf(),
                self.buffer.period_len_spec() == pre.period_len_spec(),
                self.buffer.stride_spec() == pre.stride_spec(),
                self.buffer.next_end_spec() == pre.next_end_spec(),
                self.buffer.buffer_spec().channel_count() == pre.buffer_spec().channel_count(),
                pre == old(self).periods(),
                pre.has_next_spec() && pre.next_start_retained() ==> self.buffer.has_next_spec()
                    && self.buffer.next_start_retained(),
            decreases (if self.buffer.next_end_spec() >= self.buffer.buffer_spec().total() {
                self.buffer.next_end_spec() - self.buffer.buffer_spec().total()
            } else {
                0int
            }),
        {
            let frame = match self.input.read() {
                Ok(f) => f,
                Err(e) => {
                    return Err(StreamError::Input(e));
                },
            };
            // An empty frame makes no progress towards the next window and
            // would stall this loop forever; reject it as malformed.
            if frame.samples.len() == 0 {
                return Err(StreamError::Malformed);
            }
            let cc = self.buffer.buffer.channels.as_usize();
            // A frame so large that the running sample count would no
            // longer fit is rejected as malformed rather than pushed.
            if frame.samples.len() / cc > usize::MAX - self.buffer.buffer.sample_count {
                return Err(StreamError::Malformed);
            }
            match self.buffer.push(&frame) {
                Ok(()) => {
                    proof {
                        if frame.samples@.len() < cc {
                            vstd::arithmetic::div_mod::lemma_small_mod(
                                frame.samples@.len(),
                                cc as nat,
                            );
                        }
                        vstd::arithmetic::div_mod::lemma_div_non_zero(
                            frame.samples@.len() as int,
                            cc as int,
                        );
                    }
                },
                Err(e) => {
                    return Err(e);
                },
            }
        }
        match self.buffer.next() {
            Some(w) => Ok(w),
            None => Err(StreamError::WindowLost),
        }
    }
}

impl<S: Copy, T: Input<Item = S>> BufferedInput<S, InputAdapter<T, FrameAccumulator<S>>> {
    /// Adapt a raw scalar-sample source: scalars are grouped into frames of
    /// `period_len` interleaved samples, which then feed the sequencer.
    pub fn from_sample_input(
        input: T,
        channels: ChannelCount,
        sample_rate: SampleRate,
        period_len: usize,
    ) -> (r: Result<BufferedInput<S, InputAdapter<T, FrameAccumulator<S>>>, StreamError>)
        requires
            period_len >= 1,
            2 * period_len <= usize::MAX,
            period_len as int % channels@ == 0,
        ensures
            match r {
                Ok(b) => {
                    &&& b.wf()
                    &&& b.periods().period_len_spec() == period_len as int
                    &&& b.periods().stride_spec() == period_len as int
                    &&& b.periods().buffer_spec().capacity() == 2 * period_len as int
                },
                Err(_) => true,
            },
    {
        BufferedInput::new(
            InputAdapter::new(input, FrameAccumulator::new(channels, sample_rate, period_len)),
            period_len,
        )
    }
}

} // verus!
