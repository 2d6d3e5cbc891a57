//! Sample-indexed time model: `Instant`, `Duration` and `Period` values
//! scoped to a fixed `SampleRate`, plus the `Frame` type carrying one block
//! of interleaved samples and the error taxonomy of the streaming core.

use vstd::prelude::*;

pub mod buffer;
pub mod input;
pub mod pipeline;

verus! {

/// Why two time values could not be combined.
#[derive(Copy, Clone, Debug, PartialEq, Eq, Structural)]
pub enum TimeError {
    /// The two values belong to different sample rates.
    RateMismatch,
    /// The subtraction would produce a negative sample count.
    Underflow,
}

/// Number of interleaved channels in a frame; positive by construction.
#[derive(Copy, Clone, Debug, PartialEq, Eq, Structural)]
pub struct ChannelCount(u16);

impl View for ChannelCount {
    type V = int;

    closed spec fn view(&self) -> int {
        self.0 as int
    }
}

impl ChannelCount {
    #[verifier::type_invariant]
    spec fn positive(&self) -> bool {
        self.0 >= 1
    }

    pub fn new(c: u16) -> (r: ChannelCount)
        requires
            c >= 1,
        ensures
            r@ == c as int,
    {
        ChannelCount(c)
    }

    pub fn get(&self) -> (r: u16)
        ensures
            r as int == self@,
    {
        self.0
    }

    pub fn as_usize(&self) -> (r: usize)
        ensures
            r as int == self@,
            r >= 1,
    {
        proof {
            use_type_invariant(self);
        }
        self.0 as usize
    }
}

/// Samples per second; positive by construction.
#[derive(Copy, Clone, Debug, PartialEq, Eq, Structural)]
pub struct SampleRate(u32);

impl View for SampleRate {
    type V = int;

    closed spec fn view(&self) -> int {
        self.0 as int
    }
}

impl SampleRate {
    #[verifier::type_invariant]
    spec fn positive(&self) -> bool {
        self.0 >= 1
    }

    pub fn new(s: u32) -> (r: SampleRate)
        requires
            s >= 1,
        ensures
            r@ == s as int,
    {
        SampleRate(s)
    }

    pub fn get(&self) -> (r: u32)
        ensures
            r as int == self@,
            r >= 1,
    {
        proof {
            use_type_invariant(self);
        }
        self.0
    }

    pub fn as_usize(&self) -> (r: usize)
        ensures
            r as int == self@,
            r >= 1,
    {
        proof {
            use_type_invariant(self);
        }
        self.0 as usize
    }
}

/// An absolute position in a signal, counted in samples since stream start.
#[derive(Copy, Clone, Debug, PartialEq, Eq, Structural)]
pub struct Instant {
    sample_index: usize,
    sample_rate: SampleRate,
}

impl Instant {
    /// The sample index this instant stands at.
    pub closed spec fn idx(&self) -> int {
        self.sample_index as int
    }

    /// The sample rate this instant is scoped to.
    pub closed spec fn rate(&self) -> int {
        self.sample_rate@
    }

    pub fn new(sample_index: usize, sample_rate: SampleRate) -> (r: Instant)
        ensures
            r.idx() == sample_index as int,
            r.rate() == sample_rate@,
    {
        Instant { sample_index, sample_rate }
    }

    /// The raw sample index, checked against the rate the caller believes in.
    pub fn index(&self, rate: SampleRate) -> (r: usize)
        requires
            rate@ == self.rate(),
        ensures
            r as int == self.idx(),
    {
        self.sample_index
    }

    /// `self - rhs` as an elapsed `Duration`; the rates must agree and the
    /// right operand must not be later than the left.
    pub fn sub(self, rhs: Instant) -> (r: Result<Duration, TimeError>)
        ensures
            match r {
                Ok(d) => self.rate() == rhs.rate() && self.idx() >= rhs.idx()
                    && d.count() == self.idx() - rhs.idx() && d.rate() == self.rate(),
                Err(TimeError::RateMismatch) => self.rate() != rhs.rate(),
                Err(TimeError::Underflow) => self.rate() == rhs.rate() && self.idx() < rhs.idx(),
            },
    {
        if self.sample_rate != rhs.sample_rate {
            Err(TimeError::RateMismatch)
        } else if self.sample_index < rhs.sample_index {
            Err(TimeError::Underflow)
        } else {
            Ok(Duration::new(self.sample_index - rhs.sample_index, self.sample_rate))
        }
    }

    /// `self + rhs`, an instant moved later by an elapsed duration.
    pub fn add(self, rhs: Duration) -> (r: Result<Instant, TimeError>)
        requires
            self.idx() + rhs.count() <= usize::MAX,
        ensures
            match r {
                Ok(i) => self.rate() == rhs.rate() && i.idx() == self.idx() + rhs.count()
                    && i.rate() == self.rate(),
                Err(TimeError::RateMismatch) => self.rate() != rhs.rate(),
                Err(TimeError::Underflow) => false,
            },
    {
        if self.sample_rate != rhs.sample_rate {
            Err(TimeError::RateMismatch)
        } else {
            Ok(Instant::new(self.sample_index + rhs.sample_count, self.sample_rate))
        }
    }

    /// `self - rhs`, an instant moved earlier by an elapsed duration.
    pub fn sub_duration(self, rhs: Duration) -> (r: Result<Instant, TimeError>)
        ensures
            match r {
                Ok(i) => self.rate() == rhs.rate() && self.idx() >= rhs.count()
                    && i.idx() == self.idx() - rhs.count() && i.rate() == self.rate(),
                Err(TimeError::RateMismatch) => self.rate() != rhs.rate(),
                Err(TimeError::Underflow) => self.rate() == rhs.rate() && self.idx() < rhs.count(),
            },
    {
        if self.sample_rate != rhs.sample_rate {
            Err(TimeError::RateMismatch)
        } else if self.sample_index < rhs.sample_count {
            Err(TimeError::Underflow)
        } else {
            Ok(Instant::new(self.sample_index - rhs.sample_count, self.sample_rate))
        }
    }
}

impl PartialOrd for Instant {
    /// Total order among instants of one sample rate; instants of different
    /// rates are incomparable.
    fn partial_cmp(&self, other: &Self) -> (r: Option<core::cmp::Ordering>) {
        if self.sample_rate != other.sample_rate {
            None
        } else if self.sample_index < other.sample_index {
            Some(core::cmp::Ordering::Less)
        } else if self.sample_index == other.sample_index {
            Some(core::cmp::Ordering::Equal)
        } else {
            Some(core::cmp::Ordering::Greater)
        }
    }
}

impl vstd::std_specs::cmp::PartialOrdSpecImpl for Instant {
    open spec fn obeys_partial_cmp_spec() -> bool {
        true
    }

    open spec fn partial_cmp_spec(&self, other: &Self) -> Option<core::cmp::Ordering> {
        if self.rate() != other.rate() {
            None
        } else if self.idx() < other.idx() {
            Some(core::cmp::Ordering::Less)
        } else if self.idx() == other.idx() {
            Some(core::cmp::Ordering::Equal)
        } else {
            Some(core::cmp::Ordering::Greater)
        }
    }
}

/// A non-negative span of time, counted in samples at a fixed rate.
#[derive(Copy, Clone, Debug, PartialEq, Eq, Structural)]
pub struct Duration {
    sample_count: usize,
    sample_rate: SampleRate,
}

impl Duration {
    /// The number of samples this duration spans.
    pub closed spec fn count(&self) -> int {
        self.sample_count as int
    }

    /// The sample rate this duration is scoped to.
    pub closed spec fn rate(&self) -> int {
        self.sample_rate@
    }

    pub fn new(sample_count: usize, sample_rate: SampleRate) -> (r: Duration)
        ensures
            r.count() == sample_count as int,
            r.rate() == sample_rate@,
    {
        Duration { sample_count, sample_rate }
    }

    /// The duration from stream start up to `i`.
    pub fn from_start(i: Instant) -> (r: Duration)
        ensures
            r.count() == i.idx(),
            r.rate() == i.rate(),
    {
        Duration { sample_count: i.sample_index, sample_rate: i.sample_rate }
    }

    pub fn sample_count(&self) -> (r: usize)
        ensures
            r as int == self.count(),
    {
        self.sample_count
    }

    pub fn sample_rate(&self) -> (r: SampleRate)
        ensures
            r@ == self.rate(),
    {
        self.sample_rate
    }

    /// Wall-clock form: whole seconds and the remainder in nanoseconds,
    /// computed in integers so large counts lose no precision.
    pub fn to_secs_nanos(&self) -> (r: (u64, u32))
        ensures
            r.0 as int == self.count() / self.rate(),
            r.1 as int == (self.count() % self.rate()) * 1_000_000_000 / self.rate(),
            r.1 < 1_000_000_000,
    {
        proof {
            use_type_invariant(&self.sample_rate);
        }
        let rate: u64 = self.sample_rate.get() as u64;
        let count: u64 = self.sample_count as u64;
        let secs: u64 = count / rate;
        let remain: u64 = count % rate;
        let nanos: u64 = remain * 1_000_000_000 / rate;
        proof {
            assert(remain < rate);
            assert((remain as int) * 1_000_000_000 < (rate as int) * 1_000_000_000) by (nonlinear_arith)
                requires
                    remain < rate,
                    rate >= 1,
            ;
            assert((remain as int) * 1_000_000_000 / (rate as int) < 1_000_000_000) by (nonlinear_arith)
                requires
                    (remain as int) * 1_000_000_000 < (rate as int) * 1_000_000_000,
                    rate >= 1,
            ;
        }
        (secs, nanos as u32)
    }
}

/// A logical window descriptor: `sample_count` samples starting at
/// `start_index`, scoped to a sample rate. A plain value, tied to no buffer.
#[derive(Copy, Clone, Debug, PartialEq, Eq, Structural)]
pub struct Period {
    start_index: usize,
    sample_count: usize,
    sample_rate: SampleRate,
}

impl Period {
    /// The sample index of the first sample in the window.
    pub closed spec fn start_spec(&self) -> int {
        self.start_index as int
    }

    /// The number of samples in the window.
    pub closed spec fn count(&self) -> int {
        self.sample_count as int
    }

    /// The sample rate the window is scoped to.
    pub closed spec fn rate(&self) -> int {
        self.sample_rate@
    }

    pub fn new(start_index: usize, sample_count: usize, sample_rate: SampleRate) -> (r: Period)
        requires
            start_index + sample_count <= usize::MAX,
        ensures
            r.start_spec() == start_index as int,
            r.count() == sample_count as int,
            r.rate() == sample_rate@,
    {
        Period { start_index, sample_count, sample_rate }
    }

    pub fn start(&self) -> (r: Instant)
        ensures
            r.idx() == self.start_spec(),
            r.rate() == self.rate(),
    {
        Instant::new(self.start_index, self.sample_rate)
    }

    pub fn end(&self) -> (r: Instant)
        requires
            self.start_spec() + self.count() <= usize::MAX,
        ensures
            r.idx() == self.start_spec() + self.count(),
            r.rate() == self.rate(),
    {
        Instant::new(self.start_index + self.sample_count, self.sample_rate)
    }

    pub fn duration(&self) -> (r: Duration)
        ensures
            r.count() == self.count(),
            r.rate() == self.rate(),
    {
        Duration::new(self.sample_count, self.sample_rate)
    }

    pub fn sample_rate(&self) -> (r: SampleRate)
        ensures
            r@ == self.rate(),
    {
        self.sample_rate
    }
}

/// One block of interleaved samples received from an input source or built
/// by a frame accumulator: sample `i` belongs to channel `i % channels`.
#[derive(Clone, Debug)]
pub struct Frame<S> {
    pub channels: ChannelCount,
    pub sample_rate: SampleRate,
    pub samples: Vec<S>,
}

} // verus!
