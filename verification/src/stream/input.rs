//! The upstream source abstraction: a blocking producer of items (frames or
//! raw samples) that the buffering stages pull from.

use vstd::prelude::*;
use crate::stream::Frame;
use crate::stream::buffer::FrameAccumulator;
use crate::stream::pipeline::Step;

verus! {

/// Why an input source stopped producing.
#[derive(Copy, Clone, Debug, PartialEq, Eq, Structural)]
pub enum InputError {
    /// The source is permanently closed; no further item will ever come.
    Closed,
    /// The source failed; the owning loop terminates without retrying.
    Failed,
}

/// A blocking source of items. Implementors sit at the hardware or test
/// boundary, so nothing is promised about the items they hand back; the
/// verified stages downstream check every frame against their own
/// configuration.
pub trait Input {
    type Item;

    fn read(&mut self) -> Result<Self::Item, InputError>;
}

/// Drives a pipeline stage from an upstream input: reading pulls items from
/// the underlying source through the stage until the stage yields an output.
pub struct InputAdapter<T, P> {
    input: T,
    step: P,
}

impl<T, P> InputAdapter<T, P> {
    /// The pipeline stage being driven.
    pub closed spec fn stage(&self) -> P {
        self.step
    }
}

impl<T: Input, P: Step<Input = <T as Input>::Item>> InputAdapter<T, P> {
    pub fn new(input: T, step: P) -> (r: InputAdapter<T, P>)
        ensures
            r.stage() == step,
    {
        InputAdapter { input, step }
    }
}

impl<S: Copy, T: Input<Item = S>> Input for InputAdapter<T, FrameAccumulator<S>> {
    type Item = Frame<S>;

    /// Pull scalars from the source into the accumulator until it yields a
    /// frame: every frame handed out carries the accumulator's configured
    /// channel count and rate and exactly one frame's worth of samples, a
    /// full accumulator yields without reading, and a read fails if the
    /// accumulator is found overfilled, which a fresh adapter never is.
    fn read(&mut self) -> (r: Result<Frame<S>, InputError>)
        ensures
            final(self).stage().channels_spec() == old(self).stage().channels_spec(),
            final(self).stage().rate_spec() == old(self).stage().rate_spec(),
            final(self).stage().frame_len_spec() == old(self).stage().frame_len_spec(),
            old(self).stage().pending().len() == old(self).stage().frame_len_spec() ==> r is Ok,
            match r {
                Ok(f) => {
                    &&& f.channels@ == old(self).stage().channels_spec()
                    &&& f.sample_rate@ == old(self).stage().rate_spec()
                    &&& f.samples@.len() == old(self).stage().frame_len_spec()
                    &&& final(self).stage().pending() == Seq::<S>::empty()
                },
                Err(_) => true,
            },
    {
        match self.step.pop_output() {
            Some(out) => {
                return Ok(out);
            },
            None => {},
        }
        let ghost pre: FrameAccumulator<S> = self.step;
        loop
            invariant
                self.step.channels_spec() == pre.channels_spec(),
                self.step.rate_spec() == pre.rate_spec(),
                self.step.frame_len_spec() == pre.frame_len_spec(),
                pre == old(self).stage(),
                old(self).stage().pending().len() != old(self).stage().frame_len_spec(),
            decreases self.step.frame_len_spec() - self.step.pending().len(),
        {
            if self.step.pending_len() >= self.step.frame_len() {
                return Err(InputError::Failed);
            }
            match self.input.read() {
                Ok(v) => self.step.push_input(v),
                Err(e) => {
                    return Err(e);
                },
            }
            match self.step.pop_output() {
                Some(out) => {
                    return Ok(out);
                },
                None => {},
            }
        }
    }
}

} // verus!
