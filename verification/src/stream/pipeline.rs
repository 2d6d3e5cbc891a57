//! The push/pull stage capability: a component that accepts one input at a
//! time and, when ready, yields zero or one queued output per input.

use vstd::prelude::*;

verus! {

/// A pipeline stage polymorphic over exactly `push_input` and `pop_output`.
/// Chaining such stages composes a pipeline; `InputAdapter` drives one from
/// an upstream `Input`.
pub trait Step {
    type Input;

    type Output;

    fn push_input(&mut self, input: Self::Input);

    fn pop_output(&mut self) -> Option<Self::Output>;
}

} // verus!
