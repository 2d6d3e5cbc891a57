//! Core of a real-time audio analysis pipeline: sample-indexed time
//! bookkeeping, a de-interlacing per-channel ring buffer with zero-copy
//! window views, a window sequencer, a frame accumulator, and conversion
//! between scientific pitch notation and semitone arithmetic.

pub mod coord;
pub mod pitch;
pub mod stream;
