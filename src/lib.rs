//! A multi-voice wavetable synthesizer core in fixed point.
//!
//! Samples and gains are Q16 integers (`ONE` is 1.0), envelopes are Q30,
//! frequencies are in milli-hertz and phases are 32-bit fractions of a cycle.
//! The control side (`control`) validates parameters; `shared` hands them to
//! the audio thread through atomics and an atomically swapped table; the
//! render side (`render`) turns a parameter snapshot and per-voice oscillator
//! state into output frames.

pub mod control;
pub mod fixed;
pub mod render;
pub mod shared;
pub mod voice;
pub mod wavetable;

