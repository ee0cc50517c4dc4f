//! Verified core of a soundboard: the button/tab data model, a binary
//! persistence codec for it, the waveform peak-envelope computation, and the
//! playback engine's state machine.
//!
//! Audio device handling, file dialogs and rendering are collaborators that
//! live outside this crate; they exchange plain values (byte vectors, bit
//! patterns of 32-bit floats, millisecond counts) with the verified code here.

pub mod codec;
pub mod color;
pub mod engine;
pub mod envelope;
pub mod model;
pub mod text;
pub mod timefmt;
pub mod wire;

pub use color::Color;
