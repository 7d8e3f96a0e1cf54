//! Remote-control client core: the framed command protocol and the
//! audio-volume model, with machine-checked contracts.
//!
//! The crate covers the parts of the client that carry real invariants:
//! unit conversion and clamping between decibel, linear-voltage and
//! fractional loudness (`volume`), decoding of the two wire frame shapes
//! (`codec`), the canonical event serialization (`json`), the input-event
//! model and its dispatch plans (`events`), and the session state machine
//! that drives the request loop (`session`).  All I/O, the OS volume
//! endpoint and the raw input injection live outside the crate and hand
//! plain values in and out.

pub mod fixmath;
pub mod volume;
pub mod codec;
pub mod events;
pub mod session;
pub mod json;

