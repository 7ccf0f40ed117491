//! The logic of a muxer that encodes a generated video stream and a generated
//! audio stream into one file.
//!
//! The library decides and computes: how the encoders are configured, what the
//! frames hold and how they are stamped, which stream is written next, and
//! what is asked of the encoder and the container in turn. The calls into the
//! media library itself are made by the program around it.

pub mod codec;
pub mod mux;
pub mod options;
pub mod picture;
pub mod raw;
pub mod stream;
pub mod time;
pub mod tone;
pub mod writer;

pub use time::{compare_ts, Rational, Timestamp};
