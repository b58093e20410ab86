//! Streaming push-style adapters over a block compression engine.
//!
//! A caller hands arbitrary-sized chunks of bytes to an [`encoder::Encoder`]
//! or a [`decoder::Decoder`]; the adapter drives the stateful block engine
//! through its buffer-exhaustion protocol and hands the produced bytes to a
//! downstream [`sink::Sink`], taking care of container framing, trailer
//! checksums, and cumulative counters across concatenated streams.

pub mod adler;
pub mod decoder;
pub mod encoder;
pub mod engine;
pub mod format;
pub mod laws;
pub mod member;
pub mod presets;
pub mod sink;
