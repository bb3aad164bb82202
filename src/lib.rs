//! A MIDI 1.0 wire-protocol core for a control surface: a decoder that turns
//! raw frames into per-channel events (with 14-bit controller pairing), an
//! encoder for outbound frames, a trigger table that remaps gestures, and a
//! per-block processor that ties them together.

pub mod frame;
pub mod encode;
pub mod trigger;
pub mod decode;
pub mod processor;
pub mod params;
