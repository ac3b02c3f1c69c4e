//! Sequence-gap analysis for captured exchange market-data feeds.
//!
//! A captured frame is decoded down to its UDP payload ([`decode`]), the
//! feed's sequence range is read out of the payload ([`exchange`]), and the
//! range is observed on the stream that the packet's destination endpoint
//! names ([`engine`]), whose continuity state ([`stream`]) records what went
//! missing. [`config`] holds what a run is set up with, [`wire`] the
//! integers of the wire formats, and [`layout`] the byte layout of a frame
//! together with the proof that decoding reads it back.

pub mod config;
pub mod decode;
pub mod engine;
pub mod exchange;
pub mod layout;
pub mod stream;
pub mod wire;
