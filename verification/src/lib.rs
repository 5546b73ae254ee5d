//! Host-side acquisition backend for a four-channel ADC instrument on a
//! serial link.
//!
//! The crate recovers framed samples from an unaligned byte stream
//! ([`protocol`] and [`processor`]), applies channel gating and
//! edge-trigger policy, publishes display records to a bounded
//! drop-oldest queue ([`sink`]), and renders rows for an optional
//! append-only log ([`logger`]).  The acquisition loop's state machine
//! and its per-chunk pipeline step live in [`acquisition`]; the
//! surrounding transport and process wiring is ordinary, unverified
//! glue kept outside this crate.

pub mod protocol;
pub mod sample;
pub mod text;
mod clock;
pub mod processor;
pub mod sink;
pub mod logger;
pub mod acquisition;
