//! A single-route authenticated reverse-proxy gateway, as a verified
//! library: signed access tokens with expiry (`token`, over the wire
//! format of `wire` and the primitives of `crypto`), a per-user
//! fixed-window rate limiter (`ratelimit`), online per-user latency
//! statistics with flush-and-reset (`stats`), the shared service state
//! tying them together (`state`, `gate`), and the shape of what is
//! relayed back to the caller (`forward`).  The HTTP listener, the
//! outbound client and the log sink live outside the library and hand it
//! plain values.

pub mod clock;
pub mod config;
pub mod crypto;
pub mod forward;
pub mod gate;
pub mod ratelimit;
pub mod state;
pub mod stats;
pub mod token;
pub mod wire;
