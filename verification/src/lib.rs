//! Core of a joint-telemetry publish/subscribe link.
//!
//! A producer emits periodic robot-state snapshots as topic-prefixed text
//! frames; an independent consumer receives them, rejects stale or malformed
//! data, and applies a best-effort partial update onto a name-indexed joint
//! registry that drives a downstream simulation.
//!
//! Physical quantities are carried as fixed-point integers in millionths of
//! their unit (micro-radians, micro-radians per second, micro-newton-meters),
//! and wire strings as ASCII byte vectors; the unverified shell around this
//! library converts at the boundary.

pub mod state;
pub mod codec;
pub mod roundtrip;
pub mod registry;
pub mod presets;
pub mod subscriber;
pub mod publisher;
pub mod text;
pub mod numeric;
