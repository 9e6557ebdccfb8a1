//! Message-framing and delivery core of a point-to-point publish/subscribe
//! and query protocol.
//!
//! The crate has three layers:
//! - [`zint`]: the variable-length integer and byte-buffer codec that every
//!   wire field uses;
//! - [`keyexpr`] and [`query`]: the query message, its key expression, target
//!   and consolidation policies, and the flag-driven frame format, with the
//!   round-trip law proved;
//! - [`session`]: the logical session over an unreliable link, with ordered
//!   dispatch to a bound handler, per-message reliability, and unique query
//!   identifiers; [`locator`] names the link endpoints such a session rides
//!   on.
//!
//! [`testgen`] draws arbitrary valid protocol values for fuzz-style
//! round-trip checks.

pub mod consolidation;
pub mod error;
pub mod keyexpr;
pub mod locator;
pub mod query;
pub mod session;
pub mod testgen;
pub mod zint;
