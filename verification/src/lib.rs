//! Resolve the most recent commit on a branch of an upstream repository
//! whose continuous-integration run fully succeeded.
//!
//! The decision-making core is verified: classification of a commit's CI
//! outcome from its check-run conclusions, the time-bounded result cache,
//! and the fallback search over the ordered candidate list. Network calls
//! and response decoding live outside the library and hand in plain values.

pub mod cache;
pub mod checks;
pub mod probe;
pub mod resolver;
