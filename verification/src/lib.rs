//! A stateless light-client verification engine.
//!
//! The library establishes trust in blockchain headers without replaying
//! consensus: starting from one pre-trusted block it walks a chain of
//! intermediate headers to a target height, checking at every step that the
//! candidate header is fresh, monotone, continuous with the trusted validator
//! set, and signed by enough voting power.  Bisection keeps the chain of
//! intermediate checks short.  A divergence detector compares the verified
//! traces of two independent sources and assembles evidence when they
//! disagree about the canonical chain.

pub mod codec;
pub mod detector;
pub mod engine;
pub mod options;
pub mod parse;
pub mod store;
pub mod predicates;
pub mod types;
pub mod verbosity;
