//! Conformance-test runner core for a state-transition execution/proving
//! backend: walks a hierarchical corpus of test vectors, executes each vector
//! against a pluggable backend, classifies the outcome against an expected
//! state commitment, records every completed test and hands it to the
//! durable store before the next test begins, reports progress,
//! honours cooperative cancellation between tests, and — on a state-root
//! mismatch — diffs the backend's account output against a reference
//! interpreter's for diagnostics.

use vstd::prelude::*;

pub mod cancel;
pub mod diff;
pub mod laws;
pub mod model;
pub mod persist;
pub mod progress;
pub mod render;
pub mod run_state;
pub mod runner;

verus! {

} // verus!
