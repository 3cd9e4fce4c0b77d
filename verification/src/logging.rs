//! Lifetime hooks of the tracing set-up.
use vstd::prelude::*;

verus! {

/// Ends tracing. Tracing needs no teardown: its layers flush when dropped.
pub fn tracing_shutdown() {
}

} // verus!
