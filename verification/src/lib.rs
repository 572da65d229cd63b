//! Verified core of a relocatable Python virtualenv materializer for
//! hermetic, Bazel-style build sandboxes.
//!
//! The crate covers the runfiles addressing protocol, the venv layout and
//! population planner with destination-collision resolution, the run-time
//! interpreter-resolution logic used by the venv's interpreter shim, and the
//! Python-style argument normalizer.  Filesystem and process work is left to
//! thin unverified callers; everything here is pure logic over plain values.
use vstd::prelude::*;

pub mod paths;
pub mod pth;
pub mod pyargs;
pub mod runfiles;
pub mod shim;
pub mod strutil;
pub mod venv;

pub use pth::{PthFile, SymlinkCollisionResolutionStrategy};

verus! {

} // verus!
