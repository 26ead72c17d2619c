//! Failure taxonomy of the kernel.
//!
//! Every validating constructor is fallible and returns the specific failure
//! kind; a failed composition never corrupts already-accepted lower-level
//! entities.

use vstd::prelude::*;

verus! {

/// The ways a composition or an extraction can fail.
///
/// - `DisconnectedBoundary`: the edges handed to a wire do not chain
///   end-to-end.
/// - `UnclosedBoundary`: a wire that must form a closed loop does not.
/// - `OpenShell(k)`: the shell at position `k` is not a closed, connected
///   2-manifold, so it cannot bound a solid.
/// - `MalformedArchive`: a compressed archive holds an out-of-range index or
///   a parent with the wrong arity.
#[derive(Clone, Copy, Debug, PartialEq, Eq, Structural)]
pub enum TopologyError {
    DisconnectedBoundary,
    UnclosedBoundary,
    OpenShell(usize),
    MalformedArchive,
}

} // verus!
