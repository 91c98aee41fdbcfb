use vstd::prelude::*;

verus! {

/// Scheduling policy for one whole removal: chosen once at the top-level
/// call and propagated unchanged through the recursion — a subdirectory
/// never decides its own mode.
#[derive(Clone, Copy, Debug, PartialEq, Eq, Structural)]
pub enum ParallelMode {
    /// Depth-first traversal on the calling thread, entries in
    /// enumeration order.
    Serial,
    /// Entry processing is handed to a work-stealing pool; siblings and
    /// independent subtrees may run concurrently, in any relative order.
    Parallel,
}

/// The default policy: parallel where the build enables it, except on
/// platforms where parallel deletion is known not to pay off (macOS).
pub fn default_parallel_mode(parallel_enabled: bool, target_is_macos: bool) -> (mode: ParallelMode)
    ensures
        mode == (if parallel_enabled && !target_is_macos {
            ParallelMode::Parallel
        } else {
            ParallelMode::Serial
        }),
{
    if parallel_enabled && !target_is_macos {
        ParallelMode::Parallel
    } else {
        ParallelMode::Serial
    }
}

} // verus!
