//! Recursion policy of the radiance estimator.
//!
//! Tracing one path alternates two things: intersecting the current ray with
//! the scene and letting the surface it meets scatter it, and deciding what to
//! do with what was found. The decisions live here; they are what guarantees
//! that every path ends.
use vstd::prelude::*;

verus! {

/// Number of bounces after which a path contributes no more light.
pub const MAX_DEPTH: u32 = 50;

/// What tracing one ray found.
#[derive(Clone, Copy, Debug, PartialEq, Eq)]
pub enum Surface {
    /// The ray left the scene.
    Missed,
    /// The ray hit a surface that absorbed it.
    Absorbed,
    /// The ray hit a surface that scattered it into a new ray.
    Scattered,
}

/// What the estimator does next.
#[derive(Clone, Copy, Debug, PartialEq, Eq)]
pub enum Step {
    /// Return the background radiance seen along the ray.
    Background,
    /// Return no radiance.
    Black,
    /// Trace the scattered ray at the given depth and weight what it returns.
    Bounce(u32),
}

/// The decision for a ray traced at `depth` that found `found`.
pub open spec fn step_for(depth: nat, found: Surface) -> Step {
    match found {
        Surface::Missed => Step::Background,
        Surface::Absorbed => Step::Black,
        Surface::Scattered => if depth < MAX_DEPTH {
            Step::Bounce((depth + 1) as u32)
        } else {
            Step::Black
        },
    }
}

/// Decides what to do with what the ray traced at `depth` found: the
/// background on a miss, nothing on absorption, and otherwise a bounce one
/// level deeper, unless the path has already bounced `MAX_DEPTH` times.
pub fn next_step(depth: u32, found: Surface) -> (r: Step)
    ensures
        r == step_for(depth as nat, found),
{
    match found {
        Surface::Missed => Step::Background,
        Surface::Absorbed => Step::Black,
        Surface::Scattered => {
            if depth < MAX_DEPTH {
                Step::Bounce(depth + 1)
            } else {
                Step::Black
            }
        },
    }
}

/// How a path traced from `depth` ends when the ray at depth `d` finds
/// `found(d)`: the final step taken (never a bounce) and the number of
/// bounces made on the way.
pub open spec fn path_end(depth: nat, found: spec_fn(nat) -> Surface) -> (Step, nat)
    decreases MAX_DEPTH - depth,
{
    match step_for(depth, found(depth)) {
        Step::Bounce(_) => if depth < MAX_DEPTH {
            let (last, bounces) = path_end(depth + 1, found);
            (last, bounces + 1)
        } else {
            (Step::Black, 0)
        },
        last => (last, 0),
    }
}

/// Every path ends: whatever each intersection finds, a path traced from the
/// camera ends after at most `MAX_DEPTH` bounces, on the background or on no
/// radiance.
pub proof fn lemma_path_ends(found: spec_fn(nat) -> Surface)
    ensures
        path_end(0, found).1 <= MAX_DEPTH,
        !(path_end(0, found).0 is Bounce),
{
    lemma_path_ends_from(0, found);
}

proof fn lemma_path_ends_from(depth: nat, found: spec_fn(nat) -> Surface)
    requires
        depth <= MAX_DEPTH,
    ensures
        path_end(depth, found).1 <= MAX_DEPTH - depth,
        !(path_end(depth, found).0 is Bounce),
    decreases MAX_DEPTH - depth,
{
    if step_for(depth, found(depth)) is Bounce {
        lemma_path_ends_from(depth + 1, found);
    }
}

/// The depth cutoff: once a path has bounced `MAX_DEPTH` times without being
/// absorbed, the next surface it meets contributes no radiance, whatever its
/// material does.
pub proof fn lemma_depth_cutoff(found: spec_fn(nat) -> Surface)
    requires
        forall|d: nat| d < MAX_DEPTH ==> #[trigger] found(d) == Surface::Scattered,
        found(MAX_DEPTH as nat) != Surface::Missed,
    ensures
        path_end(0, found) == (Step::Black, MAX_DEPTH as nat),
{
    lemma_cutoff_from(0, found);
}

proof fn lemma_cutoff_from(depth: nat, found: spec_fn(nat) -> Surface)
    requires
        depth <= MAX_DEPTH,
        forall|d: nat| d < MAX_DEPTH ==> #[trigger] found(d) == Surface::Scattered,
        found(MAX_DEPTH as nat) != Surface::Missed,
    ensures
        path_end(depth, found) == (Step::Black, (MAX_DEPTH - depth) as nat),
    decreases MAX_DEPTH - depth,
{
    if depth < MAX_DEPTH {
        lemma_cutoff_from(depth + 1, found);
    }
}

} // verus!
