//! The decisions of the accelerated proximal-gradient iteration.
//!
//! One iteration alternates arithmetic, which the caller does, with
//! decisions, which are taken here: the projection of a candidate iterate
//! onto the non-negative samples, the adaptive restart of the momentum, the
//! convergence test, and whether a batch goes on.
use crate::binary32;
use crate::binary64;
use vstd::prelude::*;

verus! {

/// The iteration after which a restart may first happen.
pub const RESTART_AFTER: u32 = 1;

/// The iteration after which convergence may first be declared.
pub const CONVERGE_AFTER: u32 = 5;

/// The relative change below which the iteration counts as converged, when
/// nothing else is asked for: the value 1e-6.
pub const DEFAULT_TOLERANCE: u64 = 0x3eb0_c6f7_a0b5_ed8d;

/// What a batch of iterations owes next.
#[derive(Clone, Copy, Debug, PartialEq, Eq, Structural)]
pub enum BatchStep {
    /// The batch is over; the flag says whether the solver has converged.
    Finished(bool),
    /// One more iteration is to be run.
    Iterate,
}

/// The candidate with every sample clamped at zero.
pub open spec fn projected(candidate: Seq<u32>) -> Seq<u32> {
    Seq::new(candidate.len(), |i: int| binary32::spec_clamp_non_negative(candidate[i]))
}

/// Whether the momentum is restarted: past the first iteration, where the
/// step from the extrapolated point and the step from the previous iterate
/// have a product above zero.
pub open spec fn restarts(iteration: u32, dot: u64) -> bool {
    iteration > RESTART_AFTER && binary64::spec_lt(binary64::ZERO, dot)
}

/// Whether an iteration ends the solve: past the fifth iteration, where the
/// relative change of the iterate lies below the tolerance.
pub open spec fn converges(iteration: u32, rel_change: u64, tolerance: u64) -> bool {
    iteration > CONVERGE_AFTER && binary64::spec_lt(rel_change, tolerance)
}

/// What a batch with `remaining` iterations left owes next, for a solver
/// with `active_len` samples: nothing where there is no sample or the solver
/// has converged or no iteration is left.
pub open spec fn batch_step(active_len: nat, converged: bool, remaining: u32) -> BatchStep {
    if active_len == 0 || converged {
        BatchStep::Finished(true)
    } else if remaining == 0 {
        BatchStep::Finished(false)
    } else {
        BatchStep::Iterate
    }
}

/// Every sample of a projected candidate is a number at or above zero, and a
/// candidate of such numbers keeps their values.
pub proof fn lemma_projected_is_non_negative(candidate: Seq<u32>)
    ensures
        projected(candidate).len() == candidate.len(),
        forall|i: int|
            0 <= i < candidate.len() ==> binary32::is_non_negative(
                #[trigger] projected(candidate)[i],
            ),
        forall|i: int|
            0 <= i < candidate.len() && binary32::is_non_negative(candidate[i])
                ==> binary32::position(#[trigger] projected(candidate)[i]) == binary32::position(
                candidate[i],
            ),
        projected(projected(candidate)) == projected(candidate),
{
    assert forall|i: int| 0 <= i < candidate.len() implies binary32::is_non_negative(
        #[trigger] projected(candidate)[i],
    ) by {
        binary32::lemma_clamp_is_non_negative(candidate[i]);
    }
    assert forall|i: int|
        0 <= i < candidate.len() && binary32::is_non_negative(
            candidate[i],
        ) implies binary32::position(#[trigger] projected(candidate)[i]) == binary32::position(
        candidate[i],
    ) by {
        binary32::lemma_clamp_is_non_negative(candidate[i]);
    }
    assert(projected(projected(candidate)) =~= projected(candidate));
}

/// A dot product that is not a number, or not above zero, restarts nothing,
/// and neither does anything in the first iteration; from the second
/// iteration on, every pattern above that of zero up to that of infinity
/// restarts.
pub proof fn lemma_restart_needs_positive_dot(iteration: u32, dot: u64)
    ensures
        restarts(iteration, dot) ==> iteration >= 2 && !binary64::spec_is_nan(dot) && dot
            < binary64::SIGN_BIT && dot != binary64::ZERO,
        iteration >= 2 && 0 < dot <= binary64::INFINITY ==> restarts(iteration, dot),
{
}

/// No iteration before the sixth converges, and a relative change that is
/// not a number converges at none; from the sixth iteration on, every
/// pattern below that of the default tolerance converges under it.
pub proof fn lemma_convergence_needs_six_iterations(
    iteration: u32,
    rel_change: u64,
    tolerance: u64,
)
    ensures
        converges(iteration, rel_change, tolerance) ==> iteration >= 6,
        binary64::spec_is_nan(rel_change) ==> !converges(iteration, rel_change, tolerance),
        iteration >= 6 && rel_change < DEFAULT_TOLERANCE ==> converges(
            iteration,
            rel_change,
            DEFAULT_TOLERANCE,
        ),
{
}

/// Overwrites the front of the buffer with the projected candidate.
pub fn project_into(buf: &mut Vec<u32>, candidate: &[u32])
    requires
        candidate.len() <= old(buf).len(),
    ensures
        final(buf)@ == projected(candidate@) + old(buf)@.subrange(
            candidate.len() as int,
            old(buf).len() as int,
        ),
{
    let n = candidate.len();
    let mut i: usize = 0;
    while i < n
        invariant
            i <= n,
            n == candidate.len(),
            buf.len() == old(buf).len(),
            n <= buf.len(),
            forall|j: int|
                0 <= j < i ==> buf[j] == binary32::spec_clamp_non_negative(candidate[j]),
            forall|j: int| i <= j < buf.len() ==> buf[j] == old(buf)[j],
        decreases n - i,
    {
        buf[i] = binary32::clamp_non_negative(candidate[i]);
        i = i + 1;
    }
    assert(buf@ =~= projected(candidate@) + old(buf)@.subrange(
        candidate.len() as int,
        old(buf).len() as int,
    ));
}

/// Whether the momentum is restarted after iteration `iteration`.
pub fn should_restart(iteration: u32, dot: u64) -> (r: bool)
    ensures
        r == restarts(iteration, dot),
{
    iteration > RESTART_AFTER && binary64::lt(binary64::ZERO, dot)
}

/// Whether iteration `iteration` ends the solve.
pub fn has_converged(iteration: u32, rel_change: u64, tolerance: u64) -> (r: bool)
    ensures
        r == converges(iteration, rel_change, tolerance),
{
    iteration > CONVERGE_AFTER && binary64::lt(rel_change, tolerance)
}

} // verus!
