//! What holds of the solver across its operations, stated over `SolverView`.
use crate::binary32;
use crate::binary64;
use crate::buffer;
use crate::codec;
use crate::fista;
use crate::fista::BatchStep;
use crate::filter::CutoffCandidates;
use crate::layout;
use crate::solver::SolverView;
use vstd::prelude::*;

verus! {

/// Whether every sample is a number at or above zero.
pub open spec fn all_non_negative(samples: Seq<u32>) -> bool {
    forall|i: int| 0 <= i < samples.len() ==> binary32::is_non_negative(#[trigger] samples[i])
}

/// After every iteration the solution and the extrapolated point are
/// non-negative in each sample, whatever candidates the arithmetic handed in;
/// the iteration is counted once, and the state stays well formed.
pub proof fn lemma_iterate_keeps_non_negative(
    s: SolverView,
    reconvolution: Seq<u32>,
    baseline: u64,
    candidate: Seq<u32>,
    dot: u64,
    t_next: u64,
    extrapolated: Seq<u32>,
    rel_change: u64,
)
    requires
        s.wf(),
        reconvolution.len() == s.trace.len(),
        candidate.len() == s.trace.len(),
        extrapolated.len() == s.trace.len(),
        s.iteration < u32::MAX,
    ensures
        ({
            let t = s.iterate(
                reconvolution,
                baseline,
                candidate,
                dot,
                t_next,
                extrapolated,
                rel_change,
            );
            &&& t.wf()
            &&& all_non_negative(t.solution)
            &&& all_non_negative(t.extrapolation)
            &&& t.previous == s.solution
            &&& t.iteration == s.iteration + 1
            &&& t.trace == s.trace
            &&& t.reconvolution_stale
            &&& t.capacity == s.capacity
        }),
{
    fista::lemma_projected_is_non_negative(candidate);
    fista::lemma_projected_is_non_negative(extrapolated);
}

/// The restart test and the momentum step leave the solution as the proximal
/// step made it, so the solution is non-negative after each of the three
/// steps of an iteration, and so after every batch.
pub proof fn lemma_steps_keep_solution(
    s: SolverView,
    dot: u64,
    t_next: u64,
    extrapolated: Seq<u32>,
    rel_change: u64,
)
    ensures
        s.adaptive_restart(dot).solution == s.solution,
        s.momentum_update(t_next, extrapolated, rel_change).solution == s.solution,
        s.step_batch().solution == s.solution,
        s.adaptive_restart(dot).iteration == s.iteration,
        s.momentum_update(t_next, extrapolated, rel_change).iteration == s.iteration,
        s.step_batch().iteration == s.iteration,
{
}

/// A batch is over exactly where there is no sample, the solver has
/// converged, or no iteration is left; it reports convergence in the first
/// two cases, and a solver without samples has converged from then on.
pub proof fn lemma_batch_step_cases(s: SolverView, remaining: u32)
    ensures
        s.batch_step(remaining) == BatchStep::Iterate <==> s.trace.len() > 0 && !s.converged
            && remaining > 0,
        s.batch_step(remaining) == BatchStep::Finished(true) <==> s.trace.len() == 0
            || s.converged,
        s.batch_step(remaining) == BatchStep::Finished(false) <==> s.trace.len() > 0
            && !s.converged && remaining == 0,
        s.batch_step(remaining) == BatchStep::Finished(true) ==> s.step_batch().converged,
        s.batch_step(remaining) != BatchStep::Finished(true) ==> s.step_batch() == s,
{
}

/// Once the solver has converged, an iteration does not take that back.
pub proof fn lemma_convergence_is_kept(
    s: SolverView,
    reconvolution: Seq<u32>,
    baseline: u64,
    candidate: Seq<u32>,
    dot: u64,
    t_next: u64,
    extrapolated: Seq<u32>,
    rel_change: u64,
)
    requires
        s.converged,
    ensures
        s.iterate(
            reconvolution,
            baseline,
            candidate,
            dot,
            t_next,
            extrapolated,
            rel_change,
        ).converged,
{
}

/// Installing a trace resets the solve: the iteration count is 0, the
/// momentum parameter 1, the solver has not converged, the baseline is zero,
/// and iterate and extrapolated point are zero in every sample. The state is
/// well formed, no buffer has shrunk, and the transform, where trace and
/// kernel are not empty, has room for their whole convolution.
pub proof fn lemma_set_trace_resets(s: SolverView, trace: Seq<u32>)
    requires
        s.wf(),
    ensures
        ({
            let t = s.set_trace(trace);
            &&& t.wf()
            &&& t.trace == trace
            &&& t.iteration == 0
            &&& t.t_fista == binary64::ONE
            &&& !t.converged
            &&& t.prev_objective == binary64::INFINITY
            &&& t.baseline == binary64::ZERO
            &&& t.reconvolution_stale
            &&& t.solution == buffer::zeros(trace.len())
            &&& t.extrapolation == buffer::zeros(trace.len())
            &&& all_non_negative(t.solution)
            &&& all_non_negative(t.extrapolation)
            &&& t.capacity >= s.capacity
            &&& t.fft.capacity >= s.fft.capacity
            &&& t.kernel == s.kernel
            &&& (trace.len() > 0 && s.kernel.len() > 0 ==> t.fft.fft_len >= trace.len()
                + s.kernel.len() - 1)
            &&& (trace.len() > 0 && s.kernel.len() > 0 ==> t.fft.fft_len == layout::padded_len(
                trace.len(),
                s.kernel.len(),
            ))
            &&& (s.fft.prepared && !s.fft.needs_rebuild(trace.len(), s.kernel.len())
                ==> t.fft == s.fft)
        }),
{
    if trace.len() > 0 && s.kernel.len() > 0 {
        layout::lemma_padded_len_holds_convolution(trace.len(), s.kernel.len());
    }
}

/// Setting parameters leaves trace, iterates and iteration state alone,
/// keeps the state well formed, and leaves the kernel spectrum unprepared:
/// the plans are kept where the transform still fits and dropped otherwise.
pub proof fn lemma_set_params_keeps_solve(
    s: SolverView,
    tau_rise: u64,
    tau_decay: u64,
    lambda: u64,
    fs: u64,
    kernel: Seq<u32>,
    dc_gain: u64,
    lipschitz: u64,
    cutoffs: CutoffCandidates,
)
    requires
        s.wf(),
    ensures
        ({
            let t = s.set_params(
                tau_rise,
                tau_decay,
                lambda,
                fs,
                kernel,
                dc_gain,
                lipschitz,
                cutoffs,
            );
            &&& t.wf()
            &&& t.trace == s.trace
            &&& t.solution == s.solution
            &&& t.extrapolation == s.extrapolation
            &&& t.iteration == s.iteration
            &&& t.t_fista == s.t_fista
            &&& t.converged == s.converged
            &&& t.capacity == s.capacity
            &&& t.fft.capacity == s.fft.capacity
            &&& !t.fft.prepared
            &&& (t.fft.fft_len == s.fft.fft_len || t.fft.fft_len == 0)
            &&& (t.fft.fft_len > 0 ==> t.fft.fft_len >= s.trace.len() + kernel.len() - 1)
            &&& t.filter.enabled == s.filter.enabled
            &&& (t.filter.valid ==> binary32::spec_lt(t.filter.f_hp, t.filter.f_lp))
        }),
{
}

/// Resetting the momentum sets the momentum parameter to 1 and makes the
/// solution the extrapolated point; nothing else changes.
pub proof fn lemma_reset_momentum(s: SolverView)
    requires
        s.wf(),
    ensures
        s.reset_momentum().wf(),
        s.reset_momentum().t_fista == binary64::ONE,
        s.reset_momentum().extrapolation == s.solution,
        s.reset_momentum().solution == s.solution,
        s.reset_momentum().iteration == s.iteration,
        s.reset_momentum().reset_momentum() == s.reset_momentum(),
{
}

/// The warm-start blob of a solver has exactly `24 + 8n` bytes for `n` active
/// samples. Loaded into a solver with the same number of samples it restores
/// momentum parameter, iteration count, baseline, solution and extrapolated
/// point, clears the convergence state and leaves the reconvolution stale;
/// loaded into the solver it came from, it changes nothing else.
pub proof fn lemma_warm_start_round_trip(s: SolverView, t: SolverView)
    requires
        s.wf(),
        t.wf(),
        t.trace.len() == s.trace.len(),
        s.trace.len() <= u32::MAX,
    ensures
        codec::encode(s.warm_start()).len() == codec::HEADER_LEN + 8 * s.trace.len(),
        ({
            let loaded = t.load_state(codec::encode(s.warm_start()));
            &&& loaded.wf()
            &&& loaded.t_fista == s.t_fista
            &&& loaded.iteration == s.iteration
            &&& loaded.baseline == s.baseline
            &&& loaded.solution == s.solution
            &&& loaded.extrapolation == s.extrapolation
            &&& !loaded.converged
            &&& loaded.prev_objective == binary64::INFINITY
            &&& loaded.reconvolution_stale
            &&& loaded.trace == t.trace
            &&& loaded.previous == t.previous
            &&& loaded.kernel == t.kernel
            &&& loaded.fft == t.fft
            &&& loaded.filter == t.filter
        }),
        s.load_state(codec::encode(s.warm_start())) == (SolverView {
            converged: false,
            prev_objective: binary64::INFINITY,
            reconvolution_stale: true,
            ..s
        }),
{
    let blob = codec::encode(s.warm_start());
    codec::lemma_encode_then_decode(s.warm_start());
    assert(codec::accepts(blob, s.trace.len()));
    assert(codec::decode(blob) == s.warm_start());
}

/// A blob that is empty, shorter than its header, of another size than
/// `24 + 8n`, or written for another number of samples restores nothing: the
/// solve is back at its cold start, as a freshly installed trace leaves it.
/// The solution is zero in every sample, no iteration is counted, the
/// momentum parameter is 1 and the solver has not converged. Whatever the
/// blob, loading keeps the state well formed and leaves trace, kernel,
/// parameters, buffers, convolver and filter as they were.
pub proof fn lemma_bad_blob_is_cold_start(s: SolverView, blob: Seq<u8>)
    requires
        s.wf(),
    ensures
        blob.len() == 0 ==> s.load_state(blob) == s.cold_start(),
        blob.len() < codec::HEADER_LEN ==> s.load_state(blob) == s.cold_start(),
        blob.len() != codec::HEADER_LEN + 8 * s.trace.len() ==> s.load_state(blob)
            == s.cold_start(),
        blob.len() >= 4 && codec::announced_len(blob) != s.trace.len() ==> s.load_state(blob)
            == s.cold_start(),
        !codec::accepts(blob, s.trace.len()) ==> s.load_state(blob) == s.cold_start(),
        s.cold_start().solution == buffer::zeros(s.trace.len()),
        s.cold_start().extrapolation == buffer::zeros(s.trace.len()),
        s.cold_start().iteration == 0,
        s.cold_start().t_fista == binary64::ONE,
        s.cold_start().baseline == binary64::ZERO,
        !s.cold_start().converged,
        s.cold_start().reconvolution_stale,
        s.cold_start().fft == s.fft,
        s.cold_start() == (SolverView {
            trace: s.trace,
            capacity: s.capacity,
            fft: s.fft,
            ..s.set_trace(s.trace)
        }),
        s.load_state(blob).wf(),
        s.load_state(blob).trace == s.trace,
        s.load_state(blob).kernel == s.kernel,
        s.load_state(blob).lambda == s.lambda,
        s.load_state(blob).capacity == s.capacity,
        s.load_state(blob).fft == s.fft,
        s.load_state(blob).filter == s.filter,
        !s.load_state(blob).converged,
        s.load_state(blob).reconvolution_stale,
{
    if codec::accepts(blob, s.trace.len()) {
        codec::lemma_decode_then_encode(blob, s.trace.len());
    }
}

/// No operation shrinks a buffer: the room for samples, for spectrum bins and
/// for the power spectrum is after each operation at least what it was.
pub proof fn lemma_buffers_never_shrink(
    s: SolverView,
    trace: Seq<u32>,
    kernel: Seq<u32>,
    cutoffs: CutoffCandidates,
    blob: Seq<u8>,
    samples: Seq<u32>,
    scalar: u64,
    n: nat,
)
    requires
        s.wf(),
    ensures
        s.set_trace(trace).capacity >= s.capacity,
        s.set_trace(trace).capacity >= trace.len(),
        s.set_trace(trace).fft.capacity >= s.fft.capacity,
        s.set_trace(trace).filter.power_spectrum.len() == s.filter.power_spectrum.len(),
        s.set_params(scalar, scalar, scalar, scalar, kernel, scalar, scalar, cutoffs).capacity
            == s.capacity,
        s.set_params(scalar, scalar, scalar, scalar, kernel, scalar, scalar, cutoffs).fft.capacity
            == s.fft.capacity,
        s.set_params(
            scalar,
            scalar,
            scalar,
            scalar,
            kernel,
            scalar,
            scalar,
            cutoffs,
        ).filter.power_spectrum == s.filter.power_spectrum,
        s.load_state(blob).capacity == s.capacity,
        s.reset_momentum().capacity == s.capacity,
        s.proximal_update(samples, scalar, samples).capacity == s.capacity,
        s.adaptive_restart(scalar).capacity == s.capacity,
        s.momentum_update(scalar, samples, scalar).capacity == s.capacity,
        s.store_reconvolution(samples, scalar).capacity == s.capacity,
        s.apply_filter(samples).capacity == s.capacity,
        s.fft.ensure_buffers(n, kernel.len()).capacity >= s.fft.capacity,
        s.fft.invalidate().capacity == s.fft.capacity,
        s.fft.kernel_changed().capacity == s.fft.capacity,
        s.filter.install_gain_curve(n, samples).power_spectrum.len()
            >= s.filter.power_spectrum.len(),
        crate::filter::laid_over(s.filter.power_spectrum, samples).len()
            >= s.filter.power_spectrum.len(),
{
}

/// Installing a trace forgets the solve that went before: two solvers with
/// the same parameters, kernel, tolerance, buffers, convolver and filter are
/// in the same state after the same trace was installed, whatever their
/// iterates, counts and flags were. From there on each operation gives the
/// next state as a function of state and input, so equal inputs give equal
/// solves.
pub proof fn lemma_set_trace_forgets_the_solve(a: SolverView, b: SolverView, trace: Seq<u32>)
    requires
        a.tau_rise == b.tau_rise,
        a.tau_decay == b.tau_decay,
        a.lambda == b.lambda,
        a.fs == b.fs,
        a.kernel == b.kernel,
        a.dc_gain == b.dc_gain,
        a.lipschitz == b.lipschitz,
        a.tolerance == b.tolerance,
        a.capacity == b.capacity,
        a.fft == b.fft,
        a.filter == b.filter,
    ensures
        a.set_trace(trace) == b.set_trace(trace),
{
}

/// What the arithmetic of one iteration hands in.
pub struct IterationInput {
    pub reconvolution: Seq<u32>,
    pub baseline: u64,
    pub candidate: Seq<u32>,
    pub dot: u64,
    pub t_next: u64,
    pub extrapolated: Seq<u32>,
    pub rel_change: u64,
}

/// The state after a run of iterations, each one after the batch was asked
/// what it owes, with `inputs[i]` handed in at iteration `i`.
pub open spec fn after_iterations(s: SolverView, inputs: Seq<IterationInput>) -> SolverView
    decreases inputs.len(),
{
    if inputs.len() == 0 {
        s
    } else {
        let input = inputs.last();
        after_iterations(s, inputs.drop_last()).step_batch().iterate(
            input.reconvolution,
            input.baseline,
            input.candidate,
            input.dot,
            input.t_next,
            input.extrapolated,
            input.rel_change,
        )
    }
}

/// Iterations keep the iterates non-negative: where solution and
/// extrapolated point are non-negative in each sample, they are so after any
/// number of iterations, whatever the arithmetic handed in, and after the
/// batch decision that follows.
pub proof fn lemma_iterations_keep_non_negative(s: SolverView, inputs: Seq<IterationInput>)
    requires
        all_non_negative(s.solution),
        all_non_negative(s.extrapolation),
    ensures
        all_non_negative(after_iterations(s, inputs).solution),
        all_non_negative(after_iterations(s, inputs).extrapolation),
        all_non_negative(after_iterations(s, inputs).step_batch().solution),
        after_iterations(s, inputs).trace == s.trace,
        inputs.len() > 0 ==> after_iterations(s, inputs).solution.len()
            == inputs.last().candidate.len(),
{
    if inputs.len() > 0 {
        let input = inputs.last();
        fista::lemma_projected_is_non_negative(input.candidate);
        fista::lemma_projected_is_non_negative(input.extrapolated);
        lemma_iterations_keep_trace(s, inputs);
    }
}

/// Iterations leave the trace alone.
proof fn lemma_iterations_keep_trace(s: SolverView, inputs: Seq<IterationInput>)
    ensures
        after_iterations(s, inputs).trace == s.trace,
    decreases inputs.len(),
{
    if inputs.len() > 0 {
        lemma_iterations_keep_trace(s, inputs.drop_last());
    }
}

/// The solution is non-negative in each sample after every batch: from an
/// installed trace, and from the cold start that a rejected blob leaves, any
/// number of iterations on any values gives a solution and an extrapolated
/// point of numbers at or above zero. As long as the count fits 32 bits it
/// is the number of iterations run.
pub proof fn lemma_solution_non_negative_after_every_batch(
    s: SolverView,
    trace: Seq<u32>,
    blob: Seq<u8>,
    inputs: Seq<IterationInput>,
)
    ensures
        all_non_negative(after_iterations(s.set_trace(trace), inputs).solution),
        all_non_negative(after_iterations(s.set_trace(trace), inputs).extrapolation),
        all_non_negative(after_iterations(s.cold_start(), inputs).solution),
        all_non_negative(after_iterations(s.cold_start(), inputs).extrapolation),
        !codec::accepts(blob, s.trace.len()) ==> all_non_negative(
            after_iterations(s.load_state(blob), inputs).solution,
        ),
        inputs.len() <= u32::MAX ==> after_iterations(s.set_trace(trace), inputs).iteration
            == inputs.len(),
{
    assert(all_non_negative(buffer::zeros(trace.len())));
    assert(all_non_negative(buffer::zeros(s.trace.len())));
    lemma_iterations_keep_non_negative(s.set_trace(trace), inputs);
    lemma_iterations_keep_non_negative(s.cold_start(), inputs);
    if inputs.len() <= u32::MAX {
        lemma_iterations_count(s.set_trace(trace), inputs);
    }
}

/// Each iteration is counted once.
proof fn lemma_iterations_count(s: SolverView, inputs: Seq<IterationInput>)
    requires
        s.iteration + inputs.len() <= u32::MAX,
    ensures
        after_iterations(s, inputs).iteration == s.iteration + inputs.len(),
    decreases inputs.len(),
{
    if inputs.len() > 0 {
        lemma_iterations_count(s, inputs.drop_last());
    }
}

/// Handing in the reconvolution of the solution makes it current, and the
/// next proximal or momentum step makes it stale again.
pub proof fn lemma_reconvolution_staleness(
    s: SolverView,
    reconvolution: Seq<u32>,
    baseline: u64,
    candidate: Seq<u32>,
)
    requires
        s.wf(),
        reconvolution.len() == s.trace.len(),
    ensures
        s.store_reconvolution(reconvolution, baseline).wf(),
        s.store_reconvolution(reconvolution, baseline).reconvolution_plan()
            == crate::solver::ReconvolutionPlan::Current,
        s.store_reconvolution(reconvolution, baseline).reconvolution == reconvolution,
        s.store_reconvolution(reconvolution, baseline).baseline == baseline,
        s.trace.len() > 0 ==> s.proximal_update(reconvolution, baseline, candidate)
            .reconvolution_plan() != crate::solver::ReconvolutionPlan::Current,
        s.set_trace(s.trace).reconvolution_stale,
        s.cold_start().reconvolution_stale,
{
}

} // verus!
