//! The state of the deconvolution solver.
//!
//! The solver recovers a sparse non-negative spike train `s` and a scalar
//! baseline `b` from a trace `y` by minimising
//! `1/2 |y - K*s - b|^2 + lambda G |s|_1` over `s >= 0`, where `K*s` is the
//! causal convolution with the kernel and `G` the sum of the kernel.
//!
//! `Solver` owns the parameters, the kernel, the working buffers and the
//! iteration state, and takes every decision of the solve. The arithmetic of
//! an iteration (transforms, sums, products) is done by the caller, who reads
//! the buffers, computes, and hands the results back; what is handed back is
//! checked and projected here before it becomes part of the state. Samples
//! are binary32 bit patterns, scalars binary64 bit patterns.
use crate::binary64;
use crate::buffer;
use crate::codec;
use crate::fft::FftConvolver;
use crate::fft::FftConvolverView;
use crate::fft::SpectrumBin;
use crate::filter;
use crate::filter::BandpassFilter;
use crate::filter::BandpassFilterView;
use crate::filter::CutoffCandidates;
use crate::filter::TaperEdges;
use crate::fista;
use crate::fista::BatchStep;
use crate::kernel::Kernel;
use crate::layout;
use vstd::prelude::*;

verus! {

/// The rise time constant of a new solver, the value 0.02.
pub const DEFAULT_TAU_RISE: u64 = 0x3f94_7ae1_47ae_147b;

/// The decay time constant of a new solver, the value 0.4.
pub const DEFAULT_TAU_DECAY: u64 = 0x3fd9_9999_9999_999a;

/// The sparsity weight of a new solver, the value 0.01.
pub const DEFAULT_LAMBDA: u64 = 0x3f84_7ae1_47ae_147b;

/// The sampling rate of a new solver, the value 30.0.
pub const DEFAULT_FS: u64 = 0x403e_0000_0000_0000;

/// How the reconvolution of the current solution is to be had.
#[derive(Clone, Copy, Debug, PartialEq, Eq, Structural)]
pub enum ReconvolutionPlan {
    /// The stored reconvolution is that of the solution, or there is no
    /// sample to convolve.
    Current,
    /// It is to be computed by a forward transform convolution.
    Transform,
    /// It is to be computed in the time domain: no transform is planned.
    Direct,
}

/// The solver.
pub struct Solver {
    tau_rise: u64,
    tau_decay: u64,
    lambda: u64,
    fs: u64,
    trace: Vec<u32>,
    solution: Vec<u32>,
    extrapolation: Vec<u32>,
    reconvolution: Vec<u32>,
    previous: Vec<u32>,
    kernel: Vec<u32>,
    iteration: u32,
    t_fista: u64,
    converged: bool,
    active_len: usize,
    prev_objective: u64,
    tolerance: u64,
    lipschitz: u64,
    baseline: u64,
    dc_gain: u64,
    fft: FftConvolver,
    reconvolution_stale: bool,
    bandpass: BandpassFilter,
}

/// What the solver stands for. The five sample vectors hold the active
/// region only; `capacity` says how many samples the buffers have room for.
pub struct SolverView {
    pub tau_rise: u64,
    pub tau_decay: u64,
    pub lambda: u64,
    pub fs: u64,
    pub kernel: Seq<u32>,
    /// The sum of the kernel.
    pub dc_gain: u64,
    /// The Lipschitz bound of the gradient; its inverse is the step size.
    pub lipschitz: u64,
    /// The trace `y`.
    pub trace: Seq<u32>,
    /// The current iterate `x`.
    pub solution: Seq<u32>,
    /// The extrapolated point at which the next gradient is taken.
    pub extrapolation: Seq<u32>,
    /// The iterate before the last proximal step.
    pub previous: Seq<u32>,
    /// The stored reconvolution.
    pub reconvolution: Seq<u32>,
    pub iteration: u32,
    /// The momentum parameter.
    pub t_fista: u64,
    pub converged: bool,
    pub prev_objective: u64,
    pub tolerance: u64,
    pub baseline: u64,
    /// Whether the stored reconvolution is not that of the solution.
    pub reconvolution_stale: bool,
    pub capacity: nat,
    pub fft: FftConvolverView,
    pub filter: BandpassFilterView,
}

impl SolverView {
    /// The number of samples of the installed trace.
    pub open spec fn active_len(self) -> nat {
        self.trace.len()
    }

    /// What holds of every solver: the sample vectors have the length of the
    /// trace, the buffers have room for them, and the convolver and the
    /// filter are well formed.
    pub open spec fn wf(self) -> bool {
        &&& self.solution.len() == self.trace.len()
        &&& self.extrapolation.len() == self.trace.len()
        &&& self.previous.len() == self.trace.len()
        &&& self.reconvolution.len() == self.trace.len()
        &&& self.trace.len() <= self.capacity
        &&& self.fft.wf()
        &&& self.filter.wf()
    }

    /// A new solver: default parameters, the kernel built for them, no trace.
    pub open spec fn initial(kernel: Seq<u32>, dc_gain: u64, lipschitz: u64) -> SolverView {
        SolverView {
            tau_rise: DEFAULT_TAU_RISE,
            tau_decay: DEFAULT_TAU_DECAY,
            lambda: DEFAULT_LAMBDA,
            fs: DEFAULT_FS,
            kernel,
            dc_gain,
            lipschitz,
            trace: Seq::empty(),
            solution: Seq::empty(),
            extrapolation: Seq::empty(),
            previous: Seq::empty(),
            reconvolution: Seq::empty(),
            iteration: 0,
            t_fista: binary64::ONE,
            converged: false,
            prev_objective: binary64::INFINITY,
            tolerance: fista::DEFAULT_TOLERANCE,
            baseline: binary64::ZERO,
            reconvolution_stale: true,
            capacity: 0,
            fft: FftConvolverView {
                fft_len: 0,
                prepared: false,
                kernel_spectrum: Seq::empty(),
                capacity: 0,
            },
            filter: BandpassFilterView {
                enabled: false,
                f_hp: 0,
                f_lp: 0,
                fs: filter::DEFAULT_SAMPLE_RATE,
                valid: false,
                planned_len: 0,
                gain_curve: Seq::empty(),
                power_spectrum: Seq::empty(),
            },
        }
    }

    /// Whether the planned transform still holds the convolution of the
    /// active trace with a kernel of `kernel_len` samples.
    pub open spec fn transform_fits(self, kernel_len: nat) -> bool {
        self.fft.fft_len > 0 && self.trace.len() + kernel_len - 1 <= self.fft.fft_len
    }

    /// The state after new parameters were set: the parameters and the kernel
    /// are taken, the filter chooses its cutoffs, and the convolver keeps its
    /// plans where the transform still fits and drops them where it does
    /// not. Either way the kernel spectrum is no longer prepared.
    pub open spec fn set_params(
        self,
        tau_rise: u64,
        tau_decay: u64,
        lambda: u64,
        fs: u64,
        kernel: Seq<u32>,
        dc_gain: u64,
        lipschitz: u64,
        cutoffs: CutoffCandidates,
    ) -> SolverView {
        SolverView {
            tau_rise,
            tau_decay,
            lambda,
            fs,
            kernel,
            dc_gain,
            lipschitz,
            filter: self.filter.update_cutoffs(cutoffs),
            fft: if self.transform_fits(kernel.len()) {
                self.fft.kernel_changed()
            } else {
                self.fft.invalidate()
            },
            ..self
        }
    }

    /// The state at the start of a solve on the installed trace: iterate,
    /// extrapolated point, previous iterate and reconvolution are zero, no
    /// iteration is counted, the momentum parameter is 1, the solver has not
    /// converged, the baseline is zero and the reconvolution is stale. Trace,
    /// parameters, kernel, convolver and filter are as they were.
    pub open spec fn cold_start(self) -> SolverView {
        let n = self.trace.len();
        SolverView {
            solution: buffer::zeros(n),
            extrapolation: buffer::zeros(n),
            previous: buffer::zeros(n),
            reconvolution: buffer::zeros(n),
            iteration: 0,
            t_fista: binary64::ONE,
            converged: false,
            prev_objective: binary64::INFINITY,
            baseline: binary64::ZERO,
            reconvolution_stale: true,
            ..self
        }
    }

    /// The state after a trace was installed: the trace is taken, the solve
    /// is at its cold start, the buffers have grown where the trace is longer
    /// than any before, and the convolver is ready for its length.
    pub open spec fn set_trace(self, trace: Seq<u32>) -> SolverView {
        let n = trace.len();
        (SolverView {
            trace,
            capacity: if self.capacity < n {
                n
            } else {
                self.capacity
            },
            fft: self.fft.ensure_buffers(n, self.kernel.len()),
            ..self
        }).cold_start()
    }

    /// The state after the momentum was reset: the momentum parameter is 1
    /// and the extrapolated point is the iterate.
    pub open spec fn reset_momentum(self) -> SolverView {
        SolverView { t_fista: binary64::ONE, extrapolation: self.solution, ..self }
    }

    /// What a warm-start blob of this state carries.
    pub open spec fn warm_start(self) -> codec::WarmStartView {
        codec::WarmStartView {
            t_fista: self.t_fista,
            iteration: self.iteration,
            baseline: self.baseline,
            solution: self.solution,
            extrapolation: self.extrapolation,
        }
    }

    /// The state after a warm-start blob was offered. A blob that is accepted
    /// for the active length replaces momentum parameter, iteration count,
    /// baseline, iterate and extrapolated point, clears the convergence
    /// state, and leaves the stored reconvolution stale. Any other blob, the
    /// empty one included, puts the solve back to its cold start.
    pub open spec fn load_state(self, blob: Seq<u8>) -> SolverView {
        if codec::accepts(blob, self.trace.len()) {
            let w = codec::decode(blob);
            SolverView {
                t_fista: w.t_fista,
                iteration: w.iteration,
                baseline: w.baseline,
                converged: false,
                prev_objective: binary64::INFINITY,
                solution: w.solution,
                extrapolation: w.extrapolation,
                reconvolution_stale: true,
                ..self
            }
        } else {
            self.cold_start()
        }
    }

    /// How the reconvolution of the current solution is to be had.
    pub open spec fn reconvolution_plan(self) -> ReconvolutionPlan {
        if !self.reconvolution_stale || self.trace.len() == 0 {
            ReconvolutionPlan::Current
        } else if self.fft.fft_len > 0 {
            ReconvolutionPlan::Transform
        } else {
            ReconvolutionPlan::Direct
        }
    }

    /// The state after the reconvolution of the solution, and the baseline
    /// that goes with it, were handed in.
    pub open spec fn store_reconvolution(self, reconvolution: Seq<u32>, baseline: u64) -> SolverView {
        SolverView { reconvolution, baseline, reconvolution_stale: false, ..self }
    }

    /// The state after the filtered trace was offered: where the filter
    /// applies, it replaces the trace; the iteration state stays.
    pub open spec fn apply_filter(self, filtered: Seq<u32>) -> SolverView {
        if self.filter.applies(self.trace.len()) {
            SolverView { trace: filtered, ..self }
        } else {
            self
        }
    }

    /// The power spectrum that is handed out: none for a trace shorter than
    /// eight samples, else what the filter has cached for the active length.
    pub open spec fn power_spectrum(self) -> Seq<u32> {
        if self.trace.len() < layout::MIN_FILTER_LEN {
            Seq::empty()
        } else {
            self.filter.cached_power_spectrum(self.trace.len())
        }
    }

    /// What a batch with `remaining` iterations left owes next.
    pub open spec fn batch_step(self, remaining: u32) -> BatchStep {
        fista::batch_step(self.trace.len(), self.converged, remaining)
    }

    /// The state after a batch was asked what it owes: a solver without
    /// samples has converged.
    pub open spec fn step_batch(self) -> SolverView {
        if self.trace.len() == 0 {
            SolverView { converged: true, ..self }
        } else {
            self
        }
    }

    /// The state after the proximal step. The reconvolution of the
    /// extrapolated point and the baseline found with it are stored, the
    /// iterate is saved as the previous one, the new iterate is the
    /// candidate projected onto the non-negative samples, and the iteration
    /// is counted.
    pub open spec fn proximal_update(
        self,
        reconvolution: Seq<u32>,
        baseline: u64,
        candidate: Seq<u32>,
    ) -> SolverView {
        SolverView {
            reconvolution,
            baseline,
            previous: self.solution,
            solution: fista::projected(candidate),
            iteration: (self.iteration + 1) as u32,
            reconvolution_stale: true,
            ..self
        }
    }

    /// The state after the restart test: a restart sets the momentum
    /// parameter to 1.
    pub open spec fn adaptive_restart(self, dot: u64) -> SolverView {
        if fista::restarts(self.iteration, dot) {
            SolverView { t_fista: binary64::ONE, ..self }
        } else {
            self
        }
    }

    /// The state after the momentum step: the extrapolated point is the
    /// candidate projected onto the non-negative samples, the momentum
    /// parameter moves on, and the solver has converged where it had before
    /// or the convergence test holds.
    pub open spec fn momentum_update(
        self,
        t_next: u64,
        candidate: Seq<u32>,
        rel_change: u64,
    ) -> SolverView {
        SolverView {
            extrapolation: fista::projected(candidate),
            t_fista: t_next,
            converged: self.converged || fista::converges(
                self.iteration,
                rel_change,
                self.tolerance,
            ),
            reconvolution_stale: true,
            ..self
        }
    }

    /// The state after one whole iteration: proximal step, restart test and
    /// momentum step, in this order.
    pub open spec fn iterate(
        self,
        reconvolution: Seq<u32>,
        baseline: u64,
        candidate: Seq<u32>,
        dot: u64,
        t_next: u64,
        extrapolated: Seq<u32>,
        rel_change: u64,
    ) -> SolverView {
        self.proximal_update(reconvolution, baseline, candidate).adaptive_restart(
            dot,
        ).momentum_update(t_next, extrapolated, rel_change)
    }
}

impl View for Solver {
    type V = SolverView;

    closed spec fn view(&self) -> SolverView {
        let n = self.active_len as int;
        SolverView {
            tau_rise: self.tau_rise,
            tau_decay: self.tau_decay,
            lambda: self.lambda,
            fs: self.fs,
            kernel: self.kernel@,
            dc_gain: self.dc_gain,
            lipschitz: self.lipschitz,
            trace: self.trace@.subrange(0, n),
            solution: self.solution@.subrange(0, n),
            extrapolation: self.extrapolation@.subrange(0, n),
            previous: self.previous@.subrange(0, n),
            reconvolution: self.reconvolution@.subrange(0, n),
            iteration: self.iteration,
            t_fista: self.t_fista,
            converged: self.converged,
            prev_objective: self.prev_objective,
            tolerance: self.tolerance,
            baseline: self.baseline,
            reconvolution_stale: self.reconvolution_stale,
            capacity: self.trace@.len(),
            fft: self.fft@,
            filter: self.bandpass@,
        }
    }
}

impl Solver {
    /// The representation invariant: the five sample buffers have one length,
    /// the active region lies within it, and the convolver and the filter are
    /// well formed.
    pub closed spec fn wf(&self) -> bool {
        &&& self.active_len <= self.trace.len()
        &&& self.solution.len() == self.trace.len()
        &&& self.extrapolation.len() == self.trace.len()
        &&& self.reconvolution.len() == self.trace.len()
        &&& self.previous.len() == self.trace.len()
        &&& self.fft.wf()
        &&& self.bandpass.wf()
    }

    /// What `wf` says of the view.
    pub proof fn lemma_wf_view(&self)
        requires
            self.wf(),
        ensures
            self@.wf(),
    {
        self.fft.lemma_wf_view();
        self.bandpass.lemma_wf_view();
    }

    /// A solver with the default parameters and the kernel built for them.
    pub fn new(kernel: Kernel) -> (r: Solver)
        ensures
            r.wf(),
            r@ == SolverView::initial(kernel.samples@, kernel.dc_gain, kernel.lipschitz),
    {
        let r = Solver {
            tau_rise: DEFAULT_TAU_RISE,
            tau_decay: DEFAULT_TAU_DECAY,
            lambda: DEFAULT_LAMBDA,
            fs: DEFAULT_FS,
            trace: Vec::new(),
            solution: Vec::new(),
            extrapolation: Vec::new(),
            reconvolution: Vec::new(),
            previous: Vec::new(),
            kernel: kernel.samples,
            iteration: 0,
            t_fista: binary64::ONE,
            converged: false,
            active_len: 0,
            prev_objective: binary64::INFINITY,
            tolerance: fista::DEFAULT_TOLERANCE,
            lipschitz: kernel.lipschitz,
            baseline: binary64::ZERO,
            dc_gain: kernel.dc_gain,
            fft: FftConvolver::new(),
            reconvolution_stale: true,
            bandpass: BandpassFilter::new(),
        };
        proof {
            let v = r@;
            let w = SolverView::initial(kernel.samples@, kernel.dc_gain, kernel.lipschitz);
            assert(v.trace =~= w.trace);
            assert(v.solution =~= w.solution);
            assert(v.extrapolation =~= w.extrapolation);
            assert(v.previous =~= w.previous);
            assert(v.reconvolution =~= w.reconvolution);
        }
        r
    }

    /// Sets the parameters and the kernel that was built for them, lets the
    /// filter choose its cutoffs among `cutoffs`, and keeps or drops the
    /// transform plans. The kernel spectrum is to be prepared anew.
    pub fn set_params(
        &mut self,
        tau_rise: u64,
        tau_decay: u64,
        lambda: u64,
        fs: u64,
        kernel: Kernel,
        cutoffs: &CutoffCandidates,
    )
        requires
            old(self).wf(),
        ensures
            final(self).wf(),
            final(self)@ == old(self)@.set_params(
                tau_rise,
                tau_decay,
                lambda,
                fs,
                kernel.samples@,
                kernel.dc_gain,
                kernel.lipschitz,
                *cutoffs,
            ),
    {
        self.tau_rise = tau_rise;
        self.tau_decay = tau_decay;
        self.lambda = lambda;
        self.fs = fs;
        self.kernel = kernel.samples;
        self.lipschitz = kernel.lipschitz;
        self.dc_gain = kernel.dc_gain;
        self.bandpass.update_cutoffs(cutoffs);
        let fits = self.fft.fft_len() > 0 && match self.active_len.checked_add(self.kernel.len()) {
            Some(sum) => sum == 0 || sum - 1 <= self.fft.fft_len(),
            None => false,
        };
        proof {
            self.fft.lemma_wf_view();
            // a plan length is a power of two, so it is not the largest machine word
            assert(usize::MAX % 2 == 1) by {
                assert(usize::MAX == 0xffff_ffff || usize::MAX == 0xffff_ffff_ffff_ffff);
            }
            assert(fits == old(self)@.transform_fits(kernel.samples@.len()));
        }
        if fits {
            self.fft.kernel_changed();
        } else {
            self.fft.invalidate();
        }
    }

    /// Installs a trace for a fresh solve. Buffers grow where the trace is
    /// longer than any before and never shrink.
    pub fn set_trace(&mut self, trace: &[u32])
        requires
            old(self).wf(),
            trace.len() > 0 && old(self)@.kernel.len() > 0 ==> layout::padded_len(
                trace.len() as nat,
                old(self)@.kernel.len(),
            ) <= usize::MAX,
        ensures
            final(self).wf(),
            final(self)@ == old(self)@.set_trace(trace@),
    {
        let n = trace.len();
        self.active_len = n;
        buffer::grow_zeroed(&mut self.trace, n);
        buffer::grow_zeroed(&mut self.solution, n);
        buffer::grow_zeroed(&mut self.extrapolation, n);
        buffer::grow_zeroed(&mut self.reconvolution, n);
        buffer::grow_zeroed(&mut self.previous, n);
        buffer::write_prefix(&mut self.trace, trace);
        buffer::zero_prefix(&mut self.solution, n);
        buffer::zero_prefix(&mut self.extrapolation, n);
        buffer::zero_prefix(&mut self.reconvolution, n);
        buffer::zero_prefix(&mut self.previous, n);
        self.iteration = 0;
        self.t_fista = binary64::ONE;
        self.converged = false;
        self.prev_objective = binary64::INFINITY;
        self.baseline = binary64::ZERO;
        self.reconvolution_stale = true;
        self.fft.ensure_buffers(n, self.kernel.len());
        proof {
            let v = self@;
            let w = old(self)@.set_trace(trace@);
            assert(v.trace =~= w.trace);
            assert(v.solution =~= w.solution);
            assert(v.extrapolation =~= w.extrapolation);
            assert(v.previous =~= w.previous);
            assert(v.reconvolution =~= w.reconvolution);
        }
    }

    /// The kernel.
    pub fn get_kernel(&self) -> (r: Vec<u32>)
        ensures
            r@ == self@.kernel,
    {
        let r = buffer::prefix_to_vec(&self.kernel, self.kernel.len());
        assert(r@ =~= self@.kernel);
        r
    }

    /// The current solution.
    pub fn get_solution(&self) -> (r: Vec<u32>)
        requires
            self.wf(),
        ensures
            r@ == self@.solution,
    {
        buffer::prefix_to_vec(&self.solution, self.active_len)
    }

    /// The extrapolated point, at which the next gradient is taken.
    pub fn get_extrapolation(&self) -> (r: Vec<u32>)
        requires
            self.wf(),
        ensures
            r@ == self@.extrapolation,
    {
        buffer::prefix_to_vec(&self.extrapolation, self.active_len)
    }

    /// The iterate before the last proximal step.
    pub fn get_previous(&self) -> (r: Vec<u32>)
        requires
            self.wf(),
        ensures
            r@ == self@.previous,
    {
        buffer::prefix_to_vec(&self.previous, self.active_len)
    }

    /// The trace; after filtering, the filtered trace.
    pub fn get_trace(&self) -> (r: Vec<u32>)
        requires
            self.wf(),
        ensures
            r@ == self@.trace,
    {
        buffer::prefix_to_vec(&self.trace, self.active_len)
    }

    /// The estimated baseline.
    pub fn get_baseline(&self) -> (r: u64)
        ensures
            r == self@.baseline,
    {
        self.baseline
    }

    /// Whether the solver has converged.
    pub fn converged(&self) -> (r: bool)
        ensures
            r == self@.converged,
    {
        self.converged
    }

    /// The number of iterations run since the trace was installed or a state
    /// was loaded.
    pub fn iteration_count(&self) -> (r: u32)
        ensures
            r == self@.iteration,
    {
        self.iteration
    }

    /// The number of samples of the installed trace.
    pub fn active_len(&self) -> (r: usize)
        requires
            self.wf(),
        ensures
            r == self@.trace.len(),
    {
        self.active_len
    }

    /// The momentum parameter.
    pub fn momentum(&self) -> (r: u64)
        ensures
            r == self@.t_fista,
    {
        self.t_fista
    }

    /// The sparsity weight.
    pub fn lambda(&self) -> (r: u64)
        ensures
            r == self@.lambda,
    {
        self.lambda
    }

    /// The sum of the kernel, by which the sparsity weight is scaled.
    pub fn dc_gain(&self) -> (r: u64)
        ensures
            r == self@.dc_gain,
    {
        self.dc_gain
    }

    /// The Lipschitz bound of the gradient.
    pub fn lipschitz(&self) -> (r: u64)
        ensures
            r == self@.lipschitz,
    {
        self.lipschitz
    }

    /// The relative change below which the solver counts as converged.
    pub fn tolerance(&self) -> (r: u64)
        ensures
            r == self@.tolerance,
    {
        self.tolerance
    }

    /// The convolver.
    pub fn fft(&self) -> (r: &FftConvolver)
        requires
            self.wf(),
        ensures
            r.wf(),
            r@ == self@.fft,
    {
        &self.fft
    }

    /// The filter.
    pub fn filter(&self) -> (r: &BandpassFilter)
        requires
            self.wf(),
        ensures
            r.wf(),
            r@ == self@.filter,
    {
        &self.bandpass
    }

    /// Resets the momentum: the next gradient is taken at the solution.
    pub fn reset_momentum(&mut self)
        requires
            old(self).wf(),
        ensures
            final(self).wf(),
            final(self)@ == old(self)@.reset_momentum(),
    {
        self.t_fista = binary64::ONE;
        buffer::copy_prefix(&mut self.extrapolation, &self.solution, self.active_len);
        proof {
            assert(self@.extrapolation =~= old(self)@.solution);
        }
    }

    /// The warm-start blob of the current state.
    pub fn export_state(&self) -> (blob: Vec<u8>)
        requires
            self.wf(),
        ensures
            blob@ == codec::encode(self@.warm_start()),
    {
        let n = self.active_len;
        let mut buf: Vec<u8> = Vec::new();
        codec::put_u32_le(&mut buf, ((n as u64) % 0x1_0000_0000) as u32);
        codec::put_u64_le(&mut buf, self.t_fista);
        codec::put_u32_le(&mut buf, self.iteration);
        codec::put_u64_le(&mut buf, self.baseline);
        codec::put_samples_le(&mut buf, &self.solution, n);
        codec::put_samples_le(&mut buf, &self.extrapolation, n);
        proof {
            assert(buf@ =~= codec::encode(self@.warm_start()));
        }
        buf
    }

    /// Puts the solve back to its cold start: zero iterates, no iteration
    /// counted, momentum parameter 1, not converged, baseline zero.
    fn cold_start(&mut self)
        requires
            old(self).wf(),
        ensures
            final(self).wf(),
            final(self)@ == old(self)@.cold_start(),
    {
        let n = self.active_len;
        buffer::zero_prefix(&mut self.solution, n);
        buffer::zero_prefix(&mut self.extrapolation, n);
        buffer::zero_prefix(&mut self.reconvolution, n);
        buffer::zero_prefix(&mut self.previous, n);
        self.iteration = 0;
        self.t_fista = binary64::ONE;
        self.converged = false;
        self.prev_objective = binary64::INFINITY;
        self.baseline = binary64::ZERO;
        self.reconvolution_stale = true;
        proof {
            let v = self@;
            let w = old(self)@.cold_start();
            assert(v.trace =~= w.trace);
            assert(v.solution =~= w.solution);
            assert(v.extrapolation =~= w.extrapolation);
            assert(v.previous =~= w.previous);
            assert(v.reconvolution =~= w.reconvolution);
        }
    }

    /// Offers a warm-start blob. A blob for the active length restores
    /// momentum parameter, iteration count, baseline, solution and
    /// extrapolated point. A blob that is empty, of the wrong size or for
    /// another trace length restores nothing: the solve starts cold, with a
    /// zero solution.
    pub fn load_state(&mut self, state: &[u8])
        requires
            old(self).wf(),
        ensures
            final(self).wf(),
            final(self)@ == old(self)@.load_state(state@),
    {
        match codec::WarmStart::from_bytes(state, self.active_len) {
            None => {
                self.cold_start();
            },
            Some(w) => {
                proof {
                    codec::lemma_decode_then_encode(state@, self.active_len as nat);
                }
                self.t_fista = w.t_fista;
                self.iteration = w.iteration;
                self.baseline = w.baseline;
                self.converged = false;
                self.prev_objective = binary64::INFINITY;
                self.reconvolution_stale = true;
                buffer::write_prefix(&mut self.solution, w.solution.as_slice());
                buffer::write_prefix(&mut self.extrapolation, w.extrapolation.as_slice());
                proof {
                    let v = self@;
                    let t = old(self)@.load_state(state@);
                    assert(v.solution =~= t.solution);
                    assert(v.extrapolation =~= t.extrapolation);
                }
            },
        }
    }

    /// Takes the spectrum of the zero-padded kernel for the convolver.
    pub fn prepare_kernel(&mut self, spectrum: &[SpectrumBin])
        requires
            old(self).wf(),
            old(self)@.fft.fft_len > 0,
            spectrum.len() == layout::spectrum_len(old(self)@.fft.fft_len),
        ensures
            final(self).wf(),
            final(self)@ == (SolverView {
                fft: old(self)@.fft.prepare_kernel(spectrum@),
                ..old(self)@
            }),
    {
        self.fft.prepare_kernel(spectrum);
    }

    /// How the reconvolution of the current solution is to be had.
    pub fn reconvolution_plan(&self) -> (r: ReconvolutionPlan)
        requires
            self.wf(),
        ensures
            r == self@.reconvolution_plan(),
    {
        if !self.reconvolution_stale || self.active_len == 0 {
            ReconvolutionPlan::Current
        } else if self.fft.fft_len() > 0 {
            ReconvolutionPlan::Transform
        } else {
            ReconvolutionPlan::Direct
        }
    }

    /// Takes the reconvolution of the current solution and the baseline that
    /// goes with it.
    pub fn store_reconvolution(&mut self, reconvolution: &[u32], baseline: u64)
        requires
            old(self).wf(),
            reconvolution.len() == old(self)@.trace.len(),
        ensures
            final(self).wf(),
            final(self)@ == old(self)@.store_reconvolution(reconvolution@, baseline),
    {
        buffer::write_prefix(&mut self.reconvolution, reconvolution);
        self.baseline = baseline;
        self.reconvolution_stale = false;
        proof {
            assert(self@.reconvolution =~= reconvolution@);
        }
    }

    /// The reconvolution of the current solution, where it is stored; `None`
    /// where it has to be computed first.
    pub fn get_reconvolution(&self) -> (r: Option<Vec<u32>>)
        requires
            self.wf(),
        ensures
            r is Some <==> self@.reconvolution_plan() == ReconvolutionPlan::Current,
            r is Some ==> r->0@ == self@.reconvolution,
    {
        if !self.reconvolution_stale || self.active_len == 0 {
            Some(buffer::prefix_to_vec(&self.reconvolution, self.active_len))
        } else {
            None
        }
    }

    /// Switches the filter on or off.
    pub fn set_filter_enabled(&mut self, enabled: bool)
        requires
            old(self).wf(),
        ensures
            final(self).wf(),
            final(self)@ == (SolverView {
                filter: BandpassFilterView { enabled, ..old(self)@.filter },
                ..old(self)@
            }),
    {
        self.bandpass.set_enabled(enabled);
    }

    /// Whether the filter is switched on.
    pub fn filter_enabled(&self) -> (r: bool)
        ensures
            r == self@.filter.enabled,
    {
        self.bandpass.is_enabled()
    }

    /// Builds the gain curve of the filter for a trace of `n` samples.
    pub fn install_gain_curve(
        &mut self,
        n: usize,
        edges: &TaperEdges,
        freqs: &[u32],
        rise: &[u32],
        fall: &[u32],
    )
        requires
            old(self).wf(),
            n > 0,
            freqs.len() == layout::spectrum_len(n as nat),
            rise.len() == freqs.len(),
            fall.len() == freqs.len(),
        ensures
            final(self).wf(),
            final(self)@ == (SolverView {
                filter: old(self)@.filter.install_gain_curve(
                    n as nat,
                    filter::gain_curve_of(*edges, freqs@, rise@, fall@),
                ),
                ..old(self)@
            }),
    {
        self.bandpass.install_gain_curve(n, edges, freqs, rise, fall);
    }

    /// Caches the power spectrum of the trace.
    pub fn store_power_spectrum(&mut self, power: &[u32])
        requires
            old(self).wf(),
        ensures
            final(self).wf(),
            final(self)@ == (SolverView {
                filter: BandpassFilterView {
                    power_spectrum: filter::laid_over(old(self)@.filter.power_spectrum, power@),
                    ..old(self)@.filter
                },
                ..old(self)@
            }),
    {
        self.bandpass.store_power_spectrum(power);
    }

    /// Offers the filtered form of the trace. Where the filter is switched
    /// on, its band is valid and the trace has at least eight samples, the
    /// filtered form replaces the trace; otherwise nothing changes. Returns
    /// whether the trace was replaced.
    pub fn apply_filter(&mut self, filtered: &[u32]) -> (applied: bool)
        requires
            old(self).wf(),
            filtered.len() == old(self)@.trace.len(),
        ensures
            final(self).wf(),
            applied == old(self)@.filter.applies(old(self)@.trace.len()),
            final(self)@ == old(self)@.apply_filter(filtered@),
    {
        if !self.bandpass.should_apply(self.active_len) {
            return false;
        }
        buffer::write_prefix(&mut self.trace, filtered);
        proof {
            assert(self@.trace =~= filtered@);
        }
        true
    }

    /// The power spectrum of the trace: empty for a trace shorter than eight
    /// samples, and empty while none is cached for its length.
    pub fn get_power_spectrum(&self) -> (r: Vec<u32>)
        requires
            self.wf(),
        ensures
            r@ == self@.power_spectrum(),
    {
        if self.active_len < layout::MIN_FILTER_LEN {
            Vec::new()
        } else {
            self.bandpass.get_power_spectrum(self.active_len)
        }
    }

    /// Whether the power spectrum of the trace is to be computed before it
    /// can be handed out: the trace has at least eight samples and nothing is
    /// cached for its length.
    pub fn needs_power_spectrum(&self) -> (r: bool)
        requires
            self.wf(),
        ensures
            r == (self@.trace.len() >= layout::MIN_FILTER_LEN && self@.power_spectrum().len()
                == 0),
    {
        if self.active_len < layout::MIN_FILTER_LEN {
            return false;
        }
        self.bandpass.get_power_spectrum(self.active_len).len() == 0
    }

    /// The cutoffs of the filter: high-pass, then low-pass.
    pub fn get_filter_cutoffs(&self) -> (r: Vec<u32>)
        ensures
            r@ == seq![self@.filter.f_hp, self@.filter.f_lp],
    {
        let c = self.bandpass.get_cutoffs();
        let mut r: Vec<u32> = Vec::new();
        r.push(c[0]);
        r.push(c[1]);
        assert(r@ =~= seq![self@.filter.f_hp, self@.filter.f_lp]);
        r
    }

    /// Says what a batch with `remaining` iterations left owes next. A solver
    /// without samples has converged at once.
    pub fn step_batch(&mut self, remaining: u32) -> (step: BatchStep)
        requires
            old(self).wf(),
        ensures
            final(self).wf(),
            step == old(self)@.batch_step(remaining),
            final(self)@ == old(self)@.step_batch(),
    {
        if self.active_len == 0 {
            self.converged = true;
            return BatchStep::Finished(true);
        }
        if self.converged {
            BatchStep::Finished(true)
        } else if remaining == 0 {
            BatchStep::Finished(false)
        } else {
            BatchStep::Iterate
        }
    }

    /// Takes the proximal step of one iteration: stores the reconvolution of
    /// the extrapolated point and the baseline, saves the iterate, and makes
    /// the projected candidate the new iterate.
    pub fn proximal_update(&mut self, reconvolution: &[u32], baseline: u64, candidate: &[u32])
        requires
            old(self).wf(),
            reconvolution.len() == old(self)@.trace.len(),
            candidate.len() == old(self)@.trace.len(),
            old(self)@.iteration < u32::MAX,
        ensures
            final(self).wf(),
            final(self)@ == old(self)@.proximal_update(reconvolution@, baseline, candidate@),
            forall|i: int|
                0 <= i < final(self)@.solution.len() ==> crate::binary32::is_non_negative(
                    #[trigger] final(self)@.solution[i],
                ),
    {
        let n = self.active_len;
        buffer::write_prefix(&mut self.reconvolution, reconvolution);
        self.baseline = baseline;
        buffer::copy_prefix(&mut self.previous, &self.solution, n);
        fista::project_into(&mut self.solution, candidate);
        self.iteration = self.iteration + 1;
        self.reconvolution_stale = true;
        proof {
            let v = self@;
            let w = old(self)@.proximal_update(reconvolution@, baseline, candidate@);
            assert(v.reconvolution =~= w.reconvolution);
            assert(v.previous =~= w.previous);
            assert(v.solution =~= w.solution);
            fista::lemma_projected_is_non_negative(candidate@);
        }
    }

    /// Restarts the momentum where the last step went against it. Returns
    /// whether it did.
    pub fn adaptive_restart(&mut self, dot: u64) -> (restarted: bool)
        requires
            old(self).wf(),
        ensures
            final(self).wf(),
            restarted == fista::restarts(old(self)@.iteration, dot),
            final(self)@ == old(self)@.adaptive_restart(dot),
    {
        if fista::should_restart(self.iteration, dot) {
            self.t_fista = binary64::ONE;
            true
        } else {
            false
        }
    }

    /// Takes the momentum step of one iteration: the projected candidate is
    /// the new extrapolated point, the momentum parameter moves on to
    /// `t_next`, and the convergence test is made. Returns whether the solver
    /// has converged.
    pub fn momentum_update(&mut self, t_next: u64, candidate: &[u32], rel_change: u64) -> (done:
        bool)
        requires
            old(self).wf(),
            candidate.len() == old(self)@.trace.len(),
        ensures
            final(self).wf(),
            done == final(self)@.converged,
            final(self)@ == old(self)@.momentum_update(t_next, candidate@, rel_change),
            forall|i: int|
                0 <= i < final(self)@.extrapolation.len() ==> crate::binary32::is_non_negative(
                    #[trigger] final(self)@.extrapolation[i],
                ),
    {
        fista::project_into(&mut self.extrapolation, candidate);
        self.t_fista = t_next;
        if fista::has_converged(self.iteration, rel_change, self.tolerance) {
            self.converged = true;
        }
        self.reconvolution_stale = true;
        proof {
            let v = self@;
            let w = old(self)@.momentum_update(t_next, candidate@, rel_change);
            assert(v.extrapolation =~= w.extrapolation);
            fista::lemma_projected_is_non_negative(candidate@);
        }
        self.converged
    }
}

} // verus!
