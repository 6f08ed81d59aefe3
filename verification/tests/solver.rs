use catune_solver::buffer;
use catune_solver::fft::SpectrumBin;
use catune_solver::filter::CutoffCandidates;
use catune_solver::filter::TaperEdges;
use catune_solver::fista;
use catune_solver::fista::BatchStep;
use catune_solver::kernel::Kernel;
use catune_solver::solver;
use catune_solver::solver::ReconvolutionPlan;
use catune_solver::solver::Solver;

fn b32(v: f32) -> u32 {
    v.to_bits()
}

fn b64(v: f64) -> u64 {
    v.to_bits()
}

fn kernel_of(len: usize) -> Kernel {
    Kernel {
        samples: (0..len).map(|i| b32(i as f32)).collect(),
        dc_gain: b64(2.5),
        lipschitz: b64(4.0),
    }
}

fn good_cutoffs() -> CutoffCandidates {
    CutoffCandidates {
        tau_rise: b32(0.02),
        tau_decay: b32(0.4),
        fs: b64(30.0),
        fs_narrow: b32(30.0),
        f_hp: b32(0.025),
        f_lp: b32(31.8),
        nyquist: b32(15.0),
    }
}

fn solver_with_trace(kernel_len: usize, trace: &[u32]) -> Solver {
    let mut s = Solver::new(kernel_of(kernel_len));
    s.set_trace(trace);
    s
}

#[test]
fn defaults_are_the_documented_values() {
    assert_eq!(f64::from_bits(solver::DEFAULT_TAU_RISE), 0.02);
    assert_eq!(f64::from_bits(solver::DEFAULT_TAU_DECAY), 0.4);
    assert_eq!(f64::from_bits(solver::DEFAULT_LAMBDA), 0.01);
    assert_eq!(f64::from_bits(solver::DEFAULT_FS), 30.0);
    assert_eq!(f64::from_bits(fista::DEFAULT_TOLERANCE), 1e-6);
}

#[test]
fn new_solver_has_defaults_and_no_trace() {
    let s = Solver::new(kernel_of(4));
    assert_eq!(s.lambda(), b64(0.01));
    assert_eq!(s.tolerance(), b64(1e-6));
    assert_eq!(s.dc_gain(), b64(2.5));
    assert_eq!(s.lipschitz(), b64(4.0));
    assert_eq!(s.get_kernel(), vec![b32(0.0), b32(1.0), b32(2.0), b32(3.0)]);
    assert_eq!(s.active_len(), 0);
    assert!(s.get_trace().is_empty());
    assert!(s.get_solution().is_empty());
    assert_eq!(s.iteration_count(), 0);
    assert_eq!(s.momentum(), b64(1.0));
    assert!(!s.converged());
    assert_eq!(s.get_baseline(), 0);
    assert_eq!(s.fft().fft_len(), 0);
    assert!(!s.filter_enabled());
    assert!(!s.filter().is_valid());
    assert_eq!(s.get_filter_cutoffs(), vec![0, 0]);
    assert_eq!(s.export_state().len(), 24);
}

#[test]
fn set_trace_installs_and_resets() {
    let mut s = Solver::new(kernel_of(4));
    let trace = [b32(1.0), b32(-2.0), b32(3.0), 0x7fc0_0000, 5];
    s.set_trace(&trace);
    assert_eq!(s.active_len(), 5);
    assert_eq!(s.get_trace(), trace.to_vec());
    assert_eq!(s.get_solution(), vec![0; 5]);
    assert_eq!(s.get_extrapolation(), vec![0; 5]);
    assert_eq!(s.get_previous(), vec![0; 5]);
    assert_eq!(s.iteration_count(), 0);
    assert_eq!(s.momentum(), b64(1.0));
    assert!(!s.converged());
    assert_eq!(s.get_baseline(), 0);
    assert_eq!(s.reconvolution_plan(), ReconvolutionPlan::Transform);
    // 5 + 4 - 1 = 8
    assert_eq!(s.fft().fft_len(), 8);
    assert!(!s.fft().is_prepared());
}

#[test]
fn set_trace_resets_a_running_solve() {
    let mut s = solver_with_trace(2, &[1, 2, 3]);
    s.proximal_update(&[7, 8, 9], b64(1.5), &[b32(1.0), b32(2.0), b32(3.0)]);
    s.momentum_update(b64(1.6), &[b32(1.0), b32(2.0), b32(3.0)], b64(0.0));
    s.store_reconvolution(&[4, 4, 4], b64(0.5));
    assert_eq!(s.iteration_count(), 1);
    s.set_trace(&[9, 9]);
    assert_eq!(s.active_len(), 2);
    assert_eq!(s.get_trace(), vec![9, 9]);
    assert_eq!(s.get_solution(), vec![0, 0]);
    assert_eq!(s.get_extrapolation(), vec![0, 0]);
    assert_eq!(s.get_previous(), vec![0, 0]);
    assert_eq!(s.iteration_count(), 0);
    assert_eq!(s.momentum(), b64(1.0));
    assert_eq!(s.get_baseline(), 0);
    assert!(!s.converged());
    assert!(s.get_reconvolution().is_none());
    // a longer trace again: what the shorter one left behind is gone
    s.set_trace(&[1, 1, 1]);
    assert_eq!(s.get_solution(), vec![0, 0, 0]);
    assert_eq!(s.get_trace(), vec![1, 1, 1]);
}

#[test]
fn empty_trace_plans_no_transform() {
    let mut s = Solver::new(kernel_of(4));
    s.set_trace(&[]);
    assert_eq!(s.active_len(), 0);
    assert_eq!(s.fft().fft_len(), 0);
    assert_eq!(s.reconvolution_plan(), ReconvolutionPlan::Current);
    assert_eq!(s.get_reconvolution(), Some(vec![]));
}

#[test]
fn empty_kernel_plans_no_transform() {
    let mut s = Solver::new(kernel_of(0));
    s.set_trace(&[1, 2, 3]);
    assert_eq!(s.fft().fft_len(), 0);
    assert_eq!(s.reconvolution_plan(), ReconvolutionPlan::Direct);
}

#[test]
fn set_trace_keeps_a_prepared_spectrum_for_the_same_length() {
    let mut s = solver_with_trace(2, &[1, 2, 3]);
    assert_eq!(s.fft().fft_len(), 4);
    let spectrum = [SpectrumBin { re: 1, im: 2 }; 3];
    s.prepare_kernel(&spectrum);
    assert!(s.fft().is_prepared());
    s.set_trace(&[4, 5, 6]);
    assert!(s.fft().is_prepared());
    assert_eq!(s.fft().kernel_spectrum(), spectrum.to_vec());
    // 2 + 2 - 1 = 3 also pads to 4
    s.set_trace(&[4, 5]);
    assert!(s.fft().is_prepared());
    s.set_trace(&[4, 5, 6, 7, 8]);
    assert_eq!(s.fft().fft_len(), 8);
    assert!(!s.fft().is_prepared());
}

#[test]
fn set_params_takes_parameters_and_kernel() {
    let mut s = solver_with_trace(2, &[1, 2, 3]);
    s.proximal_update(&[0, 0, 0], 0, &[b32(1.0), b32(2.0), b32(3.0)]);
    s.set_params(b64(0.03), b64(0.5), b64(0.2), b64(60.0), kernel_of(3), &good_cutoffs());
    assert_eq!(s.lambda(), b64(0.2));
    assert_eq!(s.get_kernel().len(), 3);
    assert_eq!(s.dc_gain(), b64(2.5));
    // the solve is left alone
    assert_eq!(s.get_trace(), vec![1, 2, 3]);
    assert_eq!(s.get_solution(), vec![b32(1.0), b32(2.0), b32(3.0)]);
    assert_eq!(s.iteration_count(), 1);
    // the filter has chosen its cutoffs
    assert!(s.filter().is_valid());
    assert_eq!(s.get_filter_cutoffs(), vec![b32(0.025), b32(15.0)]);
}

#[test]
fn set_params_keeps_plans_that_fit_and_drops_the_others() {
    let mut s = solver_with_trace(2, &[1, 2, 3]);
    assert_eq!(s.fft().fft_len(), 4);
    s.prepare_kernel(&[SpectrumBin { re: 0, im: 0 }; 3]);
    // 3 + 2 - 1 = 4 fits: the plans stay, the spectrum is outdated
    s.set_params(1, 2, 3, 4, kernel_of(2), &good_cutoffs());
    assert_eq!(s.fft().fft_len(), 4);
    assert!(!s.fft().is_prepared());
    s.prepare_kernel(&[SpectrumBin { re: 0, im: 0 }; 3]);
    // 3 + 1 - 1 = 3 fits too
    s.set_params(1, 2, 3, 4, kernel_of(1), &good_cutoffs());
    assert_eq!(s.fft().fft_len(), 4);
    // 3 + 3 - 1 = 5 does not
    s.set_params(1, 2, 3, 4, kernel_of(3), &good_cutoffs());
    assert_eq!(s.fft().fft_len(), 0);
    assert!(!s.fft().is_prepared());
    // the next trace plans anew
    s.set_trace(&[1, 2, 3]);
    assert_eq!(s.fft().fft_len(), 8);
}

#[test]
fn set_params_without_plans_plans_nothing() {
    let mut s = Solver::new(kernel_of(2));
    s.set_params(1, 2, 3, 4, kernel_of(5), &good_cutoffs());
    assert_eq!(s.fft().fft_len(), 0);
    assert!(!s.fft().is_prepared());
}

#[test]
fn set_params_after_the_trace_was_emptied_outdates_the_spectrum() {
    let mut s = solver_with_trace(2, &[1, 2, 3]);
    s.prepare_kernel(&[SpectrumBin { re: 5, im: 5 }; 3]);
    s.set_trace(&[]);
    assert!(s.fft().is_prepared());
    s.set_params(1, 2, 3, 4, kernel_of(2), &good_cutoffs());
    assert!(!s.fft().is_prepared());
    assert_eq!(s.fft().fft_len(), 4);
}

#[test]
fn reset_momentum_copies_the_solution() {
    let mut s = solver_with_trace(2, &[1, 2, 3]);
    s.proximal_update(&[0, 0, 0], 0, &[b32(1.0), b32(2.0), b32(3.0)]);
    s.momentum_update(b64(1.618), &[b32(4.0), b32(5.0), b32(6.0)], b64(1.0));
    assert_eq!(s.momentum(), b64(1.618));
    assert_eq!(s.get_extrapolation(), vec![b32(4.0), b32(5.0), b32(6.0)]);
    s.reset_momentum();
    assert_eq!(s.momentum(), b64(1.0));
    assert_eq!(s.get_extrapolation(), vec![b32(1.0), b32(2.0), b32(3.0)]);
    assert_eq!(s.get_solution(), vec![b32(1.0), b32(2.0), b32(3.0)]);
    assert_eq!(s.iteration_count(), 1);
}

#[test]
fn export_state_has_the_documented_layout() {
    let mut s = solver_with_trace(2, &[1, 2]);
    s.proximal_update(&[0, 0], b64(-3.5), &[b32(1.0), b32(0.25)]);
    s.momentum_update(b64(1.25), &[b32(2.0), b32(0.5)], b64(1.0));
    let blob = s.export_state();
    assert_eq!(blob.len(), 24 + 8 * 2);
    assert_eq!(&blob[0..4], &2_u32.to_le_bytes());
    assert_eq!(&blob[4..12], &1.25_f64.to_le_bytes());
    assert_eq!(&blob[12..16], &1_u32.to_le_bytes());
    assert_eq!(&blob[16..24], &(-3.5_f64).to_le_bytes());
    assert_eq!(&blob[24..28], &1.0_f32.to_le_bytes());
    assert_eq!(&blob[28..32], &0.25_f32.to_le_bytes());
    assert_eq!(&blob[32..36], &2.0_f32.to_le_bytes());
    assert_eq!(&blob[36..40], &0.5_f32.to_le_bytes());
}

#[test]
fn load_state_restores_an_exported_state() {
    let mut s = solver_with_trace(2, &[1, 2]);
    for _ in 0..7 {
        s.proximal_update(&[0, 0], b64(-3.5), &[b32(1.0), b32(0.25)]);
    }
    s.momentum_update(b64(1.25), &[b32(2.0), b32(0.5)], b64(0.0));
    assert!(s.converged());
    let blob = s.export_state();

    let mut t = solver_with_trace(5, &[8, 9]);
    t.load_state(&blob);
    assert_eq!(t.get_solution(), s.get_solution());
    assert_eq!(t.get_extrapolation(), s.get_extrapolation());
    assert_eq!(t.momentum(), b64(1.25));
    assert_eq!(t.iteration_count(), 7);
    assert_eq!(t.get_baseline(), b64(-3.5));
    assert!(!t.converged());
    assert_eq!(t.get_trace(), vec![8, 9]);
    assert_eq!(t.export_state(), blob);

    // loading clears the convergence flag of the solver it came from, too
    s.load_state(&blob);
    assert!(!s.converged());
    assert_eq!(s.export_state(), blob);
}

#[test]
fn load_state_falls_back_to_cold_start_on_a_bad_blob() {
    let mut s = solver_with_trace(2, &[1, 2]);
    s.proximal_update(&[0, 0], b64(2.0), &[b32(1.0), b32(0.25)]);
    let good = s.export_state();
    let cold = solver_with_trace(2, &[1, 2]).export_state();

    let other = solver_with_trace(2, &[1, 2, 3]).export_state();
    let mut lying = good.clone();
    lying[0] = 3;
    let mut long = good.clone();
    long.push(0);
    for bad in [&[][..], &[7][..], &good[..23], &good[..39], &other[..], &lying[..], &long[..]] {
        let mut t = solver_with_trace(2, &[1, 2]);
        for _ in 0..6 {
            t.proximal_update(&[5, 6], b64(2.0), &[b32(1.0), b32(0.25)]);
        }
        t.momentum_update(b64(3.0), &[b32(1.0), b32(0.25)], b64(0.0));
        t.store_reconvolution(&[8, 9], b64(2.5));
        assert!(t.converged());
        assert_eq!(t.get_solution(), vec![b32(1.0), b32(0.25)]);
        t.load_state(bad);
        // the solve is where a freshly installed trace leaves it
        assert_eq!(t.get_solution(), vec![0, 0]);
        assert_eq!(t.get_extrapolation(), vec![0, 0]);
        assert_eq!(t.get_previous(), vec![0, 0]);
        assert_eq!(t.iteration_count(), 0);
        assert_eq!(t.momentum(), b64(1.0));
        assert_eq!(t.get_baseline(), 0);
        assert!(!t.converged());
        assert!(t.get_reconvolution().is_none());
        assert_eq!(t.export_state(), cold);
        // trace, kernel and plans stay
        assert_eq!(t.get_trace(), vec![1, 2]);
        assert_eq!(t.get_kernel().len(), 2);
        assert_eq!(t.fft().fft_len(), 4);
    }
}

#[test]
fn load_state_after_set_trace_leaves_the_cold_start() {
    let mut t = solver_with_trace(2, &[1, 2, 3]);
    let cold = t.export_state();
    t.load_state(&[]);
    assert_eq!(t.export_state(), cold);
    assert_eq!(t.get_solution(), vec![0, 0, 0]);
    assert_eq!(t.get_trace(), vec![1, 2, 3]);
}

#[test]
fn load_state_leaves_the_reconvolution_stale() {
    let mut s = solver_with_trace(2, &[1, 2]);
    s.proximal_update(&[0, 0], b64(2.0), &[b32(1.0), b32(0.25)]);
    let blob = s.export_state();
    s.store_reconvolution(&[8, 9], b64(2.5));
    assert_eq!(s.get_reconvolution(), Some(vec![8, 9]));
    s.load_state(&blob);
    assert!(s.get_reconvolution().is_none());
    assert_eq!(s.get_solution(), vec![b32(1.0), b32(0.25)]);
    assert_eq!(s.get_baseline(), b64(2.0));
}

#[test]
fn step_batch_says_what_is_owed() {
    let mut s = Solver::new(kernel_of(2));
    assert_eq!(s.step_batch(10), BatchStep::Finished(true));
    assert!(s.converged());

    let mut s = solver_with_trace(2, &[1, 2]);
    assert_eq!(s.step_batch(0), BatchStep::Finished(false));
    assert_eq!(s.step_batch(1), BatchStep::Iterate);
    assert_eq!(s.step_batch(u32::MAX), BatchStep::Iterate);
    assert!(!s.converged());
    for _ in 0..6 {
        s.proximal_update(&[0, 0], 0, &[0, 0]);
    }
    assert!(s.momentum_update(b64(1.0), &[0, 0], b64(1e-9)));
    assert_eq!(s.step_batch(5), BatchStep::Finished(true));
    assert_eq!(s.step_batch(0), BatchStep::Finished(true));
}

#[test]
fn proximal_update_projects_the_candidate() {
    let mut s = solver_with_trace(2, &[1, 2, 3, 4, 5, 6]);
    s.proximal_update(&[0; 6], 0, &[b32(1.0), b32(2.0), b32(3.0), b32(4.0), b32(5.0), b32(6.0)]);
    let candidate = [
        b32(0.5),
        b32(-0.5),
        b32(-0.0),
        b32(f32::NAN),
        b32(f32::INFINITY),
        b32(f32::NEG_INFINITY),
    ];
    s.proximal_update(&[11, 12, 13, 14, 15, 16], b64(7.0), &candidate);
    assert_eq!(s.get_solution(), vec![b32(0.5), 0, 0, 0, b32(f32::INFINITY), 0]);
    assert_eq!(
        s.get_previous(),
        vec![b32(1.0), b32(2.0), b32(3.0), b32(4.0), b32(5.0), b32(6.0)]
    );
    assert_eq!(s.get_baseline(), b64(7.0));
    assert_eq!(s.iteration_count(), 2);
    assert!(s.get_reconvolution().is_none());
    s.store_reconvolution(&[1; 6], b64(7.0));
    assert_eq!(s.get_reconvolution(), Some(vec![1; 6]));
    for v in s.get_solution() {
        assert!(f32::from_bits(v) >= 0.0);
    }
}

#[test]
fn adaptive_restart_needs_a_positive_dot_after_the_first_iteration() {
    let mut s = solver_with_trace(2, &[1, 2]);
    s.proximal_update(&[0, 0], 0, &[0, 0]);
    s.momentum_update(b64(1.618), &[0, 0], b64(1.0));
    // first iteration: never
    assert!(!s.adaptive_restart(b64(5.0)));
    assert_eq!(s.momentum(), b64(1.618));
    s.proximal_update(&[0, 0], 0, &[0, 0]);
    for dot in [0.0, -0.0, -1.0, f64::NAN, f64::NEG_INFINITY] {
        assert!(!s.adaptive_restart(b64(dot)));
        assert_eq!(s.momentum(), b64(1.618));
    }
    assert!(s.adaptive_restart(b64(1e-300)));
    assert_eq!(s.momentum(), b64(1.0));
    s.momentum_update(b64(2.0), &[0, 0], b64(1.0));
    assert!(s.adaptive_restart(b64(f64::INFINITY)));
    assert_eq!(s.momentum(), b64(1.0));
}

#[test]
fn momentum_update_projects_and_tests_convergence() {
    let mut s = solver_with_trace(2, &[1, 2, 3]);
    for i in 1..=5 {
        s.proximal_update(&[0; 3], 0, &[0; 3]);
        // a vanishing change does not converge before the sixth iteration
        assert!(!s.momentum_update(b64(1.5), &[b32(-1.0), b32(2.0), b32(f32::NAN)], b64(0.0)));
        assert_eq!(s.iteration_count(), i);
    }
    assert_eq!(s.get_extrapolation(), vec![0, b32(2.0), 0]);
    assert_eq!(s.momentum(), b64(1.5));
    s.proximal_update(&[0; 3], 0, &[0; 3]);
    // at the tolerance itself there is no convergence, nor for a change that is no number
    assert!(!s.momentum_update(b64(1.5), &[0; 3], b64(1e-6)));
    assert!(!s.momentum_update(b64(1.5), &[0; 3], b64(f64::NAN)));
    assert!(!s.momentum_update(b64(1.5), &[0; 3], b64(1.0)));
    assert!(s.momentum_update(b64(1.75), &[0; 3], b64(0.99e-6)));
    assert!(s.converged());
    assert_eq!(s.momentum(), b64(1.75));
    // convergence is kept
    assert!(s.momentum_update(b64(1.75), &[0; 3], b64(1.0)));
}

#[test]
fn reconvolution_plan_follows_the_state() {
    let mut s = Solver::new(kernel_of(2));
    assert_eq!(s.reconvolution_plan(), ReconvolutionPlan::Current);
    s.set_trace(&[1, 2, 3]);
    assert_eq!(s.reconvolution_plan(), ReconvolutionPlan::Transform);
    assert!(s.get_reconvolution().is_none());
    s.store_reconvolution(&[7, 8, 9], b64(0.5));
    assert_eq!(s.reconvolution_plan(), ReconvolutionPlan::Current);
    assert_eq!(s.get_reconvolution(), Some(vec![7, 8, 9]));
    assert_eq!(s.get_baseline(), b64(0.5));
    // dropping the plans leaves the time domain
    s.set_params(1, 2, 3, 4, kernel_of(9), &good_cutoffs());
    s.proximal_update(&[0; 3], 0, &[0; 3]);
    assert_eq!(s.reconvolution_plan(), ReconvolutionPlan::Direct);
}

#[test]
fn apply_filter_replaces_the_trace_where_the_filter_applies() {
    let trace: Vec<u32> = (1..=8).collect();
    let filtered: Vec<u32> = (11..=18).collect();
    let mut s = solver_with_trace(2, &trace);
    // off and invalid
    assert!(!s.apply_filter(&filtered));
    assert_eq!(s.get_trace(), trace);
    s.set_filter_enabled(true);
    assert!(s.filter_enabled());
    // on, but no valid band yet
    assert!(!s.apply_filter(&filtered));
    s.set_params(1, 2, 3, 4, kernel_of(2), &good_cutoffs());
    s.proximal_update(&[0; 8], 0, &[b32(1.0); 8]);
    assert!(s.apply_filter(&filtered));
    assert_eq!(s.get_trace(), filtered);
    // the solve is left alone
    assert_eq!(s.iteration_count(), 1);
    assert_eq!(s.get_solution(), vec![b32(1.0); 8]);
    s.set_filter_enabled(false);
    assert!(!s.apply_filter(&trace));
    assert_eq!(s.get_trace(), filtered);
}

#[test]
fn apply_filter_skips_a_short_trace() {
    let mut s = solver_with_trace(2, &[1, 2, 3, 4, 5, 6, 7]);
    s.set_filter_enabled(true);
    s.set_params(1, 2, 3, 4, kernel_of(2), &good_cutoffs());
    assert!(s.filter().is_valid());
    assert!(!s.apply_filter(&[0; 7]));
    assert_eq!(s.get_trace(), vec![1, 2, 3, 4, 5, 6, 7]);
}

#[test]
fn power_spectrum_is_empty_for_a_short_trace() {
    let mut s = solver_with_trace(2, &[1, 2, 3, 4, 5, 6, 7]);
    s.store_power_spectrum(&[1, 2, 3, 4]);
    assert!(s.get_power_spectrum().is_empty());
    s.set_trace(&[1, 2, 3, 4, 5, 6, 7, 8]);
    assert!(s.get_power_spectrum().is_empty());
    s.store_power_spectrum(&[1, 2, 3, 4, 5]);
    assert_eq!(s.get_power_spectrum(), vec![1, 2, 3, 4, 5]);
}

#[test]
fn gain_curve_is_installed_through_the_solver() {
    let mut s = solver_with_trace(2, &[0; 8]);
    assert!(s.filter().needs_gain_curve(8));
    let edges = TaperEdges { hp_lo: b32(1.0), hp_hi: b32(2.0), lp_lo: b32(3.0), lp_hi: b32(4.0) };
    let freqs = [b32(0.0), b32(1.5), b32(2.5), b32(3.5), b32(4.5)];
    s.install_gain_curve(8, &edges, &freqs, &[7; 5], &[9; 5]);
    assert!(!s.filter().needs_gain_curve(8));
    assert_eq!(s.filter().gain_curve(), vec![0, 7, b32(1.0), 9, 0]);
    assert_eq!(s.get_power_spectrum(), vec![0; 5]);
}

#[test]
fn buffers_grow_and_never_lose_their_tail() {
    let mut buf = vec![1_u32, 2, 3];
    buffer::grow_zeroed(&mut buf, 2);
    assert_eq!(buf, vec![1, 2, 3]);
    buffer::grow_zeroed(&mut buf, 5);
    assert_eq!(buf, vec![1, 2, 3, 0, 0]);
    buffer::write_prefix(&mut buf, &[9, 8]);
    assert_eq!(buf, vec![9, 8, 3, 0, 0]);
    buffer::zero_prefix(&mut buf, 1);
    assert_eq!(buf, vec![0, 8, 3, 0, 0]);
    buffer::copy_prefix(&mut buf, &vec![4, 5, 6, 7], 3);
    assert_eq!(buf, vec![4, 5, 6, 0, 0]);
    assert_eq!(buffer::prefix_to_vec(&buf, 2), vec![4, 5]);
    assert_eq!(buffer::prefix_to_vec(&buf, 0), Vec::<u32>::new());
}

#[test]
fn restart_and_convergence_rules() {
    assert!(!fista::should_restart(0, b64(1.0)));
    assert!(!fista::should_restart(1, b64(1.0)));
    assert!(fista::should_restart(2, b64(1.0)));
    assert!(!fista::should_restart(2, b64(0.0)));
    assert!(!fista::should_restart(2, b64(-1.0)));
    assert!(!fista::should_restart(u32::MAX, b64(f64::NAN)));
    assert!(!fista::has_converged(5, b64(0.0), b64(1e-6)));
    assert!(fista::has_converged(6, b64(0.0), b64(1e-6)));
    assert!(fista::has_converged(6, b64(9.9e-7), b64(1e-6)));
    assert!(!fista::has_converged(6, b64(1e-6), b64(1e-6)));
    assert!(!fista::has_converged(600, b64(f64::NAN), b64(1e-6)));
    assert!(!fista::has_converged(6, b64(0.0), b64(f64::NAN)));
    assert_eq!(fista::RESTART_AFTER, 1);
    assert_eq!(fista::CONVERGE_AFTER, 5);
}

#[test]
fn project_into_overwrites_the_front() {
    let mut buf = vec![9_u32; 5];
    fista::project_into(&mut buf, &[b32(1.0), b32(-1.0), b32(f32::NAN)]);
    assert_eq!(buf, vec![b32(1.0), 0, 0, 9, 9]);
}

#[test]
fn power_spectrum_is_needed_once_per_length() {
    let mut s = solver_with_trace(2, &[1, 2, 3, 4, 5, 6, 7]);
    // too short a trace needs none
    assert!(!s.needs_power_spectrum());
    s.set_trace(&[0; 8]);
    assert!(s.needs_power_spectrum());
    s.store_power_spectrum(&[1, 2, 3, 4, 5]);
    assert!(!s.needs_power_spectrum());
    s.set_trace(&[0; 9]);
    assert!(!s.needs_power_spectrum());
    s.set_trace(&[0; 10]);
    assert!(s.needs_power_spectrum());
}

#[test]
fn kernel_spectrum_is_awaited_after_planning() {
    let mut s = Solver::new(kernel_of(2));
    assert!(!s.fft().awaits_kernel());
    s.set_trace(&[1, 2, 3]);
    assert!(s.fft().awaits_kernel());
    s.prepare_kernel(&[SpectrumBin { re: 0, im: 0 }; 3]);
    assert!(!s.fft().awaits_kernel());
    s.set_params(1, 2, 3, 4, kernel_of(2), &good_cutoffs());
    assert!(s.fft().awaits_kernel());
    s.set_params(1, 2, 3, 4, kernel_of(20), &good_cutoffs());
    assert!(!s.fft().awaits_kernel());
}
