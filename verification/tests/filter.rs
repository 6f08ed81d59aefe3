use catune_solver::filter;
use catune_solver::filter::BandpassFilter;
use catune_solver::filter::CutoffCandidates;
use catune_solver::filter::TaperEdges;
use catune_solver::layout;
use realfft::RealFftPlanner;
use rustfft::num_complex::Complex;
use std::f32::consts::PI;

fn to_bits(samples: &[f32]) -> Vec<u32> {
    samples.iter().map(|v| v.to_bits()).collect()
}

fn from_bits(bits: &[u32]) -> Vec<f32> {
    bits.iter().map(|&b| f32::from_bits(b)).collect()
}

fn candidates(tau_rise: f64, tau_decay: f64, fs: f64) -> CutoffCandidates {
    let fs_narrow = fs as f32;
    let tau_rise = tau_rise as f32;
    let tau_decay = tau_decay as f32;
    CutoffCandidates {
        tau_rise: tau_rise.to_bits(),
        tau_decay: tau_decay.to_bits(),
        fs: fs.to_bits(),
        fs_narrow: fs_narrow.to_bits(),
        f_hp: (1.0 / (2.0 * PI * tau_decay * 16.0)).to_bits(),
        f_lp: (4.0 / (2.0 * PI * tau_rise)).to_bits(),
        nyquist: (fs_narrow / 2.0).to_bits(),
    }
}

/// The filter as it runs: the library's state and rules with the transforms
/// and the taper arithmetic done around them.
struct Filter {
    state: BandpassFilter,
    planner: RealFftPlanner<f32>,
}

impl Filter {
    fn new() -> Self {
        Filter { state: BandpassFilter::new(), planner: RealFftPlanner::new() }
    }

    fn update_cutoffs(&mut self, tau_rise: f64, tau_decay: f64, fs: f64) {
        self.state.update_cutoffs(&candidates(tau_rise, tau_decay, fs));
    }

    fn set_enabled(&mut self, enabled: bool) {
        self.state.set_enabled(enabled);
    }

    fn ensure_gain_curve(&mut self, n: usize) {
        if !self.state.needs_gain_curve(n) {
            return;
        }
        let [f_hp, f_lp] = self.state.get_cutoffs().map(f32::from_bits);
        let fs = f32::from_bits(self.state.sample_rate());
        let df = fs / n as f32;
        let w_hp = f_hp * 0.5;
        let w_lp = f_lp * 0.5;
        let mut freqs = Vec::new();
        let mut rise = Vec::new();
        let mut fall = Vec::new();
        for i in 0..layout::spectrum_bins(n) {
            let f = i as f32 * df;
            let t_hp = (f - (f_hp - w_hp)) / (2.0 * w_hp);
            let t_lp = (f - (f_lp - w_lp)) / (2.0 * w_lp);
            freqs.push(f.to_bits());
            rise.push((0.5 * (1.0 - (PI * t_hp).cos())).to_bits());
            fall.push((0.5 * (1.0 + (PI * t_lp).cos())).to_bits());
        }
        let edges = TaperEdges {
            hp_lo: (f_hp - w_hp).to_bits(),
            hp_hi: (f_hp + w_hp).to_bits(),
            lp_lo: (f_lp - w_lp).to_bits(),
            lp_hi: (f_lp + w_lp).to_bits(),
        };
        self.state.install_gain_curve(n, &edges, &freqs, &rise, &fall);
    }

    fn forward(&mut self, trace: &[f32]) -> Vec<Complex<f32>> {
        let n = trace.len();
        let mut input = trace.to_vec();
        let mut spectrum = vec![Complex::new(0.0_f32, 0.0); layout::spectrum_bins(n)];
        self.planner
            .plan_fft_forward(n)
            .process(&mut input, &mut spectrum)
            .unwrap();
        let power: Vec<u32> = spectrum
            .iter()
            .map(|c| (c.re * c.re + c.im * c.im).to_bits())
            .collect();
        self.state.store_power_spectrum(&power);
        spectrum
    }

    fn apply(&mut self, trace: &mut [f32]) -> bool {
        let n = trace.len();
        if !self.state.should_apply(n) {
            return false;
        }
        self.ensure_gain_curve(n);
        let mut spectrum = self.forward(trace);
        let gains = from_bits(&self.state.gain_curve());
        for (s, g) in spectrum.iter_mut().zip(gains.iter()) {
            *s *= *g;
        }
        let mut output = vec![0.0_f32; n];
        self.planner
            .plan_fft_inverse(n)
            .process(&mut spectrum, &mut output)
            .unwrap();
        let scale = 1.0 / n as f32;
        for v in output.iter_mut() {
            *v *= scale;
        }
        let level = f32::from_bits(filter::baseline_level(&to_bits(&output)));
        for i in 0..n {
            trace[i] = output[i] - level;
        }
        true
    }

    fn compute_spectrum_only(&mut self, trace: &[f32]) {
        if trace.len() < layout::MIN_FILTER_LEN {
            return;
        }
        self.ensure_gain_curve(trace.len());
        self.forward(trace);
    }
}

fn make_filter(tau_rise: f64, tau_decay: f64, fs: f64) -> Filter {
    let mut f = Filter::new();
    f.update_cutoffs(tau_rise, tau_decay, fs);
    f.set_enabled(true);
    f
}

#[test]
fn test_cutoff_computation() {
    let f = make_filter(0.02, 0.4, 30.0);
    assert!(f.state.is_valid());
    let [f_hp, f_lp] = f.state.get_cutoffs().map(f32::from_bits);
    // f_hp = 1/(2*pi*0.4*16) ~ 0.0249 Hz
    assert!((f_hp - 0.0249).abs() < 0.005);
    // f_lp = 4/(2*pi*0.02) ~ 31.83 Hz, clamped to Nyquist=15 Hz
    assert!((f_lp - 15.0).abs() < 0.01);
}

#[test]
fn test_passband_preservation() {
    let mut f = make_filter(0.02, 0.4, 100.0);
    let n = 1024;
    let fs = 100.0_f32;

    let freq = 1.0_f32;
    let mut trace: Vec<f32> = (0..n)
        .map(|i| (2.0 * PI * freq * i as f32 / fs).sin())
        .collect();
    let orig_mean: f32 = trace.iter().sum::<f32>() / n as f32;
    let original_ac_power: f32 = trace.iter().map(|x| (x - orig_mean).powi(2)).sum();

    assert!(f.apply(&mut trace));

    let filt_mean: f32 = trace.iter().sum::<f32>() / n as f32;
    let filtered_ac_power: f32 = trace.iter().map(|x| (x - filt_mean).powi(2)).sum();
    assert!(
        filtered_ac_power / original_ac_power > 0.9,
        "passband AC power ratio: {}",
        filtered_ac_power / original_ac_power
    );
}

#[test]
fn test_stopband_attenuation() {
    let mut f = make_filter(0.02, 0.4, 100.0);
    let n = 65536;
    let fs = 100.0_f32;

    let freq = 0.005_f32;
    let mut trace: Vec<f32> = (0..n)
        .map(|i| (2.0 * PI * freq * i as f32 / fs).sin())
        .collect();
    let original_power: f32 = trace.iter().map(|x| x * x).sum();

    assert!(f.apply(&mut trace));

    let filtered_power: f32 = trace.iter().map(|x| x * x).sum();
    assert!(
        filtered_power / original_power < 0.1,
        "stopband power ratio: {}",
        filtered_power / original_power
    );
}

#[test]
fn test_dc_removal() {
    let mut f = make_filter(0.02, 0.4, 100.0);
    let n = 256;

    let mut trace = vec![5.0_f32; n];
    assert!(f.apply(&mut trace));

    let mean: f32 = trace.iter().sum::<f32>() / n as f32;
    assert!(mean.abs() < 0.1, "DC not removed, mean: {}", mean);
}

#[test]
fn test_round_trip_fft() {
    let mut f = make_filter(0.001, 10.0, 100.0);
    let n = 256;
    let fs = 100.0_f32;
    let freq = 5.0_f32;
    let original: Vec<f32> = (0..n)
        .map(|i| (2.0 * PI * freq * i as f32 / fs).sin())
        .collect();
    let mut trace = original.clone();

    assert!(f.apply(&mut trace));

    let mean_t: f32 = trace.iter().sum::<f32>() / n as f32;
    let mean_o: f32 = original.iter().sum::<f32>() / n as f32;
    let dot: f32 = trace
        .iter()
        .zip(original.iter())
        .map(|(a, b)| (a - mean_t) * (b - mean_o))
        .sum();
    let norm_t: f32 = trace.iter().map(|x| (x - mean_t).powi(2)).sum::<f32>().sqrt();
    let norm_o: f32 = original.iter().map(|x| (x - mean_o).powi(2)).sum::<f32>().sqrt();
    let correlation = dot / (norm_t * norm_o + 1e-10);
    assert!(correlation > 0.95, "round-trip correlation: {}", correlation);
}

#[test]
fn test_short_trace_skip() {
    let mut f = make_filter(0.02, 0.4, 30.0);
    let mut trace = vec![1.0, 2.0, 3.0];
    assert!(!f.apply(&mut trace));
}

#[test]
fn test_invalid_cutoffs_skip() {
    let mut f = Filter::new();
    // tau_rise very large, tau_decay very small -> f_hp > f_lp
    f.update_cutoffs(10.0, 0.001, 30.0);
    f.set_enabled(true);
    assert!(!f.state.is_valid());
    let mut trace = vec![1.0; 64];
    assert!(!f.apply(&mut trace));
}

#[test]
fn test_baseline_correction() {
    let mut f = make_filter(0.02, 0.4, 100.0);
    let n = 1024;
    let fs = 100.0_f32;

    let mut trace: Vec<f32> = (0..n)
        .map(|i| {
            let t = i as f32 / fs;
            let baseline = 100.0;
            let transient = if (t * 0.5).fract() < 0.05 { 20.0 } else { 0.0 };
            baseline + transient + 0.5 * (2.0 * PI * 1.0 * t).sin()
        })
        .collect();

    assert!(f.apply(&mut trace));

    let mut sorted = trace.clone();
    sorted.sort_by(|a, b| a.partial_cmp(b).unwrap());
    let p8 = sorted[(n as f64 * 0.02).round() as usize];
    assert!(p8.abs() < 0.5, "8th percentile should be near 0, got: {}", p8);

    let negative_frac = trace.iter().filter(|&&x| x < 0.0).count() as f64 / n as f64;
    assert!(
        negative_frac < 0.10,
        "too many negative values after correction: {:.1}%",
        negative_frac * 100.0
    );
}

#[test]
fn test_disabled_noop() {
    let mut f = make_filter(0.02, 0.4, 30.0);
    f.set_enabled(false);
    let mut trace = vec![1.0; 64];
    let original = trace.clone();
    assert!(!f.apply(&mut trace));
    assert_eq!(trace, original);
}

#[test]
fn new_filter_is_off_and_invalid() {
    let f = BandpassFilter::new();
    assert!(!f.is_enabled());
    assert!(!f.is_valid());
    assert_eq!(f.get_cutoffs(), [0, 0]);
    assert_eq!(f32::from_bits(f.sample_rate()), 30.0);
    assert_eq!(f32::from_bits(filter::DEFAULT_SAMPLE_RATE), 30.0);
    assert!(f.gain_curve().is_empty());
    assert!(f.get_power_spectrum(8).is_empty());
    assert!(!f.should_apply(1024));
}

#[test]
fn should_apply_needs_all_three_conditions() {
    let mut f = BandpassFilter::new();
    f.update_cutoffs(&candidates(0.02, 0.4, 30.0));
    assert!(f.is_valid());
    assert!(!f.should_apply(64));
    f.set_enabled(true);
    assert!(f.should_apply(64));
    assert!(f.should_apply(8));
    assert!(!f.should_apply(7));
    assert!(!f.should_apply(0));
    f.update_cutoffs(&candidates(10.0, 0.001, 30.0));
    assert!(!f.should_apply(64));
}

#[test]
fn cutoffs_are_taken_and_clamped() {
    let mut f = BandpassFilter::new();
    let c = CutoffCandidates {
        tau_rise: 1.0_f32.to_bits(),
        tau_decay: 1.0_f32.to_bits(),
        fs: 10.0_f64.to_bits(),
        fs_narrow: 10.0_f32.to_bits(),
        f_hp: 0.5_f32.to_bits(),
        f_lp: 7.0_f32.to_bits(),
        nyquist: 5.0_f32.to_bits(),
    };
    f.update_cutoffs(&c);
    assert!(f.is_valid());
    assert_eq!(f.get_cutoffs(), [0.5_f32.to_bits(), 5.0_f32.to_bits()]);
    assert_eq!(f.sample_rate(), 10.0_f32.to_bits());

    // a low-pass candidate below Nyquist is kept
    let c = CutoffCandidates { f_lp: 4.0_f32.to_bits(), ..c };
    f.update_cutoffs(&c);
    assert_eq!(f.get_cutoffs(), [0.5_f32.to_bits(), 4.0_f32.to_bits()]);
    assert!(f.is_valid());

    // equal cutoffs are no band
    let c = CutoffCandidates { f_hp: 4.0_f32.to_bits(), ..c };
    f.update_cutoffs(&c);
    assert!(!f.is_valid());
    assert_eq!(f.get_cutoffs(), [4.0_f32.to_bits(), 4.0_f32.to_bits()]);
}

#[test]
fn parameters_at_or_below_zero_invalidate_and_keep_the_cutoffs() {
    let good = candidates(0.02, 0.4, 30.0);
    for bad in [
        candidates(0.0, 0.4, 30.0),
        candidates(-0.02, 0.4, 30.0),
        candidates(0.02, 0.0, 30.0),
        candidates(0.02, -0.4, 30.0),
        candidates(0.02, 0.4, 0.0),
        candidates(0.02, 0.4, -30.0),
        candidates(-0.0, 0.4, 30.0),
    ] {
        let mut f = BandpassFilter::new();
        f.update_cutoffs(&good);
        let before = f.get_cutoffs();
        assert!(f.is_valid());
        f.update_cutoffs(&bad);
        assert!(!f.is_valid());
        assert_eq!(f.get_cutoffs(), before);
        assert_eq!(f.sample_rate(), bad.fs_narrow);
    }
}

#[test]
fn a_sampling_rate_too_small_for_single_precision_still_counts_as_positive() {
    let mut f = BandpassFilter::new();
    let c = candidates(0.02, 0.4, 1e-60);
    assert_eq!(c.fs_narrow, 0);
    f.update_cutoffs(&c);
    // the candidates are taken; the band is empty because Nyquist is zero
    assert!(!f.is_valid());
    assert_eq!(f.get_cutoffs(), [c.f_hp, 0]);
}

#[test]
fn nan_parameters_give_no_band() {
    for bad in [
        candidates(f64::NAN, 0.4, 30.0),
        candidates(0.02, f64::NAN, 30.0),
        candidates(0.02, 0.4, f64::NAN),
    ] {
        let mut f = BandpassFilter::new();
        f.update_cutoffs(&candidates(0.02, 0.4, 30.0));
        let before = f.get_cutoffs();
        f.update_cutoffs(&bad);
        assert!(!f.is_valid());
        assert_eq!(f.get_cutoffs(), before);
    }
}

#[test]
fn update_cutoffs_drops_the_gain_curve() {
    let mut f = make_filter(0.02, 0.4, 30.0);
    assert!(f.state.needs_gain_curve(64));
    f.ensure_gain_curve(64);
    assert!(!f.state.needs_gain_curve(64));
    assert!(f.state.needs_gain_curve(128));
    assert_eq!(f.state.gain_curve().len(), 33);
    f.update_cutoffs(0.02, 0.4, 30.0);
    assert!(f.state.needs_gain_curve(64));
    assert!(f.state.gain_curve().is_empty());
}

#[test]
fn invalid_parameters_keep_the_gain_curve() {
    let mut f = make_filter(0.02, 0.4, 30.0);
    f.ensure_gain_curve(64);
    let before = f.state.gain_curve();
    f.update_cutoffs(0.0, 0.4, 30.0);
    assert!(!f.state.needs_gain_curve(64));
    assert_eq!(f.state.gain_curve(), before);
}

#[test]
fn gain_curve_picks_the_region_of_each_bin() {
    let mut f = BandpassFilter::new();
    let edges = TaperEdges {
        hp_lo: 1.0_f32.to_bits(),
        hp_hi: 3.0_f32.to_bits(),
        lp_lo: 6.0_f32.to_bits(),
        lp_hi: 8.0_f32.to_bits(),
    };
    // nine bins for a trace of sixteen samples
    let freqs = to_bits(&[0.0, 0.5, 1.0, 2.0, 3.0, 5.0, 6.0, 7.0, 8.0]);
    let rise: Vec<u32> = (100..109).collect();
    let fall: Vec<u32> = (200..209).collect();
    f.install_gain_curve(16, &edges, &freqs, &rise, &fall);
    let one = 1.0_f32.to_bits();
    assert_eq!(f.gain_curve(), vec![0, 0, 102, 103, one, one, 206, 207, 0]);
    assert!(!f.needs_gain_curve(16));
    assert!(f.needs_gain_curve(17));
}

#[test]
fn gain_curve_is_zero_at_a_frequency_that_is_not_a_number() {
    let mut f = BandpassFilter::new();
    let edges = TaperEdges {
        hp_lo: 1.0_f32.to_bits(),
        hp_hi: 3.0_f32.to_bits(),
        lp_lo: 6.0_f32.to_bits(),
        lp_hi: 8.0_f32.to_bits(),
    };
    let freqs = to_bits(&[f32::NAN, 4.0]);
    f.install_gain_curve(2, &edges, &freqs, &[11, 12], &[21, 22]);
    assert_eq!(f.gain_curve(), vec![0, 1.0_f32.to_bits()]);
}

#[test]
fn gain_curve_rises_and_falls_as_a_cosine() {
    let mut f = make_filter(0.02, 0.4, 100.0);
    f.ensure_gain_curve(65536);
    let gains = from_bits(&f.state.gain_curve());
    assert_eq!(gains.len(), 32769);
    let [f_hp, f_lp] = f.state.get_cutoffs().map(f32::from_bits);
    let df = 100.0_f32 / 65536.0;
    for (i, &g) in gains.iter().enumerate() {
        let freq = i as f32 * df;
        assert!((0.0..=1.0).contains(&g), "bin {} gain {}", i, g);
        if freq < f_hp * 0.5 {
            assert_eq!(g, 0.0);
        }
        if freq >= f_hp * 1.5 && freq < f_lp * 0.5 {
            assert_eq!(g, 1.0);
        }
    }
    // at the high-pass cutoff the rising taper is half way
    let at_hp = (f_hp / df).round() as usize;
    assert!((gains[at_hp] - 0.5).abs() < 0.05);
    // monotone over the rising taper
    let lo = (f_hp * 0.5 / df) as usize;
    let hi = (f_hp * 1.5 / df) as usize;
    for i in lo..hi {
        assert!(gains[i] <= gains[i + 1] + 1e-6);
    }
}

#[test]
fn power_spectrum_is_cached_per_length() {
    let mut f = BandpassFilter::new();
    assert!(f.get_power_spectrum(8).is_empty());
    f.store_power_spectrum(&[1, 2, 3, 4, 5]);
    assert_eq!(f.get_power_spectrum(8), vec![1, 2, 3, 4, 5]);
    assert_eq!(f.get_power_spectrum(9), vec![1, 2, 3, 4, 5]);
    // a shorter trace reads a prefix of what is cached
    assert_eq!(f.get_power_spectrum(4), vec![1, 2, 3]);
    assert_eq!(f.get_power_spectrum(0), vec![1]);
    // a longer trace finds nothing
    assert!(f.get_power_spectrum(10).is_empty());
    // a shorter spectrum overwrites the front only
    f.store_power_spectrum(&[9, 8]);
    assert_eq!(f.get_power_spectrum(8), vec![9, 8, 3, 4, 5]);
    f.store_power_spectrum(&[7, 7, 7, 7, 7, 7, 7]);
    assert_eq!(f.get_power_spectrum(12), vec![7; 7]);
}

#[test]
fn installing_a_gain_curve_makes_room_for_the_power_spectrum() {
    let mut f = BandpassFilter::new();
    f.store_power_spectrum(&[5, 6]);
    let edges = TaperEdges { hp_lo: 0, hp_hi: 0, lp_lo: 0, lp_hi: 0 };
    f.install_gain_curve(8, &edges, &[0; 5], &[0; 5], &[0; 5]);
    assert_eq!(f.get_power_spectrum(8), vec![5, 6, 0, 0, 0]);
}

#[test]
fn spectrum_only_caches_the_power_of_each_bin() {
    let mut f = Filter::new();
    let trace = vec![1.0_f32; 16];
    f.compute_spectrum_only(&trace);
    let power = from_bits(&f.state.get_power_spectrum(16));
    assert_eq!(power.len(), 9);
    assert!((power[0] - 256.0).abs() < 1e-3);
    for p in &power[1..] {
        assert!(p.abs() < 1e-6);
    }
    // too short a trace is not analysed
    let mut g = Filter::new();
    g.compute_spectrum_only(&[1.0; 7]);
    assert!(g.state.get_power_spectrum(7).is_empty());
}

#[test]
fn apply_caches_the_power_spectrum_of_the_unfiltered_trace() {
    let mut f = make_filter(0.02, 0.4, 100.0);
    let mut trace = vec![2.0_f32; 32];
    assert!(f.apply(&mut trace));
    let power = from_bits(&f.state.get_power_spectrum(32));
    assert_eq!(power.len(), 17);
    assert!((power[0] - 64.0 * 64.0).abs() < 1e-2);
}

#[test]
fn baseline_level_is_the_sample_at_the_percentile_rank() {
    // fewer than 25 samples: the smallest
    let level = filter::baseline_level(&to_bits(&[3.0, -1.5, 2.0, 0.0, -0.25, 8.0, 1.0, 4.0]));
    assert_eq!(f32::from_bits(level), -1.5);
    // 100 samples: rank 2, the third smallest
    let samples: Vec<f32> = (0..100).map(|i| ((i * 37) % 100) as f32 - 50.0).collect();
    let level = filter::baseline_level(&to_bits(&samples));
    assert_eq!(f32::from_bits(level), -48.0);
    assert_eq!(filter::baseline_level(&to_bits(&[7.5])), 7.5_f32.to_bits());
}

#[test]
fn baseline_level_agrees_with_sorting() {
    let mut state: u32 = 99;
    for n in [8_usize, 24, 25, 26, 75, 256, 1024, 4099] {
        let samples: Vec<f32> = (0..n)
            .map(|_| {
                state = state.wrapping_mul(1_664_525).wrapping_add(1_013_904_223);
                ((state >> 8) as f32 / 65536.0) - 128.0
            })
            .collect();
        let mut sorted = samples.clone();
        sorted.sort_by(|a, b| a.partial_cmp(b).unwrap());
        let rank = ((n as f64 * 0.02).round() as usize).min(n - 1);
        let level = f32::from_bits(filter::baseline_level(&to_bits(&samples)));
        assert_eq!(level, sorted[rank], "n = {}", n);
    }
}

#[test]
fn baseline_level_orders_negative_before_positive() {
    let level = filter::baseline_level(&to_bits(&[0.0, -0.0, 1.0, f32::INFINITY]));
    assert_eq!(level, (-0.0_f32).to_bits());
    let level = filter::baseline_level(&to_bits(&[f32::NEG_INFINITY, -1e30, 5.0]));
    assert_eq!(f32::from_bits(level), f32::NEG_INFINITY);
}

#[test]
fn filtered_trace_has_its_baseline_level_at_zero() {
    let mut f = make_filter(0.02, 0.4, 100.0);
    let n = 512;
    let mut trace: Vec<f32> = (0..n)
        .map(|i| 10.0 + (2.0 * PI * 2.0 * i as f32 / 100.0).sin())
        .collect();
    assert!(f.apply(&mut trace));
    let level = f32::from_bits(filter::baseline_level(&to_bits(&trace)));
    assert_eq!(level, 0.0);
    let below = trace.iter().filter(|&&v| v < 0.0).count();
    assert!(below <= layout::percentile_index(n));
}

#[test]
fn spectrum_needs_eight_samples() {
    assert!(!BandpassFilter::long_enough(0));
    assert!(!BandpassFilter::long_enough(7));
    assert!(BandpassFilter::long_enough(8));
    assert!(BandpassFilter::long_enough(65536));
    assert_eq!(layout::MIN_FILTER_LEN, 8);
}
