//! The state and the rules of the bandpass filter: which cutoffs are valid,
//! when the filter runs, which gain each bin of the spectrum gets, and which
//! level of the filtered trace is taken as its baseline.
//!
//! The caller computes the candidates (cutoff frequencies, bin frequencies,
//! taper values, transforms); the filter decides among them.
use crate::binary32;
use crate::binary64;
use crate::buffer;
use crate::layout;
use crate::select;
use vstd::prelude::*;

verus! {

/// The sampling rate of a filter that was given none yet, the value 30.0.
pub const DEFAULT_SAMPLE_RATE: u32 = 0x41f0_0000;

/// What the cutoffs are chosen from, for one set of kernel parameters. All
/// fields are binary32 patterns but `fs`.
pub struct CutoffCandidates {
    /// The rise time constant.
    pub tau_rise: u32,
    /// The decay time constant.
    pub tau_decay: u32,
    /// The sampling rate as it was given, a binary64 pattern.
    pub fs: u64,
    /// The sampling rate.
    pub fs_narrow: u32,
    /// The high-pass cutoff that the decay time constant asks for.
    pub f_hp: u32,
    /// The low-pass cutoff that the rise time constant asks for.
    pub f_lp: u32,
    /// Half the sampling rate.
    pub nyquist: u32,
}

/// The four frequencies at which the gain curve changes its shape, binary32
/// patterns: each cutoff less and plus its taper half-width.
pub struct TaperEdges {
    pub hp_lo: u32,
    pub hp_hi: u32,
    pub lp_lo: u32,
    pub lp_hi: u32,
}

/// The state of the filter.
pub struct BandpassFilter {
    enabled: bool,
    f_hp: u32,
    f_lp: u32,
    fs: u32,
    valid: bool,
    planned_len: usize,
    gain_curve: Vec<u32>,
    power_spectrum: Vec<u32>,
}

/// What the filter stands for.
pub struct BandpassFilterView {
    pub enabled: bool,
    /// The high-pass cutoff.
    pub f_hp: u32,
    /// The low-pass cutoff.
    pub f_lp: u32,
    /// The sampling rate.
    pub fs: u32,
    /// Whether the cutoffs describe a band.
    pub valid: bool,
    /// The trace length that the gain curve is built for; 0 for none.
    pub planned_len: nat,
    /// The gain curve for `planned_len`, one gain for each bin.
    pub gain_curve: Seq<u32>,
    /// The power spectrum buffer, with whatever an earlier, longer trace left
    /// behind its live bins.
    pub power_spectrum: Seq<u32>,
}

/// Whether the three parameters are numbers above zero.
pub open spec fn positive_parameters(c: CutoffCandidates) -> bool {
    &&& binary32::spec_lt(binary32::ZERO, c.tau_rise)
    &&& binary32::spec_lt(binary32::ZERO, c.tau_decay)
    &&& binary64::spec_lt(binary64::ZERO, c.fs)
}

/// The low-pass cutoff: the candidate, and half the sampling rate where the
/// candidate lies above it.
pub open spec fn clamped_low_pass(c: CutoffCandidates) -> u32 {
    if binary32::spec_lt(c.nyquist, c.f_lp) {
        c.nyquist
    } else {
        c.f_lp
    }
}

/// The gain of a bin at frequency `f`: nothing below the rising taper, the
/// rising taper's value within it, full gain between the tapers, the falling
/// taper's value within it, and nothing above.
pub open spec fn gain_at(edges: TaperEdges, f: u32, rise: u32, fall: u32) -> u32 {
    if binary32::spec_lt(f, edges.hp_lo) {
        binary32::ZERO
    } else if binary32::spec_lt(f, edges.hp_hi) {
        rise
    } else if binary32::spec_lt(f, edges.lp_lo) {
        binary32::ONE
    } else if binary32::spec_lt(f, edges.lp_hi) {
        fall
    } else {
        binary32::ZERO
    }
}

/// The gain curve over all bins.
pub open spec fn gain_curve_of(
    edges: TaperEdges,
    freqs: Seq<u32>,
    rise: Seq<u32>,
    fall: Seq<u32>,
) -> Seq<u32> {
    Seq::new(freqs.len(), |i: int| gain_at(edges, freqs[i], rise[i], fall[i]))
}

/// `fresh` laid over the front of `old`; what `old` holds behind it stays.
pub open spec fn laid_over(old: Seq<u32>, fresh: Seq<u32>) -> Seq<u32> {
    if fresh.len() <= old.len() {
        fresh + old.subrange(fresh.len() as int, old.len() as int)
    } else {
        fresh
    }
}

/// `buf` lengthened with zeros to `len`, where it is shorter.
pub open spec fn grown(buf: Seq<u32>, len: nat) -> Seq<u32> {
    if len <= buf.len() {
        buf
    } else {
        buf + buffer::zeros((len - buf.len()) as nat)
    }
}

/// The order keys of the samples.
pub open spec fn order_keys(samples: Seq<u32>) -> Seq<u32> {
    Seq::new(samples.len(), |i: int| binary32::spec_order_key(samples[i]))
}

/// Whether `level` is the baseline level of the samples: the sample that
/// holds the percentile rank once the samples are in ascending order.
pub open spec fn is_baseline_level(samples: Seq<u32>, level: u32) -> bool {
    select::holds_rank(
        order_keys(samples),
        layout::percentile_rank(samples.len()),
        binary32::spec_order_key(level),
    )
}

impl BandpassFilterView {
    /// The state after new cutoffs were chosen. Parameters that are not all
    /// numbers above zero make the filter invalid and change nothing else but
    /// the sampling rate. Otherwise the candidates are taken, the low-pass cutoff
    /// clamped, the band is valid where the high-pass cutoff lies below the
    /// low-pass one, and the gain curve is dropped.
    pub open spec fn update_cutoffs(self, c: CutoffCandidates) -> BandpassFilterView {
        if positive_parameters(c) {
            BandpassFilterView {
                fs: c.fs_narrow,
                f_hp: c.f_hp,
                f_lp: clamped_low_pass(c),
                valid: binary32::spec_lt(c.f_hp, clamped_low_pass(c)),
                planned_len: 0,
                gain_curve: Seq::empty(),
                ..self
            }
        } else {
            BandpassFilterView { fs: c.fs_narrow, valid: false, ..self }
        }
    }

    /// Whether the filter runs on a trace of `n` samples.
    pub open spec fn applies(self, n: nat) -> bool {
        self.enabled && self.valid && n >= layout::MIN_FILTER_LEN
    }

    /// The state after the gain curve was built for a trace of `n` samples.
    pub open spec fn install_gain_curve(self, n: nat, curve: Seq<u32>) -> BandpassFilterView {
        BandpassFilterView {
            planned_len: n,
            gain_curve: curve,
            power_spectrum: grown(self.power_spectrum, layout::spectrum_len(n)),
            ..self
        }
    }

    /// The cached power spectrum for a trace of `n` samples: its bins where
    /// the buffer holds that many, and nothing where it does not.
    pub open spec fn cached_power_spectrum(self, n: nat) -> Seq<u32> {
        if self.power_spectrum.len() >= layout::spectrum_len(n) {
            self.power_spectrum.subrange(0, layout::spectrum_len(n) as int)
        } else {
            Seq::empty()
        }
    }

    /// What holds of every filter: a gain curve has one gain for each bin.
    pub open spec fn wf(self) -> bool {
        &&& self.planned_len > 0 ==> self.gain_curve.len() == layout::spectrum_len(
            self.planned_len,
        )
        &&& self.planned_len == 0 ==> self.gain_curve.len() == 0
    }
}

impl View for BandpassFilter {
    type V = BandpassFilterView;

    closed spec fn view(&self) -> BandpassFilterView {
        BandpassFilterView {
            enabled: self.enabled,
            f_hp: self.f_hp,
            f_lp: self.f_lp,
            fs: self.fs,
            valid: self.valid,
            planned_len: self.planned_len as nat,
            gain_curve: if self.planned_len > 0 {
                self.gain_curve@.subrange(0, layout::spectrum_len(self.planned_len as nat) as int)
            } else {
                Seq::empty()
            },
            power_spectrum: self.power_spectrum@,
        }
    }
}

/// At most one sample is the baseline level, and it is one of the samples.
pub proof fn lemma_baseline_level_is_unique(samples: Seq<u32>, a: u32, b: u32)
    requires
        is_baseline_level(samples, a),
        is_baseline_level(samples, b),
    ensures
        a == b,
        samples.contains(a),
{
    let keys = order_keys(samples);
    let rank = layout::percentile_rank(samples.len());
    select::lemma_rank_is_unique(
        keys,
        rank,
        binary32::spec_order_key(a),
        binary32::spec_order_key(b),
    );
    binary32::lemma_order_key_round_trip(a);
    binary32::lemma_order_key_round_trip(b);
    select::lemma_rank_holder_is_member(keys, rank, binary32::spec_order_key(a));
    let i = choose|i: int| 0 <= i < keys.len() && keys[i] == binary32::spec_order_key(a);
    binary32::lemma_order_key_round_trip(samples[i]);
    assert(samples[i] == a);
}

/// How many samples are numbers below `level`.
pub open spec fn count_numerically_below(samples: Seq<u32>, level: u32) -> nat
    decreases samples.len(),
{
    if samples.len() == 0 {
        0
    } else {
        count_numerically_below(samples.drop_last(), level) + if binary32::spec_lt(
            samples.last(),
            level,
        ) {
            1nat
        } else {
            0nat
        }
    }
}

/// How many samples are numbers at or below `level`.
pub open spec fn count_numerically_at_most(samples: Seq<u32>, level: u32) -> nat
    decreases samples.len(),
{
    if samples.len() == 0 {
        0
    } else {
        count_numerically_at_most(samples.drop_last(), level) + if binary32::spec_le(
            samples.last(),
            level,
        ) {
            1nat
        } else {
            0nat
        }
    }
}

/// Counting by value and counting by order key bound each other: a sample
/// below in value is below in key, and a sample at or below in key is at or
/// below in value.
proof fn lemma_counts_by_value_and_by_key(samples: Seq<u32>, level: u32)
    requires
        forall|i: int| 0 <= i < samples.len() ==> !binary32::spec_is_nan(samples[i]),
        !binary32::spec_is_nan(level),
    ensures
        count_numerically_below(samples, level) <= select::count_below(
            order_keys(samples),
            binary32::spec_order_key(level),
        ),
        select::count_at_most(order_keys(samples), binary32::spec_order_key(level))
            <= count_numerically_at_most(samples, level),
    decreases samples.len(),
{
    if samples.len() > 0 {
        let head = samples.drop_last();
        lemma_counts_by_value_and_by_key(head, level);
        assert(order_keys(samples).drop_last() =~= order_keys(head));
        binary32::lemma_order_key_follows_value(samples.last(), level);
    }
}

/// In a trace of numbers the baseline level is the percentile: at most as
/// many samples as the percentile rank lie below it in value, and more than
/// that many lie at or below it.
pub proof fn lemma_baseline_level_is_percentile(samples: Seq<u32>, level: u32)
    requires
        is_baseline_level(samples, level),
        forall|i: int| 0 <= i < samples.len() ==> !binary32::spec_is_nan(samples[i]),
    ensures
        !binary32::spec_is_nan(level),
        layout::percentile_rank(samples.len()) < samples.len(),
        count_numerically_below(samples, level) <= layout::percentile_rank(samples.len()),
        layout::percentile_rank(samples.len()) < count_numerically_at_most(samples, level),
{
    lemma_baseline_level_is_unique(samples, level, level);
    let i = choose|i: int| 0 <= i < samples.len() && samples[i] == level;
    assert(!binary32::spec_is_nan(samples[i]));
    lemma_counts_by_value_and_by_key(samples, level);
    select::lemma_rank_holder_is_member(
        order_keys(samples),
        layout::percentile_rank(samples.len()),
        binary32::spec_order_key(level),
    );
}

/// After cutoffs were chosen the band is valid exactly where the parameters
/// are numbers above zero and the high-pass cutoff lies below the clamped
/// low-pass one. A valid band has its high-pass cutoff below its low-pass
/// cutoff, and its low-pass cutoff not above half the sampling rate; a filter
/// without a valid band runs on no trace.
pub proof fn lemma_update_cutoffs_validity(f: BandpassFilterView, c: CutoffCandidates)
    ensures
        f.update_cutoffs(c).valid <==> positive_parameters(c) && binary32::spec_lt(
            c.f_hp,
            clamped_low_pass(c),
        ),
        f.update_cutoffs(c).valid ==> binary32::spec_lt(
            f.update_cutoffs(c).f_hp,
            f.update_cutoffs(c).f_lp,
        ),
        f.update_cutoffs(c).valid ==> !binary32::spec_lt(c.nyquist, f.update_cutoffs(c).f_lp),
        f.update_cutoffs(c).fs == c.fs_narrow,
        f.update_cutoffs(c).enabled == f.enabled,
        f.update_cutoffs(c).power_spectrum == f.power_spectrum,
        f.wf() ==> f.update_cutoffs(c).wf(),
        forall|n: nat|
            !f.update_cutoffs(c).valid ==> !(#[trigger] f.update_cutoffs(c).applies(n)),
{
}

/// The gain is zero, one, or one of the two taper values, and it is zero for
/// a frequency that is not a number.
pub proof fn lemma_gain_at_cases(edges: TaperEdges, f: u32, rise: u32, fall: u32)
    ensures
        gain_at(edges, f, rise, fall) == binary32::ZERO || gain_at(edges, f, rise, fall)
            == binary32::ONE || gain_at(edges, f, rise, fall) == rise || gain_at(
            edges,
            f,
            rise,
            fall,
        ) == fall,
        binary32::spec_is_nan(f) ==> gain_at(edges, f, rise, fall) == binary32::ZERO,
{
}

/// The baseline level of a filtered trace: the sample at the percentile rank
/// of the trace, found without sorting it.
pub fn baseline_level(filtered: &[u32]) -> (level: u32)
    requires
        filtered.len() >= 1,
    ensures
        is_baseline_level(filtered@, level),
        filtered@.contains(level),
{
    let n = filtered.len();
    let mut keys: Vec<u32> = Vec::new();
    let mut i: usize = 0;
    while i < n
        invariant
            i <= n,
            n == filtered.len(),
            keys.len() == i,
            forall|j: int| 0 <= j < i ==> keys[j] == binary32::spec_order_key(filtered[j]),
        decreases n - i,
    {
        keys.push(binary32::order_key(filtered[i]));
        i = i + 1;
    }
    assert(keys@ =~= order_keys(filtered@));
    let rank = layout::percentile_index(n);
    proof {
        layout::lemma_percentile_rank_bounds(n as nat);
    }
    let key = select::select_rank(keys.as_slice(), rank);
    let level = binary32::from_order_key(key);
    proof {
        binary32::lemma_order_key_round_trip(key);
        let k = choose|k: int| 0 <= k < keys.len() && keys[k] == key;
        binary32::lemma_order_key_round_trip(filtered[k]);
        assert(filtered@[k] == level);
    }
    level
}

impl BandpassFilter {
    /// The representation invariant: the view is well formed and the gain
    /// buffer has room for the curve.
    pub closed spec fn wf(&self) -> bool {
        &&& self@.wf()
        &&& self.planned_len > 0 ==> layout::spectrum_len(self.planned_len as nat)
            <= self.gain_curve.len()
    }

    /// What `wf` says of the view.
    pub proof fn lemma_wf_view(&self)
        requires
            self.wf(),
        ensures
            self@.wf(),
    {
    }

    /// A filter that is switched off and has no valid band yet.
    pub fn new() -> (r: BandpassFilter)
        ensures
            r.wf(),
            r@ == (BandpassFilterView {
                enabled: false,
                f_hp: binary32::ZERO,
                f_lp: binary32::ZERO,
                fs: DEFAULT_SAMPLE_RATE,
                valid: false,
                planned_len: 0,
                gain_curve: Seq::empty(),
                power_spectrum: Seq::empty(),
            }),
    {
        BandpassFilter {
            enabled: false,
            f_hp: binary32::ZERO,
            f_lp: binary32::ZERO,
            fs: DEFAULT_SAMPLE_RATE,
            valid: false,
            planned_len: 0,
            gain_curve: Vec::new(),
            power_spectrum: Vec::new(),
        }
    }

    /// Switches the filter on or off.
    pub fn set_enabled(&mut self, enabled: bool)
        requires
            old(self).wf(),
        ensures
            final(self).wf(),
            final(self)@ == (BandpassFilterView { enabled, ..old(self)@ }),
    {
        self.enabled = enabled;
    }

    /// Whether the filter is switched on.
    pub fn is_enabled(&self) -> (r: bool)
        ensures
            r == self@.enabled,
    {
        self.enabled
    }

    /// Whether the cutoffs describe a band.
    pub fn is_valid(&self) -> (r: bool)
        ensures
            r == self@.valid,
    {
        self.valid
    }

    /// The sampling rate, a binary32 pattern.
    pub fn sample_rate(&self) -> (r: u32)
        ensures
            r == self@.fs,
    {
        self.fs
    }

    /// The cutoffs: high-pass, then low-pass.
    pub fn get_cutoffs(&self) -> (r: [u32; 2])
        ensures
            r[0] == self@.f_hp,
            r[1] == self@.f_lp,
    {
        [self.f_hp, self.f_lp]
    }

    /// Chooses the cutoffs for new kernel parameters.
    pub fn update_cutoffs(&mut self, c: &CutoffCandidates)
        requires
            old(self).wf(),
        ensures
            final(self).wf(),
            final(self)@ == old(self)@.update_cutoffs(*c),
    {
        self.fs = c.fs_narrow;
        if !binary32::lt(binary32::ZERO, c.tau_rise) || !binary32::lt(binary32::ZERO, c.tau_decay)
            || !binary64::lt(binary64::ZERO, c.fs) {
            self.valid = false;
            return ;
        }
        self.f_hp = c.f_hp;
        self.f_lp = c.f_lp;
        if binary32::lt(c.nyquist, self.f_lp) {
            self.f_lp = c.nyquist;
        }
        self.valid = binary32::lt(self.f_hp, self.f_lp);
        self.planned_len = 0;
    }

    /// Whether the filter runs on a trace of `n` samples: it is switched on,
    /// its band is valid, and the trace has at least eight samples.
    pub fn should_apply(&self, n: usize) -> (r: bool)
        ensures
            r == self@.applies(n as nat),
    {
        self.enabled && self.valid && n >= layout::MIN_FILTER_LEN
    }

    /// Whether a trace of `n` samples is long enough for its spectrum to be
    /// taken: it has at least eight samples.
    pub fn long_enough(n: usize) -> (r: bool)
        ensures
            r == (n >= layout::MIN_FILTER_LEN),
    {
        n >= layout::MIN_FILTER_LEN
    }

    /// Whether the gain curve has to be built before a trace of `n` samples
    /// is filtered or analysed.
    pub fn needs_gain_curve(&self, n: usize) -> (r: bool)
        ensures
            r == (self@.planned_len != n),
    {
        n != self.planned_len
    }

    /// Builds the gain curve for a trace of `n` samples from the frequency of
    /// each bin and the values of the two tapers there, and makes room for the
    /// power spectrum of such a trace.
    pub fn install_gain_curve(
        &mut self,
        n: usize,
        edges: &TaperEdges,
        freqs: &[u32],
        rise: &[u32],
        fall: &[u32],
    )
        requires
            old(self).wf(),
            n > 0,
            freqs.len() == layout::spectrum_len(n as nat),
            rise.len() == freqs.len(),
            fall.len() == freqs.len(),
        ensures
            final(self).wf(),
            final(self)@ == old(self)@.install_gain_curve(
                n as nat,
                gain_curve_of(*edges, freqs@, rise@, fall@),
            ),
    {
        let bins = freqs.len();
        buffer::grow_zeroed(&mut self.gain_curve, bins);
        buffer::grow_zeroed(&mut self.power_spectrum, bins);
        let mut i: usize = 0;
        while i < bins
            invariant
                i <= bins,
                bins == freqs.len(),
                rise.len() == bins,
                fall.len() == bins,
                bins <= self.gain_curve.len(),
                self.enabled == old(self).enabled,
                self.f_hp == old(self).f_hp,
                self.f_lp == old(self).f_lp,
                self.fs == old(self).fs,
                self.valid == old(self).valid,
                self.power_spectrum@ == grown(old(self).power_spectrum@, bins as nat),
                forall|j: int|
                    0 <= j < i ==> self.gain_curve[j] == gain_at(
                        *edges,
                        freqs[j],
                        rise[j],
                        fall[j],
                    ),
            decreases bins - i,
        {
            let f = freqs[i];
            let gain = if binary32::lt(f, edges.hp_lo) {
                binary32::ZERO
            } else if binary32::lt(f, edges.hp_hi) {
                rise[i]
            } else if binary32::lt(f, edges.lp_lo) {
                binary32::ONE
            } else if binary32::lt(f, edges.lp_hi) {
                fall[i]
            } else {
                binary32::ZERO
            };
            self.gain_curve[i] = gain;
            i = i + 1;
        }
        self.planned_len = n;
        assert(self@.gain_curve =~= gain_curve_of(*edges, freqs@, rise@, fall@));
    }

    /// The gain curve, one gain for each bin of the planned length.
    pub fn gain_curve(&self) -> (r: Vec<u32>)
        requires
            self.wf(),
        ensures
            r@ == self@.gain_curve,
    {
        if self.planned_len == 0 {
            return Vec::new();
        }
        buffer::prefix_to_vec(&self.gain_curve, layout::spectrum_bins(self.planned_len))
    }

    /// Caches the power spectrum of the trace that was just transformed.
    pub fn store_power_spectrum(&mut self, power: &[u32])
        requires
            old(self).wf(),
        ensures
            final(self).wf(),
            final(self)@ == (BandpassFilterView {
                power_spectrum: laid_over(old(self)@.power_spectrum, power@),
                ..old(self)@
            }),
    {
        buffer::grow_zeroed(&mut self.power_spectrum, power.len());
        buffer::write_prefix(&mut self.power_spectrum, power);
        assert(self.power_spectrum@ =~= laid_over(old(self)@.power_spectrum, power@));
    }

    /// The cached power spectrum for a trace of `n` samples; empty where none
    /// of that size was cached.
    pub fn get_power_spectrum(&self, n: usize) -> (r: Vec<u32>)
        ensures
            r@ == self@.cached_power_spectrum(n as nat),
    {
        let bins = layout::spectrum_bins(n);
        if self.power_spectrum.len() >= bins {
            buffer::prefix_to_vec(&self.power_spectrum, bins)
        } else {
            Vec::new()
        }
    }
}

} // verus!
