//! The convolution kernel and the scalars derived from it.
//!
//! The samples of a kernel and its spectral powers are computed by the caller;
//! what is decided here is which of the computed values is the peak that the
//! kernel is normalised by, and which is the step bound of the solver.
use crate::binary64;
use vstd::prelude::*;

verus! {

/// The least step bound that is ever handed out, the value 1e-10.
pub const LIPSCHITZ_FLOOR: u64 = 0x3ddb_7cdf_d9d7_bdbb;

/// A kernel with its derived scalars.
pub struct Kernel {
    /// The samples, binary32 patterns.
    pub samples: Vec<u32>,
    /// The sum of the samples, a binary64 pattern.
    pub dc_gain: u64,
    /// The Lipschitz bound of the gradient, a binary64 pattern.
    pub lipschitz: u64,
}

/// The largest of the values, searched from zero upwards: a value replaces
/// the peak found so far only where it is strictly larger, so a NaN never
/// becomes the peak and no peak lies below zero.
pub open spec fn running_peak(values: Seq<u64>) -> u64
    decreases values.len(),
{
    if values.len() == 0 {
        binary64::ZERO
    } else {
        let before = running_peak(values.drop_last());
        if binary64::spec_lt(before, values.last()) {
            values.last()
        } else {
            before
        }
    }
}

/// The step bound for a kernel whose spectral powers are `powers`: the
/// largest power, and the floor where no power exceeds it.
pub open spec fn lipschitz_bound(powers: Seq<u64>) -> u64 {
    binary64::spec_max(running_peak(powers), LIPSCHITZ_FLOOR)
}

/// The peak is a number at or above zero with a clear sign bit, no number
/// among the values exceeds it, and it is zero or one of the values.
pub proof fn lemma_running_peak_bounds(values: Seq<u64>)
    ensures
        binary64::is_non_negative(running_peak(values)),
        running_peak(values) <= binary64::INFINITY,
        forall|i: int|
            0 <= i < values.len() && !binary64::spec_is_nan(values[i]) ==> binary64::spec_le(
                #[trigger] values[i],
                running_peak(values),
            ),
        running_peak(values) == binary64::ZERO || values.contains(running_peak(values)),
    decreases values.len(),
{
    if values.len() > 0 {
        let head = values.drop_last();
        lemma_running_peak_bounds(head);
        let before = running_peak(head);
        let peak = running_peak(values);
        assert forall|i: int|
            0 <= i < values.len() && !binary64::spec_is_nan(values[i]) implies binary64::spec_le(
            #[trigger] values[i],
            peak,
        ) by {
            if i < head.len() {
                assert(head[i] == values[i]);
                binary64::lemma_order_transitive(values[i], before, peak);
            }
        }
        if peak == values.last() {
            assert(values[values.len() - 1] == peak);
        } else if before != binary64::ZERO {
            let k = choose|k: int| 0 <= k < head.len() && head[k] == before;
            assert(values[k] == peak);
        }
    }
}

/// Whether the pattern is a finite number: neither NaN nor an infinity.
pub open spec fn is_finite(bits: u64) -> bool {
    binary64::magnitude(bits) < binary64::INFINITY
}

/// The step bound is a number above zero and at or above the floor, whatever
/// the powers are, and no number among the powers exceeds it. It is the floor
/// itself where there is no power or no power is a number above the floor, as
/// for a kernel of zeros, and it is finite where every power is.
pub proof fn lemma_lipschitz_bound_is_positive(powers: Seq<u64>)
    ensures
        !binary64::spec_is_nan(lipschitz_bound(powers)),
        binary64::spec_lt(binary64::ZERO, lipschitz_bound(powers)),
        binary64::spec_le(LIPSCHITZ_FLOOR, lipschitz_bound(powers)),
        forall|i: int|
            0 <= i < powers.len() && !binary64::spec_is_nan(powers[i]) ==> binary64::spec_le(
                #[trigger] powers[i],
                lipschitz_bound(powers),
            ),
        lipschitz_bound(powers) == LIPSCHITZ_FLOOR || powers.contains(lipschitz_bound(powers)),
        lipschitz_bound(Seq::empty()) == LIPSCHITZ_FLOOR,
        (forall|i: int|
            0 <= i < powers.len() ==> !binary64::spec_lt(LIPSCHITZ_FLOOR, #[trigger] powers[i]))
            ==> lipschitz_bound(powers) == LIPSCHITZ_FLOOR,
        (forall|i: int| 0 <= i < powers.len() ==> #[trigger] powers[i] == binary64::ZERO)
            ==> lipschitz_bound(powers) == LIPSCHITZ_FLOOR,
        (forall|i: int| 0 <= i < powers.len() ==> is_finite(#[trigger] powers[i])) ==> is_finite(
            lipschitz_bound(powers),
        ),
{
    lemma_running_peak_bounds(powers);
    let peak = running_peak(powers);
    binary64::lemma_max_bounds(peak, LIPSCHITZ_FLOOR);
    assert forall|i: int|
        0 <= i < powers.len() && !binary64::spec_is_nan(powers[i]) implies binary64::spec_le(
        #[trigger] powers[i],
        lipschitz_bound(powers),
    ) by {
        binary64::lemma_order_transitive(powers[i], peak, lipschitz_bound(powers));
    }
    if peak != binary64::ZERO {
        let k = choose|k: int| 0 <= k < powers.len() && powers[k] == peak;
        assert(powers[k] == peak);
    }
}

/// The peak of the values, searched from zero upwards.
pub fn peak(values: &[u64]) -> (r: u64)
    ensures
        r == running_peak(values@),
{
    let mut best: u64 = binary64::ZERO;
    let mut i: usize = 0;
    while i < values.len()
        invariant
            i <= values.len(),
            best == running_peak(values@.subrange(0, i as int)),
        decreases values.len() - i,
    {
        assert(values@.subrange(0, i + 1).drop_last() =~= values@.subrange(0, i as int));
        if binary64::lt(best, values[i]) {
            best = values[i];
        }
        i = i + 1;
    }
    assert(values@.subrange(0, i as int) =~= values@);
    best
}

/// Whether a kernel with this peak is normalised: only a peak above zero is
/// divided through.
pub fn normalizes(peak: u64) -> (r: bool)
    ensures
        r == binary64::spec_lt(binary64::ZERO, peak),
{
    binary64::lt(binary64::ZERO, peak)
}

/// The step bound for a kernel whose spectral powers are `powers`: a number
/// above zero and at or above the floor. An empty kernel has no powers and
/// gets the floor.
pub fn lipschitz_from_powers(powers: &[u64]) -> (r: u64)
    ensures
        r == lipschitz_bound(powers@),
        binary64::spec_lt(binary64::ZERO, r),
        binary64::spec_le(LIPSCHITZ_FLOOR, r),
        powers.len() == 0 ==> r == LIPSCHITZ_FLOOR,
{
    proof {
        lemma_lipschitz_bound_is_positive(powers@);
        assert(powers.len() == 0 ==> powers@ =~= Seq::<u64>::empty());
    }
    binary64::max(peak(powers), LIPSCHITZ_FLOOR)
}

} // verus!
