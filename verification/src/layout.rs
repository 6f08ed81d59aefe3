//! Lengths and indices: how long a padded transform is, how many bins its
//! spectrum has, how long a kernel is at least, and which rank the baseline
//! percentile has.
use vstd::prelude::*;

verus! {

/// The shortest trace that the bandpass filter works on.
pub const MIN_FILTER_LEN: usize = 8;

/// The shortest kernel that is ever built.
pub const MIN_KERNEL_LEN: usize = 2;

/// Whether `n` is a power of two.
pub open spec fn is_power_of_two(n: nat) -> bool
    decreases n,
{
    if n <= 1 {
        n == 1
    } else {
        n % 2 == 0 && is_power_of_two(n / 2)
    }
}

/// The least power of two at or above `n`; 1 for `n == 0`.
pub open spec fn next_power_of_two(n: nat) -> nat
    decreases n,
{
    if n <= 1 {
        1
    } else {
        2 * next_power_of_two((n + 1) / 2)
    }
}

/// Length of the transform that convolves `signal_len` samples with a kernel
/// of `kernel_len` samples without wrap-around: the least power of two with
/// room for the `signal_len + kernel_len - 1` samples of their convolution.
pub open spec fn padded_len(signal_len: nat, kernel_len: nat) -> nat {
    if signal_len + kernel_len >= 1 {
        next_power_of_two((signal_len + kernel_len - 1) as nat)
    } else {
        1
    }
}

/// Number of bins in the one-sided spectrum of a real signal of `n` samples.
pub open spec fn spectrum_len(n: nat) -> nat {
    n / 2 + 1
}

/// Length of the transform over which the largest spectral power of a kernel
/// of `kernel_len` samples is searched.
pub open spec fn lipschitz_transform_len(kernel_len: nat) -> nat {
    next_power_of_two(2 * kernel_len)
}

/// Kernel length for a decay envelope that needs `envelope_len` samples to
/// fall below the truncation level.
pub open spec fn kernel_len(envelope_len: nat) -> nat {
    if envelope_len < 2 {
        2
    } else {
        envelope_len
    }
}

/// Rank of the baseline percentile in a trace of `n` samples: the integer
/// nearest to `n / 50`, halves rounded up, and at most `n - 1`.
pub open spec fn percentile_rank(n: nat) -> nat {
    let nearest = (n + 25) / 50;
    if n == 0 {
        0
    } else if nearest < n {
        nearest
    } else {
        (n - 1) as nat
    }
}

/// `next_power_of_two(n)` is a power of two, reaches `n`, and stays below
/// twice `n`.
pub proof fn lemma_next_power_of_two_bounds(n: nat)
    ensures
        is_power_of_two(next_power_of_two(n)),
        n <= next_power_of_two(n),
        n >= 1 ==> next_power_of_two(n) < 2 * n,
    decreases n,
{
    if n > 1 {
        lemma_next_power_of_two_bounds((n + 1) / 2);
    }
}

/// No power of two at or above `n` is smaller than `next_power_of_two(n)`.
pub proof fn lemma_next_power_of_two_least(n: nat, p: nat)
    requires
        is_power_of_two(p),
        n <= p,
    ensures
        next_power_of_two(n) <= p,
    decreases n,
{
    if n > 1 {
        lemma_next_power_of_two_least((n + 1) / 2, p / 2);
    }
}

/// A power of two stays where it is.
pub proof fn lemma_next_power_of_two_fixed(p: nat)
    requires
        is_power_of_two(p),
    ensures
        next_power_of_two(p) == p,
{
    lemma_next_power_of_two_bounds(p);
    lemma_next_power_of_two_least(p, p);
}

/// A longer input never gets a shorter transform.
pub proof fn lemma_next_power_of_two_monotone(a: nat, b: nat)
    requires
        a <= b,
    ensures
        next_power_of_two(a) <= next_power_of_two(b),
{
    lemma_next_power_of_two_bounds(b);
    lemma_next_power_of_two_least(a, next_power_of_two(b));
}

/// The padded length is a power of two with room for all
/// `signal_len + kernel_len - 1` samples of the linear convolution, and less
/// than twice that many.
pub proof fn lemma_padded_len_holds_convolution(signal_len: nat, kernel_len: nat)
    requires
        signal_len >= 1,
        kernel_len >= 1,
    ensures
        is_power_of_two(padded_len(signal_len, kernel_len)),
        padded_len(signal_len, kernel_len) >= signal_len + kernel_len - 1,
        padded_len(signal_len, kernel_len) >= signal_len,
        padded_len(signal_len, kernel_len) >= kernel_len,
        padded_len(signal_len, kernel_len) < 2 * (signal_len + kernel_len - 1),
{
    lemma_next_power_of_two_bounds((signal_len + kernel_len - 1) as nat);
}

/// The kernel is never shorter than two samples, and a longer envelope never
/// gives a shorter kernel.
pub proof fn lemma_kernel_len_monotone(a: nat, b: nat)
    requires
        a <= b,
    ensures
        kernel_len(a) >= 2,
        kernel_len(a) >= a,
        kernel_len(a) <= kernel_len(b),
{
}

/// The percentile rank is an index into the trace, and fifty times the rank
/// differs from `n` by at most 25 wherever the cap at `n - 1` does not bind.
pub proof fn lemma_percentile_rank_bounds(n: nat)
    requires
        n >= 1,
    ensures
        percentile_rank(n) < n,
        n >= 2 ==> percentile_rank(n) == (n + 25) / 50,
        n >= 2 ==> 50 * percentile_rank(n) <= n + 25,
        n >= 2 ==> n < 50 * percentile_rank(n) + 25,
{
}

/// The least power of two at or above `n`, where it fits the machine word.
pub fn checked_next_power_of_two(n: usize) -> (r: Option<usize>)
    ensures
        r is Some <==> next_power_of_two(n as nat) <= usize::MAX,
        r is Some ==> r->0 == next_power_of_two(n as nat),
{
    let mut p: usize = 1;
    while p < n
        invariant
            is_power_of_two(p as nat),
            p == 1 || p < 2 * n,
        decreases usize::MAX - p,
    {
        if p > usize::MAX / 2 {
            proof {
                lemma_next_power_of_two_bounds(n as nat);
                if next_power_of_two(n as nat) <= usize::MAX {
                    // a power of two above p that fits would have to be at least 2p
                    lemma_power_of_two_gap(p as nat, next_power_of_two(n as nat));
                }
            }
            return None;
        }
        p = p * 2;
    }
    proof {
        lemma_next_power_of_two_least(n as nat, p as nat);
        lemma_next_power_of_two_bounds(n as nat);
        if next_power_of_two(n as nat) < p {
            lemma_power_of_two_gap(next_power_of_two(n as nat), p as nat);
        }
    }
    Some(p)
}

/// Between a power of two and its double lies no other power of two.
proof fn lemma_power_of_two_gap(p: nat, q: nat)
    requires
        is_power_of_two(p),
        is_power_of_two(q),
        p < q,
    ensures
        2 * p <= q,
    decreases p,
{
    if p > 1 {
        lemma_power_of_two_gap(p / 2, q / 2);
    }
}

/// Length of the padded transform for a signal and a kernel, where it fits the
/// machine word.
pub fn checked_padded_len(signal_len: usize, kernel_len: usize) -> (r: Option<usize>)
    ensures
        r is Some <==> padded_len(signal_len as nat, kernel_len as nat) <= usize::MAX,
        r is Some ==> r->0 == padded_len(signal_len as nat, kernel_len as nat),
{
    if kernel_len == 0 {
        if signal_len == 0 {
            return Some(1);
        }
        return checked_next_power_of_two(signal_len - 1);
    }
    match signal_len.checked_add(kernel_len - 1) {
        Some(min_len) => checked_next_power_of_two(min_len),
        None => {
            proof {
                lemma_next_power_of_two_bounds((signal_len + kernel_len - 1) as nat);
            }
            None
        },
    }
}

/// Number of bins in the one-sided spectrum of a real signal of `n` samples.
pub fn spectrum_bins(n: usize) -> (r: usize)
    ensures
        r == spectrum_len(n as nat),
{
    n / 2 + 1
}

/// Length of the transform for the spectral maximum of a kernel, where it fits
/// the machine word.
pub fn checked_lipschitz_transform_len(kernel_len: usize) -> (r: Option<usize>)
    ensures
        r is Some <==> lipschitz_transform_len(kernel_len as nat) <= usize::MAX,
        r is Some ==> r->0 == lipschitz_transform_len(kernel_len as nat),
{
    match kernel_len.checked_mul(2) {
        Some(doubled) => checked_next_power_of_two(doubled),
        None => {
            proof {
                lemma_next_power_of_two_bounds(2 * kernel_len as nat);
            }
            None
        },
    }
}

/// Kernel length for a decay envelope of `envelope_len` samples: the envelope
/// length, and two samples where the envelope is shorter.
pub fn kernel_len_for(envelope_len: usize) -> (r: usize)
    ensures
        r == kernel_len(envelope_len as nat),
        r >= MIN_KERNEL_LEN,
        r >= envelope_len,
{
    if envelope_len < MIN_KERNEL_LEN {
        MIN_KERNEL_LEN
    } else {
        envelope_len
    }
}

/// Rank of the baseline percentile in a trace of `n` samples.
pub fn percentile_index(n: usize) -> (r: usize)
    ensures
        r == percentile_rank(n as nat),
{
    if n == 0 {
        return 0;
    }
    let nearest: usize = n / 50 + (n % 50 + 25) / 50;
    if nearest < n {
        nearest
    } else {
        n - 1
    }
}

} // verus!
