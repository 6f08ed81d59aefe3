//! The convolution that the transforms stand for, in exact arithmetic.
//!
//! The solver convolves with the kernel by multiplying spectra, which is a
//! circular convolution of the zero-padded signals. What it needs is the
//! causal convolution `(K*u)[t] = sum_j K[j] u[t-j]` and its adjoint, the
//! correlation `(K^T v)[t] = sum_j K[j] v[t+j]`, on the first `n` samples.
//! This module states both over the integers and proves that a padded length
//! with room for `n + m - 1` samples, as `layout::padded_len` chooses it,
//! makes the circular forms agree with the causal ones; that the impulse
//! response of the convolution is the kernel; and that the two operators are
//! adjoint to each other.
use crate::layout;
use vstd::prelude::*;

verus! {

/// The sample at `i`, and zero outside the signal.
pub open spec fn at(s: Seq<int>, i: int) -> int {
    if 0 <= i < s.len() {
        s[i]
    } else {
        0
    }
}

/// The sum of `term(j)` over `0 <= j < count`.
pub open spec fn sum(term: spec_fn(int) -> int, count: nat) -> int
    decreases count,
{
    if count == 0 {
        0
    } else {
        sum(term, (count - 1) as nat) + term(count - 1)
    }
}

/// The causal convolution `(K*u)[t]`.
pub open spec fn forward(k: Seq<int>, u: Seq<int>, t: int) -> int {
    sum(|j: int| at(k, j) * at(u, t - j), k.len())
}

/// The adjoint of the causal convolution, `(K^T v)[t]`: the correlation of
/// `v` with the kernel.
pub open spec fn adjoint(k: Seq<int>, v: Seq<int>, t: int) -> int {
    sum(|j: int| at(k, j) * at(v, t + j), k.len())
}

/// The circular convolution, over `len` samples, of kernel and signal padded
/// with zeros to that length.
pub open spec fn circular_forward(k: Seq<int>, u: Seq<int>, len: nat, t: int) -> int {
    sum(|j: int| at(k, j) * at(u, (t - j) % (len as int)), len)
}

/// The circular correlation, over `len` samples, of kernel and signal padded
/// with zeros to that length.
pub open spec fn circular_adjoint(k: Seq<int>, v: Seq<int>, len: nat, t: int) -> int {
    sum(|j: int| at(k, j) * at(v, (t + j) % (len as int)), len)
}

/// The inner product of the first `n` samples of two signals.
pub open spec fn dot(a: spec_fn(int) -> int, b: spec_fn(int) -> int, n: nat) -> int {
    sum(|t: int| a(t) * b(t), n)
}

/// A unit impulse at sample 0 among `n` samples.
pub open spec fn impulse(n: nat) -> Seq<int> {
    Seq::new(
        n,
        |i: int|
            if i == 0 {
                1int
            } else {
                0int
            },
    )
}

/// Sums of terms that agree agree.
proof fn lemma_sum_congruence(f: spec_fn(int) -> int, g: spec_fn(int) -> int, count: nat)
    requires
        forall|j: int| 0 <= j < count ==> #[trigger] f(j) == g(j),
    ensures
        sum(f, count) == sum(g, count),
    decreases count,
{
    if count > 0 {
        lemma_sum_congruence(f, g, (count - 1) as nat);
    }
}

/// Terms that vanish add nothing.
proof fn lemma_sum_tail_zero(f: spec_fn(int) -> int, from: nat, to: nat)
    requires
        from <= to,
        forall|j: int| from <= j < to ==> #[trigger] f(j) == 0,
    ensures
        sum(f, to) == sum(f, from),
    decreases to,
{
    if from < to {
        lemma_sum_tail_zero(f, from, (to - 1) as nat);
    }
}

/// The sum of `f + c g` is the sum of `f` plus `c` times the sum of `g`.
proof fn lemma_sum_linear(
    h: spec_fn(int) -> int,
    f: spec_fn(int) -> int,
    g: spec_fn(int) -> int,
    c: int,
    count: nat,
)
    requires
        forall|j: int| 0 <= j < count ==> #[trigger] h(j) == f(j) + c * g(j),
    ensures
        sum(h, count) == sum(f, count) + c * sum(g, count),
    decreases count,
{
    if count > 0 {
        let last = count - 1;
        lemma_sum_linear(h, f, g, c, last as nat);
        assert(c * (sum(g, last as nat) + g(last)) == c * sum(g, last as nat) + c * g(last))
            by (nonlinear_arith);
    }
}

/// A term that is shifted by `shift` samples and vanishes where its index is
/// negative or at or above `count - shift` sums to the same as the term
/// itself.
proof fn lemma_sum_shift(h: spec_fn(int) -> int, shift: nat, count: nat)
    requires
        forall|s: int| s < 0 ==> #[trigger] h(s) == 0,
        forall|s: int| s >= count - shift ==> #[trigger] h(s) == 0,
    ensures
        sum(|t: int| h(t - shift), count) == sum(h, count),
{
    let shifted = |t: int| h(t - shift);
    if count >= shift {
        lemma_sum_shift_prefix(h, shift, count);
        lemma_sum_tail_zero(h, (count - shift) as nat, count);
    } else {
        lemma_sum_tail_zero(shifted, 0, count);
        lemma_sum_tail_zero(h, 0, count);
    }
}

/// The first `count` shifted terms are the first `count - shift` terms.
proof fn lemma_sum_shift_prefix(h: spec_fn(int) -> int, shift: nat, count: nat)
    requires
        forall|s: int| s < 0 ==> #[trigger] h(s) == 0,
        shift <= count,
    ensures
        sum(|t: int| h(t - shift), count) == sum(h, (count - shift) as nat),
    decreases count,
{
    let shifted = |t: int| h(t - shift);
    if count == shift {
        lemma_sum_tail_zero(shifted, 0, count);
    } else {
        lemma_sum_shift_prefix(h, shift, (count - 1) as nat);
        assert(shifted(count - 1) == h(count - 1 - shift));
    }
}

/// A transform of `len >= n + m - 1` samples does not wrap around: on the
/// first `n` samples the circular convolution of the padded signals is the
/// causal convolution.
pub proof fn lemma_circular_forward_is_causal(k: Seq<int>, u: Seq<int>, len: nat, t: int)
    requires
        k.len() >= 1,
        u.len() >= 1,
        len >= u.len() + k.len() - 1,
        0 <= t < u.len(),
    ensures
        circular_forward(k, u, len, t) == forward(k, u, t),
{
    let wrapped = |j: int| at(k, j) * at(u, (t - j) % (len as int));
    let causal = |j: int| at(k, j) * at(u, t - j);
    assert forall|j: int| k.len() <= j < len implies #[trigger] wrapped(j) == 0 by {
        assert(at(k, j) == 0);
    }
    lemma_sum_tail_zero(wrapped, k.len(), len);
    assert forall|j: int| 0 <= j < k.len() implies #[trigger] wrapped(j) == causal(j) by {
        if j <= t {
            vstd::arithmetic::div_mod::lemma_small_mod((t - j) as nat, len);
        } else {
            // the index wraps to len + t - j, which lies in the padding
            assert((t - j) % (len as int) == t - j + len) by {
                vstd::arithmetic::div_mod::lemma_fundamental_div_mod_converse(
                    t - j,
                    len as int,
                    -1,
                    t - j + len,
                );
            }
            assert(at(u, t - j + len) == 0);
            assert(at(u, t - j) == 0);
        }
    }
    lemma_sum_congruence(wrapped, causal, k.len());
}

/// A transform of `len >= n + m - 1` samples does not wrap around: on the
/// first `n` samples the circular correlation of the padded signals is the
/// adjoint of the causal convolution.
pub proof fn lemma_circular_adjoint_is_causal(k: Seq<int>, v: Seq<int>, len: nat, t: int)
    requires
        k.len() >= 1,
        v.len() >= 1,
        len >= v.len() + k.len() - 1,
        0 <= t < v.len(),
    ensures
        circular_adjoint(k, v, len, t) == adjoint(k, v, t),
{
    let wrapped = |j: int| at(k, j) * at(v, (t + j) % (len as int));
    let causal = |j: int| at(k, j) * at(v, t + j);
    assert forall|j: int| k.len() <= j < len implies #[trigger] wrapped(j) == 0 by {
        assert(at(k, j) == 0);
    }
    lemma_sum_tail_zero(wrapped, k.len(), len);
    assert forall|j: int| 0 <= j < k.len() implies #[trigger] wrapped(j) == causal(j) by {
        vstd::arithmetic::div_mod::lemma_small_mod((t + j) as nat, len);
    }
    lemma_sum_congruence(wrapped, causal, k.len());
}

/// The padded length that the layout chooses does not wrap around, for the
/// convolution and for its adjoint.
pub proof fn lemma_padded_len_does_not_wrap(k: Seq<int>, u: Seq<int>, t: int)
    requires
        k.len() >= 1,
        u.len() >= 1,
        0 <= t < u.len(),
    ensures
        circular_forward(k, u, layout::padded_len(u.len(), k.len()), t) == forward(k, u, t),
        circular_adjoint(k, u, layout::padded_len(u.len(), k.len()), t) == adjoint(k, u, t),
{
    layout::lemma_padded_len_holds_convolution(u.len(), k.len());
    lemma_circular_forward_is_causal(k, u, layout::padded_len(u.len(), k.len()), t);
    lemma_circular_adjoint_is_causal(k, u, layout::padded_len(u.len(), k.len()), t);
}

/// The response to a unit impulse at sample 0 is the kernel, followed by
/// zeros.
pub proof fn lemma_impulse_response_is_kernel(k: Seq<int>, n: nat, t: int)
    requires
        n >= 1,
        0 <= t,
    ensures
        forward(k, impulse(n), t) == at(k, t),
{
    let term = |j: int| at(k, j) * at(impulse(n), t - j);
    let spike = |j: int|
        if j == t {
            at(k, t)
        } else {
            0int
        };
    assert forall|j: int| 0 <= j < k.len() implies #[trigger] term(j) == spike(j) by {
        if j == t {
            assert(at(impulse(n), 0) == 1);
        } else {
            assert(at(impulse(n), t - j) == 0);
        }
    }
    lemma_sum_congruence(term, spike, k.len());
    if t < k.len() {
        lemma_sum_tail_zero(spike, (t + 1) as nat, k.len());
        lemma_sum_tail_zero(spike, 0, t as nat);
        assert(sum(spike, (t + 1) as nat) == sum(spike, t as nat) + spike(t));
    } else {
        lemma_sum_tail_zero(spike, 0, k.len());
    }
}

/// Adjoint identity: for signals `u` and `v` of `n` samples, the inner
/// product of `K*u` with `v` is the inner product of `u` with `K^T v`.
pub proof fn lemma_adjoint_identity(k: Seq<int>, u: Seq<int>, v: Seq<int>)
    requires
        u.len() == v.len(),
    ensures
        dot(|t: int| forward(k, u, t), |t: int| at(v, t), u.len()) == dot(
            |s: int| at(u, s),
            |s: int| adjoint(k, v, s),
            u.len(),
        ),
    decreases k.len(),
{
    let n = u.len();
    let lhs = |t: int| forward(k, u, t) * at(v, t);
    let rhs = |s: int| at(u, s) * adjoint(k, v, s);
    assert(dot(|t: int| forward(k, u, t), |t: int| at(v, t), n) == sum(lhs, n)) by {
        lemma_sum_congruence(
            |t: int| (|t: int| forward(k, u, t))(t) * (|t: int| at(v, t))(t),
            lhs,
            n,
        );
    }
    assert(dot(|s: int| at(u, s), |s: int| adjoint(k, v, s), n) == sum(rhs, n)) by {
        lemma_sum_congruence(
            |s: int| (|s: int| at(u, s))(s) * (|s: int| adjoint(k, v, s))(s),
            rhs,
            n,
        );
    }
    if k.len() == 0 {
        assert forall|t: int| 0 <= t < n implies #[trigger] lhs(t) == 0 by {}
        assert forall|s: int| 0 <= s < n implies #[trigger] rhs(s) == 0 by {}
        lemma_sum_tail_zero(lhs, 0, n);
        lemma_sum_tail_zero(rhs, 0, n);
    } else {
        let head = k.drop_last();
        let c = k.last();
        let d = head.len();
        lemma_adjoint_identity(head, u, v);
        let lhs_head = |t: int| forward(head, u, t) * at(v, t);
        let rhs_head = |s: int| at(u, s) * adjoint(head, v, s);
        assert(dot(|t: int| forward(head, u, t), |t: int| at(v, t), n) == sum(lhs_head, n)) by {
            lemma_sum_congruence(
                |t: int| (|t: int| forward(head, u, t))(t) * (|t: int| at(v, t))(t),
                lhs_head,
                n,
            );
        }
        assert(dot(|s: int| at(u, s), |s: int| adjoint(head, v, s), n) == sum(rhs_head, n)) by {
            lemma_sum_congruence(
                |s: int| (|s: int| at(u, s))(s) * (|s: int| adjoint(head, v, s))(s),
                rhs_head,
                n,
            );
        }
        // what the last kernel sample adds on either side
        let cross = |s: int| at(u, s) * at(v, s + d);
        let cross_shifted = |t: int| cross(t - d);
        assert forall|t: int| 0 <= t < n implies #[trigger] lhs(t) == lhs_head(t) + c * cross_shifted(
            t,
        ) by {
            lemma_forward_last(k, u, t);
            assert((forward(head, u, t) + c * at(u, t - d)) * at(v, t) == forward(head, u, t) * at(
                v,
                t,
            ) + c * (at(u, t - d) * at(v, t))) by (nonlinear_arith);
        }
        lemma_sum_linear(lhs, lhs_head, cross_shifted, c, n);
        assert forall|s: int| 0 <= s < n implies #[trigger] rhs(s) == rhs_head(s) + c * cross(s) by {
            lemma_adjoint_last(k, v, s);
            assert(at(u, s) * (adjoint(head, v, s) + c * at(v, s + d)) == at(u, s) * adjoint(
                head,
                v,
                s,
            ) + c * (at(u, s) * at(v, s + d))) by (nonlinear_arith);
        }
        lemma_sum_linear(rhs, rhs_head, cross, c, n);
        lemma_sum_shift(cross, d, n);
    }
}

/// What the last sample of the kernel adds to the convolution.
proof fn lemma_forward_last(k: Seq<int>, u: Seq<int>, t: int)
    requires
        k.len() >= 1,
    ensures
        forward(k, u, t) == forward(k.drop_last(), u, t) + k.last() * at(u, t - (k.len() - 1)),
{
    let head = k.drop_last();
    let term = |j: int| at(k, j) * at(u, t - j);
    let term_head = |j: int| at(head, j) * at(u, t - j);
    lemma_sum_congruence(term, term_head, head.len());
}

/// What the last sample of the kernel adds to the correlation.
proof fn lemma_adjoint_last(k: Seq<int>, v: Seq<int>, t: int)
    requires
        k.len() >= 1,
    ensures
        adjoint(k, v, t) == adjoint(k.drop_last(), v, t) + k.last() * at(v, t + (k.len() - 1)),
{
    let head = k.drop_last();
    let term = |j: int| at(k, j) * at(v, t + j);
    let term_head = |j: int| at(head, j) * at(v, t + j);
    lemma_sum_congruence(term, term_head, head.len());
}

} // verus!
