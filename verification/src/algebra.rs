//! The mathematical model: what each operation computes, as functions on
//! sequences of scalars.

use vstd::prelude::*;
use crate::field::{KField, MathOps};

verus! {

/// The sum of the items of `s`, added from the first to the last, starting
/// from zero.
pub open spec fn sum<K: KField>(s: Seq<K>) -> K
    decreases s.len(),
{
    if s.len() == 0 {
        K::zero_spec()
    } else {
        sum(s.drop_last()).plus(s.last())
    }
}

/// The sequence of the sums `u[i] + v[i]`.
pub open spec fn pointwise_plus<K: KField>(u: Seq<K>, v: Seq<K>) -> Seq<K> {
    Seq::new(u.len(), |i: int| u[i].plus(v[i]))
}

/// The sequence of the differences `u[i] - v[i]`.
pub open spec fn pointwise_minus<K: KField>(u: Seq<K>, v: Seq<K>) -> Seq<K> {
    Seq::new(u.len(), |i: int| u[i].minus(v[i]))
}

/// The sequence of the products `u[i] * v[i]`.
pub open spec fn pointwise_times<K: KField>(u: Seq<K>, v: Seq<K>) -> Seq<K> {
    Seq::new(u.len(), |i: int| u[i].times(v[i]))
}

/// The sequence of the products `u[i] * a`.
pub open spec fn scaled<K: KField>(u: Seq<K>, a: K) -> Seq<K> {
    Seq::new(u.len(), |i: int| u[i].times(a))
}

/// The dot product: the sum of the products `u[i] * v[i]`.
pub open spec fn dot<K: KField>(u: Seq<K>, v: Seq<K>) -> K {
    sum(pointwise_times(u, v))
}

/// The absolute value: `0 - x` where `x` is below zero, else `x`.
pub open spec fn abs<K: KField>(x: K) -> K {
    if x.less(K::zero_spec()) {
        K::zero_spec().minus(x)
    } else {
        x
    }
}

/// The sequence of the absolute values of the items of `u`.
pub open spec fn magnitudes<K: KField>(u: Seq<K>) -> Seq<K> {
    Seq::new(u.len(), |i: int| abs(u[i]))
}

/// The running maximum of `s`: it starts at zero, and each item in turn
/// replaces it where it lies above it.
pub open spec fn greatest<K: KField>(s: Seq<K>) -> K
    decreases s.len(),
{
    if s.len() == 0 {
        K::zero_spec()
    } else if greatest(s.drop_last()).less(s.last()) {
        s.last()
    } else {
        greatest(s.drop_last())
    }
}

/// The 1-norm: the sum of the absolute values.
pub open spec fn norm_1<K: KField>(u: Seq<K>) -> K {
    sum(magnitudes(u))
}

/// The maximum norm: the greatest absolute value, zero for the empty sequence.
pub open spec fn norm_inf<K: KField>(u: Seq<K>) -> K {
    greatest(magnitudes(u))
}

/// Linear interpolation between two scalars: `u + (v - u) * t`.
pub open spec fn lerp<K: KField>(u: K, v: K, t: K) -> K {
    u.plus(v.minus(u).times(t))
}

/// Linear interpolation, item by item.
pub open spec fn pointwise_lerp<K: KField>(u: Seq<K>, v: Seq<K>, t: K) -> Seq<K> {
    Seq::new(u.len(), |i: int| lerp(u[i], v[i], t))
}

/// The cross product of two three-dimensional sequences, by the right-hand
/// rule.
pub open spec fn cross<K: KField>(u: Seq<K>, v: Seq<K>) -> Seq<K> {
    seq![
        u[1].times(v[2]).minus(u[2].times(v[1])),
        u[2].times(v[0]).minus(u[0].times(v[2])),
        u[0].times(v[1]).minus(u[1].times(v[0])),
    ]
}

/// The sequence of the squares of the items of `u`.
pub open spec fn squares<K: MathOps>(u: Seq<K>) -> Seq<K> {
    Seq::new(u.len(), |i: int| u[i].pow_spec(2))
}

/// One half, as the quotient of one by one plus one.
pub open spec fn half<K: KField>() -> K {
    K::one_spec().over(K::one_spec().plus(K::one_spec()))
}

/// The Euclidean norm: the sum of the squares, raised to the power one half.
pub open spec fn norm_2<K: MathOps>(u: Seq<K>) -> K {
    sum(squares(u)).powf_spec(half::<K>())
}

/// The cosine of the angle between `u` and `v`: their dot product over the
/// product of their Euclidean norms.
pub open spec fn angle_cos<K: MathOps>(u: Seq<K>, v: Seq<K>) -> K {
    dot(u, v).over(norm_2(u).times(norm_2(v)))
}

/// The sequence of `n` zeros.
pub open spec fn zeros<K: KField>(n: nat) -> Seq<K> {
    Seq::new(n, |i: int| K::zero_spec())
}

/// The linear combination of the sequences `u`, each of length `n`, with the
/// coefficients `coefs`: starting from zeros, each sequence in turn is
/// multiplied by its coefficient and the sum so far is added to it.
pub open spec fn combination<K: KField>(u: Seq<Seq<K>>, coefs: Seq<K>, n: nat) -> Seq<K>
    decreases u.len(),
{
    if u.len() == 0 {
        zeros(n)
    } else {
        let rest = combination(u.drop_last(), coefs.drop_last(), n);
        Seq::new(n, |i: int| u.last()[i].times(coefs.last()).plus(rest[i]))
    }
}

/// The sum of a sequence that grew by one item is the old sum plus that item.
pub proof fn lemma_sum_step<K: KField>(s: Seq<K>, n: int)
    requires
        0 <= n < s.len(),
    ensures
        sum(s.take(n + 1)) == sum(s.take(n)).plus(s[n]),
{
    assert(s.take(n + 1).drop_last() =~= s.take(n));
}

/// The running maximum of a sequence that grew by one item.
pub proof fn lemma_greatest_step<K: KField>(s: Seq<K>, n: int)
    requires
        0 <= n < s.len(),
    ensures
        greatest(s.take(n + 1)) == if greatest(s.take(n)).less(s[n]) {
            s[n]
        } else {
            greatest(s.take(n))
        },
{
    assert(s.take(n + 1).drop_last() =~= s.take(n));
}

} // verus!
