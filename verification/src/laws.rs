//! Laws of the kernel, proved for every scalar type from the laws of the
//! scalar.

use vstd::prelude::*;
use crate::algebra;
use crate::field::{FieldLaws, KField};
use crate::matrix::Matrix;
use crate::vector::Vector;

verus! {

/// Adding `v` to `u` item by item and then subtracting `v` again gives back
/// `u`.
pub proof fn lemma_pointwise_plus_then_minus<K: FieldLaws>(u: Seq<K>, v: Seq<K>)
    requires
        u.len() == v.len(),
    ensures
        algebra::pointwise_minus(algebra::pointwise_plus(u, v), v) == u,
{
    let back = algebra::pointwise_minus(algebra::pointwise_plus(u, v), v);
    assert forall|i: int| 0 <= i < u.len() implies back[i] == u[i] by {
        K::lemma_plus_minus(u[i], v[i]);
    }
    assert(back =~= u);
}

/// Adding `v` to `u` and then subtracting `v` again gives back `u`.
pub proof fn law_add_then_sub<K: FieldLaws>(u: Vector<K>, v: Vector<K>)
    requires
        u@.len() == v@.len(),
    ensures
        algebra::pointwise_minus(algebra::pointwise_plus(u@, v@), v@) == u@,
{
    lemma_pointwise_plus_then_minus(u@, v@);
}

/// Adding a matrix `v` to a matrix `u` of the same shape and then
/// subtracting `v` again gives back the entries of `u`.
pub proof fn law_matrix_add_then_sub<K: FieldLaws>(u: Matrix<K>, v: Matrix<K>)
    requires
        u.wf(),
        v.wf(),
        u.same_shape(&v),
    ensures
        algebra::pointwise_minus(algebra::pointwise_plus(u.data@, v.data@), v.data@) == u.data@,
{
    lemma_pointwise_plus_then_minus(u.data@, v.data@);
}

/// The dot product does not depend on the order of its operands.
pub proof fn law_dot_commutes<K: FieldLaws>(u: Vector<K>, v: Vector<K>)
    requires
        u@.len() == v@.len(),
    ensures
        algebra::dot(u@, v@) == algebra::dot(v@, u@),
{
    assert forall|i: int| 0 <= i < u@.len() implies algebra::pointwise_times(u@, v@)[i]
        == algebra::pointwise_times(v@, u@)[i] by {
        K::lemma_times_commutes(u@[i], v@[i]);
    }
    assert(algebra::pointwise_times(u@, v@) =~= algebra::pointwise_times(v@, u@));
}

/// Interpolating between two scalars at zero gives the first.
pub proof fn law_lerp_at_zero<K: FieldLaws>(u: K, v: K)
    ensures
        algebra::lerp(u, v, K::zero_spec()) == u,
{
    K::lemma_times_zero(v.minus(u));
    K::lemma_plus_zero(u);
}

/// Interpolating between two scalars at one gives the second.
pub proof fn law_lerp_at_one<K: FieldLaws>(u: K, v: K)
    ensures
        algebra::lerp(u, v, K::one_spec()) == v,
{
    K::lemma_times_one(v.minus(u));
    K::lemma_plus_commutes(u, v.minus(u));
    K::lemma_minus_plus(v, u);
}

/// Interpolating item by item at zero gives the first sequence.
pub proof fn lemma_pointwise_lerp_at_zero<K: FieldLaws>(u: Seq<K>, v: Seq<K>)
    requires
        u.len() == v.len(),
    ensures
        algebra::pointwise_lerp(u, v, K::zero_spec()) == u,
{
    let at_zero = algebra::pointwise_lerp(u, v, K::zero_spec());
    assert forall|i: int| 0 <= i < u.len() implies at_zero[i] == u[i] by {
        law_lerp_at_zero(u[i], v[i]);
    }
    assert(at_zero =~= u);
}

/// Interpolating item by item at one gives the second sequence.
pub proof fn lemma_pointwise_lerp_at_one<K: FieldLaws>(u: Seq<K>, v: Seq<K>)
    requires
        u.len() == v.len(),
    ensures
        algebra::pointwise_lerp(u, v, K::one_spec()) == v,
{
    let at_one = algebra::pointwise_lerp(u, v, K::one_spec());
    assert forall|i: int| 0 <= i < u.len() implies at_one[i] == v[i] by {
        law_lerp_at_one(u[i], v[i]);
    }
    assert(at_one =~= v);
}

/// Interpolating between two vectors of one size at zero gives the first.
pub proof fn law_vector_lerp_at_zero<K: FieldLaws>(u: Vector<K>, v: Vector<K>)
    requires
        u@.len() == v@.len(),
    ensures
        algebra::pointwise_lerp(u@, v@, K::zero_spec()) == u@,
{
    lemma_pointwise_lerp_at_zero(u@, v@);
}

/// Interpolating between two vectors of one size at one gives the second.
pub proof fn law_vector_lerp_at_one<K: FieldLaws>(u: Vector<K>, v: Vector<K>)
    requires
        u@.len() == v@.len(),
    ensures
        algebra::pointwise_lerp(u@, v@, K::one_spec()) == v@,
{
    lemma_pointwise_lerp_at_one(u@, v@);
}

/// Interpolating between two matrices of one shape at zero gives the
/// entries of the first.
pub proof fn law_matrix_lerp_at_zero<K: FieldLaws>(u: Matrix<K>, v: Matrix<K>)
    requires
        u.wf(),
        v.wf(),
        u.same_shape(&v),
    ensures
        algebra::pointwise_lerp(u.data@, v.data@, K::zero_spec()) == u.data@,
{
    lemma_pointwise_lerp_at_zero(u.data@, v.data@);
}

/// Interpolating between two matrices of one shape at one gives the entries
/// of the second.
pub proof fn law_matrix_lerp_at_one<K: FieldLaws>(u: Matrix<K>, v: Matrix<K>)
    requires
        u.wf(),
        v.wf(),
        u.same_shape(&v),
    ensures
        algebra::pointwise_lerp(u.data@, v.data@, K::one_spec()) == v.data@,
{
    lemma_pointwise_lerp_at_one(u.data@, v.data@);
}

/// Nothing in `s` lies above its running maximum, which is zero or an item
/// of `s`.
proof fn lemma_greatest_is_maximum<K: FieldLaws>(s: Seq<K>)
    ensures
        forall|i: int| 0 <= i < s.len() ==> !algebra::greatest(s).less(#[trigger] s[i]),
        algebra::greatest(s) == K::zero_spec() || exists|i: int|
            0 <= i < s.len() && algebra::greatest(s) == s[i],
    decreases s.len(),
{
    if s.len() > 0 {
        let front = s.drop_last();
        let before = algebra::greatest(front);
        lemma_greatest_is_maximum(front);
        if before.less(s.last()) {
            assert(algebra::greatest(s) == s[s.len() - 1]);
            assert forall|i: int| 0 <= i < s.len() implies !s.last().less(#[trigger] s[i]) by {
                if i < front.len() {
                    assert(!before.less(front[i]));
                    if s.last().less(s[i]) {
                        K::lemma_less_transitive(before, s.last(), s[i]);
                    }
                } else {
                    K::lemma_less_irreflexive(s.last());
                }
            }
        } else {
            assert forall|i: int| 0 <= i < s.len() implies !before.less(#[trigger] s[i]) by {
                if i < front.len() {
                    assert(!before.less(front[i]));
                }
            }
            if before != K::zero_spec() {
                let k = choose|k: int| 0 <= k < front.len() && before == front[k];
                assert(algebra::greatest(s) == s[k]);
            }
        }
    }
}

/// The maximum norm is a maximum: no absolute value of a component lies
/// above it, and it is zero or the absolute value of a component.
pub proof fn law_norm_inf_is_maximum<K: FieldLaws>(u: Vector<K>)
    ensures
        forall|i: int|
            0 <= i < u@.len() ==> !algebra::norm_inf(u@).less(#[trigger] algebra::abs(u@[i])),
        algebra::norm_inf(u@) == K::zero_spec() || exists|i: int|
            0 <= i < u@.len() && algebra::norm_inf(u@) == algebra::abs(u@[i]),
{
    let sizes = algebra::magnitudes(u@);
    lemma_greatest_is_maximum(sizes);
    assert forall|i: int| 0 <= i < u@.len() implies !algebra::norm_inf(u@).less(
        #[trigger] algebra::abs(u@[i]),
    ) by {
        assert(sizes[i] == algebra::abs(u@[i]));
    }
    if algebra::norm_inf(u@) != K::zero_spec() {
        let k = choose|k: int| 0 <= k < sizes.len() && algebra::greatest(sizes) == sizes[k];
        assert(algebra::norm_inf(u@) == algebra::abs(u@[k]));
    }
}

/// Whether `m` is an identity matrix: square, with one on the diagonal and
/// zero elsewhere.
pub open spec fn is_identity<K: KField>(m: Matrix<K>) -> bool {
    &&& m.rows == m.cols
    &&& forall|r: int, c: int|
        0 <= r < m.rows && 0 <= c < m.cols ==> #[trigger] m.entry(r, c) == if r == c {
            K::one_spec()
        } else {
            K::zero_spec()
        }
}

/// A sequence of zeros sums to zero.
proof fn lemma_sum_of_zeros<K: FieldLaws>(s: Seq<K>)
    requires
        forall|i: int| 0 <= i < s.len() ==> s[i] == K::zero_spec(),
    ensures
        algebra::sum(s) == K::zero_spec(),
    decreases s.len(),
{
    if s.len() > 0 {
        lemma_sum_of_zeros(s.drop_last());
        K::lemma_plus_zero(K::zero_spec());
    }
}

/// A sequence that is zero everywhere but at `k` sums to its item at `k`.
proof fn lemma_sum_of_one_item<K: FieldLaws>(s: Seq<K>, k: int)
    requires
        0 <= k < s.len(),
        forall|i: int| 0 <= i < s.len() && i != k ==> s[i] == K::zero_spec(),
    ensures
        algebra::sum(s) == s[k],
    decreases s.len(),
{
    if k == s.len() - 1 {
        lemma_sum_of_zeros(s.drop_last());
        K::lemma_plus_commutes(K::zero_spec(), s[k]);
        K::lemma_plus_zero(s[k]);
    } else {
        lemma_sum_of_one_item(s.drop_last(), k);
        K::lemma_plus_zero(s[k]);
    }
}

/// An identity matrix maps every vector of matching size to itself.
pub proof fn law_identity_mul_vec<K: FieldLaws>(m: Matrix<K>, v: Vector<K>)
    requires
        m.wf(),
        is_identity(m),
        v@.len() == m.cols,
    ensures
        m.times_vector(v@) == v@,
{
    assert forall|r: int| 0 <= r < m.rows implies algebra::dot(m.row(r), v@) == v@[r] by {
        let terms = algebra::pointwise_times(m.row(r), v@);
        assert forall|c: int| 0 <= c < terms.len() && c != r implies terms[c]
            == K::zero_spec() by {
            assert(m.entry(r, c) == K::zero_spec());
            K::lemma_times_commutes(K::zero_spec(), v@[c]);
            K::lemma_times_zero(v@[c]);
        }
        assert(terms[r] == v@[r]) by {
            assert(m.entry(r, r) == K::one_spec());
            K::lemma_times_commutes(K::one_spec(), v@[r]);
            K::lemma_times_one(v@[r]);
        }
        lemma_sum_of_one_item(terms, r);
    }
    assert(m.times_vector(v@) =~= v@);
}

/// The product of an identity matrix with a matrix of as many rows is that
/// matrix.
pub proof fn law_identity_mul_mat<K: FieldLaws>(id: Matrix<K>, m: Matrix<K>)
    requires
        id.wf(),
        m.wf(),
        is_identity(id),
        id.cols == m.rows,
    ensures
        id.times_matrix(&m) == m@,
{
    assert forall|r: int| 0 <= r < m.rows implies id.times_matrix(&m)[r] =~= m@[r] by {
        assert forall|c: int| 0 <= c < m.cols implies algebra::dot(id.row(r), m.col(c))
            == m.entry(r, c) by {
            let terms = algebra::pointwise_times(id.row(r), m.col(c));
            assert forall|k: int| 0 <= k < terms.len() && k != r implies terms[k]
                == K::zero_spec() by {
                assert(id.entry(r, k) == K::zero_spec());
                K::lemma_times_commutes(K::zero_spec(), m.entry(k, c));
                K::lemma_times_zero(m.entry(k, c));
            }
            assert(terms[r] == m.entry(r, c)) by {
                assert(id.entry(r, r) == K::one_spec());
                K::lemma_times_commutes(K::one_spec(), m.entry(r, c));
                K::lemma_times_one(m.entry(r, c));
            }
            lemma_sum_of_one_item(terms, r);
        }
    }
    assert(id.times_matrix(&m) =~= m@);
}

} // verus!
