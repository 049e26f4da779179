//! Vectors: ordered sequences of scalars of a fixed dimension.

use vstd::prelude::*;
use crate::algebra;
use crate::error::LinAlgError;
use crate::field::{KField, MathOps};

verus! {

/// An ordered sequence of scalars. Its dimension is the length of `data`.
#[derive(Debug, Clone, PartialEq)]
pub struct Vector<K> {
    pub data: Vec<K>,
}

impl<K> View for Vector<K> {
    type V = Seq<K>;

    open spec fn view(&self) -> Seq<K> {
        self.data@
    }
}

impl<K: KField> Vector<K> {
    /// The vector of the given components, in their order.
    pub fn from(values: Vec<K>) -> (v: Self)
        ensures
            v@ == values@,
    {
        Vector { data: values }
    }

    /// The dimension.
    pub fn size(&self) -> (n: usize)
        ensures
            n == self@.len(),
    {
        self.data.len()
    }

    /// The component at `i`.
    pub fn get(&self, i: usize) -> (r: Result<K, LinAlgError>)
        ensures
            i < self@.len() ==> r == Ok::<K, LinAlgError>(self@[i as int]),
            i >= self@.len() ==> r == Err::<K, LinAlgError>(LinAlgError::IndexOutOfRange),
    {
        if i < self.data.len() {
            Ok(self.data[i])
        } else {
            Err(LinAlgError::IndexOutOfRange)
        }
    }

    /// Replaces the component at `i` by `value`.
    pub fn set(&mut self, i: usize, value: K) -> (r: Result<(), LinAlgError>)
        ensures
            i < old(self)@.len() ==> r == Ok::<(), LinAlgError>(()) && final(self)@ == old(self)@.update(
                i as int,
                value,
            ),
            i >= old(self)@.len() ==> r == Err::<(), LinAlgError>(LinAlgError::IndexOutOfRange)
                && final(self)@ == old(self)@,
    {
        if i < self.data.len() {
            self.data[i] = value;
            Ok(())
        } else {
            Err(LinAlgError::IndexOutOfRange)
        }
    }

    /// Adds `v` to this vector, component by component.
    pub fn add(&mut self, v: &Vector<K>) -> (r: Result<(), LinAlgError>)
        ensures
            old(self)@.len() == v@.len() ==> r == Ok::<(), LinAlgError>(()) && final(self)@
                == algebra::pointwise_plus(old(self)@, v@),
            old(self)@.len() != v@.len() ==> r == Err::<(), LinAlgError>(
                LinAlgError::DimensionMismatch,
            ) && final(self)@ == old(self)@,
    {
        if self.data.len() != v.data.len() {
            return Err(LinAlgError::DimensionMismatch);
        }
        let n: usize = self.data.len();
        for i in 0..n
            invariant
                n == self@.len(),
                n == v@.len(),
                n == old(self)@.len(),
                forall|j: int| 0 <= j < i ==> self@[j] == old(self)@[j].plus(v@[j]),
                forall|j: int| i <= j < n ==> self@[j] == old(self)@[j],
        {
            self.data[i] = self.data[i].add(v.data[i]);
        }
        assert(self@ =~= algebra::pointwise_plus(old(self)@, v@));
        Ok(())
    }

    /// Subtracts `v` from this vector, component by component.
    pub fn sub(&mut self, v: &Vector<K>) -> (r: Result<(), LinAlgError>)
        ensures
            old(self)@.len() == v@.len() ==> r == Ok::<(), LinAlgError>(()) && final(self)@
                == algebra::pointwise_minus(old(self)@, v@),
            old(self)@.len() != v@.len() ==> r == Err::<(), LinAlgError>(
                LinAlgError::DimensionMismatch,
            ) && final(self)@ == old(self)@,
    {
        if self.data.len() != v.data.len() {
            return Err(LinAlgError::DimensionMismatch);
        }
        let n: usize = self.data.len();
        for i in 0..n
            invariant
                n == self@.len(),
                n == v@.len(),
                n == old(self)@.len(),
                forall|j: int| 0 <= j < i ==> self@[j] == old(self)@[j].minus(v@[j]),
                forall|j: int| i <= j < n ==> self@[j] == old(self)@[j],
        {
            self.data[i] = self.data[i].sub(v.data[i]);
        }
        assert(self@ =~= algebra::pointwise_minus(old(self)@, v@));
        Ok(())
    }

    /// Multiplies every component by `a`.
    pub fn scl(&mut self, a: K)
        ensures
            final(self)@ == algebra::scaled(old(self)@, a),
    {
        let n: usize = self.data.len();
        for i in 0..n
            invariant
                n == self@.len(),
                n == old(self)@.len(),
                forall|j: int| 0 <= j < i ==> self@[j] == old(self)@[j].times(a),
                forall|j: int| i <= j < n ==> self@[j] == old(self)@[j],
        {
            self.data[i] = self.data[i].mul(a);
        }
        assert(self@ =~= algebra::scaled(old(self)@, a));
    }

    /// The vector of `size` zeros.
    pub fn zero(size: usize) -> (v: Self)
        ensures
            v@ == algebra::zeros::<K>(size as nat),
    {
        let mut data: Vec<K> = Vec::new();
        for i in 0..size
            invariant
                data@.len() == i,
                forall|j: int| 0 <= j < i ==> data@[j] == K::zero_spec(),
        {
            data.push(K::zero());
        }
        assert(data@ =~= algebra::zeros::<K>(size as nat));
        Vector { data }
    }

    /// The 1-norm: the sum of the absolute values of the components.
    pub fn norm_1(&self) -> (r: K)
        ensures
            r == algebra::norm_1(self@),
    {
        let n: usize = self.data.len();
        let ghost terms = algebra::magnitudes(self@);
        let mut res = K::zero();
        for i in 0..n
            invariant
                n == self@.len(),
                terms == algebra::magnitudes(self@),
                res == algebra::sum(terms.take(i as int)),
        {
            proof {
                algebra::lemma_sum_step(terms, i as int);
            }
            res = res.add(magnitude(self.data[i]));
        }
        assert(terms.take(n as int) =~= terms);
        res
    }

    /// The maximum norm: the greatest absolute value of a component, and
    /// zero for the empty vector.
    pub fn norm_inf(&self) -> (r: K)
        ensures
            r == algebra::norm_inf(self@),
    {
        let n: usize = self.data.len();
        let ghost terms = algebra::magnitudes(self@);
        let mut res = K::zero();
        for i in 0..n
            invariant
                n == self@.len(),
                terms == algebra::magnitudes(self@),
                res == algebra::greatest(terms.take(i as int)),
        {
            proof {
                algebra::lemma_greatest_step(terms, i as int);
            }
            let a = magnitude(self.data[i]);
            if res.lt(a) {
                res = a;
            }
        }
        assert(terms.take(n as int) =~= terms);
        res
    }

    /// The Euclidean norm: the sum of the squares of the components, raised
    /// to the power one half.
    pub fn norm(&self) -> (r: K) where K: MathOps
        ensures
            r == algebra::norm_2(self@),
    {
        let n: usize = self.data.len();
        let ghost terms = algebra::squares(self@);
        let mut res = K::zero();
        for i in 0..n
            invariant
                n == self@.len(),
                terms == algebra::squares(self@),
                res == algebra::sum(terms.take(i as int)),
        {
            proof {
                algebra::lemma_sum_step(terms, i as int);
            }
            res = res.add(self.data[i].pow(2));
        }
        assert(terms.take(n as int) =~= terms);
        let one = K::one();
        res.powf(one.div(one.add(one)))
    }

    /// The linear interpolation `u + (v - u) * t`, component by component.
    /// Any `t` is accepted, also one outside of zero to one.
    pub fn lerp(u: &Vector<K>, v: &Vector<K>, t: K) -> (r: Result<Vector<K>, LinAlgError>)
        ensures
            u@.len() == v@.len() ==> r is Ok && r->Ok_0@ == algebra::pointwise_lerp(u@, v@, t),
            u@.len() != v@.len() ==> r == Err::<Vector<K>, LinAlgError>(
                LinAlgError::DimensionMismatch,
            ),
    {
        if u.data.len() != v.data.len() {
            return Err(LinAlgError::DimensionMismatch);
        }
        Ok(Vector { data: lerp_all(&u.data, &v.data, t) })
    }

    /// The dot product with `v`.
    pub fn dot(&self, v: &Vector<K>) -> (r: Result<K, LinAlgError>)
        ensures
            self@.len() == v@.len() ==> r == Ok::<K, LinAlgError>(algebra::dot(self@, v@)),
            self@.len() != v@.len() ==> r == Err::<K, LinAlgError>(LinAlgError::DimensionMismatch),
    {
        if self.data.len() != v.data.len() {
            return Err(LinAlgError::DimensionMismatch);
        }
        let n: usize = self.data.len();
        let mut res = K::zero();
        for i in 0..n
            invariant
                n == self@.len(),
                n == v@.len(),
                res == algebra::sum(algebra::pointwise_times(self@, v@).take(i as int)),
        {
            proof {
                algebra::lemma_sum_step(algebra::pointwise_times(self@, v@), i as int);
            }
            res = res.add(self.data[i].mul(v.data[i]));
        }
        assert(algebra::pointwise_times(self@, v@).take(n as int) =~= algebra::pointwise_times(
            self@,
            v@,
        ));
        Ok(res)
    }
}

/// The absolute value of `x`.
fn magnitude<K: KField>(x: K) -> (r: K)
    ensures
        r == algebra::abs(x),
{
    let zero = K::zero();
    if x.lt(zero) {
        zero.sub(x)
    } else {
        x
    }
}

/// The linear interpolation `u + (v - u) * t` between two scalars.
pub fn lerp<K: KField>(u: K, v: K, t: K) -> (r: K)
    ensures
        r == algebra::lerp(u, v, t),
{
    u.add(v.sub(u).mul(t))
}

/// The linear interpolation between two runs of scalars of one length, item
/// by item.
pub(crate) fn lerp_all<K: KField>(u: &Vec<K>, v: &Vec<K>, t: K) -> (r: Vec<K>)
    requires
        u@.len() == v@.len(),
    ensures
        r@ == algebra::pointwise_lerp(u@, v@, t),
{
    let n: usize = u.len();
    let mut data: Vec<K> = Vec::new();
    for i in 0..n
        invariant
            n == u@.len(),
            n == v@.len(),
            data@.len() == i,
            forall|j: int| 0 <= j < i ==> data@[j] == algebra::lerp(u@[j], v@[j], t),
    {
        data.push(lerp(u[i], v[i], t));
    }
    assert(data@ =~= algebra::pointwise_lerp(u@, v@, t));
    data
}

/// The cross product of two three-dimensional vectors.
pub fn cross_product<K: KField>(u: &Vector<K>, v: &Vector<K>) -> (r: Result<Vector<K>, LinAlgError>)
    ensures
        u@.len() == 3 && v@.len() == 3 ==> r is Ok && r->Ok_0@ == algebra::cross(u@, v@),
        !(u@.len() == 3 && v@.len() == 3) ==> r == Err::<Vector<K>, LinAlgError>(
            LinAlgError::UnsupportedDimension,
        ),
{
    if u.data.len() != 3 || v.data.len() != 3 {
        return Err(LinAlgError::UnsupportedDimension);
    }
    let mut data: Vec<K> = Vec::new();
    data.push(u.data[1].mul(v.data[2]).sub(u.data[2].mul(v.data[1])));
    data.push(u.data[2].mul(v.data[0]).sub(u.data[0].mul(v.data[2])));
    data.push(u.data[0].mul(v.data[1]).sub(u.data[1].mul(v.data[0])));
    assert(data@ =~= algebra::cross(u@, v@));
    Ok(Vector { data })
}

/// The cosine of the angle between `u` and `v`.
pub fn angle_cos<K: MathOps>(u: &Vector<K>, v: &Vector<K>) -> (r: Result<K, LinAlgError>)
    ensures
        u@.len() == v@.len() ==> r == Ok::<K, LinAlgError>(algebra::angle_cos(u@, v@)),
        u@.len() != v@.len() ==> r == Err::<K, LinAlgError>(LinAlgError::DimensionMismatch),
{
    match u.dot(v) {
        Ok(dot) => {
            let norm_v = v.norm();
            let norm_u = u.norm();
            Ok(dot.div(norm_u.mul(norm_v)))
        },
        Err(e) => Err(e),
    }
}

/// The views of the given vectors, in their order.
pub open spec fn views_of<K>(u: Seq<Vector<K>>) -> Seq<Seq<K>> {
    Seq::new(u.len(), |i: int| u[i]@)
}

/// The dimension that the given vectors have in common: that of the first,
/// and zero where there is none.
pub open spec fn common_size<K>(u: Seq<Vector<K>>) -> nat {
    if u.len() > 0 {
        u[0]@.len()
    } else {
        0
    }
}

/// Whether the given vectors can be combined with the given coefficients:
/// there is one coefficient for each vector, and all vectors have one
/// dimension.
pub open spec fn combinable<K>(u: Seq<Vector<K>>, coefs: Seq<K>) -> bool {
    &&& u.len() == coefs.len()
    &&& forall|i: int| 0 <= i < u.len() ==> (#[trigger] u[i])@.len() == common_size(u)
}

/// The linear combination of the vectors `u` with the coefficients `coefs`.
pub fn linear_combination<K: KField>(u: &[Vector<K>], coefs: &[K]) -> (r: Result<
    Vector<K>,
    LinAlgError,
>)
    ensures
        combinable(u@, coefs@) ==> r is Ok && r->Ok_0@ == algebra::combination(
            views_of(u@),
            coefs@,
            common_size(u@),
        ),
        !combinable(u@, coefs@) ==> r == Err::<Vector<K>, LinAlgError>(
            LinAlgError::DimensionMismatch,
        ),
{
    if u.len() != coefs.len() {
        return Err(LinAlgError::DimensionMismatch);
    }
    let count: usize = u.len();
    let size: usize = if count > 0 {
        u[0].size()
    } else {
        0
    };
    for k in 0..count
        invariant
            count == u@.len(),
            size == common_size(u@),
            forall|i: int| 0 <= i < k ==> (#[trigger] u@[i])@.len() == size,
    {
        if u[k].size() != size {
            return Err(LinAlgError::DimensionMismatch);
        }
    }
    let mut result = Vector::<K>::zero(size);
    for k in 0..count
        invariant
            count == u@.len(),
            count == coefs@.len(),
            size == common_size(u@),
            forall|i: int| 0 <= i < count ==> (#[trigger] u@[i])@.len() == size,
            result@ == algebra::combination(
                views_of(u@).take(k as int),
                coefs@.take(k as int),
                size as nat,
            ),
    {
        let ghost before = result@;
        let coef = coefs[k];
        for i in 0..size
            invariant
                0 <= k < count,
                count == u@.len(),
                u@[k as int]@.len() == size,
                result@.len() == size,
                before.len() == size,
                forall|j: int| 0 <= j < i ==> result@[j] == u@[k as int]@[j].times(coef).plus(before[j]),
                forall|j: int| i <= j < size ==> result@[j] == before[j],
        {
            result.data[i] = u[k].data[i].mul(coef).add(result.data[i]);
        }
        proof {
            let vs = views_of(u@).take(k + 1);
            let cs = coefs@.take(k + 1);
            assert(vs.drop_last() =~= views_of(u@).take(k as int));
            assert(cs.drop_last() =~= coefs@.take(k as int));
            assert(vs.last() == u@[k as int]@);
            assert(cs.last() == coef);
            assert(result@ =~= algebra::combination(vs, cs, size as nat));
        }
    }
    proof {
        assert(views_of(u@).take(count as int) =~= views_of(u@));
        assert(coefs@.take(count as int) =~= coefs@);
    }
    Ok(result)
}

} // verus!
