//! A one-dimensional numeric vector: construction, element access and the
//! scalar and elementwise operations the rest of the library uses.

use vstd::prelude::*;
use crate::scalar::Scalar;
use crate::statistics::sq_sum_spec;

verus! {

/// An ordered collection of scalar values.
pub struct Vector<T> {
    pub data: Vec<T>,
}

/// The dot product of the first m elements, accumulated left to right from
/// the zero scalar: Σ a[i]·b[i].
pub open spec fn dot_spec<T: Scalar>(a: Seq<T>, b: Seq<T>, m: int) -> T
    decreases m,
{
    if m <= 0 {
        T::spec_zero()
    } else {
        dot_spec(a, b, m - 1).spec_add(a[m - 1].spec_mul(b[m - 1]))
    }
}

impl<T: Copy> Vector<T> {
    /// A vector owning the given elements.
    pub fn new(data: Vec<T>) -> (r: Self)
        ensures
            r.data == data,
    {
        Vector { data }
    }

    /// A vector copied out of a borrowed slice.
    pub fn from_slice(slice: &[T]) -> (r: Self)
        ensures
            r.data@ == slice@,
    {
        let mut data: Vec<T> = Vec::new();
        let mut i: usize = 0;
        while i < slice.len()
            invariant
                i <= slice@.len(),
                data@.len() == i,
                forall|j: int| 0 <= j < i ==> data@[j] == slice@[j],
            decreases slice@.len() - i,
        {
            data.push(slice[i]);
            i = i + 1;
        }
        proof {
            assert(data@ =~= slice@);
        }
        Vector { data }
    }

    /// A copy of the elements.
    pub fn to_vec(&self) -> (r: Vec<T>)
        ensures
            r@ == self.data@,
    {
        let mut data: Vec<T> = Vec::new();
        let mut i: usize = 0;
        while i < self.data.len()
            invariant
                i <= self.data@.len(),
                data@.len() == i,
                forall|j: int| 0 <= j < i ==> data@[j] == self.data@[j],
            decreases self.data@.len() - i,
        {
            data.push(self.data[i]);
            i = i + 1;
        }
        proof {
            assert(data@ =~= self.data@);
        }
        data
    }

    /// The elements as a borrowed slice.
    pub fn to_slice(&self) -> (r: &[T])
        ensures
            r@ == self.data@,
    {
        self.data.as_slice()
    }

    /// The element count.
    pub fn size(&self) -> (r: usize)
        ensures
            r == self.data@.len(),
    {
        self.data.len()
    }
}

impl<T: Scalar> Vector<T> {
    /// The Euclidean norm: the square root of the sum of squared elements.
    pub fn norm(&self) -> (r: T)
        ensures
            r == sq_sum_spec(self.data@).spec_sqrt(),
    {
        let mut sum = T::zero();
        let mut i: usize = 0;
        while i < self.data.len()
            invariant
                i <= self.data@.len(),
                sum == sq_sum_spec(self.data@.subrange(0, i as int)),
            decreases self.data@.len() - i,
        {
            proof {
                assert(self.data@.subrange(0, i as int + 1).drop_last() =~= self.data@.subrange(
                    0,
                    i as int,
                ));
            }
            let v = self.data[i];
            sum = sum.add(v.mul(v));
            i = i + 1;
        }
        proof {
            assert(self.data@.subrange(0, self.data@.len() as int) =~= self.data@);
        }
        sum.sqrt()
    }

    /// The dot product with another vector of the same length.
    pub fn dot(&self, other: &Self) -> (r: T)
        requires
            self.data@.len() == other.data@.len(),
        ensures
            r == dot_spec(self.data@, other.data@, self.data@.len() as int),
    {
        let mut result = T::zero();
        let mut i: usize = 0;
        while i < self.data.len()
            invariant
                i <= self.data@.len(),
                self.data@.len() == other.data@.len(),
                result == dot_spec(self.data@, other.data@, i as int),
            decreases self.data@.len() - i,
        {
            result = result.add(self.data[i].mul(other.data[i]));
            i = i + 1;
        }
        result
    }

    /// Every element multiplied by the scalar.
    fn mul(self, scalar: T) -> (r: Self)
        ensures
            r.data@.len() == self.data@.len(),
            forall|i: int|
                0 <= i < r.data@.len() ==> r.data@[i] == self.data@[i].spec_mul(scalar),
    {
        let mut result: Vec<T> = Vec::new();
        let mut i: usize = 0;
        while i < self.data.len()
            invariant
                i <= self.data@.len(),
                result@.len() == i,
                forall|j: int| 0 <= j < i ==> result@[j] == self.data@[j].spec_mul(scalar),
            decreases self.data@.len() - i,
        {
            result.push(self.data[i].mul(scalar));
            i = i + 1;
        }
        Vector { data: result }
    }

    /// Every element divided by the scalar, which must not be zero.
    fn div(self, scalar: T) -> (r: Self)
        requires
            !scalar.spec_is_zero(),
        ensures
            r.data@.len() == self.data@.len(),
            forall|i: int|
                0 <= i < r.data@.len() ==> r.data@[i] == self.data@[i].spec_div(scalar),
    {
        let mut result: Vec<T> = Vec::new();
        let mut i: usize = 0;
        while i < self.data.len()
            invariant
                i <= self.data@.len(),
                result@.len() == i,
                forall|j: int| 0 <= j < i ==> result@[j] == self.data@[j].spec_div(scalar),
            decreases self.data@.len() - i,
        {
            result.push(self.data[i].div(scalar));
            i = i + 1;
        }
        Vector { data: result }
    }

    /// The elementwise sum with another vector of the same length.
    pub fn add(self, other: Self) -> (r: Self)
        requires
            self.data@.len() == other.data@.len(),
        ensures
            r.data@.len() == self.data@.len(),
            forall|i: int|
                0 <= i < r.data@.len() ==> r.data@[i] == self.data@[i].spec_add(other.data@[i]),
    {
        let mut result: Vec<T> = Vec::new();
        let mut i: usize = 0;
        while i < self.data.len()
            invariant
                i <= self.data@.len(),
                self.data@.len() == other.data@.len(),
                result@.len() == i,
                forall|j: int| 0 <= j < i ==> result@[j] == self.data@[j].spec_add(other.data@[j]),
            decreases self.data@.len() - i,
        {
            result.push(self.data[i].add(other.data[i]));
            i = i + 1;
        }
        Vector { data: result }
    }

    /// The elementwise difference with another vector of the same length.
    pub fn sub(self, other: Self) -> (r: Self)
        requires
            self.data@.len() == other.data@.len(),
        ensures
            r.data@.len() == self.data@.len(),
            forall|i: int|
                0 <= i < r.data@.len() ==> r.data@[i] == self.data@[i].spec_sub(other.data@[i]),
    {
        let mut result: Vec<T> = Vec::new();
        let mut i: usize = 0;
        while i < self.data.len()
            invariant
                i <= self.data@.len(),
                self.data@.len() == other.data@.len(),
                result@.len() == i,
                forall|j: int| 0 <= j < i ==> result@[j] == self.data@[j].spec_sub(other.data@[j]),
            decreases self.data@.len() - i,
        {
            result.push(self.data[i].sub(other.data[i]));
            i = i + 1;
        }
        Vector { data: result }
    }
}

} // verus!
