//! Descriptive statistics over the abstract scalar capability, and the
//! duplicate- and mode-finding utilities over values with equality.

use vstd::prelude::*;
use crate::scalar::Scalar;
use vstd::std_specs::cmp::PartialEqSpec;

verus! {

/// The sum of the elements, accumulated left to right from the zero scalar.
pub open spec fn sum_spec<T: Scalar>(s: Seq<T>) -> T
    decreases s.len(),
{
    if s.len() == 0 {
        T::spec_zero()
    } else {
        sum_spec(s.drop_last()).spec_add(s.last())
    }
}

/// The sum of the squared elements, accumulated the same way.
pub open spec fn sq_sum_spec<T: Scalar>(s: Seq<T>) -> T
    decreases s.len(),
{
    if s.len() == 0 {
        T::spec_zero()
    } else {
        sq_sum_spec(s.drop_last()).spec_add(s.last().spec_mul(s.last()))
    }
}

/// The sum of the reciprocals, accumulated the same way.
pub open spec fn recip_sum_spec<T: Scalar>(s: Seq<T>) -> T
    decreases s.len(),
{
    if s.len() == 0 {
        T::spec_zero()
    } else {
        recip_sum_spec(s.drop_last()).spec_add(T::spec_one().spec_div(s.last()))
    }
}

/// The sum of squared deviations from mu, accumulated the same way.
pub open spec fn dev_sq_sum_spec<T: Scalar>(s: Seq<T>, mu: T) -> T
    decreases s.len(),
{
    if s.len() == 0 {
        T::spec_zero()
    } else {
        dev_sq_sum_spec(s.drop_last(), mu).spec_add(
            s.last().spec_sub(mu).spec_mul(s.last().spec_sub(mu)),
        )
    }
}

/// The arithmetic mean: the element sum over the count, and the zero scalar
/// for empty input.
pub open spec fn average_spec<T: Scalar>(s: Seq<T>) -> T {
    if s.len() == 0 {
        T::spec_zero()
    } else {
        sum_spec(s).spec_div(T::spec_from_usize(s.len() as usize))
    }
}

/// The population variance: the mean squared deviation from the mean, and
/// the zero scalar for empty input.
pub open spec fn variance_spec<T: Scalar>(s: Seq<T>) -> T {
    if s.len() == 0 {
        T::spec_zero()
    } else {
        dev_sq_sum_spec(s, average_spec(s)).spec_div(T::spec_from_usize(s.len() as usize))
    }
}

/// The arithmetic mean of the values; the zero scalar for empty input.
pub fn average<T: Scalar>(data: &Vec<T>) -> (r: T)
    ensures
        r == average_spec(data@),
{
    if data.len() == 0 {
        return T::zero();
    }
    let mut sum = T::zero();
    let mut i: usize = 0;
    while i < data.len()
        invariant
            i <= data@.len(),
            sum == sum_spec(data@.subrange(0, i as int)),
        decreases data@.len() - i,
    {
        proof {
            assert(data@.subrange(0, i as int + 1).drop_last() =~= data@.subrange(0, i as int));
        }
        sum = sum.add(data[i]);
        i = i + 1;
    }
    proof {
        assert(data@.subrange(0, data@.len() as int) =~= data@);
    }
    sum.div(T::from_usize(data.len()))
}

/// The mean of the squared values; the zero scalar for empty input.
pub fn square_mean<T: Scalar>(data: &Vec<T>) -> (r: T)
    ensures
        r == (if data@.len() == 0 {
            T::spec_zero()
        } else {
            sq_sum_spec(data@).spec_div(T::spec_from_usize(data@.len() as usize))
        }),
{
    if data.len() == 0 {
        return T::zero();
    }
    let mut sum = T::zero();
    let mut i: usize = 0;
    while i < data.len()
        invariant
            i <= data@.len(),
            sum == sq_sum_spec(data@.subrange(0, i as int)),
        decreases data@.len() - i,
    {
        proof {
            assert(data@.subrange(0, i as int + 1).drop_last() =~= data@.subrange(0, i as int));
        }
        let x = data[i];
        sum = sum.add(x.mul(x));
        i = i + 1;
    }
    proof {
        assert(data@.subrange(0, data@.len() as int) =~= data@);
    }
    sum.div(T::from_usize(data.len()))
}

/// The harmonic mean: the count over the sum of reciprocals; the zero
/// scalar for empty input.
pub fn harmonic_mean<T: Scalar>(data: &Vec<T>) -> (r: T)
    ensures
        r == (if data@.len() == 0 {
            T::spec_zero()
        } else {
            T::spec_from_usize(data@.len() as usize).spec_div(recip_sum_spec(data@))
        }),
{
    if data.len() == 0 {
        return T::zero();
    }
    let n = T::from_usize(data.len());
    let mut sum = T::zero();
    let mut i: usize = 0;
    while i < data.len()
        invariant
            i <= data@.len(),
            sum == recip_sum_spec(data@.subrange(0, i as int)),
        decreases data@.len() - i,
    {
        proof {
            assert(data@.subrange(0, i as int + 1).drop_last() =~= data@.subrange(0, i as int));
        }
        sum = sum.add(T::one().div(data[i]));
        i = i + 1;
    }
    proof {
        assert(data@.subrange(0, data@.len() as int) =~= data@);
    }
    n.div(sum)
}

/// The population variance of the values; the zero scalar for empty input.
pub fn variance<T: Scalar>(data: &Vec<T>) -> (r: T)
    ensures
        r == variance_spec(data@),
{
    if data.len() == 0 {
        return T::zero();
    }
    let avg = average(data);
    let mut sum = T::zero();
    let mut i: usize = 0;
    while i < data.len()
        invariant
            i <= data@.len(),
            avg == average_spec(data@),
            sum == dev_sq_sum_spec(data@.subrange(0, i as int), avg),
        decreases data@.len() - i,
    {
        proof {
            assert(data@.subrange(0, i as int + 1).drop_last() =~= data@.subrange(0, i as int));
        }
        let x = data[i];
        sum = sum.add(x.sub(avg).mul(x.sub(avg)));
        i = i + 1;
    }
    proof {
        assert(data@.subrange(0, data@.len() as int) =~= data@);
    }
    sum.div(T::from_usize(data.len()))
}

/// The square root of the population variance.
pub fn standard_deviation<T: Scalar>(data: &Vec<T>) -> (r: T)
    ensures
        r == variance_spec(data@).spec_sqrt(),
{
    variance(data).sqrt()
}

/// The product of the elements, accumulated left to right from the unit
/// scalar.
pub open spec fn prod_spec<T: Scalar>(s: Seq<T>) -> T
    decreases s.len(),
{
    if s.len() == 0 {
        T::spec_one()
    } else {
        prod_spec(s.drop_last()).spec_mul(s.last())
    }
}

/// The geometric mean: the product raised to the power one over the count;
/// the zero scalar for empty input.
pub fn geometric_mean<T: Scalar>(data: &Vec<T>) -> (r: T)
    ensures
        r == (if data@.len() == 0 {
            T::spec_zero()
        } else {
            prod_spec(data@).spec_powf(
                T::spec_one().spec_div(T::spec_from_usize(data@.len() as usize)),
            )
        }),
{
    if data.len() == 0 {
        return T::zero();
    }
    let mut product = T::one();
    let mut i: usize = 0;
    while i < data.len()
        invariant
            i <= data@.len(),
            product == prod_spec(data@.subrange(0, i as int)),
        decreases data@.len() - i,
    {
        proof {
            assert(data@.subrange(0, i as int + 1).drop_last() =~= data@.subrange(0, i as int));
        }
        product = product.mul(data[i]);
        i = i + 1;
    }
    proof {
        assert(data@.subrange(0, data@.len() as int) =~= data@);
    }
    product.powf(T::one().div(T::from_usize(data.len())))
}

/// Some element of s equals x, under the equality specification.
pub open spec fn seq_has_eq<T: PartialEq>(s: Seq<T>, x: T) -> bool {
    exists|i: int| 0 <= i < s.len() && #[trigger] s[i].eq_spec(&x)
}

/// The elements of s with duplicates removed, keeping first occurrences in
/// their original order.
pub open spec fn dedup_spec<T: PartialEq>(s: Seq<T>) -> Seq<T>
    decreases s.len(),
{
    if s.len() == 0 {
        Seq::<T>::empty()
    } else {
        let d = dedup_spec(s.drop_last());
        if seq_has_eq(d, s.last()) {
            d
        } else {
            d.push(s.last())
        }
    }
}

/// How many elements of s equal x, under the equality specification.
pub open spec fn count_eq<T: PartialEq>(s: Seq<T>, x: T) -> nat
    decreases s.len(),
{
    if s.len() == 0 {
        0
    } else {
        count_eq(s.drop_last(), x) + (if s.last().eq_spec(&x) {
            1nat
        } else {
            0nat
        })
    }
}

/// The largest occurrence count in s among the candidates d.
pub open spec fn max_count<T: PartialEq>(s: Seq<T>, d: Seq<T>) -> nat
    decreases d.len(),
{
    if d.len() == 0 {
        0
    } else {
        let m = max_count(s, d.drop_last());
        if count_eq(s, d.last()) > m {
            count_eq(s, d.last())
        } else {
            m
        }
    }
}

/// The deduplicated list holds no two elements the equality specification
/// identifies.
pub proof fn lemma_dedup_distinct<T: PartialEq>(s: Seq<T>)
    ensures
        forall|i: int, j: int|
            0 <= i < j < dedup_spec(s).len() ==> !#[trigger] dedup_spec(s)[i].eq_spec(
                &dedup_spec(s)[j],
            ),
    decreases s.len(),
{
    if s.len() > 0 {
        lemma_dedup_distinct(s.drop_last());
        let d = dedup_spec(s.drop_last());
        if !seq_has_eq(d, s.last()) {
            assert(dedup_spec(s) == d.push(s.last()));
            assert forall|i: int, j: int|
                0 <= i < j < dedup_spec(s).len() implies !dedup_spec(s)[i].eq_spec(
                &(dedup_spec(s)[j]),
            ) by {
                if j == dedup_spec(s).len() - 1 {
                    assert(dedup_spec(s)[i] == d[i]);
                    assert(dedup_spec(s)[j] == s.last());
                    assert(!d[i].eq_spec(&s.last()));
                } else {
                    assert(dedup_spec(s)[i] == d[i]);
                    assert(dedup_spec(s)[j] == d[j]);
                }
            }
        }
    }
}

/// The distinct values of the input, first occurrences first. The contract
/// holds for element types whose equality obeys its specification.
pub fn unique<T: Copy + PartialEq>(data: &Vec<T>) -> (r: Vec<T>)
    ensures
        T::obeys_eq_spec() ==> r@ == dedup_spec(data@),
{
    let mut out: Vec<T> = Vec::new();
    let mut i: usize = 0;
    while i < data.len()
        invariant
            i <= data@.len(),
            T::obeys_eq_spec() ==> out@ == dedup_spec(data@.subrange(0, i as int)),
        decreases data@.len() - i,
    {
        let x = data[i];
        let mut seen = false;
        let mut j: usize = 0;
        while j < out.len()
            invariant
                j <= out@.len(),
                x == data@[i as int],
                i < data@.len(),
                T::obeys_eq_spec() ==> (!seen ==> forall|jj: int|
                    0 <= jj < j ==> !(#[trigger] out@[jj].eq_spec(&x))),
                T::obeys_eq_spec() ==> (seen ==> seq_has_eq(out@, x)),
            decreases out@.len() - j,
        {
            if out[j] == x {
                seen = true;
            }
            j = j + 1;
        }
        proof {
            assert(data@.subrange(0, i as int + 1).drop_last() =~= data@.subrange(0, i as int));
            assert(data@.subrange(0, i as int + 1).last() == data@[i as int]);
            if T::obeys_eq_spec() && !seen {
                assert(!seq_has_eq(out@, x));
            }
        }
        if !seen {
            out.push(x);
        }
        i = i + 1;
    }
    proof {
        assert(data@.subrange(0, data@.len() as int) =~= data@);
    }
    out
}

/// The distinct values that occur most often, first occurrences first. The
/// contract holds for element types whose equality obeys its specification.
pub fn mode<T: Copy + PartialEq>(data: &Vec<T>) -> (r: Vec<T>)
    ensures
        T::obeys_eq_spec() ==> {
            let d = dedup_spec(data@);
            let m = max_count(data@, d);
            &&& r@.len() <= d.len()
            &&& (forall|i: int|
                0 <= i < r@.len() ==> d.contains(#[trigger] r@[i]) && count_eq(data@, r@[i])
                    == m)
            &&& (forall|i: int|
                0 <= i < d.len() && count_eq(data@, #[trigger] d[i]) == m ==> r@.contains(d[i]))
            &&& (forall|i: int, j: int|
                0 <= i < j < r@.len() ==> !#[trigger] r@[i].eq_spec(&r@[j]))
        },
{
    let uniq = unique(data);
    // occurrence counts, aligned with the distinct values
    let mut counts: Vec<usize> = Vec::new();
    let mut k: usize = 0;
    while k < uniq.len()
        invariant
            k <= uniq@.len(),
            counts@.len() == k,
            T::obeys_eq_spec() ==> forall|kk: int|
                0 <= kk < k ==> #[trigger] counts@[kk] as nat == count_eq(data@, uniq@[kk]),
        decreases uniq@.len() - k,
    {
        let target = uniq[k];
        let mut c: usize = 0;
        let mut j: usize = 0;
        while j < data.len()
            invariant
                j <= data@.len(),
                c <= j,
                k < uniq@.len(),
                target == uniq@[k as int],
                T::obeys_eq_spec() ==> c as nat == count_eq(data@.subrange(0, j as int), target),
            decreases data@.len() - j,
        {
            proof {
                assert(data@.subrange(0, j as int + 1).drop_last() =~= data@.subrange(
                    0,
                    j as int,
                ));
                assert(data@.subrange(0, j as int + 1).last() == data@[j as int]);
            }
            if data[j] == target {
                c = c + 1;
            }
            j = j + 1;
        }
        proof {
            assert(data@.subrange(0, data@.len() as int) =~= data@);
        }
        counts.push(c);
        k = k + 1;
    }
    // the largest count
    let mut mc: usize = 0;
    let mut k2: usize = 0;
    while k2 < counts.len()
        invariant
            k2 <= counts@.len(),
            counts@.len() == uniq@.len(),
            T::obeys_eq_spec() ==> forall|kk: int|
                0 <= kk < counts@.len() ==> #[trigger] counts@[kk] as nat == count_eq(
                    data@,
                    uniq@[kk],
                ),
            T::obeys_eq_spec() ==> mc as nat == max_count(data@, uniq@.subrange(0, k2 as int)),
        decreases counts@.len() - k2,
    {
        proof {
            assert(uniq@.subrange(0, k2 as int + 1).drop_last() =~= uniq@.subrange(0, k2 as int));
            assert(uniq@.subrange(0, k2 as int + 1).last() == uniq@[k2 as int]);
        }
        if counts[k2] > mc {
            mc = counts[k2];
        }
        k2 = k2 + 1;
    }
    proof {
        assert(uniq@.subrange(0, uniq@.len() as int) =~= uniq@);
        if T::obeys_eq_spec() {
            lemma_dedup_distinct(data@);
        }
    }
    // the distinct values attaining it
    let mut out: Vec<T> = Vec::new();
    let mut k3: usize = 0;
    while k3 < uniq.len()
        invariant
            k3 <= uniq@.len(),
            counts@.len() == uniq@.len(),
            out@.len() <= k3,
            T::obeys_eq_spec() ==> forall|kk: int|
                0 <= kk < counts@.len() ==> #[trigger] counts@[kk] as nat == count_eq(
                    data@,
                    uniq@[kk],
                ),
            T::obeys_eq_spec() ==> mc as nat == max_count(data@, uniq@),
            T::obeys_eq_spec() ==> forall|ii: int|
                0 <= ii < out@.len() ==> uniq@.contains(#[trigger] out@[ii]) && count_eq(
                    data@,
                    out@[ii],
                ) == mc as nat,
            T::obeys_eq_spec() ==> forall|kk: int|
                0 <= kk < k3 && count_eq(data@, #[trigger] uniq@[kk]) == mc as nat
                    ==> out@.contains(uniq@[kk]),
            T::obeys_eq_spec() ==> forall|a: int, b: int|
                0 <= a < b < uniq@.len() ==> !#[trigger] uniq@[a].eq_spec(&uniq@[b]),
            T::obeys_eq_spec() ==> forall|ii: int, kk: int|
                0 <= ii < out@.len() && k3 <= kk < uniq@.len() ==> !#[trigger] out@[ii].eq_spec(
                    &uniq@[kk],
                ),
            T::obeys_eq_spec() ==> forall|ii: int, jj: int|
                0 <= ii < jj < out@.len() ==> !#[trigger] out@[ii].eq_spec(&out@[jj]),
        decreases uniq@.len() - k3,
    {
        let ghost old_out = out@;
        if counts[k3] == mc {
            let v = uniq[k3];
            out.push(v);
            proof {
                assert(out@[out@.len() - 1] == uniq@[k3 as int]);
                assert(out@.contains(uniq@[k3 as int]));
                assert forall|x: T| old_out.contains(x) implies out@.contains(x) by {
                    let idx = choose|idx: int| 0 <= idx < old_out.len() && old_out[idx] == x;
                    assert(out@[idx] == x);
                }
                if T::obeys_eq_spec() {
                    assert forall|ii: int, kk: int|
                        0 <= ii < out@.len() && k3 as int + 1 <= kk < uniq@.len()
                            implies !out@[ii].eq_spec(&uniq@[kk]) by {
                        if ii < out@.len() - 1 {
                            assert(out@[ii] == old_out[ii]);
                        } else {
                            assert(out@[ii] == uniq@[k3 as int]);
                            assert(!uniq@[k3 as int].eq_spec(&uniq@[kk]));
                        }
                    }
                    assert forall|ii: int, jj: int|
                        0 <= ii < jj < out@.len() implies !out@[ii].eq_spec(&out@[jj]) by {
                        if jj == out@.len() - 1 {
                            assert(out@[ii] == old_out[ii]);
                            assert(!old_out[ii].eq_spec(&uniq@[k3 as int]));
                        }
                    }
                }
            }
        }
        k3 = k3 + 1;
    }
    out
}

} // verus!
