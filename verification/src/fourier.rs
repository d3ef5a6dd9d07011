//! Discrete Fourier transforms: a direct reference transform, a radix-2
//! decimation-in-time transform for power-of-two lengths, a mixed-radix
//! transform for arbitrary composite lengths, and a separable
//! two-dimensional extension.
//!
//! Every contract states the output exactly, as the combination of scalar
//! operations the implementation performs, over the specification-level
//! denotations of the scalar capability (see [`crate::scalar::Scalar`]).

use vstd::prelude::*;
use crate::complex::{cadd, cdiv, cmul, csub, czero, c_from_polar, sq_norm, Complex};
use crate::errors::MathError;
use crate::numbers::{factorize, is_pow2, is_pow2_spec, is_prime_spec, lemma_product_bounds, product};
use crate::scalar::Scalar;

verus! {

/// The angular velocity of the twiddle factors: -2π forward, +2π inverse.
pub open spec fn spec_rotation<T: Scalar>(inverse: bool) -> T {
    if inverse {
        T::spec_two_pi()
    } else {
        T::spec_two_pi().spec_neg()
    }
}

/// The twiddle factor e^{∓i·2π·k·t/n}, assembled exactly as the
/// implementation assembles it: the index ratio is formed in the scalar
/// type and fed to the polar constructor with unit magnitude.
pub open spec fn spec_twiddle<T: Scalar>(k: int, t: int, n: int, inverse: bool) -> Complex<T> {
    c_from_polar(
        T::spec_one(),
        spec_rotation::<T>(inverse).spec_mul(
            T::spec_from_usize(k as usize).spec_mul(T::spec_from_usize(t as usize)).spec_div(
                T::spec_from_usize(n as usize),
            ),
        ),
    )
}

fn twiddle<T: Scalar>(k: usize, t: usize, n: usize, inverse: bool) -> (r: Complex<T>)
    ensures
        r == spec_twiddle::<T>(k as int, t as int, n as int, inverse),
{
    let rot = if inverse {
        T::two_pi()
    } else {
        T::two_pi().neg()
    };
    let ratio = T::from_usize(k).mul(T::from_usize(t)).div(T::from_usize(n));
    Complex::from_polar(T::one(), rot.mul(ratio))
}

/// The partial direct-transform sum Σ_{t<m} x[t]·e^{∓i·2π·k·t/n} with
/// n = x.len(), accumulated left to right from zero.
pub open spec fn dft_sum<T: Scalar>(x: Seq<Complex<T>>, k: int, m: int, inverse: bool) -> Complex<
    T,
>
    decreases m,
{
    if m <= 0 {
        czero::<T>()
    } else {
        cadd(
            dft_sum(x, k, m - 1, inverse),
            cmul(x[m - 1], spec_twiddle::<T>(k, m - 1, x.len() as int, inverse)),
        )
    }
}

/// The k-th point of the unnormalized direct transform of x.
pub open spec fn dft_point<T: Scalar>(x: Seq<Complex<T>>, k: int, inverse: bool) -> Complex<T> {
    dft_sum(x, k, x.len() as int, inverse)
}

/// The complex value n + 0i that the inverse transforms divide by.
pub open spec fn length_scale<T: Scalar>(n: int) -> Complex<T> {
    Complex { real: T::spec_from_usize(n as usize), imag: T::spec_zero() }
}

/// The shared direct-transform loop, forward or inverse, unnormalized.
fn direct_run<T: Scalar>(signal: &Vec<Complex<T>>, inverse: bool) -> (r: Vec<Complex<T>>)
    requires
        signal@.len() >= 1,
    ensures
        r@.len() == signal@.len(),
        forall|k: int| 0 <= k < r@.len() ==> r@[k] == dft_point(signal@, k, inverse),
{
    let n = signal.len();
    let mut out: Vec<Complex<T>> = Vec::new();
    let mut k: usize = 0;
    while k < n
        invariant
            k <= n,
            n == signal@.len(),
            n >= 1,
            out@.len() == k,
            forall|kk: int| 0 <= kk < k ==> out@[kk] == dft_point(signal@, kk, inverse),
        decreases n - k,
    {
        let mut acc = Complex::<T>::zero();
        let mut t: usize = 0;
        while t < n
            invariant
                t <= n,
                k < n,
                n == signal@.len(),
                acc == dft_sum(signal@, k as int, t as int, inverse),
            decreases n - t,
        {
            let w = twiddle::<T>(k, t, n, inverse);
            acc = acc.add(signal[t].mul(w));
            t = t + 1;
        }
        out.push(acc);
        k = k + 1;
    }
    out
}

/// Every element of `raw` divided by the complex image of the length `n`.
fn scale_by_len<T: Scalar>(raw: &Vec<Complex<T>>, n: usize) -> (out: Vec<Complex<T>>)
    requires
        !sq_norm(length_scale::<T>(n as int)).spec_is_zero(),
    ensures
        out@.len() == raw@.len(),
        forall|k: int|
            0 <= k < out@.len() ==> out@[k] == cdiv(raw@[k], length_scale::<T>(n as int)),
{
    let scale_c = Complex::<T>::new(T::from_usize(n), T::zero());
    proof {
        assert(scale_c == length_scale::<T>(n as int));
    }
    let mut out: Vec<Complex<T>> = Vec::new();
    let mut k: usize = 0;
    while k < raw.len()
        invariant
            k <= raw@.len(),
            scale_c == length_scale::<T>(n as int),
            !sq_norm(scale_c).spec_is_zero(),
            out@.len() == k,
            forall|kk: int|
                0 <= kk < k ==> out@[kk] == cdiv(raw@[kk], length_scale::<T>(n as int)),
        decreases raw@.len() - k,
    {
        let scaled = match raw[k].div(scale_c) {
            Ok(v) => v,
            Err(_) => {
                proof {
                    assert(false);
                }
                return Vec::new();
            },
        };
        out.push(scaled);
        k = k + 1;
    }
    out
}

/// The forward direct transform: X[k] = Σ_t x[t]·e^{-i2πkt/N}, unnormalized,
/// in O(N²) operations. Fails with `InvalidLength` exactly on empty input.
pub fn dft<T: Scalar>(signal: &Vec<Complex<T>>) -> (r: Result<Vec<Complex<T>>, MathError>)
    ensures
        r.is_ok() <==> signal@.len() >= 1,
        (match r {
            Ok(out) => out@.len() == signal@.len() && forall|k: int|
                0 <= k < out@.len() ==> out@[k] == dft_point(signal@, k, false),
            Err(e) => e == MathError::InvalidLength,
        }),
{
    if signal.len() == 0 {
        return Err(MathError::InvalidLength);
    }
    Ok(direct_run(signal, false))
}

/// The inverse direct transform: x[t] = (1/N)·Σ_k X[k]·e^{+i2πkt/N}. Fails
/// with `InvalidLength` exactly on empty input, and with `DivisionByZero`
/// exactly when the scalar image of N has a zero squared magnitude.
pub fn idft<T: Scalar>(signal: &Vec<Complex<T>>) -> (r: Result<Vec<Complex<T>>, MathError>)
    ensures
        (if signal@.len() == 0 {
            r == Err::<Vec<Complex<T>>, MathError>(MathError::InvalidLength)
        } else if sq_norm(length_scale::<T>(signal@.len() as int)).spec_is_zero() {
            r == Err::<Vec<Complex<T>>, MathError>(MathError::DivisionByZero)
        } else {
            match r {
                Ok(out) => out@.len() == signal@.len() && forall|k: int|
                    0 <= k < out@.len() ==> out@[k] == cdiv(
                        dft_point(signal@, k, true),
                        length_scale::<T>(signal@.len() as int),
                    ),
                Err(_) => false,
            }
        }),
{
    let n = signal.len();
    if n == 0 {
        return Err(MathError::InvalidLength);
    }
    let scale_c = Complex::<T>::new(T::from_usize(n), T::zero());
    let sqn = scale_c.real.mul(scale_c.real).add(scale_c.imag.mul(scale_c.imag));
    if sqn.is_zero() {
        return Err(MathError::DivisionByZero);
    }
    let raw = direct_run(signal, true);
    Ok(scale_by_len(&raw, n))
}

/// The elements of x at even indices.
pub open spec fn evens<T: Scalar>(x: Seq<Complex<T>>) -> Seq<Complex<T>> {
    Seq::new((x.len() + 1) / 2, |i: int| x[2 * i])
}

/// The elements of x at odd indices.
pub open spec fn odds<T: Scalar>(x: Seq<Complex<T>>) -> Seq<Complex<T>> {
    Seq::new(x.len() / 2, |i: int| x[2 * i + 1])
}

/// x brought to length `target`: padded with zeros, or truncated.
pub open spec fn fit_to<T: Scalar>(x: Seq<Complex<T>>, target: int) -> Seq<Complex<T>> {
    Seq::new(
        target as nat,
        |t: int|
            if t < x.len() {
                x[t]
            } else {
                czero::<T>()
            },
    )
}

/// The radix-2 twiddle factor e^{∓i·2π·k/n}.
pub open spec fn spec_twiddle2<T: Scalar>(k: int, n: int, inverse: bool) -> Complex<T> {
    c_from_polar(
        T::spec_one(),
        spec_rotation::<T>(inverse).spec_mul(
            T::spec_from_usize(k as usize).spec_div(T::spec_from_usize(n as usize)),
        ),
    )
}

fn twiddle2<T: Scalar>(k: usize, n: usize, inverse: bool) -> (r: Complex<T>)
    ensures
        r == spec_twiddle2::<T>(k as int, n as int, inverse),
{
    let rot = if inverse {
        T::two_pi()
    } else {
        T::two_pi().neg()
    };
    let ratio = T::from_usize(k).div(T::from_usize(n));
    Complex::from_polar(T::one(), rot.mul(ratio))
}

/// The recursive decimation-in-time combination, for power-of-two lengths:
/// a sequence of length one is its own transform; otherwise the even- and
/// odd-indexed halves are transformed and recombined with the butterfly
/// result[k] = even[k] + w·odd[k], result[k + n/2] = even[k] - w·odd[k].
pub open spec fn r2_spec<T: Scalar>(x: Seq<Complex<T>>, inverse: bool) -> Seq<Complex<T>>
    decreases x.len(),
{
    if x.len() <= 1 {
        x
    } else {
        let e = r2_spec(evens(x), inverse);
        let o = r2_spec(odds(x), inverse);
        let half = x.len() as int / 2;
        Seq::new(
            x.len(),
            |k: int|
                if k < half {
                    cadd(e[k], cmul(spec_twiddle2::<T>(k, x.len() as int, inverse), o[k]))
                } else {
                    csub(
                        e[k - half],
                        cmul(spec_twiddle2::<T>(k - half, x.len() as int, inverse), o[k - half]),
                    )
                },
        )
    }
}

/// The smallest power of two at least n (and 1 for n below 2).
pub open spec fn next_pow2_spec(n: int) -> int
    decreases n,
{
    if n <= 1 {
        1
    } else {
        2 * next_pow2_spec((n + 1) / 2)
    }
}

/// The length a radix-2 transform of `len` input elements at requested
/// length `target` actually works at.
pub open spec fn padded_len(target: int, len: int) -> int {
    next_pow2_spec(
        if target >= len {
            target
        } else {
            len
        },
    )
}

proof fn lemma_next_pow2(n: int)
    ensures
        is_pow2_spec(next_pow2_spec(n) as nat),
        next_pow2_spec(n) >= n,
        next_pow2_spec(n) >= 1,
        n >= 2 ==> next_pow2_spec(n) <= 2 * (n - 1),
    decreases n,
{
    if n >= 2 {
        let h = (n + 1) / 2;
        vstd::arithmetic::div_mod::lemma_fundamental_div_mod(n + 1, 2);
        assert(1 <= h < n);
        lemma_next_pow2(h);
        let p = next_pow2_spec(h);
        assert(next_pow2_spec(n) == 2 * p);
        assert(is_pow2_spec((2 * p) as nat)) by {
            assert((2 * p) as nat % 2 == 0) by {
                vstd::arithmetic::div_mod::lemma_mod_multiples_basic(p, 2);
            }
            assert((2 * p) as nat / 2 == p as nat);
        }
    }
}

fn next_pow2(n: usize) -> (r: usize)
    requires
        n <= 0x4000_0000,
    ensures
        r as int == next_pow2_spec(n as int),
        r >= 1,
    decreases n,
{
    if n <= 1 {
        1
    } else {
        proof {
            lemma_next_pow2((n as int + 1) / 2);
            vstd::arithmetic::div_mod::lemma_fundamental_div_mod(n as int + 1, 2);
        }
        let h = (n - 1) / 2 + 1;
        proof {
            assert(h as int == (n as int + 1) / 2) by {
                vstd::arithmetic::div_mod::lemma_fundamental_div_mod(n as int - 1, 2);
                vstd::arithmetic::div_mod::lemma_fundamental_div_mod(n as int + 1, 2);
            }
        }
        let rec = next_pow2(h);
        proof {
            lemma_next_pow2(h as int);
            if h >= 2 {
                assert(rec as int <= 2 * (h as int - 1));
            } else {
                assert(rec as int == 1);
            }
            assert(2 * (rec as int) <= 0x8000_0000);
        }
        2 * rec
    }
}

/// The radix-2 recursion proper, on a power-of-two length.
fn r2_run<T: Scalar>(signal: &Vec<Complex<T>>, inverse: bool) -> (r: Vec<Complex<T>>)
    requires
        is_pow2_spec(signal@.len()),
    ensures
        r@ == r2_spec(signal@, inverse),
        r@.len() == signal@.len(),
    decreases signal@.len(),
{
    let n = signal.len();
    if n == 1 {
        let mut out: Vec<Complex<T>> = Vec::new();
        out.push(signal[0]);
        proof {
            assert(out@ =~= signal@);
        }
        return out;
    }
    proof {
        assert(n >= 2 && n % 2 == 0);
        assert(is_pow2_spec((n / 2) as nat));
    }
    let half = n / 2;
    let mut ev: Vec<Complex<T>> = Vec::new();
    let mut od: Vec<Complex<T>> = Vec::new();
    let mut i: usize = 0;
    while i < half
        invariant
            i <= half,
            half == n / 2,
            n % 2 == 0,
            n >= 2,
            n == signal@.len(),
            ev@.len() == i,
            od@.len() == i,
            forall|j: int| 0 <= j < i ==> ev@[j] == signal@[2 * j],
            forall|j: int| 0 <= j < i ==> od@[j] == signal@[2 * j + 1],
        decreases half - i,
    {
        ev.push(signal[2 * i]);
        od.push(signal[2 * i + 1]);
        i = i + 1;
    }
    proof {
        assert(ev@ =~= evens(signal@));
        assert(od@ =~= odds(signal@));
    }
    let e = r2_run(&ev, inverse);
    let o = r2_run(&od, inverse);
    let mut out: Vec<Complex<T>> = Vec::new();
    let mut k: usize = 0;
    while k < half
        invariant
            k <= half,
            half == n / 2,
            n % 2 == 0,
            n >= 2,
            n == signal@.len(),
            e@ == r2_spec(evens(signal@), inverse),
            o@ == r2_spec(odds(signal@), inverse),
            e@.len() == half,
            o@.len() == half,
            out@.len() == k,
            forall|kk: int|
                0 <= kk < k ==> out@[kk] == cadd(
                    e@[kk],
                    cmul(spec_twiddle2::<T>(kk, n as int, inverse), o@[kk]),
                ),
        decreases half - k,
    {
        let w = twiddle2::<T>(k, n, inverse);
        out.push(e[k].add(w.mul(o[k])));
        k = k + 1;
    }
    let mut k2: usize = 0;
    while k2 < half
        invariant
            k2 <= half,
            half == n / 2,
            n % 2 == 0,
            n >= 2,
            n == signal@.len(),
            e@ == r2_spec(evens(signal@), inverse),
            o@ == r2_spec(odds(signal@), inverse),
            e@.len() == half,
            o@.len() == half,
            out@.len() == half + k2,
            forall|kk: int|
                0 <= kk < half ==> out@[kk] == cadd(
                    e@[kk],
                    cmul(spec_twiddle2::<T>(kk, n as int, inverse), o@[kk]),
                ),
            forall|kk: int|
                0 <= kk < k2 ==> out@[half + kk] == csub(
                    e@[kk],
                    cmul(spec_twiddle2::<T>(kk, n as int, inverse), o@[kk]),
                ),
        decreases half - k2,
    {
        let w = twiddle2::<T>(k2, n, inverse);
        out.push(e[k2].sub(w.mul(o[k2])));
        k2 = k2 + 1;
    }
    proof {
        assert(out@ =~= r2_spec(signal@, inverse));
    }
    out
}

/// The power-of-two fast transform: the requested length is rounded up to
/// the next power of two at least the input length, the input is padded
/// with exact zeros to that length, and the decimation-in-time recursion is
/// applied. Fails with `InvalidLength` exactly when the input is empty or
/// the requested length zero; the (possibly longer) output length is the
/// documented, observable effect of the padding.
pub fn radix2_fft<T: Scalar>(signal: &Vec<Complex<T>>, target: usize) -> (r: Result<
    Vec<Complex<T>>,
    MathError,
>)
    requires
        target <= 0x4000_0000,
        signal@.len() <= 0x4000_0000,
    ensures
        (if signal@.len() == 0 || target == 0 {
            r == Err::<Vec<Complex<T>>, MathError>(MathError::InvalidLength)
        } else {
            match r {
                Ok(out) => {
                    &&& out@.len() as int == padded_len(target as int, signal@.len() as int)
                    &&& out@ == r2_spec(fit_to(signal@, out@.len() as int), false)
                },
                Err(_) => false,
            }
        }),
{
    if signal.len() == 0 || target == 0 {
        return Err(MathError::InvalidLength);
    }
    let work = pad_pow2(signal, target);
    Ok(r2_run(&work, false))
}

/// The inverse power-of-two transform, padding as the forward one does.
/// When `scale` is set — as the outermost call should — every output
/// element is divided by the padded length; nested recursive use leaves it
/// unset, so the division happens once. Fails with `InvalidLength` exactly
/// when the input is empty or the requested length zero, and with
/// `DivisionByZero` exactly when scaling is requested and the scalar image
/// of the padded length has a zero squared magnitude.
pub fn radix2_ifft<T: Scalar>(signal: &Vec<Complex<T>>, target: usize, scale: bool) -> (r: Result<
    Vec<Complex<T>>,
    MathError,
>)
    requires
        target <= 0x4000_0000,
        signal@.len() <= 0x4000_0000,
    ensures
        (if signal@.len() == 0 || target == 0 {
            r == Err::<Vec<Complex<T>>, MathError>(MathError::InvalidLength)
        } else if scale && sq_norm(
            length_scale::<T>(padded_len(target as int, signal@.len() as int)),
        ).spec_is_zero() {
            r == Err::<Vec<Complex<T>>, MathError>(MathError::DivisionByZero)
        } else {
            match r {
                Ok(out) => {
                    let raw = r2_spec(fit_to(signal@, out@.len() as int), true);
                    &&& out@.len() as int == padded_len(target as int, signal@.len() as int)
                    &&& (if scale {
                        forall|k: int|
                            0 <= k < out@.len() ==> out@[k] == cdiv(
                                raw[k],
                                length_scale::<T>(out@.len() as int),
                            )
                    } else {
                        out@ == raw
                    })
                },
                Err(_) => false,
            }
        }),
{
    if signal.len() == 0 || target == 0 {
        return Err(MathError::InvalidLength);
    }
    let work = pad_pow2(signal, target);
    let raw = r2_run(&work, true);
    if !scale {
        return Ok(raw);
    }
    let l = raw.len();
    let scale_c = Complex::<T>::new(T::from_usize(l), T::zero());
    let sqn = scale_c.real.mul(scale_c.real).add(scale_c.imag.mul(scale_c.imag));
    if sqn.is_zero() {
        return Err(MathError::DivisionByZero);
    }
    let mut out: Vec<Complex<T>> = Vec::new();
    let mut k: usize = 0;
    while k < l
        invariant
            k <= l,
            l == raw@.len(),
            scale_c == length_scale::<T>(l as int),
            !sq_norm(scale_c).spec_is_zero(),
            out@.len() == k,
            forall|kk: int|
                0 <= kk < k ==> out@[kk] == cdiv(raw@[kk], length_scale::<T>(l as int)),
        decreases l - k,
    {
        let scaled = match raw[k].div(scale_c) {
            Ok(v) => v,
            Err(_) => {
                proof {
                    assert(false);
                }
                return Err(MathError::DivisionByZero);
            },
        };
        out.push(scaled);
        k = k + 1;
    }
    Ok(out)
}

proof fn lemma_product_first(s: Seq<u32>)
    requires
        s.len() >= 1,
    ensures
        product(s) == s[0] as nat * product(s.drop_first()),
    decreases s.len(),
{
    if s.len() == 1 {
        assert(s.drop_last() =~= Seq::<u32>::empty());
        assert(s.drop_first() =~= Seq::<u32>::empty());
        assert(product(Seq::<u32>::empty()) == 1);
        assert(s.last() == s[0]);
        assert(product(s) == product(s.drop_last()) * s.last() as nat);
        assert(product(s.drop_last()) == 1);
        assert(product(s) == 1 * s[0] as nat);
        assert(product(s.drop_first()) == 1);
        assert(s[0] as nat * product(s.drop_first()) == s[0] as nat * 1);
    } else {
        let dl = s.drop_last();
        lemma_product_first(dl);
        assert(dl[0] == s[0]);
        assert(dl.drop_first() =~= s.drop_first().drop_last());
        assert(s.drop_first().last() == s.last());
        assert(product(s.drop_first()) == product(s.drop_first().drop_last()) * s.last() as nat);
        assert(product(s) == product(dl) * s.last() as nat);
        assert(product(dl) * s.last() as nat == s[0] as nat * (product(dl.drop_first())
            * s.last() as nat)) by (nonlinear_arith)
            requires
                product(dl) == s[0] as nat * product(dl.drop_first()),
        ;
    }
}

proof fn lemma_product_sub_first(s: Seq<u32>, fi: int)
    requires
        0 <= fi < s.len(),
    ensures
        product(s.subrange(fi, s.len() as int)) == s[fi] as nat * product(
            s.subrange(fi + 1, s.len() as int),
        ),
{
    let sub = s.subrange(fi, s.len() as int);
    lemma_product_first(sub);
    assert(sub[0] == s[fi]);
    assert(sub.drop_first() =~= s.subrange(fi + 1, s.len() as int));
}

proof fn lemma_product_reverse(s: Seq<u32>, t: Seq<u32>)
    requires
        t.len() == s.len(),
        forall|j: int| 0 <= j < t.len() ==> t[j] == s[s.len() - 1 - j],
    ensures
        product(t) == product(s),
    decreases s.len(),
{
    if s.len() >= 1 {
        lemma_product_first(s);
        assert(t[t.len() - 1] == s[0]);
        assert(t.last() == s[0]);
        assert(product(t) == product(t.drop_last()) * s[0] as nat);
        assert forall|j: int| 0 <= j < t.drop_last().len() implies t.drop_last()[j]
            == s.drop_first()[s.drop_first().len() - 1 - j] by {
            assert(t.drop_last()[j] == t[j]);
            assert(s.drop_first()[s.drop_first().len() - 1 - j] == s[s.len() - 1 - j]);
        }
        lemma_product_reverse(s.drop_first(), t.drop_last());
        assert(product(t.drop_last()) == product(s.drop_first()));
        assert(product(s) == s[0] as nat * product(s.drop_first()));
        assert(product(t) == product(s)) by (nonlinear_arith)
            requires
                product(t) == product(t.drop_last()) * s[0] as nat,
                product(t.drop_last()) == product(s.drop_first()),
                product(s) == s[0] as nat * product(s.drop_first()),
        ;
    } else {
        assert(t.len() == 0);
        assert(product(t) == 1);
        assert(product(s) == 1);
    }
}

/// The value at output index k of the mixed-radix recursion applied to the
/// strided slice of x that starts at `start` with stride `step` and spans
/// `size` elements, splitting on factors[fi..]: a single element is its own
/// transform, and otherwise the interleaved sub-transforms at the next
/// factor are combined with result[k] = Σ_i sub_i[k mod m]·e^{∓i2πki/size}.
pub open spec fn fft_point<T: Scalar>(
    x: Seq<Complex<T>>,
    size: int,
    factors: Seq<u32>,
    fi: int,
    start: int,
    step: int,
    k: int,
    inverse: bool,
) -> Complex<T>
    decreases factors.len() - fi, 1int, 0int,
{
    if size <= 1 || fi < 0 || fi >= factors.len() {
        x[start]
    } else {
        fft_combine(x, size, factors, fi, start, step, k, factors[fi] as int, inverse)
    }
}

/// The partial butterfly sum over the first i of the size/m interleaved
/// sub-spectra, accumulated left to right from zero.
pub open spec fn fft_combine<T: Scalar>(
    x: Seq<Complex<T>>,
    size: int,
    factors: Seq<u32>,
    fi: int,
    start: int,
    step: int,
    k: int,
    i: int,
    inverse: bool,
) -> Complex<T>
    decreases factors.len() - fi, 0int, i,
{
    if fi < 0 || fi >= factors.len() || i <= 0 {
        czero::<T>()
    } else {
        let p = factors[fi] as int;
        let m = size / p;
        cadd(
            fft_combine(x, size, factors, fi, start, step, k, i - 1, inverse),
            cmul(
                fft_point(x, m, factors, fi + 1, start + (i - 1) * step, step * p, k % m, inverse),
                spec_twiddle::<T>(k, i - 1, size, inverse),
            ),
        )
    }
}

#[verifier::rlimit(60)]
fn fft_core<T: Scalar>(
    signal: &Vec<Complex<T>>,
    size: usize,
    factors: &Vec<u32>,
    fi: usize,
    start: usize,
    step: usize,
    inverse: bool,
) -> (r: Vec<Complex<T>>)
    requires
        fi <= factors@.len(),
        product(factors@.subrange(fi as int, factors@.len() as int)) == size,
        forall|j: int| fi <= j < factors@.len() ==> #[trigger] factors@[j] >= 2,
        size >= 1,
        step >= 1,
        start + (size - 1) * step < signal@.len(),
        signal@.len() <= 0x4000_0000,
    ensures
        r@.len() == size,
        forall|k: int|
            0 <= k < size ==> r@[k] == fft_point(
                signal@,
                size as int,
                factors@,
                fi as int,
                start as int,
                step as int,
                k,
                inverse,
            ),
    decreases factors@.len() - fi,
{
    if size == 1 || fi == factors.len() {
        let mut out: Vec<Complex<T>> = Vec::new();
        out.push(signal[start]);
        return out;
    }
    let p32 = factors[fi];
    let p = p32 as usize;
    proof {
        lemma_product_sub_first(factors@, fi as int);
        lemma_product_bounds(factors@.subrange(fi as int + 1, factors@.len() as int));
        assert(size as int == p as int * product(
            factors@.subrange(fi as int + 1, factors@.len() as int),
        ));
        vstd::arithmetic::div_mod::lemma_div_multiples_vanish(
            product(factors@.subrange(fi as int + 1, factors@.len() as int)) as int,
            p as int,
        );
    }
    let m = size / p;
    proof {
        assert(m as nat == product(factors@.subrange(fi as int + 1, factors@.len() as int)));
        assert(m >= 1);
        assert(p as int * m as int == size as int);
        // the strides and offsets used below stay inside the signal
        assert(step * size <= 2 * signal@.len()) by (nonlinear_arith)
            requires
                start + (size - 1) * step < signal@.len(),
                size >= 2,
                step >= 1,
                start >= 0,
        ;
    }
    let mut chunks: Vec<Vec<Complex<T>>> = Vec::new();
    let mut i: usize = 0;
    while i < p
        invariant
            i <= p,
            2 <= p,
            p == factors@[fi as int] as usize,
            fi < factors@.len(),
            factors@.len() <= usize::MAX,
            1 <= m,
            p as int * m as int == size as int,
            m as nat == product(factors@.subrange(fi as int + 1, factors@.len() as int)),
            forall|j: int| fi <= j < factors@.len() ==> #[trigger] factors@[j] >= 2,
            size >= 2,
            step >= 1,
            start + (size - 1) * step < signal@.len(),
            signal@.len() <= 0x4000_0000,
            chunks@.len() == i,
            forall|ii: int| 0 <= ii < i ==> #[trigger] chunks@[ii]@.len() == m,
            forall|ii: int, kk: int|
                0 <= ii < i && 0 <= kk < m ==> #[trigger] chunks@[ii]@[kk] == fft_point(
                    signal@,
                    m as int,
                    factors@,
                    fi as int + 1,
                    start as int + ii * step as int,
                    step as int * p as int,
                    kk,
                    inverse,
                ),
        decreases p - i,
    {
        proof {
            assert(i as int * step as int + (m as int - 1) * (step as int * p as int) <= (
            size as int - 1) * step as int) by (nonlinear_arith)
                requires
                    0 <= i as int <= p as int - 1,
                    1 <= m,
                    1 <= step,
                    p as int * m as int == size as int,
            ;
            assert((start + i as int * step as int) < signal@.len());
            assert(step as int * p as int <= step as int * size as int) by (nonlinear_arith)
                requires
                    1 <= step,
                    2 <= p,
                    1 <= m,
                    p as int * m as int == size as int,
            ;
            assert(step * size <= 2 * signal@.len()) by (nonlinear_arith)
                requires
                    start + (size - 1) * step < signal@.len(),
                    size >= 2,
                    step >= 1,
                    start >= 0,
            ;
            assert(step as int * p as int >= 1) by (nonlinear_arith)
                requires
                    step >= 1,
                    p >= 1,
            ;
            assert(fi as int + 1 <= factors@.len());
        }
        let sub = fft_core(signal, m, factors, fi + 1, start + i * step, step * p, inverse);
        chunks.push(sub);
        i = i + 1;
    }
    let mut out: Vec<Complex<T>> = Vec::new();
    let mut k: usize = 0;
    while k < size
        invariant
            k <= size,
            2 <= p,
            p == factors@[fi as int] as usize,
            fi < factors@.len(),
            1 <= m,
            p as int * m as int == size as int,
            m as int == size as int / p as int,
            size >= 2,
            step >= 1,
            chunks@.len() == p,
            forall|ii: int| 0 <= ii < p ==> #[trigger] chunks@[ii]@.len() == m,
            forall|ii: int, kk: int|
                0 <= ii < p && 0 <= kk < m ==> #[trigger] chunks@[ii]@[kk] == fft_point(
                    signal@,
                    m as int,
                    factors@,
                    fi as int + 1,
                    start as int + ii * step as int,
                    step as int * p as int,
                    kk,
                    inverse,
                ),
            out@.len() == k,
            forall|kk: int|
                0 <= kk < k ==> #[trigger] out@[kk] == fft_point(
                    signal@,
                    size as int,
                    factors@,
                    fi as int,
                    start as int,
                    step as int,
                    kk,
                    inverse,
                ),
        decreases size - k,
    {
        let idx = k % m;
        let mut acc = Complex::<T>::zero();
        let mut i2: usize = 0;
        while i2 < p
            invariant
                i2 <= p,
                2 <= p,
                p == factors@[fi as int] as usize,
                fi < factors@.len(),
                1 <= m,
                p as int * m as int == size as int,
                m as int == size as int / p as int,
                size >= 2,
                step >= 1,
                k < size,
                idx == k as int % m as int,
                chunks@.len() == p,
                forall|ii: int| 0 <= ii < p ==> #[trigger] chunks@[ii]@.len() == m,
                forall|ii: int, kk: int|
                    0 <= ii < p && 0 <= kk < m ==> #[trigger] chunks@[ii]@[kk] == fft_point(
                        signal@,
                        m as int,
                        factors@,
                        fi as int + 1,
                        start as int + ii * step as int,
                        step as int * p as int,
                        kk,
                        inverse,
                    ),
                acc == fft_combine(
                    signal@,
                    size as int,
                    factors@,
                    fi as int,
                    start as int,
                    step as int,
                    k as int,
                    i2 as int,
                    inverse,
                ),
            decreases p - i2,
        {
            let w = twiddle::<T>(k, i2, size, inverse);
            acc = acc.add(chunks[i2][idx].mul(w));
            i2 = i2 + 1;
        }
        out.push(acc);
        k = k + 1;
    }
    out
}

/// The transform length: the requested one, or the input length.
pub open spec fn spec_target(len: int, size: Option<usize>) -> int {
    match size {
        Some(s) => s as int,
        None => len,
    }
}

/// v itself, or v divided by the complex image of n when the outermost
/// inverse call scales its output.
pub open spec fn scaled_point<T: Scalar>(v: Complex<T>, n: int, scaled: bool) -> Complex<T> {
    if scaled {
        cdiv(v, length_scale::<T>(n))
    } else {
        v
    }
}

/// What the mixed-radix planner computes at length `target`: the radix-2
/// recursion when the length is a power of two, the direct transform when
/// it is prime, and otherwise the mixed-radix recursion over the descending
/// prime factorization of the length (which the listed properties determine
/// uniquely).
pub open spec fn mixed_ok<T: Scalar>(
    x: Seq<Complex<T>>,
    target: int,
    out: Seq<Complex<T>>,
    inverse: bool,
    scaled: bool,
) -> bool {
    let work = fit_to(x, target);
    &&& out.len() == target
    &&& (if is_pow2_spec(target as nat) {
        forall|k: int|
            0 <= k < target ==> out[k] == scaled_point(
                r2_spec(work, inverse)[k],
                target,
                scaled,
            )
    } else if is_prime_spec(target as nat) {
        forall|k: int|
            0 <= k < target ==> out[k] == scaled_point(dft_point(work, k, inverse), target, scaled)
    } else {
        exists|fs: Seq<u32>|
            {
                &&& product(fs) == target
                &&& fs.len() >= 2
                &&& (forall|j: int| 0 <= j < fs.len() ==> is_prime_spec(#[trigger] fs[j] as nat))
                &&& (forall|j: int, l: int| 0 <= j <= l < fs.len() ==> fs[j] >= fs[l])
                &&& (forall|k: int|
                    0 <= k < target ==> out[k] == scaled_point(
                        fft_point(work, target, fs, 0, 0, 1, k, inverse),
                        target,
                        scaled,
                    ))
            }
    })
}

proof fn lemma_single_factor_prime(s: Seq<u32>, n: nat)
    requires
        product(s) == n,
        n >= 2,
        forall|j: int| 0 <= j < s.len() ==> is_prime_spec(#[trigger] s[j] as nat),
    ensures
        (s.len() == 1) <==> is_prime_spec(n),
{
    if s.len() == 0 {
        assert(product(s) == 1);
    } else if s.len() == 1 {
        assert(s.drop_last() =~= Seq::<u32>::empty());
        assert(product(s) == product(s.drop_last()) * s.last() as nat);
        assert(product(Seq::<u32>::empty()) == 1);
        assert(s.last() == s[0]);
        assert(product(s) == product(s.drop_last()) * s.last() as nat);
        assert(product(s.drop_last()) == 1);
        assert(product(s) == 1 * s.last() as nat);
        assert(n == s[0] as nat);
    } else {
        let a = product(s.drop_last());
        let b = s.last() as nat;
        lemma_product_bounds(s.drop_last());
        assert(a >= 2);
        assert(b >= 2);
        assert(n == a * b);
        vstd::arithmetic::div_mod::lemma_mod_multiples_basic(a as int, b as int);
        assert(n % b == 0);
        assert(b < n) by (nonlinear_arith)
            requires
                n == a * b,
                a >= 2,
                b >= 2,
        ;
        assert(!is_prime_spec(n));
    }
}

/// The input brought to a working copy of exactly the target length.
fn fit_vec<T: Scalar>(signal: &Vec<Complex<T>>, target: usize) -> (r: Vec<Complex<T>>)
    ensures
        r@.len() == target,
        r@ == fit_to(signal@, target as int),
{
    let len = signal.len();
    let mut work: Vec<Complex<T>> = Vec::new();
    let mut t: usize = 0;
    while t < target
        invariant
            t <= target,
            len == signal@.len(),
            work@.len() == t,
            forall|j: int|
                0 <= j < t ==> work@[j] == (if j < len {
                    signal@[j]
                } else {
                    czero::<T>()
                }),
        decreases target - t,
    {
        if t < len {
            work.push(signal[t]);
        } else {
            work.push(Complex::zero());
        }
        t = t + 1;
    }
    proof {
        assert(work@ =~= fit_to(signal@, target as int));
    }
    work
}

/// The common mixed-radix driver behind `fft` and `ifft`.
#[verifier::rlimit(100)]
fn mixed_run<T: Scalar>(
    signal: &Vec<Complex<T>>,
    size: Option<usize>,
    inverse: bool,
    scale: bool,
) -> (r: Result<Vec<Complex<T>>, MathError>)
    requires
        signal@.len() <= 0x4000_0000,
        (match size {
            Some(s) => s <= 0x4000_0000,
            None => true,
        }),
    ensures
        ({
            let target = spec_target(signal@.len() as int, size);
            if signal@.len() == 0 || target == 0 {
                r == Err::<Vec<Complex<T>>, MathError>(MathError::InvalidLength)
            } else if scale && sq_norm(length_scale::<T>(target)).spec_is_zero() {
                r == Err::<Vec<Complex<T>>, MathError>(MathError::DivisionByZero)
            } else {
                match r {
                    Ok(out) => mixed_ok(signal@, target, out@, inverse, scale),
                    Err(_) => false,
                }
            }
        }),
{
    let len = signal.len();
    let target = match size {
        Some(s) => s,
        None => len,
    };
    if len == 0 || target == 0 {
        return Err(MathError::InvalidLength);
    }
    if scale {
        let scale_c = Complex::<T>::new(T::from_usize(target), T::zero());
        let sqn = scale_c.real.mul(scale_c.real).add(scale_c.imag.mul(scale_c.imag));
        if sqn.is_zero() {
            return Err(MathError::DivisionByZero);
        }
    }
    let work = fit_vec(signal, target);
    let raw: Vec<Complex<T>>;
    if is_pow2(target as u32) {
        raw = r2_run(&work, inverse);
    } else {
        let factors = factorize(target as u32);
        proof {
            lemma_single_factor_prime(factors@, target as nat);
        }
        if factors.len() == 1 {
            raw = direct_run(&work, inverse);
        } else {
            // descending factor order: peel the largest prime factor first
            let fcount = factors.len();
            let mut desc: Vec<u32> = Vec::new();
            let mut j: usize = 0;
            while j < fcount
                invariant
                    j <= fcount,
                    fcount == factors@.len(),
                    desc@.len() == j,
                    forall|jj: int|
                        0 <= jj < j ==> desc@[jj] == factors@[fcount as int - 1 - jj],
                decreases fcount - j,
            {
                desc.push(factors[fcount - 1 - j]);
                j = j + 1;
            }
            proof {
                lemma_product_reverse(factors@, desc@);
                assert(desc@.subrange(0, 0) =~= Seq::<u32>::empty());
                assert(product(Seq::<u32>::empty()) == 1);
                assert(desc@.subrange(0, fcount as int) =~= desc@);
                assert forall|jj: int| 0 <= jj < fcount implies desc@[jj] >= 2 by {
                    assert(is_prime_spec(factors@[fcount as int - 1 - jj] as nat));
                }
            }
            // the planner's consistency guard: the factors must multiply
            // back to the target length
            let mut prod: u64 = 1;
            let mut j2: usize = 0;
            while j2 < fcount
                invariant
                    j2 <= fcount,
                    fcount == desc@.len(),
                    target <= 0x4000_0000,
                    prod as nat == product(desc@.subrange(0, j2 as int)),
                    prod as nat * product(desc@.subrange(j2 as int, fcount as int))
                        == target as nat,
                    forall|jj: int| 0 <= jj < fcount ==> desc@[jj] >= 2,
                decreases fcount - j2,
            {
                proof {
                    lemma_product_sub_first(desc@, j2 as int);
                    lemma_product_bounds(desc@.subrange(j2 as int + 1, fcount as int));
                    assert(desc@.subrange(0, j2 as int + 1).drop_last() =~= desc@.subrange(
                        0,
                        j2 as int,
                    ));
                    assert(product(desc@.subrange(0, j2 as int + 1)) == product(
                        desc@.subrange(0, j2 as int),
                    ) * desc@[j2 as int] as nat);
                    assert(prod as nat * desc@[j2 as int] as nat <= target as nat)
                        by (nonlinear_arith)
                        requires
                            prod as nat * (desc@[j2 as int] as nat * product(
                                desc@.subrange(j2 as int + 1, fcount as int),
                            )) == target as nat,
                            product(desc@.subrange(j2 as int + 1, fcount as int)) >= 1,
                            prod >= 0,
                            desc@[j2 as int] >= 2,
                    ;
                    assert((prod as nat * desc@[j2 as int] as nat) * product(
                        desc@.subrange(j2 as int + 1, fcount as int),
                    ) == target as nat) by (nonlinear_arith)
                        requires
                            prod as nat * (desc@[j2 as int] as nat * product(
                                desc@.subrange(j2 as int + 1, fcount as int),
                            )) == target as nat,
                    ;
                }
                prod = prod * (desc[j2] as u64);
                j2 = j2 + 1;
            }
            proof {
                assert(desc@.subrange(0, fcount as int) =~= desc@);
                lemma_product_bounds(desc@);
            }
            if prod != target as u64 {
                return Err(MathError::IncompleteFactorization);
            }
            raw = fft_core(&work, target, &desc, 0, 0, 1, inverse);
            proof {
                assert(product(desc@) == target as nat);
                assert(desc@.len() >= 2);
                assert(forall|jj: int|
                    0 <= jj < desc@.len() ==> is_prime_spec(#[trigger] desc@[jj] as nat));
                assert(forall|jj: int, ll: int|
                    0 <= jj <= ll < desc@.len() ==> desc@[jj] >= desc@[ll]);
            }
        }
    }
    if scale {
        let out = scale_by_len(&raw, target);
        return Ok(out);
    }
    Ok(raw)
}

/// The generalized fast transform for arbitrary lengths: a power-of-two
/// length is delegated to the radix-2 recursion, a prime length to the
/// direct transform, and a composite length is split recursively on its
/// prime factors, largest first. Fails with `InvalidLength` exactly when
/// the input is empty or the target length zero.
pub fn fft<T: Scalar>(signal: &Vec<Complex<T>>, size: Option<usize>) -> (r: Result<
    Vec<Complex<T>>,
    MathError,
>)
    requires
        signal@.len() <= 0x4000_0000,
        (match size {
            Some(s) => s <= 0x4000_0000,
            None => true,
        }),
    ensures
        ({
            let target = spec_target(signal@.len() as int, size);
            if signal@.len() == 0 || target == 0 {
                r == Err::<Vec<Complex<T>>, MathError>(MathError::InvalidLength)
            } else {
                match r {
                    Ok(out) => mixed_ok(signal@, target, out@, false, false),
                    Err(_) => false,
                }
            }
        }),
{
    mixed_run(signal, size, false, false)
}

/// The inverse generalized fast transform, structured as the forward one
/// with the opposite twiddle sign; the outermost call divides every output
/// element by the target length. Fails with `InvalidLength` exactly when
/// the input is empty or the target length zero, and with `DivisionByZero`
/// exactly when the scalar image of the target length has a zero squared
/// magnitude.
pub fn ifft<T: Scalar>(signal: &Vec<Complex<T>>, size: Option<usize>) -> (r: Result<
    Vec<Complex<T>>,
    MathError,
>)
    requires
        signal@.len() <= 0x4000_0000,
        (match size {
            Some(s) => s <= 0x4000_0000,
            None => true,
        }),
    ensures
        ({
            let target = spec_target(signal@.len() as int, size);
            if signal@.len() == 0 || target == 0 {
                r == Err::<Vec<Complex<T>>, MathError>(MathError::InvalidLength)
            } else if sq_norm(length_scale::<T>(target)).spec_is_zero() {
                r == Err::<Vec<Complex<T>>, MathError>(MathError::DivisionByZero)
            } else {
                match r {
                    Ok(out) => mixed_ok(signal@, target, out@, true, true),
                    Err(_) => false,
                }
            }
        }),
{
    mixed_run(signal, size, true, true)
}

/// Row i of a two-dimensional input, or the empty row beyond its end.
pub open spec fn vrow<T: Scalar>(x: Seq<Vec<Complex<T>>>, i: int) -> Seq<Complex<T>> {
    if 0 <= i < x.len() {
        x[i]@
    } else {
        Seq::<Complex<T>>::empty()
    }
}

/// Column j of a two-dimensional input, zero-filled where a row is too
/// short, over the input's own row count.
pub open spec fn vcol_in<T: Scalar>(x: Seq<Vec<Complex<T>>>, j: int) -> Seq<Complex<T>> {
    Seq::new(
        x.len(),
        |i: int|
            if 0 <= j < x[i]@.len() {
                x[i]@[j]
            } else {
                czero::<T>()
            },
    )
}

/// Column j of a two-dimensional output with `rows` rows.
pub open spec fn vcol<T: Scalar>(x: Seq<Vec<Complex<T>>>, rows: int, j: int) -> Seq<Complex<T>> {
    Seq::new(rows as nat, |i: int| x[i]@[j])
}

/// Column j of a ghost two-dimensional array with `rows` rows.
pub open spec fn seqcol<T: Scalar>(x: Seq<Seq<Complex<T>>>, rows: int, j: int) -> Seq<
    Complex<T>,
> {
    Seq::new(rows as nat, |i: int| x[i][j])
}

/// Every row has the length of the first.
pub open spec fn vrect<T: Scalar>(x: Seq<Vec<Complex<T>>>) -> bool {
    forall|i: int| 0 <= i < x.len() ==> #[trigger] x[i]@.len() == x[0]@.len()
}

/// The row-then-column relation of the forward two-dimensional transform:
/// some intermediate array holds the transform of every (zero-extended)
/// input row, and every output column is the transform of the matching
/// intermediate column.
pub open spec fn fft2_ok<T: Scalar>(
    x: Seq<Vec<Complex<T>>>,
    rows_t: int,
    cols_t: int,
    out: Seq<Vec<Complex<T>>>,
    inverse: bool,
    scaled: bool,
) -> bool {
    exists|inter: Seq<Seq<Complex<T>>>|
        {
            &&& inter.len() == rows_t
            &&& (forall|i: int|
                0 <= i < rows_t ==> mixed_ok(
                    vrow(x, i),
                    cols_t,
                    #[trigger] inter[i],
                    inverse,
                    scaled,
                ))
            &&& out.len() == rows_t
            &&& (forall|i: int| 0 <= i < rows_t ==> #[trigger] out[i]@.len() == cols_t)
            &&& (forall|j: int|
                0 <= j < cols_t ==> mixed_ok(
                    seqcol(inter, rows_t, j),
                    rows_t,
                    #[trigger] vcol(out, rows_t, j),
                    inverse,
                    scaled,
                ))
        }
}

/// The column-then-row relation of the inverse two-dimensional transform.
pub open spec fn ifft2_ok<T: Scalar>(
    x: Seq<Vec<Complex<T>>>,
    rows_t: int,
    cols_t: int,
    out: Seq<Vec<Complex<T>>>,
) -> bool {
    exists|inter: Seq<Seq<Complex<T>>>|
        {
            &&& inter.len() == rows_t
            &&& (forall|j: int|
                0 <= j < cols_t ==> mixed_ok(
                    vcol_in(x, j),
                    rows_t,
                    #[trigger] seqcol(inter, rows_t, j),
                    true,
                    true,
                ))
            &&& (forall|i: int| 0 <= i < rows_t ==> #[trigger] inter[i].len() == cols_t)
            &&& out.len() == rows_t
            &&& (forall|i: int|
                0 <= i < rows_t ==> mixed_ok(inter[i], cols_t, #[trigger] out[i]@, true, true))
        }
}

/// The forward separable two-dimensional transform: every (zero-extended)
/// input row is transformed first, then every column of the intermediate
/// array — a fixed order chosen for reproducibility. Fails with
/// `InvalidLength` exactly when the input or a target dimension is empty,
/// and with `DimensionMismatch` exactly when the rows do not all have the
/// same length.
#[verifier::rlimit(100)]
pub fn fft2<T: Scalar>(signal: &Vec<Vec<Complex<T>>>, size: Option<(usize, usize)>) -> (r: Result<
    Vec<Vec<Complex<T>>>,
    MathError,
>)
    requires
        signal@.len() <= 0x4000_0000,
        forall|i: int| 0 <= i < signal@.len() ==> #[trigger] signal@[i]@.len() <= 0x4000_0000,
        (match size {
            Some(rc) => rc.0 <= 0x4000_0000 && rc.1 <= 0x4000_0000,
            None => true,
        }),
    ensures
        ({
            let rows_t = (match size {
                Some(rc) => rc.0 as int,
                None => signal@.len() as int,
            });
            let cols_t = (match size {
                Some(rc) => rc.1 as int,
                None => vrow(signal@, 0).len() as int,
            });
            if signal@.len() == 0 {
                r == Err::<Vec<Vec<Complex<T>>>, MathError>(MathError::InvalidLength)
            } else if !vrect(signal@) {
                r == Err::<Vec<Vec<Complex<T>>>, MathError>(MathError::DimensionMismatch)
            } else if rows_t == 0 || cols_t == 0 {
                r == Err::<Vec<Vec<Complex<T>>>, MathError>(MathError::InvalidLength)
            } else {
                match r {
                    Ok(out) => fft2_ok(signal@, rows_t, cols_t, out@, false, false),
                    Err(_) => false,
                }
            }
        }),
{
    let nrows = signal.len();
    if nrows == 0 {
        return Err(MathError::InvalidLength);
    }
    let ncols = signal[0].len();
    let mut ri: usize = 1;
    while ri < nrows
        invariant
            1 <= ri <= nrows,
            nrows == signal@.len(),
            ncols == signal@[0]@.len(),
            forall|i: int| 0 <= i < ri ==> #[trigger] signal@[i]@.len() == ncols,
        decreases nrows - ri,
    {
        if signal[ri].len() != ncols {
            proof {
                assert(!vrect(signal@));
            }
            return Err(MathError::DimensionMismatch);
        }
        ri = ri + 1;
    }
    proof {
        assert(vrect(signal@));
    }
    let (rows_t, cols_t) = match size {
        Some(rc) => rc,
        None => (nrows, ncols),
    };
    if rows_t == 0 || cols_t == 0 {
        return Err(MathError::InvalidLength);
    }
    // first pass: transform every row at the column target
    let mut inter: Vec<Vec<Complex<T>>> = Vec::new();
    let mut i: usize = 0;
    while i < rows_t
        invariant
            i <= rows_t,
            1 <= rows_t <= 0x4000_0000,
            1 <= cols_t <= 0x4000_0000,
            nrows == signal@.len(),
            forall|ii: int| 0 <= ii < signal@.len() ==> #[trigger] signal@[ii]@.len()
                <= 0x4000_0000,
            inter@.len() == i,
            forall|ii: int|
                0 <= ii < i ==> mixed_ok(
                    vrow(signal@, ii),
                    cols_t as int,
                    #[trigger] inter@[ii]@,
                    false,
                    false,
                ),
        decreases rows_t - i,
    {
        let mut rowv: Vec<Complex<T>> = Vec::new();
        let mut t: usize = 0;
        while t < cols_t
            invariant
                t <= cols_t,
                i < rows_t,
                nrows == signal@.len(),
                rowv@.len() == t,
                forall|tt: int|
                    0 <= tt < t ==> rowv@[tt] == fit_to(
                        vrow(signal@, i as int),
                        cols_t as int,
                    )[tt],
            decreases cols_t - t,
        {
            if i < nrows {
                let rowref = &signal[i];
                if t < rowref.len() {
                    rowv.push(rowref[t]);
                } else {
                    rowv.push(Complex::zero());
                }
            } else {
                rowv.push(Complex::zero());
            }
            t = t + 1;
        }
        proof {
            assert(rowv@ =~= fit_to(vrow(signal@, i as int), cols_t as int));
        }
        let fr = match fft(&rowv, Some(cols_t)) {
            Ok(v) => v,
            Err(_) => {
                proof {
                    assert(false);
                }
                return Err(MathError::InvalidLength);
            },
        };
        proof {
            assert(fit_to(rowv@, cols_t as int) =~= rowv@);
            assert(mixed_ok(vrow(signal@, i as int), cols_t as int, fr@, false, false));
        }
        inter.push(fr);
        i = i + 1;
    }
    let ghost ginter: Seq<Seq<Complex<T>>> = Seq::new(rows_t as nat, |ii: int| inter@[ii]@);
    proof {
        assert(forall|ii: int|
            0 <= ii < rows_t ==> mixed_ok(
                vrow(signal@, ii),
                cols_t as int,
                #[trigger] ginter[ii],
                false,
                false,
            ));
        assert(forall|ii: int| 0 <= ii < rows_t ==> #[trigger] inter@[ii]@.len() == cols_t);
    }
    // second pass: transform every column of the intermediate array
    let mut colsout: Vec<Vec<Complex<T>>> = Vec::new();
    let mut j: usize = 0;
    while j < cols_t
        invariant
            j <= cols_t,
            1 <= rows_t <= 0x4000_0000,
            1 <= cols_t <= 0x4000_0000,
            inter@.len() == rows_t,
            ginter == Seq::new(rows_t as nat, |ii: int| inter@[ii]@),
            forall|ii: int| 0 <= ii < rows_t ==> #[trigger] inter@[ii]@.len() == cols_t,
            forall|ii: int|
                0 <= ii < rows_t ==> mixed_ok(
                    vrow(signal@, ii),
                    cols_t as int,
                    #[trigger] ginter[ii],
                    false,
                    false,
                ),
            colsout@.len() == j,
            forall|jj: int|
                0 <= jj < j ==> mixed_ok(
                    seqcol(ginter, rows_t as int, jj),
                    rows_t as int,
                    #[trigger] colsout@[jj]@,
                    false,
                    false,
                ),
        decreases cols_t - j,
    {
        let mut colv: Vec<Complex<T>> = Vec::new();
        let mut ii: usize = 0;
        while ii < rows_t
            invariant
                ii <= rows_t,
                j < cols_t,
                inter@.len() == rows_t,
                forall|aa: int| 0 <= aa < rows_t ==> #[trigger] inter@[aa]@.len() == cols_t,
                colv@.len() == ii,
                forall|aa: int| 0 <= aa < ii ==> colv@[aa] == inter@[aa]@[j as int],
            decreases rows_t - ii,
        {
            let rowref = &inter[ii];
            colv.push(rowref[j]);
            ii = ii + 1;
        }
        proof {
            assert(colv@ =~= seqcol(ginter, rows_t as int, j as int));
            assert(fit_to(colv@, rows_t as int) =~= colv@);
        }
        let fc = match fft(&colv, Some(rows_t)) {
            Ok(v) => v,
            Err(_) => {
                proof {
                    assert(false);
                }
                return Err(MathError::InvalidLength);
            },
        };
        proof {
            assert(mixed_ok(seqcol(ginter, rows_t as int, j as int), rows_t as int, fc@, false, false));
        }
        colsout.push(fc);
        j = j + 1;
    }
    proof {
        assert(forall|jj: int| 0 <= jj < cols_t ==> #[trigger] colsout@[jj]@.len() == rows_t);
    }
    // lay the transformed columns back out in row order
    let mut out: Vec<Vec<Complex<T>>> = Vec::new();
    let mut oi: usize = 0;
    while oi < rows_t
        invariant
            oi <= rows_t,
            1 <= rows_t,
            1 <= cols_t,
            colsout@.len() == cols_t,
            forall|jj: int| 0 <= jj < cols_t ==> #[trigger] colsout@[jj]@.len() == rows_t,
            ginter.len() == rows_t,
            forall|ii: int|
                0 <= ii < rows_t ==> mixed_ok(
                    vrow(signal@, ii),
                    cols_t as int,
                    #[trigger] ginter[ii],
                    false,
                    false,
                ),
            forall|jj: int|
                0 <= jj < cols_t ==> mixed_ok(
                    seqcol(ginter, rows_t as int, jj),
                    rows_t as int,
                    #[trigger] colsout@[jj]@,
                    false,
                    false,
                ),
            out@.len() == oi,
            forall|aa: int| 0 <= aa < oi ==> #[trigger] out@[aa]@.len() == cols_t,
            forall|aa: int, jj: int|
                0 <= aa < oi && 0 <= jj < cols_t ==> #[trigger] out@[aa]@[jj] == colsout@[jj]@[aa],
        decreases rows_t - oi,
    {
        let mut rowv2: Vec<Complex<T>> = Vec::new();
        let mut oj: usize = 0;
        while oj < cols_t
            invariant
                oj <= cols_t,
                oi < rows_t,
                colsout@.len() == cols_t,
                forall|jj: int| 0 <= jj < cols_t ==> #[trigger] colsout@[jj]@.len() == rows_t,
                rowv2@.len() == oj,
                forall|jj: int| 0 <= jj < oj ==> rowv2@[jj] == colsout@[jj]@[oi as int],
            decreases cols_t - oj,
        {
            let colref = &colsout[oj];
            rowv2.push(colref[oi]);
            oj = oj + 1;
        }
        out.push(rowv2);
        oi = oi + 1;
    }
    proof {
        assert forall|jj: int| 0 <= jj < cols_t implies mixed_ok(
            seqcol(ginter, rows_t as int, jj),
            rows_t as int,
            #[trigger] vcol(out@, rows_t as int, jj),
            false,
            false,
        ) by {
            assert(vcol(out@, rows_t as int, jj) =~= colsout@[jj]@);
        }
        assert(fft2_ok(signal@, rows_t as int, cols_t as int, out@, false, false));
    }
    Ok(out)
}

/// The inverse separable two-dimensional transform: every (zero-extended)
/// input column is inverse-transformed first, then every row of the
/// intermediate array — the mirror of the forward order. Fails with
/// `InvalidLength` and `DimensionMismatch` as the forward transform does,
/// and with `DivisionByZero` exactly when the scalar image of either
/// target dimension has a zero squared magnitude.
#[verifier::rlimit(100)]
pub fn ifft2<T: Scalar>(signal: &Vec<Vec<Complex<T>>>, size: Option<(usize, usize)>) -> (r: Result<
    Vec<Vec<Complex<T>>>,
    MathError,
>)
    requires
        signal@.len() <= 0x4000_0000,
        forall|i: int| 0 <= i < signal@.len() ==> #[trigger] signal@[i]@.len() <= 0x4000_0000,
        (match size {
            Some(rc) => rc.0 <= 0x4000_0000 && rc.1 <= 0x4000_0000,
            None => true,
        }),
    ensures
        ({
            let rows_t = (match size {
                Some(rc) => rc.0 as int,
                None => signal@.len() as int,
            });
            let cols_t = (match size {
                Some(rc) => rc.1 as int,
                None => vrow(signal@, 0).len() as int,
            });
            if signal@.len() == 0 {
                r == Err::<Vec<Vec<Complex<T>>>, MathError>(MathError::InvalidLength)
            } else if !vrect(signal@) {
                r == Err::<Vec<Vec<Complex<T>>>, MathError>(MathError::DimensionMismatch)
            } else if rows_t == 0 || cols_t == 0 {
                r == Err::<Vec<Vec<Complex<T>>>, MathError>(MathError::InvalidLength)
            } else if sq_norm(length_scale::<T>(rows_t)).spec_is_zero() || sq_norm(
                length_scale::<T>(cols_t),
            ).spec_is_zero() {
                r == Err::<Vec<Vec<Complex<T>>>, MathError>(MathError::DivisionByZero)
            } else {
                match r {
                    Ok(out) => ifft2_ok(signal@, rows_t, cols_t, out@),
                    Err(_) => false,
                }
            }
        }),
{
    let nrows = signal.len();
    if nrows == 0 {
        return Err(MathError::InvalidLength);
    }
    let ncols = signal[0].len();
    let mut ri: usize = 1;
    while ri < nrows
        invariant
            1 <= ri <= nrows,
            nrows == signal@.len(),
            ncols == signal@[0]@.len(),
            forall|i: int| 0 <= i < ri ==> #[trigger] signal@[i]@.len() == ncols,
        decreases nrows - ri,
    {
        if signal[ri].len() != ncols {
            proof {
                assert(!vrect(signal@));
            }
            return Err(MathError::DimensionMismatch);
        }
        ri = ri + 1;
    }
    proof {
        assert(vrect(signal@));
    }
    let (rows_t, cols_t) = match size {
        Some(rc) => rc,
        None => (nrows, ncols),
    };
    if rows_t == 0 || cols_t == 0 {
        return Err(MathError::InvalidLength);
    }
    let rscale = Complex::<T>::new(T::from_usize(rows_t), T::zero());
    let rsqn = rscale.real.mul(rscale.real).add(rscale.imag.mul(rscale.imag));
    if rsqn.is_zero() {
        return Err(MathError::DivisionByZero);
    }
    let cscale = Complex::<T>::new(T::from_usize(cols_t), T::zero());
    let csqn = cscale.real.mul(cscale.real).add(cscale.imag.mul(cscale.imag));
    if csqn.is_zero() {
        return Err(MathError::DivisionByZero);
    }
    // first pass: inverse-transform every column at the row target
    let mut colsout: Vec<Vec<Complex<T>>> = Vec::new();
    let mut j: usize = 0;
    while j < cols_t
        invariant
            j <= cols_t,
            1 <= rows_t <= 0x4000_0000,
            1 <= cols_t <= 0x4000_0000,
            nrows == signal@.len(),
            !sq_norm(length_scale::<T>(rows_t as int)).spec_is_zero(),
            colsout@.len() == j,
            forall|jj: int|
                0 <= jj < j ==> mixed_ok(
                    vcol_in(signal@, jj),
                    rows_t as int,
                    #[trigger] colsout@[jj]@,
                    true,
                    true,
                ),
        decreases cols_t - j,
    {
        let mut colv: Vec<Complex<T>> = Vec::new();
        let mut ii: usize = 0;
        while ii < rows_t
            invariant
                ii <= rows_t,
                j < cols_t,
                nrows == signal@.len(),
                colv@.len() == ii,
                forall|aa: int|
                    0 <= aa < ii ==> colv@[aa] == fit_to(
                        vcol_in(signal@, j as int),
                        rows_t as int,
                    )[aa],
            decreases rows_t - ii,
        {
            if ii < nrows {
                let rowref = &signal[ii];
                if j < rowref.len() {
                    colv.push(rowref[j]);
                } else {
                    colv.push(Complex::zero());
                }
            } else {
                colv.push(Complex::zero());
            }
            ii = ii + 1;
        }
        proof {
            assert(colv@ =~= fit_to(vcol_in(signal@, j as int), rows_t as int));
            assert(fit_to(colv@, rows_t as int) =~= colv@);
        }
        let fc = match ifft(&colv, Some(rows_t)) {
            Ok(v) => v,
            Err(_) => {
                proof {
                    assert(false);
                }
                return Err(MathError::InvalidLength);
            },
        };
        proof {
            assert(mixed_ok(vcol_in(signal@, j as int), rows_t as int, fc@, true, true));
        }
        colsout.push(fc);
        j = j + 1;
    }
    proof {
        assert(forall|jj: int| 0 <= jj < cols_t ==> #[trigger] colsout@[jj]@.len() == rows_t);
    }
    // lay the columns out as rows
    let mut interv: Vec<Vec<Complex<T>>> = Vec::new();
    let mut oi: usize = 0;
    while oi < rows_t
        invariant
            oi <= rows_t,
            1 <= rows_t,
            1 <= cols_t,
            colsout@.len() == cols_t,
            forall|jj: int| 0 <= jj < cols_t ==> #[trigger] colsout@[jj]@.len() == rows_t,
            interv@.len() == oi,
            forall|aa: int| 0 <= aa < oi ==> #[trigger] interv@[aa]@.len() == cols_t,
            forall|aa: int, jj: int|
                0 <= aa < oi && 0 <= jj < cols_t ==> #[trigger] interv@[aa]@[jj] == colsout@[jj]@[aa],
        decreases rows_t - oi,
    {
        let mut rowv2: Vec<Complex<T>> = Vec::new();
        let mut oj: usize = 0;
        while oj < cols_t
            invariant
                oj <= cols_t,
                oi < rows_t,
                colsout@.len() == cols_t,
                forall|jj: int| 0 <= jj < cols_t ==> #[trigger] colsout@[jj]@.len() == rows_t,
                rowv2@.len() == oj,
                forall|jj: int| 0 <= jj < oj ==> rowv2@[jj] == colsout@[jj]@[oi as int],
            decreases cols_t - oj,
        {
            let colref = &colsout[oj];
            rowv2.push(colref[oi]);
            oj = oj + 1;
        }
        interv.push(rowv2);
        oi = oi + 1;
    }
    let ghost ginter: Seq<Seq<Complex<T>>> = Seq::new(rows_t as nat, |ii: int| interv@[ii]@);
    proof {
        assert forall|jj: int| 0 <= jj < cols_t implies mixed_ok(
            vcol_in(signal@, jj),
            rows_t as int,
            #[trigger] seqcol(ginter, rows_t as int, jj),
            true,
            true,
        ) by {
            assert(seqcol(ginter, rows_t as int, jj) =~= colsout@[jj]@);
        }
    }
    // second pass: inverse-transform every row of the intermediate array
    let mut out: Vec<Vec<Complex<T>>> = Vec::new();
    let mut i: usize = 0;
    while i < rows_t
        invariant
            i <= rows_t,
            1 <= rows_t <= 0x4000_0000,
            1 <= cols_t <= 0x4000_0000,
            interv@.len() == rows_t,
            ginter == Seq::new(rows_t as nat, |ii: int| interv@[ii]@),
            forall|aa: int| 0 <= aa < rows_t ==> #[trigger] interv@[aa]@.len() == cols_t,
            forall|jj: int|
                0 <= jj < cols_t ==> mixed_ok(
                    vcol_in(signal@, jj),
                    rows_t as int,
                    #[trigger] seqcol(ginter, rows_t as int, jj),
                    true,
                    true,
                ),
            !sq_norm(length_scale::<T>(cols_t as int)).spec_is_zero(),
            out@.len() == i,
            forall|aa: int|
                0 <= aa < i ==> mixed_ok(ginter[aa], cols_t as int, #[trigger] out@[aa]@, true, true),
        decreases rows_t - i,
    {
        let fr = match ifft(&interv[i], Some(cols_t)) {
            Ok(v) => v,
            Err(_) => {
                proof {
                    assert(false);
                }
                return Err(MathError::InvalidLength);
            },
        };
        proof {
            assert(fit_to(interv@[i as int]@, cols_t as int) =~= interv@[i as int]@);
            assert(mixed_ok(ginter[i as int], cols_t as int, fr@, true, true));
        }
        out.push(fr);
        i = i + 1;
    }
    proof {
        assert(forall|aa: int| 0 <= aa < rows_t ==> #[trigger] ginter[aa].len() == cols_t);
        assert({
            &&& ginter.len() == rows_t as int
            &&& (forall|jj: int|
                0 <= jj < cols_t as int ==> mixed_ok(
                    vcol_in(signal@, jj),
                    rows_t as int,
                    #[trigger] seqcol(ginter, rows_t as int, jj),
                    true,
                    true,
                ))
            &&& (forall|aa: int| 0 <= aa < rows_t as int ==> #[trigger] ginter[aa].len() == cols_t as int)
            &&& out@.len() == rows_t as int
            &&& (forall|aa: int|
                0 <= aa < rows_t as int ==> mixed_ok(
                    ginter[aa],
                    cols_t as int,
                    #[trigger] out@[aa]@,
                    true,
                    true,
                ))
        });
        assert(ifft2_ok(signal@, rows_t as int, cols_t as int, out@));
    }
    Ok(out)
}

/// The input brought to the padded power-of-two working length.
fn pad_pow2<T: Scalar>(signal: &Vec<Complex<T>>, target: usize) -> (r: Vec<Complex<T>>)
    requires
        target <= 0x4000_0000,
        1 <= signal@.len() <= 0x4000_0000,
    ensures
        r@.len() as int == padded_len(target as int, signal@.len() as int),
        r@ == fit_to(signal@, r@.len() as int),
        is_pow2_spec(r@.len()),
{
    let len = signal.len();
    let m = if target >= len {
        target
    } else {
        len
    };
    let l = next_pow2(m);
    proof {
        lemma_next_pow2(m as int);
    }
    let mut work: Vec<Complex<T>> = Vec::new();
    let mut t: usize = 0;
    while t < l
        invariant
            t <= l,
            len == signal@.len(),
            work@.len() == t,
            forall|j: int|
                0 <= j < t ==> work@[j] == (if j < len {
                    signal@[j]
                } else {
                    czero::<T>()
                }),
        decreases l - t,
    {
        if t < len {
            work.push(signal[t]);
        } else {
            work.push(Complex::zero());
        }
        t = t + 1;
    }
    proof {
        assert(work@ =~= fit_to(signal@, l as int));
    }
    work
}

} // verus!

