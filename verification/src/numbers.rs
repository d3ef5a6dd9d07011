//! Integer utilities behind the transform planner: power-of-two tests,
//! a trial-division prime sieve, primality, factorization, gcd and lcm.

use vstd::prelude::*;

verus! {

/// `n` is a power of two (1, 2, 4, 8, ...).
pub open spec fn is_pow2_spec(n: nat) -> bool
    decreases n,
{
    if n == 0 {
        false
    } else if n == 1 {
        true
    } else {
        n % 2 == 0 && is_pow2_spec(n / 2)
    }
}

proof fn lemma_pow2_bit_trick(v: u32)
    requires
        v >= 1,
    ensures
        ((v & (v - 1) as u32) == 0) == is_pow2_spec(v as nat),
    decreases v,
{
    if v == 1 {
        assert((1u32 & 0u32) == 0) by (bit_vector);
    } else {
        assert(v >= 2 && v % 2 != 0 ==> (v & (v - 1) as u32) != 0) by (bit_vector);
        assert(v >= 2 && v % 2 == 0 ==> ((v & (v - 1) as u32) == 0) == (((v / 2) & (v / 2
            - 1) as u32) == 0)) by (bit_vector);
        if v % 2 == 0 {
            lemma_pow2_bit_trick(v / 2);
            assert(v as nat / 2 == (v / 2) as nat);
        }
    }
}

/// Whether `value` is a power of two, by the usual bit trick.
pub fn is_pow2(value: u32) -> (r: bool)
    requires
        value >= 1,
    ensures
        r == is_pow2_spec(value as nat),
{
    proof {
        lemma_pow2_bit_trick(value);
    }
    (value & (value - 1)) == 0
}

/// Greatest common divisor by Euclid's recursion.
pub open spec fn gcd_spec(a: nat, b: nat) -> nat
    decreases b,
{
    if b == 0 {
        a
    } else {
        gcd_spec(b, a % b)
    }
}

/// `d` divides `n` with no remainder.
pub open spec fn divides(d: nat, n: nat) -> bool {
    d != 0 && n % d == 0
}

proof fn lemma_gcd_pos(a: nat, b: nat)
    requires
        a != 0 || b != 0,
    ensures
        gcd_spec(a, b) >= 1,
    decreases b,
{
    if b != 0 {
        lemma_gcd_pos(b, a % b);
    }
}

/// The gcd divides both of its arguments, and every common divisor of the
/// two arguments divides the gcd.
pub proof fn lemma_gcd_is_greatest_common_divisor(a: nat, b: nat)
    requires
        a != 0 || b != 0,
    ensures
        divides(gcd_spec(a, b), a),
        divides(gcd_spec(a, b), b),
        forall|d: nat| divides(d, a) && divides(d, b) ==> divides(d, gcd_spec(a, b)),
    decreases b,
{
    if b == 0 {
        assert(a % a == 0) by {
            vstd::arithmetic::div_mod::lemma_mod_self_0(a as int);
        }
        assert(0nat % a == 0) by {
            vstd::arithmetic::div_mod::lemma_small_mod(0, a);
        }
    } else {
        lemma_gcd_is_greatest_common_divisor(b, a % b);
        let g = gcd_spec(a, b);
        assert(g == gcd_spec(b, a % b));
        // g | b and g | (a % b) together give g | a.
        lemma_divides_mod_combine(g, a, b);
        assert forall|d: nat| divides(d, a) && divides(d, b) implies divides(
            d,
            gcd_spec(a, b),
        ) by {
            lemma_divides_mod_split(d, a, b);
        }
    }
}

/// If g divides b and g divides a % b, then g divides a.
proof fn lemma_divides_mod_combine(g: nat, a: nat, b: nat)
    requires
        b != 0,
        divides(g, b),
        divides(g, a % b),
    ensures
        divides(g, a),
{
    vstd::arithmetic::div_mod::lemma_fundamental_div_mod(a as int, b as int);
    // a == b * (a / b) + a % b, with g | b and g | (a % b)
    let q = a as int / b as int;
    let r = (a % b) as int;
    assert(a as int == b as int * q + r);
    assert(b as int % g as int == 0);
    assert(r % g as int == 0);
    assert((b as int * q + r) % g as int == 0) by {
        vstd::arithmetic::div_mod::lemma_add_mod_noop(b as int * q, r, g as int);
        assert((b as int * q) % g as int == 0) by {
            vstd::arithmetic::div_mod::lemma_mul_mod_noop_left(b as int, q, g as int);
            vstd::arithmetic::div_mod::lemma_small_mod(0, g);
        }
        vstd::arithmetic::div_mod::lemma_small_mod(0, g);
    }
}

/// If d divides a and d divides b, then d divides a % b.
proof fn lemma_divides_mod_split(d: nat, a: nat, b: nat)
    requires
        b != 0,
        divides(d, a),
        divides(d, b),
    ensures
        divides(d, a % b),
{
    vstd::arithmetic::div_mod::lemma_fundamental_div_mod(a as int, b as int);
    let q = a as int / b as int;
    assert((a % b) as int == a as int - b as int * q);
    assert((a as int - b as int * q) % d as int == 0) by {
        vstd::arithmetic::div_mod::lemma_sub_mod_noop(a as int, b as int * q, d as int);
        assert((b as int * q) % d as int == 0) by {
            vstd::arithmetic::div_mod::lemma_mul_mod_noop_left(b as int, q, d as int);
            vstd::arithmetic::div_mod::lemma_small_mod(0, d);
        }
        vstd::arithmetic::div_mod::lemma_small_mod(0, d);
    }
}

/// `n` has no divisor strictly between 1 and itself.
pub open spec fn is_prime_spec(n: nat) -> bool {
    n >= 2 && forall|d: nat| 2 <= d < n ==> #[trigger] (n % d) != 0
}

/// Floor of the square root of `n`.
fn isqrt(n: u32) -> (r: u32)
    ensures
        r as int * r as int <= n as int,
        (r as int + 1) * (r as int + 1) > n as int,
        r <= 0xffff,
{
    let mut r: u32 = 0;
    loop
        invariant
            r as int * r as int <= n as int,
            r <= 0xffff,
        ensures
            r as int * r as int <= n as int,
            (r as int + 1) * (r as int + 1) > n as int,
            r <= 0xffff,
        decreases 0x10000 - r,
    {
        let next: u64 = r as u64 + 1;
        proof {
            assert(next * next <= 0x1_0000_0000u64) by (nonlinear_arith)
                requires
                    next <= 0x10000,
            ;
        }
        if next * next <= n as u64 {
            proof {
                assert((r as int + 1) * (r as int + 1) <= u32::MAX as int ==> r as int + 1
                    <= 0xffff) by (nonlinear_arith);
            }
            r = r + 1;
        } else {
            break ;
        }
    }
    r
}

/// If p divides m and m divides n, then p divides n.
proof fn lemma_divides_transitive(p: nat, m: nat, n: nat)
    requires
        p >= 1,
        m >= 1,
        m % p == 0,
        n % m == 0,
    ensures
        n % p == 0,
{
    vstd::arithmetic::div_mod::lemma_fundamental_div_mod(n as int, m as int);
    vstd::arithmetic::div_mod::lemma_fundamental_div_mod(m as int, p as int);
    let qn = n as int / m as int;
    let qm = m as int / p as int;
    assert(n as int == (qm * qn) * p as int) by (nonlinear_arith)
        requires
            n as int == m as int * qn,
            m as int == p as int * qm,
    ;
    vstd::arithmetic::div_mod::lemma_mod_multiples_basic(qm * qn, p as int);
}

/// Every integer at least 2 has a prime factor; a composite integer has one
/// whose square does not exceed it.
proof fn lemma_prime_factor(n: nat) -> (p: nat)
    requires
        n >= 2,
    ensures
        is_prime_spec(p),
        n % p == 0,
        p <= n,
        !is_prime_spec(n) ==> p * p <= n && p < n,
    decreases n,
{
    if is_prime_spec(n) {
        vstd::arithmetic::div_mod::lemma_mod_self_0(n as int);
        n
    } else {
        let d = choose|d: nat| 2 <= d < n && #[trigger] (n % d) == 0;
        vstd::arithmetic::div_mod::lemma_fundamental_div_mod(n as int, d as int);
        let e = n / d;
        assert(n == d * e);
        assert(e >= 2) by {
            if e == 0 {
                assert(n == d * 0);
            } else if e == 1 {
                assert(n == d * 1);
            }
        }
        let m = if d <= e {
            d
        } else {
            e
        };
        assert(m * m <= n && m < n) by (nonlinear_arith)
            requires
                n == d * e,
                2 <= d < n,
                2 <= e,
                m == (if d <= e {
                    d
                } else {
                    e
                }),
        ;
        let p = lemma_prime_factor(m);
        // p divides m, and m divides n.
        assert(n % m == 0) by {
            if d <= e {
                vstd::arithmetic::div_mod::lemma_mod_multiples_basic(e as int, d as int);
                assert(n as int == e as int * d as int) by (nonlinear_arith)
                    requires
                        n == d * e,
                ;
            } else {
                vstd::arithmetic::div_mod::lemma_mod_multiples_basic(d as int, e as int);
            }
        }
        lemma_divides_transitive(p, m, n);
        assert(p * p <= m * m) by (nonlinear_arith)
            requires
                0 < p <= m,
        ;
        p
    }
}

/// All primes up to `limit`, ascending, found by trial division against the
/// primes already in the list; 2 is seeded first and is present even when
/// `limit` is smaller.
pub fn get_primes_number(limit: u32) -> (r: Vec<u32>)
    requires
        limit <= 0xffff_fffd,
    ensures
        r@.len() >= 1,
        r@[0] == 2,
        forall|i: int| 0 <= i < r@.len() ==> is_prime_spec(#[trigger] r@[i] as nat),
        forall|i: int, j: int| 0 <= i < j < r@.len() ==> r@[i] < r@[j],
        forall|i: int| 0 <= i < r@.len() ==> (#[trigger] r@[i] == 2 || r@[i] <= limit),
        forall|p: u32| 2 <= p <= limit && is_prime_spec(p as nat) ==> r@.contains(p),
{
    let mut primes: Vec<u32> = Vec::new();
    primes.push(2);
    proof {
        assert(primes@.len() == 1);
        assert(primes@[0] == 2u32);
        assert(primes@.contains(2u32));
    }
    let mut counter: u32 = 3;
    while counter <= limit
        invariant
            limit <= 0xffff_fffd,
            3 <= counter,
            counter == 3 || counter <= limit + 2,
            counter % 2 == 1,
            primes@.len() >= 1,
            primes@[0] == 2,
            forall|i: int| 0 <= i < primes@.len() ==> is_prime_spec(#[trigger] primes@[i] as nat),
            forall|i: int, j: int| 0 <= i < j < primes@.len() ==> primes@[i] < primes@[j],
            forall|i: int| 0 <= i < primes@.len() ==> (#[trigger] primes@[i] == 2 || primes@[i]
                <= limit),
            forall|i: int| 0 <= i < primes@.len() ==> #[trigger] primes@[i] < counter,
            forall|p: u32| 2 <= p < counter && is_prime_spec(p as nat) ==> primes@.contains(p),
        decreases limit + 2 - counter,
    {
        let ghost old_primes = primes@;
        let mut i: usize = 0;
        let mut found_divisor = false;
        while i < primes.len() && !found_divisor
            invariant
                primes@ == old_primes,
                i <= primes@.len(),
                counter >= 3,
                forall|j: int| 0 <= j < primes@.len() ==> 2 <= #[trigger] primes@[j] < counter,
                !found_divisor ==> forall|j: int| 0 <= j < i ==> counter % #[trigger] primes@[j]
                    != 0,
                found_divisor ==> exists|j: int| 0 <= j < primes@.len() && counter
                    % #[trigger] primes@[j] == 0,
            decreases primes@.len() - i,
        {
            if counter % primes[i] == 0 {
                found_divisor = true;
            }
            i = i + 1;
        }
        proof {
            // counter + 1 is even and above 2, hence not prime.
            assert((counter + 1) as int % 2 == 0) by {
                vstd::arithmetic::div_mod::lemma_add_mod_noop(counter as int, 1, 2);
                vstd::arithmetic::div_mod::lemma_small_mod(1, 2);
                vstd::arithmetic::div_mod::lemma_mod_self_0(2);
            }
            assert((counter + 1) as nat % 2 == 0);
            assert(!is_prime_spec((counter + 1) as nat));
            // and counter keeps its parity after the step below.
            assert((counter as int + 2) % 2 == 1) by {
                vstd::arithmetic::div_mod::lemma_add_mod_noop(counter as int, 2, 2);
                vstd::arithmetic::div_mod::lemma_small_mod(1, 2);
                vstd::arithmetic::div_mod::lemma_mod_self_0(2);
            }
        }
        if !found_divisor {
            // No prime below `counter` divides it, so `counter` is prime: a
            // composite number has a prime factor smaller than itself, which
            // the list would already contain.
            proof {
                if !is_prime_spec(counter as nat) {
                    let p = lemma_prime_factor(counter as nat);
                    assert(2 <= p < counter);
                    assert(primes@.contains(p as u32));
                    let j = choose|j: int| 0 <= j < primes@.len() && primes@[j] == p as u32;
                    assert(counter % primes@[j] != 0);
                    assert(counter as nat % p == 0);
                }
            }
            primes.push(counter);
            proof {
                assert(primes@[old_primes.len() as int] == counter);
                assert forall|p: u32|
                    2 <= p < counter + 2 && is_prime_spec(p as nat) implies primes@.contains(
                    p,
                ) by {
                    if p < counter {
                        let idx = choose|idx: int|
                            0 <= idx < old_primes.len() && old_primes[idx] == p;
                        assert(primes@[idx] == p);
                    } else if p == counter {
                        assert(primes@[old_primes.len() as int] == p);
                    } else {
                        assert(p == counter + 1);
                        assert(p as nat % 2 == 0);
                    }
                }
            }
        } else {
            proof {
                let j = choose|j: int|
                    0 <= j < primes@.len() && counter % #[trigger] primes@[j] == 0;
                assert(counter as nat % (primes@[j] as nat) == 0);
                assert(!is_prime_spec(counter as nat));
                assert forall|p: u32|
                    2 <= p < counter + 2 && is_prime_spec(p as nat) implies primes@.contains(
                    p,
                ) by {
                    if p == counter {
                        assert(false);
                    } else if p == counter + 1 {
                        assert(p as nat % 2 == 0);
                    }
                }
            }
        }
        counter = counter + 2;
    }
    primes
}

/// Whether `n` is prime, by trial division against the primes up to the
/// square root of `n`.
pub fn is_prime(n: u32) -> (r: bool)
    ensures
        r == is_prime_spec(n as nat),
{
    if n < 2 {
        return false;
    }
    if n == 2 {
        return true;
    }
    if n % 2 == 0 {
        assert(n as nat % 2 == 0 && n > 2);
        return false;
    }
    let s = isqrt(n);
    let limit = s + 1;
    proof {
        // every prime the sieve returns is below n: 2 < n, and s + 1 < n.
        assert(s >= 1) by (nonlinear_arith)
            requires
                n >= 3,
                (s as int + 1) * (s as int + 1) > n as int,
        ;
        assert(s as int + 1 < n as int) by (nonlinear_arith)
            requires
                n >= 3,
                s >= 1,
                s as int * s as int <= n as int,
        ;
    }
    let primes = get_primes_number(limit);
    let mut i: usize = 0;
    let mut divisible = false;
    while i < primes.len() && !divisible
        invariant
            i <= primes@.len(),
            n >= 3,
            forall|j: int| 0 <= j < primes@.len() ==> is_prime_spec(#[trigger] primes@[j] as nat),
            forall|j: int| 0 <= j < primes@.len() ==> 2 <= #[trigger] primes@[j] < n,
            !divisible ==> forall|j: int| 0 <= j < i ==> n % #[trigger] primes@[j] != 0,
            divisible ==> exists|j: int| 0 <= j < primes@.len() && n % #[trigger] primes@[j] == 0,
        decreases primes@.len() - i,
    {
        if n % primes[i] == 0 {
            divisible = true;
        }
        i = i + 1;
    }
    if divisible {
        proof {
            let j = choose|j: int| 0 <= j < primes@.len() && n % #[trigger] primes@[j] == 0;
            assert(n as nat % (primes@[j] as nat) == 0);
            assert(!is_prime_spec(n as nat));
        }
        false
    } else {
        proof {
            if !is_prime_spec(n as nat) {
                let p = lemma_prime_factor(n as nat);
                assert(p <= s) by (nonlinear_arith)
                    requires
                        p * p <= n as nat,
                        (s as int + 1) * (s as int + 1) > n as int,
                        p >= 2,
                        s >= 0,
                ;
                assert(primes@.contains(p as u32));
                let j = choose|j: int| 0 <= j < primes@.len() && primes@[j] == p as u32;
                assert(n % primes@[j] != 0);
            }
        }
        true
    }
}

/// Product of a list of factors; 1 for the empty list.
pub open spec fn product(s: Seq<u32>) -> nat
    decreases s.len(),
{
    if s.len() == 0 {
        1
    } else {
        product(s.drop_last()) * s.last() as nat
    }
}

proof fn lemma_product_push(s: Seq<u32>, x: u32)
    ensures
        product(s.push(x)) == product(s) * x,
{
    assert(s.push(x).drop_last() =~= s);
    assert(s.push(x).last() == x);
}

/// A list of factors all at least 2 has product at least 1, and at least 2
/// when it is nonempty.
pub proof fn lemma_product_bounds(s: Seq<u32>)
    requires
        forall|i: int| 0 <= i < s.len() ==> #[trigger] s[i] >= 2,
    ensures
        product(s) >= 1,
        s.len() >= 1 ==> product(s) >= 2,
    decreases s.len(),
{
    if s.len() >= 1 {
        lemma_product_bounds(s.drop_last());
        assert(product(s) == product(s.drop_last()) * s.last());
        assert(s.last() >= 2);
        assert(product(s.drop_last()) * s.last() >= 2) by (nonlinear_arith)
            requires
                product(s.drop_last()) >= 1,
                s.last() >= 2,
        ;
    }
}

/// The prime factorization of `n`, ascending with multiplicity: primes up to
/// the square root of `n` are divided out in order, and a remaining cofactor
/// above 1 (necessarily prime) is appended last, so the factors always
/// multiply back to `n`; `factorize(1)` is the empty list.
#[verifier::rlimit(60)]
pub fn factorize(n: u32) -> (r: Vec<u32>)
    requires
        n >= 1,
    ensures
        product(r@) == n,
        forall|i: int| 0 <= i < r@.len() ==> is_prime_spec(#[trigger] r@[i] as nat),
        forall|i: int, j: int| 0 <= i <= j < r@.len() ==> r@[i] <= r@[j],
        n == 1 ==> r@.len() == 0,
{
    let mut factors: Vec<u32> = Vec::new();
    let mut m = n;
    let s = isqrt(n);
    proof {
        assert(s >= 1) by (nonlinear_arith)
            requires
                n >= 1,
                (s as int + 1) * (s as int + 1) > n as int,
        ;
    }
    let limit = s + 1;
    let primes = get_primes_number(limit);
    proof {
        assert(factors@.len() == 0);
        assert(product(factors@) == 1);
    }
    let mut i: usize = 0;
    while i < primes.len()
        invariant
            n >= 1,
            1 <= m <= n,
            2 <= limit <= 0x1_0000,
            (limit as int) * (limit as int) > n as int,
            product(factors@) * m == n,
            i <= primes@.len(),
            forall|j: int| 0 <= j < primes@.len() ==> is_prime_spec(#[trigger] primes@[j] as nat),
            forall|j: int, k: int| 0 <= j < k < primes@.len() ==> primes@[j] < primes@[k],
            forall|j: int| 0 <= j < primes@.len() ==> (#[trigger] primes@[j] == 2 || primes@[j]
                <= limit),
            forall|p: u32| 2 <= p <= limit && is_prime_spec(p as nat) ==> primes@.contains(p),
            forall|k: int| 0 <= k < factors@.len() ==> is_prime_spec(#[trigger] factors@[k] as nat),
            forall|k: int, l: int| 0 <= k <= l < factors@.len() ==> factors@[k] <= factors@[l],
            forall|k: int| 0 <= k < factors@.len() ==> #[trigger] factors@[k] <= limit,
            factors@.len() >= 1 && i < primes@.len() ==> factors@.last() <= primes@[i as int],
            forall|j: int| 0 <= j < i ==> m % #[trigger] primes@[j] != 0,
        decreases primes@.len() - i,
    {
        let p = primes[i];
        proof {
            assert(is_prime_spec(p as nat));
        }
        while m % p == 0
            invariant
                n >= 1,
                1 <= m <= n,
                2 <= limit <= 0x1_0000,
                i < primes@.len(),
                p == primes@[i as int],
                is_prime_spec(p as nat),
                forall|j: int| 0 <= j < primes@.len() ==> is_prime_spec(
                    #[trigger] primes@[j] as nat,
                ),
                p == 2 || p <= limit,
                2 <= p,
                product(factors@) * m == n,
                forall|k: int| 0 <= k < factors@.len() ==> is_prime_spec(
                    #[trigger] factors@[k] as nat,
                ),
                forall|k: int, l: int| 0 <= k <= l < factors@.len() ==> factors@[k] <= factors@[l],
                forall|k: int| 0 <= k < factors@.len() ==> #[trigger] factors@[k] <= limit,
                factors@.len() >= 1 ==> factors@.last() <= p,
                forall|j: int| 0 <= j < i ==> m % #[trigger] primes@[j] != 0,
            decreases m,
        {
            let ghost old_factors = factors@;
            let ghost old_m = m as nat;
            factors.push(p);
            proof {
                lemma_product_push(old_factors, p);
                vstd::arithmetic::div_mod::lemma_fundamental_div_mod(m as int, p as int);
                assert(m as int == p as int * (m as int / p as int));
                // the quotient is at least 1 and strictly smaller than m
                assert(m >= p) by {
                    if m < p {
                        vstd::arithmetic::div_mod::lemma_small_mod(m as nat, p as nat);
                    }
                }
                vstd::arithmetic::div_mod::lemma_div_non_zero(m as int, p as int);
                vstd::arithmetic::div_mod::lemma_div_decreases(m as int, p as int);
                // products recombine: product(old) * m == product(old.push(p)) * (m / p)
                assert(product(old_factors.push(p)) * (old_m / p as nat) == product(old_factors)
                    * old_m) by (nonlinear_arith)
                    requires
                        product(old_factors.push(p)) == product(old_factors) * p as nat,
                        old_m as int == p as int * (old_m as int / p as int),
                        old_m as int / p as int == (old_m / p as nat) as int,
                        p >= 2,
                ;
                // primes already divided out still do not divide the quotient
                assert forall|j: int| 0 <= j < i implies (old_m / p as nat) % (
                #[trigger] primes@[j] as nat) != 0 by {
                    if (old_m / p as nat) % (primes@[j] as nat) == 0 {
                        vstd::arithmetic::div_mod::lemma_mod_multiples_basic(
                            p as int,
                            (old_m / p as nat) as int,
                        );
                        assert(old_m as int == (old_m / p as nat) as int * p as int)
                            by (nonlinear_arith)
                            requires
                                old_m as int == p as int * (old_m as int / p as int),
                                old_m as int / p as int == (old_m / p as nat) as int,
                        ;
                        assert(old_m % (old_m / p as nat) == 0);
                        lemma_divides_transitive(primes@[j] as nat, old_m / p as nat, old_m);
                    }
                }
            }
            m = m / p;
        }
        i = i + 1;
    }
    if m > 1 {
        let ghost pre = factors@;
        proof {
            // every prime up to the square root of n was divided out, so any
            // proper prime factor of m would exceed the sieve limit although
            // its square is at most n: the cofactor is itself prime.
            if !is_prime_spec(m as nat) {
                let q = lemma_prime_factor(m as nat);
                assert(q as int <= limit as int - 1) by (nonlinear_arith)
                    requires
                        q * q <= m as nat,
                        m <= n,
                        (limit as int) * (limit as int) > n as int,
                        q >= 2,
                        limit >= 2,
                ;
                assert(primes@.contains(q as u32));
                let j = choose|j: int| 0 <= j < primes@.len() && primes@[j] == q as u32;
                assert(m % primes@[j] != 0);
                assert(m as nat % q == 0);
            }
            // and m is larger than the sieve limit, hence than every factor
            if m <= limit {
                assert(primes@.contains(m));
                let j = choose|j: int| 0 <= j < primes@.len() && primes@[j] == m;
                assert(m % primes@[j] != 0);
                vstd::arithmetic::div_mod::lemma_mod_self_0(m as int);
            }
            lemma_product_push(pre, m);
        }
        factors.push(m);
        proof {
            assert(factors@ == pre.push(m));
            assert(product(factors@) == product(pre) * m as nat);
            assert(product(pre) * m as nat == n as nat);
            assert(product(factors@) == n as nat);
        }
    } else {
        proof {
            assert(m == 1);
            assert(product(factors@) * 1nat == product(factors@)) by (nonlinear_arith);
            assert(product(factors@) == n as nat);
        }
    }
    proof {
        if n == 1 {
            assert forall|k: int| 0 <= k < factors@.len() implies #[trigger] factors@[k] >= 2 by {
                assert(is_prime_spec(factors@[k] as nat));
            }
            lemma_product_bounds(factors@);
        }
    }
    factors
}

/// Greatest common divisor of `a` and `b`.
pub fn gcd(a: u32, b: u32) -> (r: u32)
    ensures
        r == gcd_spec(a as nat, b as nat),
    decreases b,
{
    if b == 0 {
        return a;
    }
    gcd(b, a % b)
}

/// Least common multiple of `a` and `b`, as `a * b / gcd(a, b)`.
pub fn lcm(a: u32, b: u32) -> (r: u32)
    requires
        a * b <= u32::MAX,
        a != 0 || b != 0,
    ensures
        r == (a * b) as nat / gcd_spec(a as nat, b as nat),
{
    proof {
        lemma_gcd_pos(a as nat, b as nat);
    }
    (a * b) / gcd(a, b)
}

} // verus!
