use gsignal::numbers::{factorize, gcd, get_primes_number, is_pow2, is_prime, lcm};

#[test]
fn test_is_pow2() {
    assert!(is_pow2(1));
    assert!(is_pow2(2));
    assert!(is_pow2(4));
    assert!(!is_pow2(3));
    assert!(!is_pow2(5));
}

#[test]
fn test_get_primes_number() {
    let primes = get_primes_number(30);
    assert_eq!(primes, vec![2, 3, 5, 7, 11, 13, 17, 19, 23, 29]);
}

#[test]
fn primes_below_the_first_odd_prime() {
    // 2 is seeded unconditionally, even above the limit
    assert_eq!(get_primes_number(0), vec![2]);
    assert_eq!(get_primes_number(2), vec![2]);
    assert_eq!(get_primes_number(3), vec![2, 3]);
}

#[test]
fn primality_of_small_numbers() {
    assert!(!is_prime(0));
    assert!(!is_prime(1));
    assert!(is_prime(2));
    assert!(is_prime(3));
    assert!(!is_prime(4));
    assert!(is_prime(7));
    assert!(!is_prime(9));
    assert!(!is_prime(91)); // 7 * 13
    assert!(is_prime(97));
    assert!(is_prime(65537));
}

#[test]
fn factorization_products_recover_every_input() {
    for n in 2u32..=10000 {
        let factors = factorize(n);
        let product: u64 = factors.iter().map(|&f| f as u64).product();
        assert_eq!(product, n as u64);
        for &f in &factors {
            assert!(is_prime(f));
        }
        for w in factors.windows(2) {
            assert!(w[0] <= w[1]);
        }
    }
}

#[test]
fn factorization_fixed_points() {
    assert_eq!(factorize(1), Vec::<u32>::new());
    assert_eq!(factorize(12), vec![2, 2, 3]);
    assert_eq!(factorize(7), vec![7]);
    // a cofactor above the square root is kept, not dropped
    assert_eq!(factorize(14), vec![2, 7]);
    assert_eq!(factorize(9973), vec![9973]);
}

#[test]
fn gcd_and_lcm() {
    assert_eq!(gcd(12, 18), 6);
    assert_eq!(gcd(18, 12), 6);
    assert_eq!(gcd(7, 13), 1);
    assert_eq!(gcd(0, 5), 5);
    assert_eq!(gcd(5, 0), 5);
    assert_eq!(lcm(4, 6), 12);
    assert_eq!(lcm(0, 5), 0);
    assert_eq!(lcm(21, 6), 42);
}
