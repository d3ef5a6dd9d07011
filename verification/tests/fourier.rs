use gsignal::complex::{Complex, ComplexTrait};
use gsignal::errors::MathError;
use gsignal::fourier::{dft, fft, fft2, idft, ifft, ifft2, radix2_fft, radix2_ifft};
use gsignal::scalar::Scalar;

/// A double-precision scalar for exercising the transforms.
#[derive(Clone, Copy, Debug, PartialEq)]
struct R(f64);

impl Scalar for R {
    fn spec_add(self, rhs: Self) -> Self {
        R(self.0 + rhs.0)
    }
    fn spec_sub(self, rhs: Self) -> Self {
        R(self.0 - rhs.0)
    }
    fn spec_mul(self, rhs: Self) -> Self {
        R(self.0 * rhs.0)
    }
    fn spec_div(self, rhs: Self) -> Self {
        R(self.0 / rhs.0)
    }
    fn spec_neg(self) -> Self {
        R(-self.0)
    }
    fn spec_zero() -> Self {
        R(0.0)
    }
    fn spec_one() -> Self {
        R(1.0)
    }
    fn spec_is_zero(self) -> bool {
        self.0 == 0.0
    }
    fn spec_sqrt(self) -> Self {
        R(self.0.sqrt())
    }
    fn spec_sin(self) -> Self {
        R(self.0.sin())
    }
    fn spec_cos(self) -> Self {
        R(self.0.cos())
    }
    fn spec_atan2(self, x: Self) -> Self {
        R(self.0.atan2(x.0))
    }
    fn spec_sinh(self) -> Self {
        R(self.0.sinh())
    }
    fn spec_cosh(self) -> Self {
        R(self.0.cosh())
    }
    fn spec_exp(self) -> Self {
        R(self.0.exp())
    }
    fn spec_ln(self) -> Self {
        R(self.0.ln())
    }
    fn spec_log(self, base: Self) -> Self {
        R(self.0.log(base.0))
    }
    fn spec_powi(self, e: i32) -> Self {
        R(self.0.powi(e))
    }
    fn spec_powf(self, e: Self) -> Self {
        R(self.0.powf(e.0))
    }
    fn spec_from_i32(v: i32) -> Self {
        R(v as f64)
    }
    fn spec_from_usize(v: usize) -> Self {
        R(v as f64)
    }
    fn spec_two_pi() -> Self {
        R(2.0 * std::f64::consts::PI)
    }
    fn add(self, rhs: Self) -> Self {
        R(self.0 + rhs.0)
    }
    fn sub(self, rhs: Self) -> Self {
        R(self.0 - rhs.0)
    }
    fn mul(self, rhs: Self) -> Self {
        R(self.0 * rhs.0)
    }
    fn div(self, rhs: Self) -> Self {
        R(self.0 / rhs.0)
    }
    fn neg(self) -> Self {
        R(-self.0)
    }
    fn zero() -> Self {
        R(0.0)
    }
    fn one() -> Self {
        R(1.0)
    }
    fn is_zero(self) -> bool {
        self.0 == 0.0
    }
    fn sqrt(self) -> Self {
        R(self.0.sqrt())
    }
    fn sin(self) -> Self {
        R(self.0.sin())
    }
    fn cos(self) -> Self {
        R(self.0.cos())
    }
    fn atan2(self, x: Self) -> Self {
        R(self.0.atan2(x.0))
    }
    fn sinh(self) -> Self {
        R(self.0.sinh())
    }
    fn cosh(self) -> Self {
        R(self.0.cosh())
    }
    fn exp(self) -> Self {
        R(self.0.exp())
    }
    fn ln(self) -> Self {
        R(self.0.ln())
    }
    fn log(self, base: Self) -> Self {
        R(self.0.log(base.0))
    }
    fn powi(self, e: i32) -> Self {
        R(self.0.powi(e))
    }
    fn powf(self, e: Self) -> Self {
        R(self.0.powf(e.0))
    }
    fn from_i32(v: i32) -> Self {
        R(v as f64)
    }
    fn from_usize(v: usize) -> Self {
        R(v as f64)
    }
    fn two_pi() -> Self {
        R(2.0 * std::f64::consts::PI)
    }
    fn lemma_neg_involution(self) {}
}

fn c(re: f64, im: f64) -> Complex<R> {
    Complex::new(R(re), R(im))
}

fn fixture() -> Vec<Complex<R>> {
    vec![
        c(1.0, 0.0),
        c(0.0, 1.0),
        c(-1.0, 0.0),
        c(0.0, -1.0),
        c(1.0, 0.0),
        c(0.0, -1.0),
    ]
}

#[test]
fn test_dft() {
    let signal = fixture();
    let result = dft(&signal).unwrap();
    let expected_result = vec![
        c(1.0, -1.0),
        c(1.0 + 3.0f64.sqrt(), 1.0 + 3.0f64.sqrt()),
        c(1.0 + 3.0f64.sqrt(), -1.0 - 3.0f64.sqrt()),
        c(1.0, 1.0),
        c(1.0 - 3.0f64.sqrt(), -1.0 + 3.0f64.sqrt()),
        c(1.0 - 3.0f64.sqrt(), 1.0 - 3.0f64.sqrt()),
    ];
    assert_eq!(result.len(), 6);
    for i in 0..result.len() {
        println!("Result: {:?}, Expected result: {:?}", result[i].real, expected_result[i].real);
        assert!((result[i].real.0 - expected_result[i].real.0).abs() < 1e-10);
        assert!((result[i].imag.0 - expected_result[i].imag.0).abs() < 1e-10);
    }

    let idft_result = idft(&result).unwrap();
    assert_eq!(idft_result.len(), 6);
    for i in 0..idft_result.len() {
        assert!((idft_result[i].real.0 - signal[i].real.0).abs() < 1e-10);
        assert!((idft_result[i].imag.0 - signal[i].imag.0).abs() < 1e-10);
    }
}

#[test]
fn test_fft() {
    let signal = fixture();
    let result = fft(&signal, None).unwrap();
    let expected_result = dft(&signal).unwrap();
    assert_eq!(result.len(), 6);
    for i in 0..result.len() {
        println!("Result: {:?}, Expected result: {:?}", result[i].real, expected_result[i].real);
        assert!((result[i].real.0 - expected_result[i].real.0).abs() < 1e-10);
        assert!((result[i].imag.0 - expected_result[i].imag.0).abs() < 1e-10);
    }
    let result = ifft(&result, None).unwrap();
    assert_eq!(result.len(), 6);
    for i in 0..result.len() {
        println!("Result: {:?}, Expected result: {:?}", result[i].real, signal[i].real);
        assert!((result[i].real.0 - signal[i].real.0).abs() < 1e-10);
        assert!((result[i].imag.0 - signal[i].imag.0).abs() < 1e-10);
    }
}

#[test]
fn round_trip_power_of_two() {
    let signal = vec![
        c(0.5, -1.0),
        c(2.0, 0.25),
        c(-3.0, 1.5),
        c(0.0, 0.0),
        c(1.0, 1.0),
        c(-0.5, 2.0),
        c(4.0, -2.0),
        c(0.125, 0.0),
    ];
    let spectrum = fft(&signal, None).unwrap();
    let back = ifft(&spectrum, None).unwrap();
    assert_eq!(back.len(), signal.len());
    for i in 0..signal.len() {
        assert!((back[i].real.0 - signal[i].real.0).abs() < 1e-10);
        assert!((back[i].imag.0 - signal[i].imag.0).abs() < 1e-10);
    }
}

#[test]
fn round_trip_composite_and_prime() {
    // 12 = 3 * 2 * 2 exercises the mixed-radix split, 7 the prime terminal
    for n in [12usize, 7usize] {
        let signal: Vec<Complex<R>> =
            (0..n).map(|t| c((t * t % 5) as f64 - 1.0, (t % 3) as f64 * 0.5)).collect();
        let spectrum = fft(&signal, None).unwrap();
        assert_eq!(spectrum.len(), n);
        let back = ifft(&spectrum, None).unwrap();
        assert_eq!(back.len(), n);
        for i in 0..n {
            assert!((back[i].real.0 - signal[i].real.0).abs() < 1e-10);
            assert!((back[i].imag.0 - signal[i].imag.0).abs() < 1e-10);
        }
    }
}

#[test]
fn cross_consistency_fast_and_direct() {
    for n in [6usize, 8, 7, 12] {
        let signal: Vec<Complex<R>> =
            (0..n).map(|t| c((t as f64).cos(), (2 * t % 7) as f64 - 3.0)).collect();
        let fast = fft(&signal, None).unwrap();
        let direct = dft(&signal).unwrap();
        assert_eq!(fast.len(), direct.len());
        for i in 0..n {
            assert!((fast[i].real.0 - direct[i].real.0).abs() < 1e-10);
            assert!((fast[i].imag.0 - direct[i].imag.0).abs() < 1e-10);
        }
    }
}

#[test]
fn radix2_pads_with_exact_zeros() {
    // a request above the input length rounds up to the next power of two
    let signal = vec![c(1.0, 2.0), c(-1.0, 0.5), c(3.0, 0.0)];
    let padded = radix2_fft(&signal, 6).unwrap();
    assert_eq!(padded.len(), 8);

    // the same transform of the explicitly zero-padded input, exactly
    let mut by_hand = signal.clone();
    while by_hand.len() < 8 {
        by_hand.push(c(0.0, 0.0));
    }
    let reference = radix2_fft(&by_hand, 8).unwrap();
    assert_eq!(reference.len(), 8);
    for i in 0..8 {
        assert_eq!(padded[i].real.0, reference[i].real.0);
        assert_eq!(padded[i].imag.0, reference[i].imag.0);
    }

    // and the padded transform inverts back to the padded input
    let back = radix2_ifft(&padded, 8, true).unwrap();
    assert_eq!(back.len(), 8);
    for i in 0..8 {
        assert!((back[i].real.0 - by_hand[i].real.0).abs() < 1e-10);
        assert!((back[i].imag.0 - by_hand[i].imag.0).abs() < 1e-10);
    }
}

#[test]
fn parseval_energy_is_conserved() {
    for n in [6usize, 8] {
        let signal: Vec<Complex<R>> =
            (0..n).map(|t| c((t as f64) * 0.3 - 1.0, (t as f64).sin())).collect();
        let time_energy: f64 = signal.iter().map(|z| z.real.0 * z.real.0 + z.imag.0 * z.imag.0).sum();
        for spectrum in [fft(&signal, None).unwrap(), dft(&signal).unwrap()] {
            let freq_energy: f64 =
                spectrum.iter().map(|z| z.real.0 * z.real.0 + z.imag.0 * z.imag.0).sum::<f64>()
                    / n as f64;
            assert!((time_energy - freq_energy).abs() <= 1e-9 * time_energy.abs());
        }
    }
}

#[test]
fn fft2_matches_separable_direct_transform() {
    let signal = vec![vec![c(1.0, 0.0), c(2.0, -1.0)], vec![c(3.0, 0.5), c(4.0, 0.0)]];
    let out = fft2(&signal, None).unwrap();
    assert_eq!(out.len(), 2);

    // rows first, then columns, with the direct transform
    let rows: Vec<Vec<Complex<R>>> = signal.iter().map(|r| dft(r).unwrap()).collect();
    let mut expected = vec![vec![c(0.0, 0.0); 2]; 2];
    for j in 0..2 {
        let col: Vec<Complex<R>> = (0..2).map(|i| rows[i][j]).collect();
        let col_out = dft(&col).unwrap();
        for i in 0..2 {
            expected[i][j] = col_out[i];
        }
    }
    for i in 0..2 {
        for j in 0..2 {
            assert!((out[i][j].real.0 - expected[i][j].real.0).abs() < 1e-10);
            assert!((out[i][j].imag.0 - expected[i][j].imag.0).abs() < 1e-10);
        }
    }

    let back = ifft2(&out, None).unwrap();
    for i in 0..2 {
        for j in 0..2 {
            assert!((back[i][j].real.0 - signal[i][j].real.0).abs() < 1e-10);
            assert!((back[i][j].imag.0 - signal[i][j].imag.0).abs() < 1e-10);
        }
    }
}

#[test]
fn empty_and_zero_lengths_are_rejected() {
    let empty: Vec<Complex<R>> = Vec::new();
    assert_eq!(dft(&empty).unwrap_err(), MathError::InvalidLength);
    assert_eq!(idft(&empty).unwrap_err(), MathError::InvalidLength);
    assert_eq!(fft(&empty, None).unwrap_err(), MathError::InvalidLength);
    assert_eq!(ifft(&empty, Some(4)).unwrap_err(), MathError::InvalidLength);
    assert_eq!(fft(&fixture(), Some(0)).unwrap_err(), MathError::InvalidLength);
    assert_eq!(radix2_fft(&empty, 8).unwrap_err(), MathError::InvalidLength);
    assert_eq!(radix2_ifft(&fixture(), 0, true).unwrap_err(), MathError::InvalidLength);
    let empty2: Vec<Vec<Complex<R>>> = Vec::new();
    assert_eq!(fft2(&empty2, None).unwrap_err(), MathError::InvalidLength);
    assert_eq!(ifft2(&empty2, None).unwrap_err(), MathError::InvalidLength);
}

#[test]
fn ragged_rows_are_rejected() {
    let ragged = vec![vec![c(1.0, 0.0), c(2.0, 0.0)], vec![c(3.0, 0.0)]];
    assert_eq!(fft2(&ragged, None).unwrap_err(), MathError::DimensionMismatch);
    assert_eq!(ifft2(&ragged, None).unwrap_err(), MathError::DimensionMismatch);
}

#[test]
fn complex_division_by_zero_is_reported() {
    let z = c(1.0, 2.0);
    assert_eq!(z.div(c(0.0, 0.0)).unwrap_err(), MathError::DivisionByZero);
    let q = z.div(c(0.0, 2.0)).unwrap();
    assert!((q.real.0 - 1.0).abs() < 1e-12);
    assert!((q.imag.0 + 0.5).abs() < 1e-12);
}

#[test]
fn complex_arithmetic_and_polar() {
    let a = c(3.0, 4.0);
    assert_eq!(a.magnitude().0, 5.0);
    let b = a.conjugate();
    assert_eq!(b.imag.0, -4.0);
    let back = b.conjugate();
    assert_eq!((back.real.0, back.imag.0), (3.0, 4.0));
    let s = a.add(c(1.0, -1.0));
    assert_eq!((s.real.0, s.imag.0), (4.0, 3.0));
    let p = c(0.0, 1.0).mul(c(0.0, 1.0));
    assert!((p.real.0 + 1.0).abs() < 1e-12 && p.imag.0.abs() < 1e-12);
    let (mag, phase) = c(0.0, 2.0).to_polar();
    assert!((mag.0 - 2.0).abs() < 1e-12);
    assert!((phase.0 - std::f64::consts::FRAC_PI_2).abs() < 1e-12);
    let back = Complex::from_polar(mag, phase);
    assert!((back.real.0 - 0.0).abs() < 1e-12 && (back.imag.0 - 2.0).abs() < 1e-12);
    let e = c(0.0, std::f64::consts::PI).exp();
    assert!((e.real.0 + 1.0).abs() < 1e-12 && e.imag.0.abs() < 1e-12);
    let t = c(0.78, 0.1).tan().unwrap();
    let sn = c(0.78, 0.1).sin();
    let cs = c(0.78, 0.1).cos();
    let q = sn.div(cs).unwrap();
    assert!((t.real.0 - q.real.0).abs() < 1e-12 && (t.imag.0 - q.imag.0).abs() < 1e-12);
}

#[test]
fn unscaled_inverse_defers_the_division() {
    let signal = vec![c(1.0, 0.0), c(0.0, 1.0), c(-1.0, 0.0), c(0.0, -1.0)];
    let spectrum = radix2_fft(&signal, 4).unwrap();
    let raw = radix2_ifft(&spectrum, 4, false).unwrap();
    let scaled = radix2_ifft(&spectrum, 4, true).unwrap();
    assert_eq!(raw.len(), 4);
    for i in 0..4 {
        assert!((raw[i].real.0 / 4.0 - scaled[i].real.0).abs() < 1e-12);
        assert!((raw[i].imag.0 / 4.0 - scaled[i].imag.0).abs() < 1e-12);
        assert!((scaled[i].real.0 - signal[i].real.0).abs() < 1e-10);
        assert!((scaled[i].imag.0 - signal[i].imag.0).abs() < 1e-10);
    }
}

#[test]
fn complex_accessors_via_the_trait() {
    let z: Complex<R> = ComplexTrait::new(R(3.0), R(-4.0));
    assert_eq!(z.real_part().0, 3.0);
    assert_eq!(z.imag().0, -4.0);
    assert_eq!(z.magnitude().0, 5.0);
    let conj = z.conjugate();
    assert_eq!(conj.imag.0, 4.0);
    let i_unit: Complex<R> = <Complex<R> as ComplexTrait<R>>::i();
    assert_eq!((i_unit.real.0, i_unit.imag.0), (0.0, 1.0));
    assert!((z.phase().0 - (-4.0f64).atan2(3.0)).abs() < 1e-12);
}

#[test]
fn complex_powers_and_logarithms() {
    let z = c(0.0, 2.0);
    let sq = z.powi(2);
    assert!((sq.real.0 + 4.0).abs() < 1e-10 && sq.imag.0.abs() < 1e-10);
    let root = c(-4.0, 0.0).sqrt();
    assert!(root.real.0.abs() < 1e-10 && (root.imag.0 - 2.0).abs() < 1e-10);
    let ln_e = c(std::f64::consts::E, 0.0).ln();
    assert!((ln_e.real.0 - 1.0).abs() < 1e-12 && ln_e.imag.0.abs() < 1e-12);
    let lg = c(8.0, 0.0).log(R(2.0));
    assert!((lg.real.0 - 3.0).abs() < 1e-12);
    let pf = c(9.0, 0.0).powf(R(0.5));
    assert!((pf.real.0 - 3.0).abs() < 1e-10 && pf.imag.0.abs() < 1e-10);
    assert!(c(0.0, 0.0).is_zero());
    assert!(!c(1.0, 0.0).is_zero());
    assert!(c(1.0, 0.0).is_one());
    let fr = Complex::from_real(R(2.5));
    assert_eq!((fr.real.0, fr.imag.0), (2.5, 0.0));
    let zero: Complex<R> = Complex::zero();
    let one: Complex<R> = Complex::one();
    assert!(zero.is_zero() && one.is_one());
    let th = c(0.3, 0.2).tanh().unwrap();
    let q = c(0.3, 0.2).sinh().div(c(0.3, 0.2).cosh()).unwrap();
    assert!((th.real.0 - q.real.0).abs() < 1e-12 && (th.imag.0 - q.imag.0).abs() < 1e-12);
}
