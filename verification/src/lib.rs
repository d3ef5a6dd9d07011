//! Discrete Fourier transforms over an abstract scalar field, together with
//! the numeric utilities that plan and support them.
//!
//! The transform engine (direct, radix-2, mixed-radix and separable 2-D
//! variants) is generic over a caller-supplied scalar type; the integer
//! factorizer that plans the mixed-radix recursion is fully specified and
//! proved here.

pub mod complex;
pub mod errors;
pub mod filter;
pub mod fourier;
pub mod logger;
pub mod matrix;
pub mod numbers;
pub mod parameter;
pub mod process;
pub mod scalar;
pub mod statistics;
pub mod vector;
