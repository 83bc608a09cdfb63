//! Advice-stack preparation for verifying an RPO Falcon-512 signature inside
//! the Miden virtual machine.
//!
//! The virtual machine checks a signature without multiplying polynomials
//! itself: it is handed the two signature polynomials `h` and `s2`, their
//! product, and a challenge derived by hashing all three. This crate computes
//! that product and lays the values out in the order the verifier reads them.
//!
//! - [`field`]: elements of the base field, held by their canonical
//!   representatives.
//! - [`polynomial`]: polynomials of exactly `N` coefficients.
//! - [`convolution`]: the product of two polynomials, unreduced in 64 bits
//!   where it fits and reduced modulo the prime for any input.
//! - [`hasher`]: the RPO-256 digest and the challenge taken from it.
//! - [`advice`]: the advice stack itself.

pub mod advice;
pub mod convolution;
pub mod field;
pub mod hasher;
pub mod polynomial;

pub use advice::{
    advice_stack_with_challenge, generate_advice_stack_from_signature, product_elements,
    signature_elements, ADVICE_STACK_LEN,
};
pub use convolution::{
    bounds_show_fit, checked_convolution, mul_modulo_p, mul_reduced, reduce_product,
};
pub use field::{FieldElement, MODULUS};
pub use hasher::{challenge_from_digest, derive_challenge, Challenge};
pub use polynomial::{to_elements, Polynomial, PolynomialError, N};
