//! Polynomials of the signature scheme: exactly `N` coefficients in the base
//! field.

use vstd::prelude::*;

use crate::field::{all_canonical, canonical, field_values, to_integers, FieldElement};

verus! {

/// The number of coefficients of a polynomial.
pub const N: usize = 512;

/// Why a sequence of coefficients was not accepted as a polynomial.
#[derive(Clone, Copy, Debug, PartialEq, Eq)]
pub enum PolynomialError {
    /// The sequence did not hold exactly `expected` coefficients.
    InvalidPolynomialLength { expected: usize, actual: usize },
}

/// A polynomial of degree below `N` over the base field, lowest coefficient
/// first.
#[derive(Clone, Copy, Debug)]
pub struct Polynomial {
    pub coefficients: [FieldElement; N],
}

impl View for Polynomial {
    type V = Seq<u64>;

    /// The canonical representatives of the coefficients, lowest first.
    open spec fn view(&self) -> Seq<u64> {
        field_values(self.coefficients@)
    }
}

impl Polynomial {
    /// The polynomial whose coefficients are all zero.
    pub fn zero() -> (polynomial: Polynomial)
        ensures
            polynomial@ == Seq::new(N as nat, |i: int| 0u64),
    {
        let polynomial = Polynomial { coefficients: [FieldElement::zero();N] };
        assert(polynomial@ =~= Seq::new(N as nat, |i: int| 0u64));
        polynomial
    }

    /// Builds a polynomial from `N` field elements.
    pub fn from_elements(elements: &[FieldElement]) -> (result: Result<Polynomial, PolynomialError>)
        ensures
            elements.len() == N ==> result is Ok && result->Ok_0@ == field_values(elements@),
            elements.len() != N ==> result == Err::<Polynomial, PolynomialError>(
                PolynomialError::InvalidPolynomialLength { expected: N, actual: elements.len() },
            ),
    {
        if elements.len() != N {
            return Err(
                PolynomialError::InvalidPolynomialLength { expected: N, actual: elements.len() },
            );
        }
        let mut coefficients = [FieldElement::zero();N];
        let mut i: usize = 0;
        while i < N
            invariant
                i <= N,
                elements.len() == N,
                forall|k: int| 0 <= k < i ==> coefficients@[k] == elements@[k],
            decreases N - i,
        {
            coefficients[i] = elements[i];
            i += 1;
        }
        let polynomial = Polynomial { coefficients };
        assert(polynomial@ =~= field_values(elements@));
        Ok(polynomial)
    }

    /// Builds a polynomial from `N` integers, each standing for the field
    /// element it is congruent to.
    pub fn from_integers(values: &[u64]) -> (result: Result<Polynomial, PolynomialError>)
        ensures
            values.len() == N ==> result is Ok && result->Ok_0@ == reduced(values@),
            values.len() != N ==> result == Err::<Polynomial, PolynomialError>(
                PolynomialError::InvalidPolynomialLength { expected: N, actual: values.len() },
            ),
    {
        if values.len() != N {
            return Err(
                PolynomialError::InvalidPolynomialLength { expected: N, actual: values.len() },
            );
        }
        let mut coefficients = [FieldElement::zero();N];
        let mut i: usize = 0;
        while i < N
            invariant
                i <= N,
                values.len() == N,
                forall|k: int| 0 <= k < i ==> coefficients@[k]@ == canonical(values@[k] as int),
            decreases N - i,
        {
            coefficients[i] = FieldElement::new(values[i]);
            i += 1;
        }
        let polynomial = Polynomial { coefficients };
        assert(polynomial@ =~= reduced(values@));
        Ok(polynomial)
    }

    /// The largest canonical representative among the coefficients.
    pub fn largest_coefficient(&self) -> (bound: u64)
        ensures
            bound == largest(self@),
    {
        let mut bound: u64 = 0;
        let mut i: usize = 0;
        while i < N
            invariant
                i <= N,
                bound == largest(self@.take(i as int)),
            decreases N - i,
        {
            let value = self.coefficients[i].as_int();
            assert(self@.take(i + 1).drop_last() =~= self@.take(i as int));
            if value > bound {
                bound = value;
            }
            i += 1;
        }
        assert(self@.take(N as int) =~= self@);
        bound
    }

    /// The canonical representatives of the coefficients, lowest first.
    pub fn to_integers(&self) -> (values: Vec<u64>)
        ensures
            values@ == self@,
            all_canonical(values@),
    {
        to_integers(self.coefficients.as_slice())
    }
}

/// The coefficients of `polynomial` as a vector of field elements, lowest
/// first.
pub fn to_elements(polynomial: &Polynomial) -> (elements: Vec<FieldElement>)
    ensures
        elements@ == polynomial.coefficients@,
{
    let mut elements: Vec<FieldElement> = Vec::with_capacity(N);
    let mut i: usize = 0;
    while i < N
        invariant
            i <= N,
            elements.len() == i,
            forall|k: int| 0 <= k < i ==> elements@[k] == polynomial.coefficients@[k],
        decreases N - i,
    {
        elements.push(polynomial.coefficients[i]);
        i += 1;
    }
    assert(elements@ =~= polynomial.coefficients@);
    elements
}

/// The largest of `values`, zero where there are none.
pub open spec fn largest(values: Seq<u64>) -> u64
    decreases values.len(),
{
    if values.len() == 0 {
        0
    } else if values.last() > largest(values.drop_last()) {
        values.last()
    } else {
        largest(values.drop_last())
    }
}

/// No value exceeds the largest.
pub proof fn lemma_largest_bounds(values: Seq<u64>, i: int)
    requires
        0 <= i < values.len(),
    ensures
        values[i] <= largest(values),
    decreases values.len(),
{
    if i < values.len() - 1 {
        lemma_largest_bounds(values.drop_last(), i);
    }
}

/// Each integer of `values` replaced by the canonical representative of its
/// residue class.
pub open spec fn reduced(values: Seq<u64>) -> Seq<u64> {
    values.map_values(|value: u64| canonical(value as int))
}

} // verus!
