use miden_client_tools::field::to_integers;
use miden_client_tools::{to_elements, FieldElement, Polynomial, PolynomialError, MODULUS, N};

#[test]
fn modulus_is_the_goldilocks_prime() {
    assert_eq!(MODULUS as u128, (1u128 << 64) - (1u128 << 32) + 1);
    assert_eq!(MODULUS, 18_446_744_069_414_584_321);
}

#[test]
fn small_integers_stand_for_themselves() {
    assert_eq!(FieldElement::new(0).as_int(), 0);
    assert_eq!(FieldElement::new(1).as_int(), 1);
    assert_eq!(FieldElement::new(12_288).as_int(), 12_288);
    assert_eq!(FieldElement::new(MODULUS - 1).as_int(), MODULUS - 1);
    assert_eq!(FieldElement::zero().as_int(), 0);
}

#[test]
fn large_integers_are_reduced() {
    assert_eq!(FieldElement::new(MODULUS).as_int(), 0);
    assert_eq!(FieldElement::new(MODULUS + 5).as_int(), 5);
    assert_eq!(FieldElement::new(u64::MAX).as_int(), 4_294_967_294);
    assert_eq!(FieldElement::new(u64::MAX), FieldElement::new((1 << 32) - 2));
}

#[test]
fn wide_integers_are_reduced() {
    assert_eq!(FieldElement::from_u128(0).as_int(), 0);
    assert_eq!(FieldElement::from_u128(MODULUS as u128 - 1).as_int(), MODULUS - 1);
    assert_eq!(FieldElement::from_u128(MODULUS as u128 * 3 + 17).as_int(), 17);
    assert_eq!(FieldElement::from_u128(1 << 64).as_int(), 4_294_967_295);
    assert_eq!(FieldElement::from_u128(u128::MAX).as_int(), (u128::MAX % MODULUS as u128) as u64);
}

#[test]
fn largest_coefficient_is_found_wherever_it_stands() {
    assert_eq!(Polynomial::zero().largest_coefficient(), 0);
    for index in [0, 1, N / 2, N - 1] {
        let mut values = vec![3u64; N];
        values[index] = 12_288;
        assert_eq!(Polynomial::from_integers(&values).unwrap().largest_coefficient(), 12_288);
    }
    let reduced = Polynomial::from_integers(&vec![u64::MAX; N]).unwrap();
    assert_eq!(reduced.largest_coefficient(), 4_294_967_294);
}

#[test]
fn reduction_agrees_with_the_field_of_the_virtual_machine() {
    for raw in [0, 1, 12_289, MODULUS - 1, MODULUS, MODULUS + 1, u64::MAX - 1, u64::MAX] {
        assert_eq!(FieldElement::new(raw).as_int(), miden_crypto::Felt::new(raw).as_int());
    }
}

#[test]
fn integers_of_elements_keep_their_order() {
    let elements = [FieldElement::new(3), FieldElement::new(MODULUS + 1), FieldElement::new(2)];
    assert_eq!(to_integers(&elements), vec![3, 1, 2]);
    assert_eq!(to_integers(&[]), Vec::<u64>::new());
}

#[test]
fn polynomial_takes_exactly_n_coefficients() {
    let values: Vec<u64> = (0..N as u64).collect();
    let polynomial = Polynomial::from_integers(&values).unwrap();
    assert_eq!(polynomial.to_integers(), values);
}

#[test]
fn polynomial_reduces_its_coefficients() {
    let mut values = vec![0u64; N];
    values[0] = MODULUS;
    values[1] = u64::MAX;
    values[N - 1] = MODULUS + 9;
    let polynomial = Polynomial::from_integers(&values).unwrap();
    let integers = polynomial.to_integers();
    assert_eq!(integers[0], 0);
    assert_eq!(integers[1], 4_294_967_294);
    assert_eq!(integers[2], 0);
    assert_eq!(integers[N - 1], 9);
}

#[test]
fn polynomial_rejects_too_few_coefficients() {
    let values = vec![1u64; N - 1];
    assert_eq!(
        Polynomial::from_integers(&values).err(),
        Some(PolynomialError::InvalidPolynomialLength { expected: 512, actual: 511 })
    );
    assert_eq!(
        Polynomial::from_integers(&[]).err(),
        Some(PolynomialError::InvalidPolynomialLength { expected: 512, actual: 0 })
    );
}

#[test]
fn polynomial_rejects_too_many_coefficients() {
    let values = vec![1u64; N + 1];
    assert_eq!(
        Polynomial::from_integers(&values).err(),
        Some(PolynomialError::InvalidPolynomialLength { expected: 512, actual: 513 })
    );
}

#[test]
fn polynomial_from_elements_checks_the_length() {
    let elements: Vec<FieldElement> = (0..N as u64).map(FieldElement::new).collect();
    let polynomial = Polynomial::from_elements(&elements).unwrap();
    assert_eq!(to_elements(&polynomial), elements);
    assert_eq!(
        Polynomial::from_elements(&elements[1..]).err(),
        Some(PolynomialError::InvalidPolynomialLength { expected: 512, actual: 511 })
    );
}

#[test]
fn zero_polynomial_has_n_zero_coefficients() {
    assert_eq!(Polynomial::zero().to_integers(), vec![0u64; N]);
    assert_eq!(N, 512);
}
