//! The advice stack: the challenge, then `h`, then `s2`, then their product.

use vstd::prelude::*;

use crate::convolution::{
    bounds_show_fit, lemma_convolution_of_zero, mul_modulo_p, mul_reduced, reduce_product,
    reduced_convolution,
};
use crate::field::{field_values, to_integers, FieldElement};
use crate::hasher::{challenge_values, derive_challenge, Challenge};
use crate::polynomial::{to_elements, Polynomial, N};

verus! {

/// The number of entries of an advice stack: the two of the challenge and the
/// `4 * N` of the polynomials.
pub const ADVICE_STACK_LEN: usize = 2 + 4 * N;

/// The values that are hashed and that follow the challenge on the stack:
/// the coefficients of `h`, those of `s2`, then those of their product, each
/// by its canonical representative.
pub open spec fn advice_payload(h: Seq<u64>, s2: Seq<u64>) -> Seq<u64> {
    h + s2 + reduced_convolution(h, s2)
}

/// A challenge followed by the values it was derived from.
pub open spec fn stack_of(challenge: (u64, u64), payload: Seq<u64>) -> Seq<u64> {
    seq![challenge.0, challenge.1] + payload
}

/// The advice stack of the signature polynomials `h` and `s2`.
pub open spec fn advice_stack(h: Seq<u64>, s2: Seq<u64>) -> Seq<u64> {
    stack_of(challenge_values(advice_payload(h, s2)), advice_payload(h, s2))
}

/// The advice stack of two polynomials of `N` coefficients has exactly
/// `2 + 4 * N` entries.
pub proof fn lemma_advice_stack_length(h: Seq<u64>, s2: Seq<u64>)
    requires
        h.len() == N,
        s2.len() == N,
    ensures
        advice_stack(h, s2).len() == 2 + 4 * N,
        advice_stack(h, s2).len() == 2050,
{
}

/// The order of the advice stack: the two elements of the challenge, then the
/// coefficients of `h`, then those of `s2`, then those of the product, each
/// in its own order.
pub proof fn lemma_advice_stack_order(h: Seq<u64>, s2: Seq<u64>)
    requires
        h.len() == N,
        s2.len() == N,
    ensures
        advice_stack(h, s2)[0] == challenge_values(advice_payload(h, s2)).0,
        advice_stack(h, s2)[1] == challenge_values(advice_payload(h, s2)).1,
        advice_stack(h, s2).subrange(2, 2 + N) == h,
        advice_stack(h, s2).subrange(2 + N, 2 + 2 * N) == s2,
        advice_stack(h, s2).subrange(2 + 2 * N, 2 + 4 * N) == reduced_convolution(h, s2),
{
    let stack = advice_stack(h, s2);
    assert(stack.subrange(2, 2 + N) =~= h);
    assert(stack.subrange(2 + N, 2 + 2 * N) =~= s2);
    assert(stack.subrange(2 + 2 * N, 2 + 4 * N) =~= reduced_convolution(h, s2));
}

/// The advice stack is determined by the coefficients of the two polynomials:
/// polynomials with the same coefficients have the same stack.
pub proof fn lemma_advice_stack_deterministic(
    h: Polynomial,
    s2: Polynomial,
    other_h: Polynomial,
    other_s2: Polynomial,
)
    requires
        h@ == other_h@,
        s2@ == other_s2@,
    ensures
        advice_stack(h@, s2@) == advice_stack(other_h@, other_s2@),
{
}

/// Where `h` is the zero polynomial, the part of the stack that holds the
/// product is zero throughout, and the challenge is the one derived from `h`,
/// `s2` and `2 * N` zeros.
pub proof fn lemma_advice_stack_of_zero(h: Seq<u64>, s2: Seq<u64>)
    requires
        h.len() == N,
        s2.len() == N,
        forall|i: int| 0 <= i < N ==> h[i] == 0,
    ensures
        advice_payload(h, s2) == h + s2 + Seq::new(2 * N as nat, |i: int| 0u64),
        advice_stack(h, s2) == stack_of(
            challenge_values(h + s2 + Seq::new(2 * N as nat, |i: int| 0u64)),
            h + s2 + Seq::new(2 * N as nat, |i: int| 0u64),
        ),
        advice_stack(h, s2).subrange(2 + 2 * N, 2 + 4 * N) == Seq::new(
            2 * N as nat,
            |i: int| 0u64,
        ),
{
    lemma_convolution_of_zero(h, s2);
    assert(advice_payload(h, s2) =~= h + s2 + Seq::new(2 * N as nat, |i: int| 0u64));
    assert(advice_stack(h, s2).subrange(2 + 2 * N, 2 + 4 * N) =~= Seq::new(
        2 * N as nat,
        |i: int| 0u64,
    ));
}

/// Multiplies `h` and `s2` and takes the product over into the field. Where
/// the largest coefficients show that the product fits in 64 bits per
/// coefficient, it is computed unreduced and then reduced; where they do not,
/// it is accumulated modulo the prime.
pub fn product_elements(h: &Polynomial, s2: &Polynomial) -> (product: [FieldElement; 1024])
    ensures
        field_values(product@) == reduced_convolution(h@, s2@),
{
    if bounds_show_fit(h, s2) {
        let pi = mul_modulo_p(h, s2);
        let product = reduce_product(&pi);
        assert(field_values(product@) =~= reduced_convolution(h@, s2@));
        product
    } else {
        mul_reduced(h, s2)
    }
}

/// Lays out the field elements that are hashed: the coefficients of `h`, then
/// those of `s2`, then those of `product`.
pub fn signature_elements(h: &Polynomial, s2: &Polynomial, product: &[FieldElement]) -> (elements:
    Vec<FieldElement>)
    ensures
        elements@ == h.coefficients@ + s2.coefficients@ + product@,
{
    let mut elements = to_elements(h);
    let mut i: usize = 0;
    while i < N
        invariant
            i <= N,
            elements.len() == N + i,
            forall|k: int| 0 <= k < N ==> elements@[k] == h.coefficients@[k],
            forall|k: int| 0 <= k < i ==> elements@[N + k] == s2.coefficients@[k],
        decreases N - i,
    {
        elements.push(s2.coefficients[i]);
        i += 1;
    }
    let mut j: usize = 0;
    while j < product.len()
        invariant
            j <= product.len(),
            elements.len() == 2 * N + j,
            forall|k: int| 0 <= k < N ==> elements@[k] == h.coefficients@[k],
            forall|k: int| 0 <= k < N ==> elements@[N + k] == s2.coefficients@[k],
            forall|k: int| 0 <= k < j ==> elements@[2 * N + k] == product@[k],
        decreases product.len() - j,
    {
        elements.push(product[j]);
        j += 1;
    }
    assert(elements@ =~= h.coefficients@ + s2.coefficients@ + product@);
    elements
}

/// Builds the stack from a challenge and the field elements that follow it.
pub fn advice_stack_with_challenge(challenge: Challenge, elements: &[FieldElement]) -> (stack: Vec<
    u64,
>)
    ensures
        stack@ == stack_of((challenge.0@, challenge.1@), field_values(elements@)),
{
    let mut stack: Vec<u64> = Vec::new();
    stack.push(challenge.0.as_int());
    stack.push(challenge.1.as_int());
    let mut values = to_integers(elements);
    stack.append(&mut values);
    assert(stack@ =~= stack_of((challenge.0@, challenge.1@), field_values(elements@)));
    stack
}

/// Generates the advice stack for verifying a signature with the polynomials
/// `h` and `s2`: the challenge, then `h`, `s2` and their product.
pub fn generate_advice_stack_from_signature(h: Polynomial, s2: Polynomial) -> (stack: Vec<u64>)
    ensures
        stack@ == advice_stack(h@, s2@),
        stack.len() == ADVICE_STACK_LEN,
        stack@[0] == challenge_values(advice_payload(h@, s2@)).0,
        stack@[1] == challenge_values(advice_payload(h@, s2@)).1,
        stack@.subrange(2, 2 + N) == h@,
        stack@.subrange(2 + N, 2 + 2 * N) == s2@,
        stack@.subrange(2 + 2 * N, 2 + 4 * N) == reduced_convolution(h@, s2@),
{
    let product = product_elements(&h, &s2);
    let elements = signature_elements(&h, &s2, product.as_slice());
    assert(field_values(elements@) =~= advice_payload(h@, s2@));
    let challenge = derive_challenge(elements.as_slice());
    let stack = advice_stack_with_challenge(challenge, elements.as_slice());
    proof {
        lemma_advice_stack_order(h@, s2@);
    }
    stack
}

} // verus!
