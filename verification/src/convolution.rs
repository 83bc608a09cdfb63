//! The unreduced product of two polynomials.
//!
//! Coefficient `i` of the product is the sum of `a[j] * b[k]` over all index
//! pairs with `j + k == i`. The sums are taken over the integers: nothing is
//! reduced modulo the field's prime here.

use vstd::arithmetic::div_mod::lemma_add_mod_noop_right;
use vstd::prelude::*;

use crate::field::{canonical, field_values, FieldElement, MODULUS};
use crate::polynomial::{largest, lemma_largest_bounds, reduced, Polynomial, N};

verus! {

/// The share that index `j` of `a` has in coefficient `i` of the product:
/// `a[j] * b[i - j]` where `b` has such an index, zero where not.
pub open spec fn convolution_term(a: Seq<u64>, b: Seq<u64>, i: int, j: int) -> int {
    if 0 <= j < a.len() && 0 <= i - j < b.len() {
        a[j] * b[i - j]
    } else {
        0
    }
}

/// The sum of the shares of the first `n` indices of `a` in coefficient `i`.
pub open spec fn convolution_partial(a: Seq<u64>, b: Seq<u64>, i: int, n: nat) -> int
    decreases n,
{
    if n == 0 {
        0
    } else {
        convolution_partial(a, b, i, (n - 1) as nat) + convolution_term(a, b, i, n - 1)
    }
}

/// Coefficient `i` of the product of `a` and `b`.
pub open spec fn convolution_coefficient(a: Seq<u64>, b: Seq<u64>, i: int) -> int {
    convolution_partial(a, b, i, a.len())
}

/// The product of `a` and `b`: `a.len() + b.len()` coefficients, lowest first.
pub open spec fn convolution(a: Seq<u64>, b: Seq<u64>) -> Seq<int> {
    Seq::new(a.len() + b.len(), |i: int| convolution_coefficient(a, b, i))
}

/// Every coefficient of the product of `a` and `b` fits in 64 bits.
pub open spec fn convolution_fits(a: Seq<u64>, b: Seq<u64>) -> bool {
    forall|i: int|
        0 <= i < a.len() + b.len() ==> #[trigger] convolution_coefficient(a, b, i) <= u64::MAX
}

/// The product of `a` and `b` over the field: each coefficient of the product
/// by its canonical representative.
pub open spec fn reduced_convolution(a: Seq<u64>, b: Seq<u64>) -> Seq<u64> {
    convolution(a, b).map_values(|value: int| canonical(value))
}

/// The integers that a sequence of machine words holds.
pub open spec fn as_integers(words: Seq<u64>) -> Seq<int> {
    words.map_values(|word: u64| word as int)
}

/// A share is never negative.
proof fn lemma_term_nonnegative(a: Seq<u64>, b: Seq<u64>, i: int, j: int)
    ensures
        0 <= convolution_term(a, b, i, j),
{
    if 0 <= j < a.len() && 0 <= i - j < b.len() {
        let x = a[j];
        let y = b[i - j];
        assert(0 <= x * y) by (nonlinear_arith);
    }
}

/// Partial sums grow with the number of indices taken.
proof fn lemma_partial_monotonic(a: Seq<u64>, b: Seq<u64>, i: int, m: nat, n: nat)
    requires
        m <= n,
    ensures
        0 <= convolution_partial(a, b, i, m) <= convolution_partial(a, b, i, n),
    decreases n,
{
    if n == 0 {
    } else if m == n {
        lemma_partial_monotonic(a, b, i, 0, (n - 1) as nat);
        lemma_term_nonnegative(a, b, i, n - 1);
    } else {
        lemma_partial_monotonic(a, b, i, m, (n - 1) as nat);
        lemma_term_nonnegative(a, b, i, n - 1);
    }
}

/// A partial sum reads only the indices of `a` that it takes.
proof fn lemma_partial_reads_prefix(a: Seq<u64>, shorter: Seq<u64>, b: Seq<u64>, i: int, n: nat)
    requires
        n <= shorter.len() <= a.len(),
        forall|j: int| 0 <= j < n ==> a[j] == shorter[j],
    ensures
        convolution_partial(a, b, i, n) == convolution_partial(shorter, b, i, n),
    decreases n,
{
    if n > 0 {
        lemma_partial_reads_prefix(a, shorter, b, i, (n - 1) as nat);
    }
}

/// Against an empty second factor every partial sum is zero.
proof fn lemma_partial_of_empty(b: Seq<u64>, i: int, n: nat)
    ensures
        convolution_partial(b, Seq::<u64>::empty(), i, n) == 0,
    decreases n,
{
    if n > 0 {
        lemma_partial_of_empty(b, i, (n - 1) as nat);
    }
}

/// Appending one coefficient to the second factor adds one product to a
/// partial sum, where the matching index of the first factor is among those
/// taken.
proof fn lemma_partial_second_extended(b: Seq<u64>, a: Seq<u64>, i: int, n: nat)
    requires
        a.len() > 0,
    ensures
        convolution_partial(b, a, i, n) == convolution_partial(b, a.drop_last(), i, n) + (if 0
            <= i - (a.len() - 1) < n && i - (a.len() - 1) < b.len() {
            b[i - (a.len() - 1)] * a.last()
        } else {
            0
        }),
    decreases n,
{
    if n > 0 {
        lemma_partial_second_extended(b, a, i, (n - 1) as nat);
    }
}

/// Coefficient `i` of the product does not depend on the order of the factors.
pub proof fn lemma_coefficient_commutative(a: Seq<u64>, b: Seq<u64>, i: int)
    ensures
        convolution_coefficient(a, b, i) == convolution_coefficient(b, a, i),
    decreases a.len(),
{
    if a.len() == 0 {
        assert(a =~= Seq::<u64>::empty());
        lemma_partial_of_empty(b, i, b.len());
    } else {
        let shorter = a.drop_last();
        let last = a.len() - 1;
        lemma_partial_reads_prefix(a, shorter, b, i, last as nat);
        lemma_coefficient_commutative(shorter, b, i);
        lemma_partial_second_extended(b, a, i, b.len());
        if 0 <= i - last < b.len() {
            let x = a[last];
            let y = b[i - last];
            assert(x * y == y * x) by (nonlinear_arith);
        }
    }
}

/// Multiplication of polynomials is commutative: the product of `a` and `b` is
/// the product of `b` and `a`.
pub proof fn lemma_convolution_commutative(a: Seq<u64>, b: Seq<u64>)
    ensures
        convolution(a, b) == convolution(b, a),
{
    assert forall|i: int| 0 <= i < a.len() + b.len() implies convolution(a, b)[i] == convolution(
        b,
        a,
    )[i] by {
        lemma_coefficient_commutative(a, b, i);
    }
    assert(convolution(a, b) =~= convolution(b, a));
}

/// Every partial sum is zero where the first factor is the zero polynomial.
proof fn lemma_partial_of_zero(a: Seq<u64>, b: Seq<u64>, i: int, n: nat)
    requires
        forall|j: int| 0 <= j < a.len() ==> a[j] == 0,
    ensures
        convolution_partial(a, b, i, n) == 0,
    decreases n,
{
    if n > 0 {
        lemma_partial_of_zero(a, b, i, (n - 1) as nat);
    }
}

/// The product of the zero polynomial and any other is zero in every
/// coefficient.
pub proof fn lemma_convolution_of_zero(a: Seq<u64>, b: Seq<u64>)
    requires
        forall|j: int| 0 <= j < a.len() ==> a[j] == 0,
    ensures
        convolution(a, b) == Seq::new(a.len() + b.len(), |i: int| 0int),
        convolution_fits(a, b),
{
    assert forall|i: int| 0 <= i < a.len() + b.len() implies #[trigger] convolution_coefficient(
        a,
        b,
        i,
    ) == 0 by {
        lemma_partial_of_zero(a, b, i, a.len());
    }
    assert(convolution(a, b) =~= Seq::new(a.len() + b.len(), |i: int| 0int));
}

/// Where the first factor is the constant one, a partial sum that takes at
/// least its lowest index is the matching coefficient of the second factor.
proof fn lemma_partial_of_one(a: Seq<u64>, b: Seq<u64>, i: int, n: nat)
    requires
        a.len() > 0,
        a[0] == 1,
        forall|j: int| 1 <= j < a.len() ==> a[j] == 0,
        n >= 1,
    ensures
        convolution_partial(a, b, i, n) == (if 0 <= i < b.len() {
            b[i] as int
        } else {
            0
        }),
    decreases n,
{
    if n > 1 {
        lemma_partial_of_one(a, b, i, (n - 1) as nat);
    } else {
        assert(convolution_partial(a, b, i, 0) == 0);
    }
}

/// The product of the constant polynomial one and `b` is `b`, followed by
/// zeros.
pub proof fn lemma_convolution_of_one(a: Seq<u64>, b: Seq<u64>)
    requires
        a.len() > 0,
        a[0] == 1,
        forall|j: int| 1 <= j < a.len() ==> a[j] == 0,
    ensures
        forall|i: int| 0 <= i < b.len() ==> convolution(a, b)[i] == b[i],
        forall|i: int| b.len() <= i < a.len() + b.len() ==> convolution(a, b)[i] == 0,
        convolution_fits(a, b),
{
    assert forall|i: int| 0 <= i < a.len() + b.len() implies #[trigger] convolution_coefficient(
        a,
        b,
        i,
    ) == (if i < b.len() {
        b[i] as int
    } else {
        0
    }) by {
        lemma_partial_of_one(a, b, i, a.len());
    }
}

/// A partial sum over `n` indices is at most `n` times the product of the
/// bounds on the two factors' coefficients.
proof fn lemma_partial_bounded(
    a: Seq<u64>,
    b: Seq<u64>,
    bound_a: nat,
    bound_b: nat,
    i: int,
    n: nat,
)
    requires
        forall|j: int| 0 <= j < a.len() ==> a[j] <= bound_a,
        forall|k: int| 0 <= k < b.len() ==> b[k] <= bound_b,
    ensures
        convolution_partial(a, b, i, n) <= n * (bound_a * bound_b),
    decreases n,
{
    if n > 0 {
        lemma_partial_bounded(a, b, bound_a, bound_b, i, (n - 1) as nat);
        let j = n - 1;
        assert(convolution_term(a, b, i, j) <= bound_a * bound_b) by {
            if 0 <= j < a.len() && 0 <= i - j < b.len() {
                let x = a[j];
                let y = b[i - j];
                assert(x * y <= bound_a * bound_b) by (nonlinear_arith)
                    requires
                        x <= bound_a,
                        y <= bound_b,
                ;
            } else {
                assert(0 <= bound_a * bound_b) by (nonlinear_arith);
            }
        }
        assert(n * (bound_a * bound_b) == (n - 1) * (bound_a * bound_b) + bound_a * bound_b)
            by (nonlinear_arith);
    } else {
        assert(0 * (bound_a * bound_b) == 0);
    }
}

/// The product fits in 64 bits where the coefficients of the factors are small
/// enough: with every coefficient of `a` at most `bound_a` and every
/// coefficient of `b` at most `bound_b`, no coefficient of the product exceeds
/// `a.len() * bound_a * bound_b`.
pub proof fn lemma_bounded_factors_fit(a: Seq<u64>, b: Seq<u64>, bound_a: nat, bound_b: nat)
    requires
        forall|j: int| 0 <= j < a.len() ==> a[j] <= bound_a,
        forall|k: int| 0 <= k < b.len() ==> b[k] <= bound_b,
        a.len() * (bound_a * bound_b) <= u64::MAX,
    ensures
        convolution_fits(a, b),
{
    assert forall|i: int| 0 <= i < a.len() + b.len() implies #[trigger] convolution_coefficient(
        a,
        b,
        i,
    ) <= u64::MAX by {
        lemma_partial_bounded(a, b, bound_a, bound_b, i, a.len());
    }
}

/// Computes the product of two polynomials, coefficient by coefficient and
/// without reduction.
///
/// The sums are accumulated in 64 bits, so the caller shows that every
/// coefficient of the product fits: `lemma_bounded_factors_fit` derives this
/// from bounds on the coefficients of the factors, and `checked_convolution`
/// tests it while multiplying.
pub fn mul_modulo_p(a: &Polynomial, b: &Polynomial) -> (c: [u64; 1024])
    requires
        convolution_fits(a@, b@),
    ensures
        as_integers(c@) == convolution(a@, b@),
{
    let mut c = [0u64;1024];
    let mut i: usize = 0;
    while i < N
        invariant
            i <= N,
            a@.len() == N,
            b@.len() == N,
            convolution_fits(a@, b@),
            forall|k: int| 0 <= k < 2 * N ==> c@[k] == convolution_partial(a@, b@, k, i as nat),
        decreases N - i,
    {
        let mut j: usize = 0;
        while j < N
            invariant
                i < N,
                j <= N,
                a@.len() == N,
                b@.len() == N,
                convolution_fits(a@, b@),
                forall|k: int|
                    0 <= k < 2 * N ==> c@[k] == convolution_partial(a@, b@, k, i as nat) + (if i
                        <= k < i + j {
                        convolution_term(a@, b@, k, i as int)
                    } else {
                        0
                    }),
            decreases N - j,
        {
            let x = a.coefficients[i].as_int();
            let y = b.coefficients[j].as_int();
            proof {
                let k = (i + j) as int;
                assert(convolution_term(a@, b@, k, i as int) == x * y);
                lemma_partial_monotonic(a@, b@, k, (i + 1) as nat, N as nat);
                lemma_partial_monotonic(a@, b@, k, 0, i as nat);
                assert(convolution_coefficient(a@, b@, k) <= u64::MAX);
            }
            c[i + j] = c[i + j] + x * y;
            j += 1;
        }
        i += 1;
    }
    assert(as_integers(c@) =~= convolution(a@, b@));
    c
}

/// Takes an unreduced product over into the field: each coefficient is mapped
/// to the field element it stands for.
pub fn reduce_product(product: &[u64; 1024]) -> (c: [FieldElement; 1024])
    ensures
        field_values(c@) == reduced(product@),
{
    let mut c = [FieldElement::zero();1024];
    let mut i: usize = 0;
    while i < 2 * N
        invariant
            i <= 2 * N,
            forall|k: int| 0 <= k < i ==> c@[k]@ == canonical(product@[k] as int),
        decreases 2 * N - i,
    {
        c[i] = FieldElement::new(product[i]);
        i += 1;
    }
    assert(field_values(c@) =~= reduced(product@));
    c
}

/// Tests whether the largest coefficients of `a` and `b` are small enough for
/// every coefficient of the product to fit in 64 bits: whether `N` times
/// their product does.
pub fn bounds_show_fit(a: &Polynomial, b: &Polynomial) -> (shown: bool)
    ensures
        shown == (N * (largest(a@) * largest(b@)) <= u64::MAX),
        shown ==> convolution_fits(a@, b@),
{
    let bound_a = a.largest_coefficient();
    let bound_b = b.largest_coefficient();
    let limit = u64::MAX / (N as u64);
    let shown = match bound_a.checked_mul(bound_b) {
        Some(product) => product <= limit,
        None => false,
    };
    proof {
        let product = bound_a * bound_b;
        assert(limit == u64::MAX / 512);
        assert(N * product == 512 * product);
        assert(0 <= product) by (nonlinear_arith)
            requires
                product == bound_a * bound_b,
        ;
        if shown {
            assert forall|j: int| 0 <= j < a@.len() implies a@[j] <= largest(a@) by {
                lemma_largest_bounds(a@, j);
            }
            assert forall|k: int| 0 <= k < b@.len() implies b@[k] <= largest(b@) by {
                lemma_largest_bounds(b@, k);
            }
            lemma_bounded_factors_fit(a@, b@, bound_a as nat, bound_b as nat);
        }
    }
    shown
}

/// Computes the product of two polynomials over the field: every coefficient
/// of the product, reduced modulo the prime. The sums are accumulated in 128
/// bits and reduced at each step, so that any two polynomials can be
/// multiplied.
pub fn mul_reduced(a: &Polynomial, b: &Polynomial) -> (c: [FieldElement; 1024])
    ensures
        field_values(c@) == reduced_convolution(a@, b@),
{
    let mut c = [FieldElement::zero();1024];
    let mut i: usize = 0;
    while i < N
        invariant
            i <= N,
            a@.len() == N,
            b@.len() == N,
            forall|k: int|
                0 <= k < 2 * N ==> c@[k]@ == canonical(convolution_partial(a@, b@, k, i as nat)),
        decreases N - i,
    {
        let mut j: usize = 0;
        while j < N
            invariant
                i < N,
                j <= N,
                a@.len() == N,
                b@.len() == N,
                forall|k: int|
                    0 <= k < 2 * N ==> c@[k]@ == canonical(
                        convolution_partial(a@, b@, k, i as nat) + (if i <= k < i + j {
                            convolution_term(a@, b@, k, i as int)
                        } else {
                            0
                        }),
                    ),
            decreases N - j,
        {
            let x = a.coefficients[i].as_int();
            let y = b.coefficients[j].as_int();
            let sum = c[i + j].as_int();
            proof {
                let k = (i + j) as int;
                assert(convolution_term(a@, b@, k, i as int) == x * y);
                assert(0 <= x * y <= (MODULUS - 1) * (MODULUS - 1)) by (nonlinear_arith)
                    requires
                        x < MODULUS,
                        y < MODULUS,
                ;
                lemma_add_mod_noop_right(
                    x * y,
                    convolution_partial(a@, b@, k, i as nat),
                    MODULUS as int,
                );
            }
            c[i + j] = FieldElement::from_u128(sum as u128 + (x as u128) * (y as u128));
            j += 1;
        }
        i += 1;
    }
    assert(field_values(c@) =~= reduced_convolution(a@, b@));
    c
}

/// Computes the product of two coefficient sequences of any length, or
/// reports that a coefficient of the product does not fit in 64 bits.
pub fn checked_convolution(a: &[u64], b: &[u64]) -> (result: Option<Vec<u64>>)
    requires
        a.len() + b.len() <= usize::MAX,
    ensures
        result is Some <==> convolution_fits(a@, b@),
        result matches Some(c) ==> c@.len() == a@.len() + b@.len() && as_integers(c@)
            == convolution(a@, b@),
{
    let n = a.len();
    let m = b.len();
    let mut c: Vec<u64> = Vec::with_capacity(n + m);
    let mut k: usize = 0;
    while k < n + m
        invariant
            k <= n + m <= usize::MAX,
            c.len() == k,
            forall|l: int| 0 <= l < k ==> c@[l] == 0,
        decreases n + m - k,
    {
        c.push(0);
        k += 1;
    }
    let mut i: usize = 0;
    while i < n
        invariant
            i <= n,
            n == a@.len(),
            m == b@.len(),
            n + m <= usize::MAX,
            c.len() == n + m,
            forall|l: int| 0 <= l < n + m ==> c@[l] == convolution_partial(a@, b@, l, i as nat),
        decreases n - i,
    {
        let mut j: usize = 0;
        while j < m
            invariant
                i < n,
                j <= m,
                n == a@.len(),
                m == b@.len(),
                n + m <= usize::MAX,
                c.len() == n + m,
                forall|l: int|
                    0 <= l < n + m ==> c@[l] == convolution_partial(a@, b@, l, i as nat) + (if i
                        <= l < i + j {
                        convolution_term(a@, b@, l, i as int)
                    } else {
                        0
                    }),
            decreases m - j,
        {
            proof {
                let l = (i + j) as int;
                assert(convolution_term(a@, b@, l, i as int) == a@[i as int] * b@[j as int]);
                lemma_partial_monotonic(a@, b@, l, (i + 1) as nat, n as nat);
                lemma_partial_monotonic(a@, b@, l, 0, i as nat);
            }
            let product = match a[i].checked_mul(b[j]) {
                Some(product) => product,
                None => {
                    assert(convolution_coefficient(a@, b@, (i + j) as int) > u64::MAX);
                    return None;
                },
            };
            let sum = match c[i + j].checked_add(product) {
                Some(sum) => sum,
                None => {
                    assert(convolution_coefficient(a@, b@, (i + j) as int) > u64::MAX);
                    return None;
                },
            };
            c.set(i + j, sum);
            j += 1;
        }
        i += 1;
    }
    assert forall|l: int| 0 <= l < n + m implies #[trigger] convolution_coefficient(a@, b@, l)
        <= u64::MAX by {
        assert(c@[l] == convolution_coefficient(a@, b@, l));
    }
    assert(as_integers(c@) =~= convolution(a@, b@));
    Some(c)
}

} // verus!
