//! The base field of the Miden virtual machine.

use vstd::prelude::*;

verus! {

/// The prime `2^64 - 2^32 + 1` that the base field is taken modulo.
pub const MODULUS: u64 = 0xFFFF_FFFF_0000_0001;

/// An element of the base field, held as its canonical representative in
/// `[0, MODULUS)`.
#[derive(Clone, Copy, Debug, PartialEq, Eq, Structural)]
pub struct FieldElement {
    value: u64,
}

impl View for FieldElement {
    type V = u64;

    /// The canonical representative of the element.
    closed spec fn view(&self) -> u64 {
        self.value
    }
}

impl FieldElement {
    #[verifier::type_invariant]
    spec fn is_canonical(self) -> bool {
        self.value < MODULUS
    }

    /// The additive identity.
    pub fn zero() -> (element: FieldElement)
        ensures
            element@ == 0,
    {
        FieldElement { value: 0 }
    }

    /// Maps a raw integer to the field element it represents, reducing it
    /// modulo `MODULUS`.
    pub fn new(raw: u64) -> (element: FieldElement)
        ensures
            element@ == canonical(raw as int),
    {
        FieldElement { value: raw % MODULUS }
    }

    /// Maps a 128-bit integer to the field element it represents, reducing it
    /// modulo `MODULUS`.
    pub fn from_u128(raw: u128) -> (element: FieldElement)
        ensures
            element@ == canonical(raw as int),
    {
        FieldElement { value: (raw % (MODULUS as u128)) as u64 }
    }

    /// The canonical representative of the element.
    pub fn as_int(&self) -> (value: u64)
        ensures
            value == self@,
            value < MODULUS,
    {
        proof {
            use_type_invariant(self);
        }
        self.value
    }
}

/// The canonical representative of the field element that an integer stands
/// for.
pub open spec fn canonical(value: int) -> u64 {
    (value % (MODULUS as int)) as u64
}

/// The canonical representatives of a sequence of field elements.
pub open spec fn field_values(elements: Seq<FieldElement>) -> Seq<u64> {
    elements.map_values(|element: FieldElement| element@)
}

/// Every integer of `values` is a canonical representative.
pub open spec fn all_canonical(values: Seq<u64>) -> bool {
    forall|i: int| 0 <= i < values.len() ==> values[i] < MODULUS
}

/// The canonical representatives of `elements`, in order.
pub fn to_integers(elements: &[FieldElement]) -> (values: Vec<u64>)
    ensures
        values@ == field_values(elements@),
        all_canonical(values@),
{
    let mut values: Vec<u64> = Vec::with_capacity(elements.len());
    let mut i: usize = 0;
    while i < elements.len()
        invariant
            i <= elements.len(),
            values.len() == i,
            forall|k: int| 0 <= k < i ==> values@[k] == elements@[k]@ && values@[k] < MODULUS,
        decreases elements.len() - i,
    {
        values.push(elements[i].as_int());
        i += 1;
    }
    assert(values@ =~= field_values(elements@));
    values
}

} // verus!
