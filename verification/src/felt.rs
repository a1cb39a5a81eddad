//! Field elements: the fixed-width scalars of the target chain.
//!
//! A `Felt` carries a 256-bit value as two 128-bit halves; a valid field
//! element lies below the chain's scalar prime `felt_prime()`. Addresses,
//! identifiers and opaque venue parameters are all field elements, and the
//! calldata of a contract call is a sequence of them.

use vstd::prelude::*;

verus! {

/// The prime bounding the chain's scalar field: 2^251 + 17 * 2^192 + 1.
pub open spec fn felt_prime() -> int {
    0x800000000000011000000000000000000000000000000000000000000000001int
}

/// 2^128, the weight of the high half of a `Felt`.
pub open spec fn half_radix() -> int {
    0x100000000000000000000000000000000int
}

/// A field element, stored as `hi * 2^128 + lo`.
#[derive(Clone, Copy, PartialEq, Eq, Debug)]
pub struct Felt {
    pub hi: u128,
    pub lo: u128,
}

impl View for Felt {
    type V = int;

    open spec fn view(&self) -> int {
        self.hi * half_radix() + self.lo
    }
}

impl Felt {
    /// A valid field element lies strictly below the scalar prime.
    pub open spec fn wf(&self) -> bool {
        self@ < felt_prime()
    }

    /// The field element of a 128-bit unsigned amount.
    pub fn from_u128(n: u128) -> (r: Felt)
        ensures
            r@ == n as int,
            r.wf(),
    {
        Felt { hi: 0, lo: n }
    }

    /// A field element from its two 128-bit halves; the value must lie
    /// below the scalar prime.
    pub fn from_parts(hi: u128, lo: u128) -> (r: Felt)
        requires
            hi * half_radix() + lo < felt_prime(),
        ensures
            r@ == hi * half_radix() + lo,
            r.wf(),
    {
        Felt { hi, lo }
    }

    /// Whether this value is a valid field element, decided at run time.
    pub fn is_valid(&self) -> (b: bool)
        ensures
            b == self.wf(),
    {
        self.hi < 0x8000000000000110000000000000000
            || (self.hi == 0x8000000000000110000000000000000 && self.lo == 0)
    }
}

/// The 128-bit value a field element holds, where it holds one.
pub fn felt_as_u128(f: &Felt) -> (r: Option<u128>)
    ensures
        match r {
            Some(v) => f@ < half_radix() && v == f@,
            None => f@ >= half_radix(),
        },
{
    if f.hi == 0 {
        Some(f.lo)
    } else {
        None
    }
}

/// The values of a sequence of field elements.
pub open spec fn felts_view(s: Seq<Felt>) -> Seq<int> {
    s.map_values(|f: Felt| f@)
}

/// Appending a field element appends its value.
pub proof fn lemma_felts_view_push(s: Seq<Felt>, f: Felt)
    ensures
        felts_view(s.push(f)) == felts_view(s).push(f@),
{
    assert(felts_view(s.push(f)) =~= felts_view(s).push(f@));
}

} // verus!
