//! Swap descriptors: the immutable value types describing one swap request.
//!
//! A `SwapData` is pure data in transit: it is assembled once per request,
//! encoded, and discarded. Construction performs no validation — every
//! constraint on the values (percentages summing to the whole, the minimum
//! not exceeding the desired amount) is the caller's or the contract's to
//! enforce. An empty route list is accepted and stands for a swap with no
//! recorded hops; the target contract decides whether that is meaningful.

use vstd::prelude::*;

verus! {

use crate::felt::{Felt, felt_prime, half_radix};

/// One hop of a multi-hop swap: the pair of tokens exchanged at one venue,
/// the venue's address, the share of the total amount routed through it,
/// and opaque venue-specific parameters passed through untouched.
#[derive(Clone, PartialEq, Eq, Debug)]
pub struct Route {
    pub token_from: Felt,
    pub token_to: Felt,
    pub exchange_address: Felt,
    pub percent: u128,
    pub additional_swap_params: Vec<Felt>,
}

/// The mathematical value of a `Route`: every scalar as an integer.
#[verifier::ext_equal]
pub struct RouteView {
    pub token_from: int,
    pub token_to: int,
    pub exchange_address: int,
    pub percent: int,
    pub additional_swap_params: Seq<int>,
}

impl RouteView {
    /// Validity: addresses and parameters are field elements, the
    /// percentage is a 128-bit unsigned value.
    pub open spec fn wf(self) -> bool {
        &&& 0 <= self.token_from < felt_prime()
        &&& 0 <= self.token_to < felt_prime()
        &&& 0 <= self.exchange_address < felt_prime()
        &&& 0 <= self.percent < half_radix()
        &&& forall|i: int|
            0 <= i < self.additional_swap_params.len() ==> 0 <= #[trigger] self.additional_swap_params[i]
                < felt_prime()
    }
}

impl View for Route {
    type V = RouteView;

    open spec fn view(&self) -> RouteView {
        RouteView {
            token_from: self.token_from@,
            token_to: self.token_to@,
            exchange_address: self.exchange_address@,
            percent: self.percent as int,
            additional_swap_params: self.additional_swap_params@.map_values(|f: Felt| f@),
        }
    }
}

/// The source side of a swap: the token spent and how much of it.
#[derive(Clone, Copy, PartialEq, Eq, Debug)]
pub struct TokenFrom {
    pub address: Felt,
    pub amount: u128,
}

/// The destination side of a swap: the token received, the desired amount,
/// and the minimum acceptable amount (the slippage floor).
#[derive(Clone, Copy, PartialEq, Eq, Debug)]
pub struct TokenTo {
    pub address: Felt,
    pub amount: u128,
    pub min_amount: u128,
}

/// The full swap instruction, in the field order of the wire contract.
#[derive(Clone, PartialEq, Eq, Debug)]
pub struct SwapData {
    pub token_from_address: Felt,
    pub token_from_amount: u128,
    pub token_to_address: Felt,
    pub token_to_amount: u128,
    pub token_to_min_amount: u128,
    pub beneficiary: Felt,
    pub integrator_fee_amount_bps: u128,
    pub integrator_fee_recipient: Felt,
    pub routes: Vec<Route>,
}

/// The mathematical value of a `SwapData`.
#[verifier::ext_equal]
pub struct SwapDataView {
    pub token_from_address: int,
    pub token_from_amount: int,
    pub token_to_address: int,
    pub token_to_amount: int,
    pub token_to_min_amount: int,
    pub beneficiary: int,
    pub integrator_fee_amount_bps: int,
    pub integrator_fee_recipient: int,
    pub routes: Seq<RouteView>,
}

impl SwapDataView {
    /// Validity: addresses are field elements, amounts and the fee rate are
    /// 128-bit unsigned values, and every route is valid.
    pub open spec fn wf(self) -> bool {
        &&& 0 <= self.token_from_address < felt_prime()
        &&& 0 <= self.token_from_amount < half_radix()
        &&& 0 <= self.token_to_address < felt_prime()
        &&& 0 <= self.token_to_amount < half_radix()
        &&& 0 <= self.token_to_min_amount < half_radix()
        &&& 0 <= self.beneficiary < felt_prime()
        &&& 0 <= self.integrator_fee_amount_bps < half_radix()
        &&& 0 <= self.integrator_fee_recipient < felt_prime()
        &&& forall|i: int| 0 <= i < self.routes.len() ==> (#[trigger] self.routes[i]).wf()
    }
}

impl View for SwapData {
    type V = SwapDataView;

    open spec fn view(&self) -> SwapDataView {
        SwapDataView {
            token_from_address: self.token_from_address@,
            token_from_amount: self.token_from_amount as int,
            token_to_address: self.token_to_address@,
            token_to_amount: self.token_to_amount as int,
            token_to_min_amount: self.token_to_min_amount as int,
            beneficiary: self.beneficiary@,
            integrator_fee_amount_bps: self.integrator_fee_amount_bps as int,
            integrator_fee_recipient: self.integrator_fee_recipient@,
            routes: self.routes@.map_values(|r: Route| r@),
        }
    }
}

impl SwapData {
    /// Assembles a `SwapData` from its parts, exactly as given: no field is
    /// validated, reordered or altered, and the route order is kept.
    pub fn new(
        token_from: TokenFrom,
        token_to: TokenTo,
        beneficiary: Felt,
        integrator_fee_amount_bps: u128,
        integrator_fee_recipient: Felt,
        routes: Vec<Route>,
    ) -> (r: SwapData)
        ensures
            r@.token_from_address == token_from.address@,
            r@.token_from_amount == token_from.amount as int,
            r@.token_to_address == token_to.address@,
            r@.token_to_amount == token_to.amount as int,
            r@.token_to_min_amount == token_to.min_amount as int,
            r@.beneficiary == beneficiary@,
            r@.integrator_fee_amount_bps == integrator_fee_amount_bps as int,
            r@.integrator_fee_recipient == integrator_fee_recipient@,
            r@.routes == routes@.map_values(|rt: Route| rt@),
    {
        SwapData {
            token_from_address: token_from.address,
            token_from_amount: token_from.amount,
            token_to_address: token_to.address,
            token_to_amount: token_to.amount,
            token_to_min_amount: token_to.min_amount,
            beneficiary,
            integrator_fee_amount_bps,
            integrator_fee_recipient,
            routes,
        }
    }

    /// Whether this descriptor's scalars are all valid field elements,
    /// decided at run time.
    pub fn is_valid(&self) -> (b: bool)
        ensures
            b == self@.wf(),
    {
        if !(self.token_from_address.is_valid() && self.token_to_address.is_valid()
            && self.beneficiary.is_valid() && self.integrator_fee_recipient.is_valid()) {
            return false;
        }
        let mut i: usize = 0;
        while i < self.routes.len()
            invariant
                0 <= i <= self.routes@.len(),
                forall|j: int| 0 <= j < i ==> (#[trigger] self.routes@[j])@.wf(),
            decreases self.routes@.len() - i,
        {
            if !route_is_valid(&self.routes[i]) {
                assert(!self@.routes[i as int].wf());
                return false;
            }
            i += 1;
        }
        assert(forall|j: int| 0 <= j < self@.routes.len() ==> (#[trigger] self@.routes[j]).wf());
        true
    }
}

/// Whether one route's scalars are all valid field elements, decided at
/// run time.
pub fn route_is_valid(r: &Route) -> (b: bool)
    ensures
        b == r@.wf(),
{
    if !(r.token_from.is_valid() && r.token_to.is_valid() && r.exchange_address.is_valid()) {
        return false;
    }
    let mut i: usize = 0;
    while i < r.additional_swap_params.len()
        invariant
            0 <= i <= r.additional_swap_params@.len(),
            forall|j: int| 0 <= j < i ==> (#[trigger] r.additional_swap_params@[j]).wf(),
        decreases r.additional_swap_params@.len() - i,
    {
        if !r.additional_swap_params[i].is_valid() {
            assert(!(0 <= r@.additional_swap_params[i as int] < felt_prime()));
            return false;
        }
        i += 1;
    }
    assert(forall|j: int|
        0 <= j < r@.additional_swap_params.len() ==> 0 <= #[trigger] r@.additional_swap_params[j]
            < felt_prime());
    true
}

} // verus!
