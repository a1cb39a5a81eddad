//! Assembly of the atomic transaction: the ordered pair of contract calls
//! that one swap submits — an approval of exactly the input amount, then
//! the swap invocation carrying the encoded descriptor. Both calls travel
//! in one transaction, so they take effect together or not at all; the
//! submission itself is the caller's, outside this library.

use vstd::prelude::*;

verus! {

use crate::codec::{encode_swap_data, spec_encode_swap_data};
use crate::felt::{Felt, felt_prime, felts_view};
use crate::swap::SwapData;
use vstd::string::is_ascii;

/// One contract call: the contract addressed, the entry-point selector,
/// and the calldata handed to it.
#[derive(Clone, PartialEq, Eq, Debug)]
pub struct Call {
    pub to: Felt,
    pub selector: Felt,
    pub calldata: Vec<Felt>,
}

/// The mathematical value of a `Call`.
#[verifier::ext_equal]
pub struct CallView {
    pub to: int,
    pub selector: int,
    pub calldata: Seq<int>,
}

impl CallView {
    /// Validity: every scalar of the call is a field element.
    pub open spec fn wf(self) -> bool {
        &&& 0 <= self.to < felt_prime()
        &&& 0 <= self.selector < felt_prime()
        &&& forall|i: int| 0 <= i < self.calldata.len() ==> 0 <= #[trigger] self.calldata[i]
            < felt_prime()
    }
}

impl View for Call {
    type V = CallView;

    open spec fn view(&self) -> CallView {
        CallView { to: self.to@, selector: self.selector@, calldata: felts_view(self.calldata@) }
    }
}

/// The entry-point selector the chain derives from a function name; a
/// fixed function of the name alone.
pub uninterp spec fn selector_of(name: Seq<char>) -> int;

/// Relies on starknet::core::utils::get_selector_from_name: for an ASCII
/// name it returns the keccak of the name's bytes with the top six bits
/// cleared — below 2^250, hence a valid field element — and it depends on
/// the name alone. Only a non-ASCII name makes it fail.
#[verifier::external_body]
fn selector_from_name(name: &str) -> (r: Felt)
    requires
        is_ascii(name),
    ensures
        r@ == selector_of(name@),
        r.wf(),
{
    let f = starknet::core::utils::get_selector_from_name(name).unwrap();
    let bytes = f.to_bytes_be();
    let hi = u128::from_be_bytes(bytes[..16].try_into().unwrap());
    let lo = u128::from_be_bytes(bytes[16..].try_into().unwrap());
    Felt { hi, lo }
}

/// Builds the calls of one swap transaction, always exactly two and in
/// this order: first the approval call, addressed to the source token and
/// authorizing the swap contract to pull exactly the input amount — never
/// more, never unlimited; second the swap call, addressed to the swap
/// contract and carrying the full encoded descriptor.
pub fn anvu_swap_calls(swap_data: &SwapData, contract_address: Felt) -> (calls: Vec<Call>)
    requires
        swap_data@.wf(),
        contract_address.wf(),
    ensures
        calls@.len() == 2,
        calls@[0]@.to == swap_data@.token_from_address,
        calls@[0]@.selector == selector_of("approve"@),
        calls@[0]@.calldata == seq![contract_address@, swap_data@.token_from_amount],
        calls@[1]@.to == contract_address@,
        calls@[1]@.selector == selector_of("anvu_swap"@),
        calls@[1]@.calldata == spec_encode_swap_data(swap_data@),
        calls@[0]@.wf(),
        calls@[1]@.wf(),
{
    proof {
        reveal_strlit("approve");
        reveal_strlit("anvu_swap");
    }
    let approve_selector = selector_from_name("approve");
    let swap_selector = selector_from_name("anvu_swap");
    let mut approve_data: Vec<Felt> = Vec::new();
    approve_data.push(contract_address);
    approve_data.push(Felt::from_u128(swap_data.token_from_amount));
    let approve_call = Call {
        to: swap_data.token_from_address,
        selector: approve_selector,
        calldata: approve_data,
    };
    let swap_call = Call {
        to: contract_address,
        selector: swap_selector,
        calldata: encode_swap_data(swap_data),
    };
    let mut calls: Vec<Call> = Vec::new();
    calls.push(approve_call);
    calls.push(swap_call);
    proof {
        assert(calls@[0]@.calldata =~= seq![contract_address@, swap_data@.token_from_amount]);
        assert(calls@[1]@.calldata =~= spec_encode_swap_data(swap_data@));
    }
    calls
}

} // verus!
