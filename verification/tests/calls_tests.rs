use anvu_swap::calls::anvu_swap_calls;
use anvu_swap::codec::encode_swap_data;
use anvu_swap::felt::Felt;
use anvu_swap::swap::{Route, SwapData, TokenFrom, TokenTo};

fn felt(n: u128) -> Felt {
    Felt::from_u128(n)
}

fn chain_felt_to_parts(f: starknet::core::types::Felt) -> Felt {
    let bytes = f.to_bytes_be();
    let hi = u128::from_be_bytes(bytes[..16].try_into().unwrap());
    let lo = u128::from_be_bytes(bytes[16..].try_into().unwrap());
    Felt { hi, lo }
}

fn sample_swap(amount: u128) -> SwapData {
    SwapData::new(
        TokenFrom { address: felt(0x100), amount },
        TokenTo { address: felt(0x200), amount: 950_000, min_amount: 900_000 },
        felt(0x300),
        15,
        felt(0x400),
        vec![Route {
            token_from: felt(0x100),
            token_to: felt(0x200),
            exchange_address: felt(0xe1),
            percent: 100,
            additional_swap_params: vec![],
        }],
    )
}

#[test]
fn two_calls_in_order() {
    let data = sample_swap(1_000_000);
    let contract = felt(0xc0ffee);
    let calls = anvu_swap_calls(&data, contract);
    assert_eq!(calls.len(), 2);
    assert_eq!(calls[0].to, data.token_from_address);
    assert_eq!(calls[1].to, contract);
}

#[test]
fn approval_amount_equals_input_amount() {
    let data = sample_swap(1_000_000);
    let contract = felt(0xc0ffee);
    let calls = anvu_swap_calls(&data, contract);
    assert_eq!(calls[0].calldata, vec![contract, felt(1_000_000)]);
}

#[test]
fn approval_amount_zero_only_for_zero_swap() {
    let data = sample_swap(0);
    let contract = felt(0xc0ffee);
    let calls = anvu_swap_calls(&data, contract);
    assert_eq!(calls[0].calldata, vec![contract, felt(0)]);
}

#[test]
fn approve_selector_matches_chain_derivation() {
    let data = sample_swap(1_000_000);
    let calls = anvu_swap_calls(&data, felt(0xc0ffee));
    // The well-known selector of "approve".
    let known = Felt {
        hi: 0x0219209e083275171774dab1df80982e,
        lo: 0x9df2096516f06319c5c6d71ae0a8480c,
    };
    assert_eq!(calls[0].selector, known);
    let derived = starknet::core::utils::get_selector_from_name("approve").unwrap();
    assert_eq!(calls[0].selector, chain_felt_to_parts(derived));
}

#[test]
fn swap_selector_matches_chain_derivation() {
    let data = sample_swap(1_000_000);
    let calls = anvu_swap_calls(&data, felt(0xc0ffee));
    let derived = starknet::core::utils::get_selector_from_name("anvu_swap").unwrap();
    assert_eq!(calls[1].selector, chain_felt_to_parts(derived));
}

#[test]
fn swap_call_carries_encoded_descriptor() {
    let data = sample_swap(1_000_000);
    let calls = anvu_swap_calls(&data, felt(0xc0ffee));
    assert_eq!(calls[1].calldata, encode_swap_data(&data));
}

#[test]
fn validity_check_accepts_and_rejects() {
    let data = sample_swap(1_000_000);
    assert!(data.is_valid());
    let mut bad = data.clone();
    // One above the scalar prime.
    bad.beneficiary = Felt { hi: 0x8000000000000110000000000000000, lo: 1 };
    assert!(!bad.is_valid());
}

#[test]
fn felt_construction() {
    let f = felt(7);
    assert_eq!(f.hi, 0);
    assert_eq!(f.lo, 7);
    assert!(f.is_valid());
    let g = Felt::from_parts(1, 2);
    assert_eq!(g.hi, 1);
    assert_eq!(g.lo, 2);
}
