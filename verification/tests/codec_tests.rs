use anvu_swap::codec::{decode_swap_data, encode_swap_data};
use anvu_swap::felt::Felt;
use anvu_swap::swap::{Route, SwapData, TokenFrom, TokenTo};

fn felt(n: u128) -> Felt {
    Felt::from_u128(n)
}

fn sample_route(percent: u128, params: Vec<Felt>) -> Route {
    Route {
        token_from: felt(0xa1),
        token_to: felt(0xa2),
        exchange_address: felt(0xe1),
        percent,
        additional_swap_params: params,
    }
}

fn sample_swap(routes: Vec<Route>) -> SwapData {
    SwapData::new(
        TokenFrom { address: felt(0x100), amount: 1_000_000 },
        TokenTo { address: felt(0x200), amount: 950_000, min_amount: 900_000 },
        felt(0x300),
        15,
        felt(0x400),
        routes,
    )
}

#[test]
fn round_trip_single_route() {
    let data = sample_swap(vec![sample_route(100, vec![])]);
    let encoded = encode_swap_data(&data);
    // Header of eight scalars, then the route count, then one route of
    // four scalars and an empty parameter list with its zero count.
    assert_eq!(encoded.len(), 9 + 5);
    assert_eq!(encoded[8], felt(1));
    let decoded = decode_swap_data(&encoded).expect("produced calldata must decode");
    assert_eq!(decoded, data);
}

#[test]
fn empty_routes_accepted_and_round_trip() {
    // Zero routes is accepted: construction validates nothing, and the
    // encoding carries an explicit zero count.
    let data = sample_swap(vec![]);
    let encoded = encode_swap_data(&data);
    assert_eq!(encoded.len(), 9);
    assert_eq!(encoded[8], felt(0));
    let decoded = decode_swap_data(&encoded).expect("produced calldata must decode");
    assert_eq!(decoded, data);
}

#[test]
fn field_order_is_declaration_order() {
    let r1 = sample_route(60, vec![felt(0x71), felt(0x72)]);
    let r2 = Route {
        token_from: felt(0xb1),
        token_to: felt(0xb2),
        exchange_address: felt(0xe2),
        percent: 40,
        additional_swap_params: vec![],
    };
    let data = sample_swap(vec![r1, r2]);
    let encoded = encode_swap_data(&data);
    let expected = vec![
        felt(0x100),
        felt(1_000_000),
        felt(0x200),
        felt(950_000),
        felt(900_000),
        felt(0x300),
        felt(15),
        felt(0x400),
        felt(2),
        // first route, in input order
        felt(0xa1),
        felt(0xa2),
        felt(0xe1),
        felt(60),
        felt(2),
        felt(0x71),
        felt(0x72),
        // second route
        felt(0xb1),
        felt(0xb2),
        felt(0xe2),
        felt(40),
        felt(0),
    ];
    assert_eq!(encoded, expected);
}

#[test]
fn equal_descriptors_encode_identically() {
    let a = sample_swap(vec![sample_route(100, vec![felt(9)])]);
    let b = sample_swap(vec![sample_route(100, vec![felt(9)])]);
    assert_eq!(a, b);
    assert_eq!(encode_swap_data(&a), encode_swap_data(&b));
}

#[test]
fn changed_field_changes_encoding() {
    let base = sample_swap(vec![sample_route(100, vec![])]);
    let mut other = base.clone();
    other.token_from_amount = 1_000_001;
    assert_ne!(encode_swap_data(&base), encode_swap_data(&other));

    let mut other_min = base.clone();
    other_min.token_to_min_amount = 899_999;
    assert_ne!(encode_swap_data(&base), encode_swap_data(&other_min));
}

#[test]
fn route_order_changes_encoding() {
    let r1 = sample_route(60, vec![]);
    let r2 = sample_route(40, vec![]);
    let forward = sample_swap(vec![r1.clone(), r2.clone()]);
    let backward = sample_swap(vec![r2, r1]);
    assert_ne!(encode_swap_data(&forward), encode_swap_data(&backward));
}

#[test]
fn decode_rejects_short_input() {
    assert_eq!(decode_swap_data(&vec![]), None);
    assert_eq!(decode_swap_data(&vec![felt(1), felt(2), felt(3)]), None);
}

#[test]
fn decode_rejects_trailing_data() {
    let data = sample_swap(vec![sample_route(100, vec![])]);
    let mut encoded = encode_swap_data(&data);
    encoded.push(felt(0));
    assert_eq!(decode_swap_data(&encoded), None);
}

#[test]
fn decode_rejects_wide_amount() {
    let data = sample_swap(vec![]);
    let mut encoded = encode_swap_data(&data);
    // 2^128 is a valid field element but no 128-bit amount.
    encoded[1] = Felt { hi: 1, lo: 0 };
    assert_eq!(decode_swap_data(&encoded), None);
}

#[test]
fn decode_rejects_overlong_route_count() {
    let data = sample_swap(vec![]);
    let mut encoded = encode_swap_data(&data);
    encoded[8] = felt(5);
    assert_eq!(decode_swap_data(&encoded), None);
}

#[test]
fn decode_rejects_truncated_route() {
    let data = sample_swap(vec![sample_route(100, vec![felt(7)])]);
    let mut encoded = encode_swap_data(&data);
    encoded.pop();
    assert_eq!(decode_swap_data(&encoded), None);
}
