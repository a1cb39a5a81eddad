//! The wire contract: the exact calldata layout the deployed swap contract
//! decodes, and a symmetric decoder.
//!
//! A `SwapData` serializes to a sequence of field elements holding its
//! scalar fields in declaration order, with the route list (and each
//! route's parameter list) prefixed by its element count. The layout is
//! fixed: any reordering, omission or width change would make the contract
//! decode garbage rather than reject, so the encoding here is append-only
//! and exact, and the decoder accepts precisely the streams the encoder
//! emits.

use vstd::prelude::*;

verus! {

use crate::felt::{Felt, felt_as_u128, felts_view, half_radix, lemma_felts_view_push};
use crate::swap::{Route, RouteView, SwapData, SwapDataView};

/// The encoding of one route: token_from, token_to, exchange_address,
/// percent, then the parameter list prefixed by its count.
pub open spec fn spec_encode_route(r: RouteView) -> Seq<int> {
    seq![
        r.token_from,
        r.token_to,
        r.exchange_address,
        r.percent,
        r.additional_swap_params.len() as int,
    ] + r.additional_swap_params
}

/// The encoding of a route list: each route's encoding in input order.
pub open spec fn spec_encode_routes(rs: Seq<RouteView>) -> Seq<int>
    decreases rs.len(),
{
    if rs.len() == 0 {
        Seq::empty()
    } else {
        spec_encode_route(rs[0]) + spec_encode_routes(rs.skip(1))
    }
}

/// The full calldata of a swap: the eight scalar fields in declaration
/// order, the route count, then the route encodings in input order.
pub open spec fn spec_encode_swap_data(d: SwapDataView) -> Seq<int> {
    seq![
        d.token_from_address,
        d.token_from_amount,
        d.token_to_address,
        d.token_to_amount,
        d.token_to_min_amount,
        d.beneficiary,
        d.integrator_fee_amount_bps,
        d.integrator_fee_recipient,
        d.routes.len() as int,
    ] + spec_encode_routes(d.routes)
}

/// Reads one route from the front of a stream; yields the route and what
/// follows it, or nothing where the stream does not start with a route.
pub open spec fn spec_decode_route(s: Seq<int>) -> Option<(RouteView, Seq<int>)> {
    if s.len() < 5 {
        None
    } else if !(0 <= s[3] < half_radix()) {
        None
    } else if !(0 <= s[4] <= s.len() - 5) {
        None
    } else {
        let k = s[4];
        Some(
            (
                RouteView {
                    token_from: s[0],
                    token_to: s[1],
                    exchange_address: s[2],
                    percent: s[3],
                    additional_swap_params: s.subrange(5, 5 + k),
                },
                s.skip(5 + k),
            ),
        )
    }
}

/// Reads `n` routes from the front of a stream.
pub open spec fn spec_decode_routes(s: Seq<int>, n: int) -> Option<(Seq<RouteView>, Seq<int>)>
    decreases n,
{
    if n <= 0 {
        Some((Seq::empty(), s))
    } else {
        match spec_decode_route(s) {
            None => None,
            Some((r, rest)) => match spec_decode_routes(rest, n - 1) {
                None => None,
                Some((rs, tail)) => Some((seq![r] + rs, tail)),
            },
        }
    }
}

/// Reads a whole swap descriptor: the eight scalars, the route count, and
/// exactly that many routes, with nothing left over.
pub open spec fn spec_decode_swap_data(s: Seq<int>) -> Option<SwapDataView> {
    if s.len() < 9 {
        None
    } else if !(0 <= s[1] < half_radix() && 0 <= s[3] < half_radix() && 0 <= s[4] < half_radix()
        && 0 <= s[6] < half_radix() && 0 <= s[8]) {
        None
    } else {
        match spec_decode_routes(s.skip(9), s[8]) {
            None => None,
            Some((rs, tail)) => if tail.len() == 0 {
                Some(
                    SwapDataView {
                        token_from_address: s[0],
                        token_from_amount: s[1],
                        token_to_address: s[2],
                        token_to_amount: s[3],
                        token_to_min_amount: s[4],
                        beneficiary: s[5],
                        integrator_fee_amount_bps: s[6],
                        integrator_fee_recipient: s[7],
                        routes: rs,
                    },
                )
            } else {
                None
            },
        }
    }
}

/// Appending a route to the list appends its encoding: the encoding keeps
/// the input order of the routes and never reorders or drops one.
pub proof fn lemma_encode_routes_snoc(rs: Seq<RouteView>, r: RouteView)
    ensures
        spec_encode_routes(rs.push(r)) == spec_encode_routes(rs) + spec_encode_route(r),
    decreases rs.len(),
{
    if rs.len() == 0 {
        assert(rs.push(r)[0] == r);
        assert(rs.push(r).skip(1) =~= Seq::<RouteView>::empty());
        assert(spec_encode_routes(rs.push(r)) == spec_encode_route(r) + spec_encode_routes(
            Seq::<RouteView>::empty(),
        ));
        assert(spec_encode_routes(rs.push(r)) =~= spec_encode_routes(rs) + spec_encode_route(r));
    } else {
        lemma_encode_routes_snoc(rs.skip(1), r);
        assert(rs.push(r).skip(1) =~= rs.skip(1).push(r));
        assert(rs.push(r)[0] == rs[0]);
        assert(spec_encode_routes(rs.push(r)) =~= spec_encode_routes(rs) + spec_encode_route(r));
    }
}

/// The calldata of a swap with `n` routes opens with its scalar fields,
/// carries `n` in the count position, and closes with the route encodings.
pub proof fn lemma_swap_data_layout(d: SwapDataView)
    ensures
        spec_encode_swap_data(d).len() == 9 + spec_encode_routes(d.routes).len(),
        spec_encode_swap_data(d)[8] == d.routes.len() as int,
        spec_encode_swap_data(d).skip(9) == spec_encode_routes(d.routes),
{
    assert(spec_encode_swap_data(d).skip(9) =~= spec_encode_routes(d.routes));
}

proof fn lemma_decode_route_of_encode(r: RouteView, rest: Seq<int>)
    requires
        0 <= r.percent < half_radix(),
    ensures
        spec_decode_route(spec_encode_route(r) + rest) == Some((r, rest)),
{
    let s = spec_encode_route(r) + rest;
    let k = r.additional_swap_params.len() as int;
    assert(s.len() == 5 + k + rest.len());
    assert(s[4] == k);
    assert(s.subrange(5, 5 + k) =~= r.additional_swap_params);
    assert(s.skip(5 + k) =~= rest);
    assert(spec_decode_route(s)->Some_0.0 =~= r);
}

proof fn lemma_decode_routes_of_encode(rs: Seq<RouteView>, rest: Seq<int>)
    requires
        forall|i: int| 0 <= i < rs.len() ==> 0 <= (#[trigger] rs[i]).percent < half_radix(),
    ensures
        spec_decode_routes(spec_encode_routes(rs) + rest, rs.len() as int) == Some((rs, rest)),
    decreases rs.len(),
{
    if rs.len() == 0 {
        assert(spec_encode_routes(rs) + rest =~= rest);
    } else {
        let tail_enc = spec_encode_routes(rs.skip(1)) + rest;
        lemma_decode_route_of_encode(rs[0], tail_enc);
        assert(spec_encode_routes(rs) + rest =~= spec_encode_route(rs[0]) + tail_enc);
        lemma_decode_routes_of_encode(rs.skip(1), rest);
        assert(seq![rs[0]] + rs.skip(1) =~= rs);
    }
}

/// Round trip: decoding what the encoder produced for a valid descriptor
/// yields exactly that descriptor.
pub proof fn lemma_decode_of_encode(d: SwapDataView)
    requires
        d.wf(),
    ensures
        spec_decode_swap_data(spec_encode_swap_data(d)) == Some(d),
{
    let s = spec_encode_swap_data(d);
    assert(forall|i: int|
        0 <= i < d.routes.len() ==> 0 <= (#[trigger] d.routes[i]).percent < half_radix());
    lemma_decode_routes_of_encode(d.routes, Seq::empty());
    assert(spec_encode_routes(d.routes) + Seq::<int>::empty() =~= spec_encode_routes(d.routes));
    assert(s.skip(9) =~= spec_encode_routes(d.routes));
    assert(spec_decode_swap_data(s)->Some_0 =~= d);
}

/// Appends one route's encoding to the calldata being built.
fn encode_route_into(out: &mut Vec<Felt>, r: &Route)
    requires
        r@.wf(),
        forall|i: int| 0 <= i < old(out)@.len() ==> (#[trigger] old(out)@[i]).wf(),
    ensures
        felts_view(final(out)@) == felts_view(old(out)@) + spec_encode_route(r@),
        forall|i: int| 0 <= i < final(out)@.len() ==> (#[trigger] final(out)@[i]).wf(),
{
    let ghost base: Seq<int> = felts_view(out@);
    out.push(r.token_from);
    out.push(r.token_to);
    out.push(r.exchange_address);
    out.push(Felt::from_u128(r.percent));
    let k = r.additional_swap_params.len();
    out.push(Felt::from_u128(k as u128));
    assert(felts_view(out@) =~= base + seq![
        r@.token_from,
        r@.token_to,
        r@.exchange_address,
        r@.percent,
        r@.additional_swap_params.len() as int,
    ]);
    let mut t: usize = 0;
    while t < k
        invariant
            0 <= t <= k,
            k == r.additional_swap_params@.len(),
            r@.wf(),
            felts_view(out@) == base + seq![
                r@.token_from,
                r@.token_to,
                r@.exchange_address,
                r@.percent,
                r@.additional_swap_params.len() as int,
            ] + r@.additional_swap_params.subrange(0, t as int),
            forall|i: int| 0 <= i < out@.len() ==> (#[trigger] out@[i]).wf(),
        decreases k - t,
    {
        let ghost prev: Seq<Felt> = out@;
        out.push(r.additional_swap_params[t]);
        proof {
            lemma_felts_view_push(prev, r.additional_swap_params@[t as int]);
            assert(r.additional_swap_params@[t as int]@ == r@.additional_swap_params[t as int]);
            assert(felts_view(out@) =~= base + seq![
                r@.token_from,
                r@.token_to,
                r@.exchange_address,
                r@.percent,
                r@.additional_swap_params.len() as int,
            ] + r@.additional_swap_params.subrange(0, t + 1));
            assert(0 <= r@.additional_swap_params[t as int] < crate::felt::felt_prime());
        }
        t += 1;
    }
    proof {
        assert(r@.additional_swap_params.subrange(0, k as int) =~= r@.additional_swap_params);
        assert(felts_view(out@) =~= base + spec_encode_route(r@));
    }
}

/// Serializes a swap descriptor into the calldata the contract expects:
/// the exact field-element stream `spec_encode_swap_data` names.
pub fn encode_swap_data(d: &SwapData) -> (out: Vec<Felt>)
    requires
        d@.wf(),
    ensures
        felts_view(out@) == spec_encode_swap_data(d@),
        forall|i: int| 0 <= i < out@.len() ==> (#[trigger] out@[i]).wf(),
{
    let mut out: Vec<Felt> = Vec::new();
    out.push(d.token_from_address);
    out.push(Felt::from_u128(d.token_from_amount));
    out.push(d.token_to_address);
    out.push(Felt::from_u128(d.token_to_amount));
    out.push(Felt::from_u128(d.token_to_min_amount));
    out.push(d.beneficiary);
    out.push(Felt::from_u128(d.integrator_fee_amount_bps));
    out.push(d.integrator_fee_recipient);
    out.push(Felt::from_u128(d.routes.len() as u128));
    let ghost header: Seq<int> = seq![
        d@.token_from_address,
        d@.token_from_amount,
        d@.token_to_address,
        d@.token_to_amount,
        d@.token_to_min_amount,
        d@.beneficiary,
        d@.integrator_fee_amount_bps,
        d@.integrator_fee_recipient,
        d@.routes.len() as int,
    ];
    assert(felts_view(out@) =~= header);
    let n = d.routes.len();
    let mut i: usize = 0;
    while i < n
        invariant
            0 <= i <= n,
            n == d.routes@.len(),
            d@.wf(),
            d@.routes.len() == n,
            felts_view(out@) == header + spec_encode_routes(d@.routes.subrange(0, i as int)),
            forall|j: int| 0 <= j < out@.len() ==> (#[trigger] out@[j]).wf(),
        decreases n - i,
    {
        proof {
            assert(d@.routes[i as int] == d.routes@[i as int]@);
            assert(d@.routes[i as int].wf());
        }
        encode_route_into(&mut out, &d.routes[i]);
        proof {
            lemma_encode_routes_snoc(d@.routes.subrange(0, i as int), d@.routes[i as int]);
            assert(d@.routes.subrange(0, i + 1) =~= d@.routes.subrange(0, i as int).push(
                d@.routes[i as int],
            ));
            assert(felts_view(out@) =~= header + spec_encode_routes(
                d@.routes.subrange(0, i + 1),
            ));
        }
        i += 1;
    }
    proof {
        assert(d@.routes.subrange(0, n as int) =~= d@.routes);
        assert(felts_view(out@) =~= spec_encode_swap_data(d@));
    }
    out
}

/// A decoded route prefix glued onto the outcome of decoding the rest.
spec fn prepend_routes(prefix: Seq<RouteView>, o: Option<(Seq<RouteView>, Seq<int>)>) -> Option<
    (Seq<RouteView>, Seq<int>),
> {
    match o {
        Some(p) => Some((prefix + p.0, p.1)),
        None => None,
    }
}

proof fn lemma_prepend_routes_nil(o: Option<(Seq<RouteView>, Seq<int>)>)
    ensures
        prepend_routes(Seq::empty(), o) == o,
{
    match o {
        Some(p) => {
            assert(Seq::empty() + p.0 =~= p.0);
        },
        None => {},
    }
}

proof fn lemma_prepend_routes_assoc(
    a: Seq<RouteView>,
    b: Seq<RouteView>,
    o: Option<(Seq<RouteView>, Seq<int>)>,
)
    ensures
        prepend_routes(a, prepend_routes(b, o)) == prepend_routes(a + b, o),
{
    match o {
        Some(p) => {
            assert(a + (b + p.0) =~= (a + b) + p.0);
        },
        None => {},
    }
}

proof fn lemma_decode_routes_unfold(s: Seq<int>, n: int)
    requires
        n > 0,
    ensures
        spec_decode_routes(s, n) == match spec_decode_route(s) {
            None => None,
            Some(p) => prepend_routes(seq![p.0], spec_decode_routes(p.1, n - 1)),
        },
{
    match spec_decode_route(s) {
        None => {},
        Some(p) => {
            match spec_decode_routes(p.1, n - 1) {
                None => {},
                Some(q) => {},
            }
        },
    }
}

proof fn lemma_decode_routes_needs_input(s: Seq<int>, n: int)
    requires
        n > s.len(),
    ensures
        spec_decode_routes(s, n) == None::<(Seq<RouteView>, Seq<int>)>,
    decreases n,
{
    match spec_decode_route(s) {
        None => {},
        Some(p) => {
            assert(p.1.len() <= s.len() - 5);
            lemma_decode_routes_needs_input(p.1, n - 1);
        },
    }
}

/// Reads one route starting at `pos`; yields the route and the position
/// just past it.
fn decode_route(calldata: &Vec<Felt>, pos: usize) -> (r: Option<(Route, usize)>)
    requires
        pos <= calldata@.len(),
        forall|i: int| 0 <= i < calldata@.len() ==> (#[trigger] calldata@[i]).wf(),
    ensures
        match r {
            Some(p) => {
                &&& pos < p.1 <= calldata@.len()
                &&& spec_decode_route(felts_view(calldata@).skip(pos as int)) == Some(
                    (p.0@, felts_view(calldata@).skip(p.1 as int)),
                )
                &&& p.0@.wf()
            },
            None => spec_decode_route(felts_view(calldata@).skip(pos as int)) is None,
        },
{
    let ghost s: Seq<int> = felts_view(calldata@).skip(pos as int);
    let len = calldata.len();
    assert(s.len() == len - pos);
    if len - pos < 5 {
        return None;
    }
    assert(s[3] == calldata@[pos + 3]@);
    let percent = match felt_as_u128(&calldata[pos + 3]) {
        Some(v) => v,
        None => {
            return None;
        },
    };
    assert(s[4] == calldata@[pos + 4]@);
    let count128 = match felt_as_u128(&calldata[pos + 4]) {
        Some(v) => v,
        None => {
            assert(s[4] >= half_radix());
            assert(!(0 <= s[4] <= s.len() - 5));
            return None;
        },
    };
    let avail = len - pos - 5;
    if count128 > avail as u128 {
        assert(!(0 <= s[4] <= s.len() - 5));
        return None;
    }
    let k = count128 as usize;
    let mut params: Vec<Felt> = Vec::new();
    let mut t: usize = 0;
    assert(params@ =~= calldata@.subrange(pos + 5, pos + 5));
    while t < k
        invariant
            0 <= t <= k,
            pos + 5 + k <= calldata@.len(),
            calldata@.len() <= usize::MAX,
            params@ == calldata@.subrange(pos + 5, pos + 5 + t),
        decreases k - t,
    {
        params.push(calldata[pos + 5 + t]);
        proof {
            assert(params@ =~= calldata@.subrange(pos + 5, pos + 5 + t + 1));
        }
        t += 1;
    }
    let route = Route {
        token_from: calldata[pos],
        token_to: calldata[pos + 1],
        exchange_address: calldata[pos + 2],
        percent,
        additional_swap_params: params,
    };
    let end = pos + 5 + k;
    proof {
        assert(s[0] == calldata@[pos as int]@);
        assert(s[1] == calldata@[pos + 1]@);
        assert(s[2] == calldata@[pos + 2]@);
        assert(route@.additional_swap_params =~= s.subrange(5, 5 + k));
        assert(s.skip(5 + k) =~= felts_view(calldata@).skip(end as int));
        assert(spec_decode_route(s)->Some_0.0 =~= route@);
        assert(forall|i: int|
            0 <= i < route@.additional_swap_params.len() ==> 0
                <= #[trigger] route@.additional_swap_params[i] < crate::felt::felt_prime());
    }
    Some((route, end))
}

/// Parses calldata back into the swap descriptor it encodes: the exact
/// inverse of `encode_swap_data`, accepting precisely the streams
/// `spec_decode_swap_data` accepts.
pub fn decode_swap_data(calldata: &Vec<Felt>) -> (r: Option<SwapData>)
    requires
        forall|i: int| 0 <= i < calldata@.len() ==> (#[trigger] calldata@[i]).wf(),
    ensures
        match r {
            Some(d) => {
                &&& spec_decode_swap_data(felts_view(calldata@)) == Some(d@)
                &&& d@.wf()
            },
            None => spec_decode_swap_data(felts_view(calldata@)) is None,
        },
{
    let ghost s: Seq<int> = felts_view(calldata@);
    let len = calldata.len();
    if len < 9 {
        return None;
    }
    let token_from_amount = match felt_as_u128(&calldata[1]) {
        Some(v) => v,
        None => {
            return None;
        },
    };
    let token_to_amount = match felt_as_u128(&calldata[3]) {
        Some(v) => v,
        None => {
            return None;
        },
    };
    let token_to_min_amount = match felt_as_u128(&calldata[4]) {
        Some(v) => v,
        None => {
            return None;
        },
    };
    let integrator_fee_amount_bps = match felt_as_u128(&calldata[6]) {
        Some(v) => v,
        None => {
            return None;
        },
    };
    let count128 = match felt_as_u128(&calldata[8]) {
        Some(v) => v,
        None => {
            proof {
                assert(s.skip(9).len() == len - 9);
                lemma_decode_routes_needs_input(s.skip(9), s[8]);
            }
            return None;
        },
    };
    assert(s[8] == count128);
    if count128 > (len - 9) as u128 {
        proof {
            lemma_decode_routes_needs_input(s.skip(9), s[8]);
        }
        return None;
    }
    let n_routes = count128 as usize;
    let mut routes: Vec<Route> = Vec::new();
    let mut pos: usize = 9;
    let mut j: usize = 0;
    proof {
        lemma_prepend_routes_nil(spec_decode_routes(s.skip(9), count128 as int));
        assert(routes@.map_values(|rt: Route| rt@) =~= Seq::<RouteView>::empty());
    }
    while j < n_routes
        invariant
            0 <= j <= n_routes,
            9 <= pos <= len,
            len == calldata@.len(),
            n_routes == count128,
            s == felts_view(calldata@),
            s.len() == calldata@.len(),
            s.len() >= 9,
            s[8] == count128,
            0 <= s[1] < half_radix(),
            0 <= s[3] < half_radix(),
            0 <= s[4] < half_radix(),
            0 <= s[6] < half_radix(),
            forall|i: int| 0 <= i < calldata@.len() ==> (#[trigger] calldata@[i]).wf(),
            routes@.len() == j,
            forall|t: int| 0 <= t < j ==> (#[trigger] routes@[t])@.wf(),
            spec_decode_routes(s.skip(9), count128 as int) == prepend_routes(
                routes@.map_values(|rt: Route| rt@),
                spec_decode_routes(s.skip(pos as int), count128 - j),
            ),
        decreases n_routes - j,
    {
        proof {
            lemma_decode_routes_unfold(s.skip(pos as int), count128 - j);
        }
        match decode_route(calldata, pos) {
            None => {
                proof {
                    assert(spec_decode_routes(s.skip(9), count128 as int) is None);
                    assert(spec_decode_swap_data(s) is None);
                }
                return None;
            },
            Some((route, end)) => {
                proof {
                    let ghost acc = routes@.map_values(|rt: Route| rt@);
                    lemma_prepend_routes_assoc(
                        acc,
                        seq![route@],
                        spec_decode_routes(s.skip(end as int), count128 - j - 1),
                    );
                    assert(routes@.push(route).map_values(|rt: Route| rt@) =~= acc + seq![route@]);
                }
                routes.push(route);
                pos = end;
                j += 1;
            },
        }
    }
    if pos != len {
        proof {
            assert(s.skip(pos as int).len() > 0);
        }
        return None;
    }
    proof {
        assert(s.skip(pos as int).len() == 0);
    }
    let d = SwapData {
        token_from_address: calldata[0],
        token_from_amount,
        token_to_address: calldata[2],
        token_to_amount,
        token_to_min_amount,
        beneficiary: calldata[5],
        integrator_fee_amount_bps,
        integrator_fee_recipient: calldata[7],
        routes,
    };
    proof {
        assert(spec_decode_swap_data(s)->Some_0 =~= d@);
        assert(forall|i: int| 0 <= i < d@.routes.len() ==> (#[trigger] d@.routes[i]).wf());
    }
    Some(d)
}

/// Determinism and faithfulness of the encoding, in both directions: two
/// valid descriptors produce the same calldata exactly when they are the
/// same descriptor — a change in any field, route or route order changes
/// the bytes.
pub proof fn lemma_encode_injective(d1: SwapDataView, d2: SwapDataView)
    requires
        d1.wf(),
        d2.wf(),
    ensures
        (spec_encode_swap_data(d1) == spec_encode_swap_data(d2)) <==> (d1 == d2),
{
    if spec_encode_swap_data(d1) == spec_encode_swap_data(d2) {
        lemma_decode_of_encode(d1);
        lemma_decode_of_encode(d2);
    }
}

} // verus!
