//! Visiting orders: what makes a sequence of cities one, and how two of them
//! compare.

use vstd::prelude::*;
use crate::common::cities_below;
use crate::common::lemma_route_cost_bound;
use crate::common::route_cost;

verus! {

/// The largest number of cities a map can have for its cities to be numbered
/// in 16 bits.
pub const MAX_CITIES: usize = 65536;

/// `order` visits each of the cities `0..n` exactly once.
pub open spec fn is_visiting_order(order: Seq<u16>, n: nat) -> bool {
    &&& order.len() == n
    &&& cities_below(order, n)
    &&& order.no_duplicates()
}

/// The order that visits city `k` at step `k`, cut to 16 bits.
pub open spec fn identity_order(n: nat) -> Seq<u16> {
    Seq::new(n, |k: int| k as u16)
}

/// `order` visits city `k` at step `k`.
pub open spec fn is_identity_order(order: Seq<u16>) -> bool {
    forall|k: int| 0 <= k < order.len() ==> (#[trigger] order[k]) as int == k
}

/// `a` comes before `b` in the order of a dictionary: at the first step where
/// they part, `a` visits the city with the smaller number.
pub open spec fn lex_less(a: Seq<u16>, b: Seq<u16>) -> bool {
    exists|k: int|
        0 <= k < a.len() && k < b.len() && a[k] < b[k] && a.take(k) == #[trigger] b.take(k)
}

/// Of two orders at most one comes before the other.
pub proof fn lemma_lex_less_asymmetric(a: Seq<u16>, b: Seq<u16>)
    requires
        lex_less(a, b),
    ensures
        !lex_less(b, a),
{
    let k = choose|k: int|
        0 <= k < a.len() && k < b.len() && a[k] < b[k] && a.take(k) == #[trigger] b.take(k);
    if lex_less(b, a) {
        let m = choose|m: int|
            0 <= m < b.len() && m < a.len() && b[m] < a[m] && b.take(m) == #[trigger] a.take(m);
        if k < m {
            assert(b.take(m)[k] == a.take(m)[k]);
        } else if m < k {
            assert(a.take(k)[m] == b.take(k)[m]);
        }
    }
}

/// With at most `MAX_CITIES` cities the identity order is a visiting order,
/// and visits city `k` at step `k`.
pub proof fn lemma_identity_order(n: nat)
    requires
        n <= MAX_CITIES,
    ensures
        is_identity_order(identity_order(n)),
        is_visiting_order(identity_order(n), n),
{
    assert forall|k: int| 0 <= k < n implies (#[trigger] identity_order(n)[k]) as int == k by {
        assert(0 <= k < 65536 ==> (k as u16) as int == k);
    }
}

/// An order that visits city `k` at step `k` is the identity order of its
/// length, and a visiting order.
pub proof fn lemma_identity_order_unique(order: Seq<u16>)
    requires
        is_identity_order(order),
    ensures
        order.len() <= MAX_CITIES,
        order == identity_order(order.len()),
        is_visiting_order(order, order.len()),
{
    if order.len() > 65536 {
        assert(order[65536] as int == 65536);
    }
    lemma_identity_order(order.len());
    assert(order =~= identity_order(order.len()));
}

/// A rearrangement of a visiting order is a visiting order.
pub proof fn lemma_rearranged_order(before: Seq<u16>, after: Seq<u16>, n: nat)
    requires
        is_visiting_order(before, n),
        after.to_multiset() == before.to_multiset(),
    ensures
        is_visiting_order(after, n),
{
    before.to_multiset_ensures();
    after.to_multiset_ensures();
    assert forall|k: int| 0 <= k < after.len() implies (#[trigger] after[k]) < n by {
        assert(after.contains(after[k]));
        assert(after.to_multiset().count(after[k]) > 0);
        assert(before.to_multiset().count(after[k]) > 0);
        assert(before.contains(after[k]));
    }
    before.lemma_multiset_has_no_duplicates();
    after.lemma_multiset_has_no_duplicates_conv();
}

/// The route along a visiting order of a map with at most `MAX_CITIES` cities
/// costs less than 2^32.
pub proof fn lemma_order_cost_fits(costs: Seq<Seq<u16>>, order: Seq<u16>)
    requires
        order.len() <= MAX_CITIES,
    ensures
        route_cost(costs, order) <= u32::MAX,
{
    lemma_route_cost_bound(costs, order);
    if order.len() >= 2 {
        assert(65535 * (order.len() - 1) <= 65535 * 65535) by (nonlinear_arith)
            requires
                order.len() <= 65536,
        ;
    }
}

} // verus!
