//! The exhaustive search: every visiting order is tried, and the cheapest
//! one is returned.

use vstd::prelude::*;
use crate::common::generate_default_path;
use crate::common::is_city_map;
use crate::common::path_cost;
use crate::common::route_cost;
use crate::common::valid_city_map;
use crate::common::TSPError;
use crate::enumeration::lists_all_orders;
use crate::enumeration::next_order;
use crate::enumeration::pending_orders;
use crate::enumeration::permutations_of;
use crate::orders::identity_order;
use crate::orders::is_visiting_order;
use crate::orders::lemma_identity_order;
use crate::orders::lemma_lex_less_asymmetric;
use crate::orders::lemma_order_cost_fits;
use crate::orders::lex_less;
use crate::orders::MAX_CITIES;

verus! {

/// `order` is the cheapest visiting order of the map, and among the orders of
/// that cost the first in the order of a dictionary.
pub open spec fn is_cheapest_order(costs: Seq<Seq<u16>>, order: Seq<u16>) -> bool {
    &&& is_visiting_order(order, costs.len())
    &&& forall|other: Seq<u16>| #[trigger]
        is_visiting_order(other, costs.len()) ==> route_cost(costs, order) <= route_cost(
            costs,
            other,
        )
    &&& forall|other: Seq<u16>|
        #[trigger] is_visiting_order(other, costs.len()) && route_cost(costs, other)
            == route_cost(costs, order) ==> other == order || lex_less(order, other)
}

/// Among the first `seen` orders of `all`, the one at `at` is the cheapest,
/// and the first of that cost.
pub open spec fn is_first_cheapest(
    costs: Seq<Seq<u16>>,
    all: Seq<Seq<u16>>,
    seen: int,
    at: int,
) -> bool {
    &&& 0 <= at < seen <= all.len()
    &&& forall|k: int|
        0 <= k < seen ==> route_cost(costs, all[at]) <= route_cost(costs, #[trigger] all[k])
    &&& forall|k: int|
        0 <= k < at ==> route_cost(costs, all[at]) < route_cost(costs, #[trigger] all[k])
}

/// The first cheapest entry of a list of all orders is the cheapest order.
pub proof fn lemma_first_cheapest_is_cheapest(costs: Seq<Seq<u16>>, all: Seq<Seq<u16>>, at: int)
    requires
        lists_all_orders(all, costs.len()),
        is_first_cheapest(costs, all, all.len() as int, at),
    ensures
        is_cheapest_order(costs, all[at]),
{
    let order = all[at];
    assert forall|other: Seq<u16>| #[trigger]
        is_visiting_order(other, costs.len()) implies route_cost(costs, order) <= route_cost(
        costs,
        other,
    ) && (route_cost(costs, other) == route_cost(costs, order) ==> other == order || lex_less(
        order,
        other,
    )) by {
        assert(all.contains(other));
        let k = choose|k: int| 0 <= k < all.len() && all[k] == other;
        assert(route_cost(costs, order) <= route_cost(costs, all[k]));
        if route_cost(costs, other) == route_cost(costs, order) && k != at {
            assert(at < k);
            assert(lex_less(all[at], all[k]));
        }
    }
}

/// A map has no two cheapest orders: what `is_cheapest_order` asks for, only
/// one order gives.
pub proof fn lemma_cheapest_order_unique(costs: Seq<Seq<u16>>, a: Seq<u16>, b: Seq<u16>)
    requires
        is_cheapest_order(costs, a),
        is_cheapest_order(costs, b),
    ensures
        a == b,
{
    if a != b {
        assert(lex_less(a, b));
        assert(lex_less(b, a));
        lemma_lex_less_asymmetric(a, b);
    }
}

/// The cheapest visiting order of the map and its cost, found by trying every
/// order. Of several cheapest orders, the first in the order of a dictionary
/// is returned. A matrix that is no city map is refused.
pub fn brute_force_tsp(intercity_map: &Vec<Vec<u16>>) -> (found: Result<(Vec<u16>, u32), TSPError>)
    requires
        is_city_map(intercity_map.deep_view()) ==> intercity_map@.len() <= MAX_CITIES,
    ensures
        !is_city_map(intercity_map.deep_view()) ==> found == Err::<(Vec<u16>, u32), TSPError>(
            TSPError::InvalidMapShape,
        ),
        is_city_map(intercity_map.deep_view()) ==> found is Ok && is_cheapest_order(
            intercity_map.deep_view(),
            found->Ok_0.0@,
        ) && found->Ok_0.1 == route_cost(intercity_map.deep_view(), found->Ok_0.0@),
{
    if !valid_city_map(intercity_map) {
        return Err(TSPError::InvalidMapShape);
    }
    let ghost costs = intercity_map.deep_view();
    let ghost n = intercity_map@.len();
    let initial_path = generate_default_path(intercity_map);
    proof {
        lemma_identity_order(n);
    }
    let mut orders = permutations_of(initial_path);
    let ghost all = pending_orders(orders);
    assert(all.contains(identity_order(n)));

    let mut optimal_path: Vec<u16> = Vec::new();
    let mut optimal_cost: u32 = 0;
    let mut any = false;
    let ghost mut seen: int = 0;
    let ghost mut at: int = 0;
    let mut candidate = next_order(&mut orders);
    while candidate.is_some()
        invariant
            costs == intercity_map.deep_view(),
            n == intercity_map@.len(),
            is_city_map(costs),
            n <= MAX_CITIES,
            lists_all_orders(all, n),
            0 <= seen <= all.len(),
            any <==> seen > 0,
            any ==> is_first_cheapest(costs, all, seen, at) && optimal_path@ == all[at]
                && optimal_cost == route_cost(costs, all[at]),
            candidate is Some ==> seen < all.len() && candidate->0@ == all[seen]
                && pending_orders(orders) == all.skip(seen + 1),
            candidate is None ==> seen == all.len(),
        decreases all.len() - seen,
    {
        let path = candidate.unwrap();
        proof {
            assert(is_visiting_order(all[seen], n));
            lemma_order_cost_fits(costs, path@);
        }
        let cost = match path_cost(intercity_map, &path) {
            Ok(cost) => cost,
            Err(error) => {
                return Err(error);
            },
        };
        if !any || cost < optimal_cost {
            optimal_path = path;
            optimal_cost = cost;
            any = true;
            proof {
                at = seen;
            }
        }
        proof {
            seen = seen + 1;
            assert(all.skip(seen).len() == all.len() - seen);
            if seen < all.len() {
                assert(all.skip(seen)[0] == all[seen]);
                assert(all.skip(seen).skip(1) =~= all.skip(seen + 1));
            }
        }
        candidate = next_order(&mut orders);
    }
    proof {
        lemma_first_cheapest_is_cheapest(costs, all, at);
    }
    Ok((optimal_path, optimal_cost))
}

} // verus!
