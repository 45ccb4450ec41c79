//! The cost matrix, visiting orders, and what both solvers share.

use vstd::prelude::*;
use rand::thread_rng;
use crate::orders::identity_order;
use crate::orders::is_visiting_order;
use crate::orders::lemma_identity_order;
use crate::orders::lemma_rearranged_order;
use crate::orders::MAX_CITIES;
use crate::random::gen_range;
use crate::random::shuffle;

verus! {

/// Why a request was turned down.
#[derive(Debug, Clone, Copy, PartialEq, Eq, Structural)]
pub enum TSPError {
    /// The matrix is empty or some row is not as long as the matrix is high.
    InvalidMapShape,
    /// The range of weights is empty or reversed.
    InvalidWeightRange,
}

impl TSPError {
    /// The text shown for this error.
    pub fn message(&self) -> (text: String)
        ensures
            *self == TSPError::InvalidMapShape ==> text@ == "invalid map shape"@,
            *self == TSPError::InvalidWeightRange ==> text@ == "invalid weight range"@,
    {
        match self {
            TSPError::InvalidMapShape => "invalid map shape".to_owned(),
            TSPError::InvalidWeightRange => "invalid weight range".to_owned(),
        }
    }
}

/// A matrix is a city map when it has at least one row and every row is as
/// long as the matrix is high.
pub open spec fn is_city_map(costs: Seq<Seq<u16>>) -> bool {
    &&& costs.len() > 0
    &&& forall|i: int| 0 <= i < costs.len() ==> (#[trigger] costs[i]).len() == costs.len()
}

/// Every entry of `order` names a city of a map with `n` cities.
pub open spec fn cities_below(order: Seq<u16>, n: nat) -> bool {
    forall|k: int| 0 <= k < order.len() ==> (#[trigger] order[k]) < n
}

/// The cost of travelling along `order` from its first city to its last: the
/// sum of `costs[order[k]][order[k + 1]]` over every pair of neighbours. The
/// way back to the start is not part of it.
pub open spec fn route_cost(costs: Seq<Seq<u16>>, order: Seq<u16>) -> nat
    decreases order.len(),
{
    if order.len() < 2 {
        0
    } else {
        let from = order[order.len() - 2] as int;
        let to = order[order.len() - 1] as int;
        route_cost(costs, order.drop_last()) + costs[from][to] as nat
    }
}

/// A route over `order` costs at most 65535 for each of its steps.
pub proof fn lemma_route_cost_bound(costs: Seq<Seq<u16>>, order: Seq<u16>)
    ensures
        order.len() < 2 ==> route_cost(costs, order) == 0,
        order.len() >= 2 ==> route_cost(costs, order) <= 65535 * (order.len() - 1),
    decreases order.len(),
{
    if order.len() >= 2 {
        lemma_route_cost_bound(costs, order.drop_last());
    }
}

/// Whether the matrix is a city map: not empty, and square.
pub fn valid_city_map(intercity_map: &Vec<Vec<u16>>) -> (valid: bool)
    ensures
        valid == is_city_map(intercity_map.deep_view()),
{
    let n = intercity_map.len();
    if n == 0 {
        return false;
    }
    let mut i: usize = 0;
    while i < n
        invariant
            n == intercity_map.len(),
            i <= n,
            forall|r: int| 0 <= r < i ==> (#[trigger] intercity_map.deep_view()[r]).len() == n,
        decreases n - i,
    {
        if intercity_map[i].len() != n {
            assert(intercity_map.deep_view()[i as int].len() != n);
            return false;
        }
        i += 1;
    }
    true
}

/// The cost of the open path that visits the cities in the order given, or
/// `InvalidMapShape` where the matrix is no city map. The order itself is
/// taken as it is: it may be short, and may name a city twice.
pub fn path_cost(intercity_map: &Vec<Vec<u16>>, path: &Vec<u16>) -> (cost: Result<u32, TSPError>)
    requires
        is_city_map(intercity_map.deep_view()) ==> cities_below(path@, intercity_map@.len())
            && route_cost(intercity_map.deep_view(), path@) <= u32::MAX,
    ensures
        is_city_map(intercity_map.deep_view()) ==> cost == Ok::<u32, TSPError>(
            route_cost(intercity_map.deep_view(), path@) as u32,
        ),
        !is_city_map(intercity_map.deep_view()) ==> cost == Err::<u32, TSPError>(
            TSPError::InvalidMapShape,
        ),
{
    if !valid_city_map(intercity_map) {
        return Err(TSPError::InvalidMapShape);
    }
    let ghost costs = intercity_map.deep_view();
    if path.len() < 2 {
        return Ok(0);
    }
    let mut total: u32 = 0;
    let mut k: usize = 1;
    while k < path.len()
        invariant
            1 <= k <= path.len(),
            costs == intercity_map.deep_view(),
            is_city_map(costs),
            cities_below(path@, intercity_map@.len()),
            route_cost(costs, path@) <= u32::MAX,
            total == route_cost(costs, path@.take(k as int)),
        decreases path.len() - k,
    {
        let from = path[k - 1] as usize;
        let to = path[k] as usize;
        proof {
            let upto = path@.take(k + 1);
            assert(upto.drop_last() =~= path@.take(k as int));
            assert(costs[from as int] == intercity_map@[from as int]@);
            lemma_route_cost_prefix(costs, path@, k + 1);
        }
        total = total + intercity_map[from][to] as u32;
        k += 1;
    }
    assert(path@.take(k as int) =~= path@);
    Ok(total)
}

/// The order that visits the cities as the map lists them: city `k` at step
/// `k`. City numbers have 16 bits, so past `MAX_CITIES` cities the numbers
/// start again from 0.
pub fn generate_default_path(intercity_map: &Vec<Vec<u16>>) -> (path: Vec<u16>)
    ensures
        path@ == identity_order(intercity_map@.len()),
{
    let n = intercity_map.len();
    let mut path: Vec<u16> = Vec::new();
    let mut idx: usize = 0;
    while idx < n
        invariant
            n == intercity_map@.len(),
            idx <= n,
            path@ == identity_order(idx as nat),
        decreases n - idx,
    {
        path.push(#[verifier::truncate] (idx as u16));
        idx += 1;
        assert(path@ =~= identity_order(idx as nat));
    }
    path
}

/// The cities of the map in a random order.
pub fn generate_random_path(intercity_map: &Vec<Vec<u16>>) -> (path: Vec<u16>)
    ensures
        path@.to_multiset() == identity_order(intercity_map@.len()).to_multiset(),
        intercity_map@.len() <= MAX_CITIES ==> is_visiting_order(path@, intercity_map@.len()),
{
    let mut path = generate_default_path(intercity_map);
    let ghost listed = path@;
    let mut generator = thread_rng();
    shuffle(&mut path, &mut generator);
    proof {
        if intercity_map@.len() <= MAX_CITIES {
            lemma_identity_order(intercity_map@.len());
            lemma_rearranged_order(listed, path@, intercity_map@.len());
        }
    }
    path
}

/// What a generated map looks like: `n` rows of `n` weights, 0 from a city to
/// itself, the same weight both ways between two cities, and every weight
/// between two different cities at least `low` and less than `high`.
pub open spec fn is_generated_map(costs: Seq<Seq<u16>>, n: nat, low: u16, high: u16) -> bool {
    &&& costs.len() == n
    &&& forall|i: int| 0 <= i < n ==> (#[trigger] costs[i]).len() == n
    &&& forall|i: int| 0 <= i < n ==> (#[trigger] costs[i])[i] == 0
    &&& forall|i: int, j: int|
        0 <= i < n && 0 <= j < n ==> #[trigger] costs[i][j] == costs[j][i]
    &&& forall|i: int, j: int|
        0 <= i < n && 0 <= j < n && i != j ==> low <= #[trigger] costs[i][j] < high
}

/// A random map of `num_cities` cities with weights drawn from the half-open
/// range `weight_range`. An empty or reversed range is refused.
pub fn generate_map(
    num_cities: u16,
    weight_range: (u16, u16),
) -> (generated: Result<Vec<Vec<u16>>, TSPError>)
    ensures
        weight_range.1 <= weight_range.0 ==> generated == Err::<Vec<Vec<u16>>, TSPError>(
            TSPError::InvalidWeightRange,
        ),
        weight_range.0 < weight_range.1 ==> generated is Ok && is_generated_map(
            generated->Ok_0.deep_view(),
            num_cities as nat,
            weight_range.0,
            weight_range.1,
        ),
{
    let mut generator = thread_rng();
    let (low, high) = weight_range;

    if high <= low {
        return Err(TSPError::InvalidWeightRange);
    }
    let num_cities = num_cities as usize;
    let mut intercity_map: Vec<Vec<u16>> = Vec::new();
    let mut i: usize = 0;
    while i < num_cities
        invariant
            low < high,
            i <= num_cities,
            is_generated_rows(intercity_map.deep_view(), i as nat, num_cities as nat, low, high),
        decreases num_cities - i,
    {
        let ghost above = intercity_map.deep_view();
        let mut row: Vec<u16> = Vec::new();
        let mut j: usize = 0;
        while j < num_cities
            invariant
                low < high,
                i < num_cities,
                j <= num_cities,
                above == intercity_map.deep_view(),
                is_generated_rows(above, i as nat, num_cities as nat, low, high),
                row@.len() == j,
                forall|c: int| 0 <= c < j && c < i ==> #[trigger] row@[c] == above[c][i as int],
                forall|c: int| 0 <= c < j && c == i ==> #[trigger] row@[c] == 0,
                forall|c: int| 0 <= c < j && c != i ==> low <= #[trigger] row@[c] < high,
            decreases num_cities - j,
        {
            let weight = if i > j {
                assert(above[j as int] == intercity_map@[j as int]@);
                intercity_map[j][i]
            } else if i == j {
                0
            } else {
                gen_range(&mut generator, low, high)
            };
            row.push(weight);
            j += 1;
        }
        intercity_map.push(row);
        i += 1;
        proof {
            let below = intercity_map.deep_view();
            assert(below[i - 1] =~= row@);
            assert forall|r: int| 0 <= r < i - 1 implies #[trigger] below[r] == above[r] by {
                assert(below[r] =~= above[r]);
            }
        }
    }
    Ok(intercity_map)
}

/// The first `rows` rows of a generated map of `n` cities: each has `n`
/// weights, and the square they form on the left is a generated map.
pub open spec fn is_generated_rows(
    costs: Seq<Seq<u16>>,
    rows: nat,
    n: nat,
    low: u16,
    high: u16,
) -> bool {
    &&& costs.len() == rows
    &&& rows <= n
    &&& forall|i: int| 0 <= i < rows ==> (#[trigger] costs[i]).len() == n
    &&& forall|i: int| 0 <= i < rows ==> (#[trigger] costs[i])[i] == 0
    &&& forall|i: int, j: int|
        0 <= i < rows && 0 <= j < rows ==> #[trigger] costs[i][j] == costs[j][i]
    &&& forall|i: int, j: int|
        0 <= i < rows && 0 <= j < n && i != j ==> low <= #[trigger] costs[i][j] < high
}

/// The cost of a route grows with the route: a prefix costs no more than the
/// whole.
pub proof fn lemma_route_cost_prefix(costs: Seq<Seq<u16>>, order: Seq<u16>, len: int)
    requires
        0 <= len <= order.len(),
    ensures
        route_cost(costs, order.take(len)) <= route_cost(costs, order),
    decreases order.len(),
{
    if len == order.len() {
        assert(order.take(len) =~= order);
    } else {
        assert(order.drop_last().take(len) =~= order.take(len));
        lemma_route_cost_prefix(costs, order.drop_last(), len);
    }
}

} // verus!
