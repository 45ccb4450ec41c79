//! Simulated annealing: a current order, a reshuffled candidate at every
//! iteration, and a rule that says whether the candidate takes its place.

use vstd::prelude::*;
use vstd::pervasive::unreached;
use rand::thread_rng;
use crate::common::generate_default_path;
use crate::common::is_city_map;
use crate::common::path_cost;
use crate::common::route_cost;
use crate::common::valid_city_map;
use crate::common::TSPError;
use crate::orders::identity_order;
use crate::orders::is_visiting_order;
use crate::orders::lemma_identity_order;
use crate::orders::lemma_order_cost_fits;
use crate::orders::lemma_rearranged_order;
use crate::orders::MAX_CITIES;
use crate::random::shuffle;

verus! {

/// The search while it runs.
pub struct SimulatedAnnealing {
    pub intercity_map: Vec<Vec<u16>>,
    pub curr_path: Vec<u16>,
    /// The cost of `curr_path`: the energy of the current solution.
    pub curr_path_cost: i64,
    pub init_temperature: u64,
    pub curr_iteration: u64,
    pub max_iterations: u64,
}

/// What a search holds, as plain values.
pub ghost struct AnnealingState {
    pub costs: Seq<Seq<u16>>,
    pub path: Seq<u16>,
    pub path_cost: int,
    pub init_temperature: u64,
    pub iteration: u64,
    pub max_iterations: u64,
}

/// The state after one iteration in which `candidate` was proposed: the
/// candidate and its cost take the place of the current order if it was
/// accepted, and the iteration is counted either way.
pub open spec fn after_step(
    state: AnnealingState,
    candidate: Seq<u16>,
    accepted: bool,
) -> AnnealingState {
    AnnealingState {
        path: if accepted {
            candidate
        } else {
            state.path
        },
        path_cost: if accepted {
            route_cost(state.costs, candidate) as int
        } else {
            state.path_cost
        },
        iteration: (state.iteration + 1) as u64,
        ..state
    }
}

/// Whether `accepted` is a possible verdict on a candidate that costs `delta`
/// more than the current order. A cheaper candidate is always accepted. For
/// any other the verdict is that of `draw`, which is given the difference, the
/// initial temperature and the iteration.
pub open spec fn is_verdict<F: Fn(i64, u64, u64) -> bool>(
    draw: &F,
    delta: int,
    init_temperature: u64,
    iteration: u64,
    accepted: bool,
) -> bool {
    if delta < 0 {
        accepted
    } else {
        draw.ensures((delta as i64, init_temperature, iteration), accepted)
    }
}

/// One iteration from `from` can propose `candidate` and give the verdict
/// `accepted` on it: the bound is not reached, the candidate holds the cities
/// of the current order, and the verdict is a possible one.
pub open spec fn is_step<F: Fn(i64, u64, u64) -> bool>(
    draw: &F,
    from: AnnealingState,
    candidate: Seq<u16>,
    accepted: bool,
) -> bool {
    &&& from.iteration < from.max_iterations
    &&& candidate.to_multiset() == from.path.to_multiset()
    &&& is_verdict(
        draw,
        route_cost(from.costs, candidate) - from.path_cost,
        from.init_temperature,
        from.iteration,
        accepted,
    )
}

/// `steps` iterations can lead from `from` to `to`.
pub open spec fn reaches<F: Fn(i64, u64, u64) -> bool>(
    draw: &F,
    from: AnnealingState,
    to: AnnealingState,
    steps: nat,
) -> bool
    decreases steps,
{
    if steps == 0 {
        to == from
    } else {
        exists|before: AnnealingState, candidate: Seq<u16>, accepted: bool|
            reaches(draw, from, before, (steps - 1) as nat) && is_step(
                draw,
                before,
                candidate,
                accepted,
            ) && to == #[trigger] after_step(before, candidate, accepted)
    }
}

/// The state of a search at its start: the identity order, its cost, and no
/// iteration made.
pub open spec fn initial_state(
    costs: Seq<Seq<u16>>,
    temperature: u64,
    max_iterations: u64,
) -> AnnealingState {
    AnnealingState {
        costs,
        path: identity_order(costs.len()),
        path_cost: route_cost(costs, identity_order(costs.len())) as int,
        init_temperature: temperature,
        iteration: 0,
        max_iterations,
    }
}

/// The map is a city map of at most `MAX_CITIES` cities, the current order
/// is a visiting order of it, the cost held is the cost of that order, and
/// the iterations have not passed their bound.
pub open spec fn is_sound(state: AnnealingState) -> bool {
    &&& is_city_map(state.costs)
    &&& state.costs.len() <= MAX_CITIES
    &&& is_visiting_order(state.path, state.costs.len())
    &&& state.path_cost == route_cost(state.costs, state.path)
    &&& state.iteration <= state.max_iterations
}

/// Whatever the verdicts, a search stays sound: after `steps` iterations
/// from a sound state the map, the initial temperature and the bound are
/// what they were, `steps` more iterations are counted, the current order is
/// a visiting order and the cost held is its cost.
pub proof fn lemma_reached_state_is_sound<F: Fn(i64, u64, u64) -> bool>(
    draw: &F,
    from: AnnealingState,
    to: AnnealingState,
    steps: nat,
)
    requires
        is_sound(from),
        reaches(draw, from, to, steps),
    ensures
        is_sound(to),
        to.costs == from.costs,
        to.init_temperature == from.init_temperature,
        to.max_iterations == from.max_iterations,
        to.iteration == from.iteration + steps,
    decreases steps,
{
    if steps > 0 {
        let (before, candidate, accepted) = choose|
            before: AnnealingState,
            candidate: Seq<u16>,
            accepted: bool,
        |
            reaches(draw, from, before, (steps - 1) as nat) && is_step(
                draw,
                before,
                candidate,
                accepted,
            ) && to == #[trigger] after_step(before, candidate, accepted);
        lemma_reached_state_is_sound(draw, from, before, (steps - 1) as nat);
        lemma_rearranged_order(before.path, candidate, before.costs.len());
    }
}

/// Without an iteration nothing changes.
pub proof fn lemma_no_step_changes_nothing<F: Fn(i64, u64, u64) -> bool>(
    draw: &F,
    from: AnnealingState,
    to: AnnealingState,
)
    requires
        reaches(draw, from, to, 0),
    ensures
        to == from,
{
}

/// Where `draw` turns every candidate down, only cheaper candidates are
/// accepted, so the cost held never rises.
pub proof fn lemma_cost_never_rises<F: Fn(i64, u64, u64) -> bool>(
    draw: &F,
    from: AnnealingState,
    to: AnnealingState,
    steps: nat,
)
    requires
        never_accepts(draw),
        is_sound(from),
        reaches(draw, from, to, steps),
    ensures
        to.path_cost <= from.path_cost,
    decreases steps,
{
    if steps > 0 {
        let (before, candidate, accepted) = choose|
            before: AnnealingState,
            candidate: Seq<u16>,
            accepted: bool,
        |
            reaches(draw, from, before, (steps - 1) as nat) && is_step(
                draw,
                before,
                candidate,
                accepted,
            ) && to == #[trigger] after_step(before, candidate, accepted);
        lemma_cost_never_rises(draw, from, before, (steps - 1) as nat);
        lemma_reached_state_is_sound(draw, from, before, (steps - 1) as nat);
        lemma_rearranged_order(before.path, candidate, before.costs.len());
        lemma_order_cost_fits(before.costs, candidate);
    }
}

/// `draw` can be asked about any candidate.
pub open spec fn always_answers<F: Fn(i64, u64, u64) -> bool>(draw: &F) -> bool {
    forall|delta: i64, init_temperature: u64, iteration: u64|
        draw.requires((delta, init_temperature, iteration))
}

/// `draw` turns every candidate down.
pub open spec fn never_accepts<F: Fn(i64, u64, u64) -> bool>(draw: &F) -> bool {
    forall|delta: i64, init_temperature: u64, iteration: u64|
        !draw.ensures((delta, init_temperature, iteration), true)
}

impl View for SimulatedAnnealing {
    type V = AnnealingState;

    open spec fn view(&self) -> AnnealingState {
        AnnealingState {
            costs: self.intercity_map.deep_view(),
            path: self.curr_path@,
            path_cost: self.curr_path_cost as int,
            init_temperature: self.init_temperature,
            iteration: self.curr_iteration,
            max_iterations: self.max_iterations,
        }
    }
}

impl SimulatedAnnealing {
    /// What the search holds is sound.
    pub open spec fn wf(&self) -> bool {
        is_sound(self@)
    }

    /// Whether `new_path` takes the place of the current order: always if it
    /// is cheaper, and else if `draw` says so.
    pub fn accept_candidate<F: Fn(i64, u64, u64) -> bool>(
        &self,
        new_path: &Vec<u16>,
        draw: &F,
    ) -> (accepted: bool)
        requires
            self.wf(),
            is_visiting_order(new_path@, self@.costs.len()),
            always_answers(draw),
        ensures
            is_verdict(
                draw,
                route_cost(self@.costs, new_path@) - self@.path_cost,
                self@.init_temperature,
                self@.iteration,
                accepted,
            ),
    {
        proof {
            lemma_order_cost_fits(self@.costs, new_path@);
            lemma_order_cost_fits(self@.costs, self@.path);
        }
        let new_cost = match path_cost(&self.intercity_map, new_path) {
            Ok(cost) => cost,
            Err(_) => unreached(),
        };
        let diff: i64 = new_cost as i64 - self.curr_path_cost;
        diff < 0 || draw(diff, self.init_temperature, self.curr_iteration)
    }

    /// Ends one iteration in which `new_path` was proposed and the verdict
    /// on it was `accepted`.
    pub fn settle(&mut self, new_path: &Vec<u16>, accepted: bool)
        requires
            old(self).wf(),
            is_visiting_order(new_path@, old(self)@.costs.len()),
            old(self)@.iteration < old(self)@.max_iterations,
        ensures
            final(self).wf(),
            final(self)@ == after_step(old(self)@, new_path@, accepted),
    {
        if accepted {
            proof {
                lemma_order_cost_fits(self@.costs, new_path@);
            }
            self.curr_path = new_path.clone();
            self.curr_path_cost = match path_cost(&self.intercity_map, new_path) {
                Ok(cost) => cost as i64,
                Err(_) => unreached(),
            };
        }
        self.curr_iteration += 1;
    }

    /// One iteration, unless the bound is reached: the current order is
    /// reshuffled into a candidate, the verdict on it is taken, and the
    /// candidate is handed out.
    pub fn next<F: Fn(i64, u64, u64) -> bool>(&mut self, draw: &F) -> (proposed: Option<Vec<u16>>)
        requires
            old(self).wf(),
            always_answers(draw),
        ensures
            final(self).wf(),
            old(self)@.iteration == old(self)@.max_iterations ==> proposed is None && final(self)@
                == old(self)@,
            old(self)@.iteration < old(self)@.max_iterations ==> proposed is Some
                && exists|accepted: bool| #[trigger]
                    is_step(draw, old(self)@, proposed->0@, accepted) && final(self)@
                        == after_step(old(self)@, proposed->0@, accepted),
    {
        if self.max_iterations == self.curr_iteration {
            return None;
        }
        let ghost before = self@;
        let mut new_path = self.curr_path.clone();
        let mut generator = thread_rng();
        shuffle(&mut new_path, &mut generator);
        proof {
            lemma_rearranged_order(self@.path, new_path@, self@.costs.len());
        }
        let accepted = self.accept_candidate(&new_path, draw);
        self.settle(&new_path, accepted);
        let proposed = Some(new_path);
        assert(is_step(draw, before, proposed->0@, accepted));
        proposed
    }

    /// Runs the iterations that are left and hands out the order reached and
    /// its cost.
    pub fn calculate_optimal<F: Fn(i64, u64, u64) -> bool>(
        &mut self,
        draw: &F,
    ) -> (reached: (Vec<u16>, u32))
        requires
            old(self).wf(),
            always_answers(draw),
        ensures
            final(self).wf(),
            final(self)@.costs == old(self)@.costs,
            final(self)@.init_temperature == old(self)@.init_temperature,
            final(self)@.max_iterations == old(self)@.max_iterations,
            final(self)@.iteration == old(self)@.max_iterations,
            reached.0@ == final(self)@.path,
            reached.1 == final(self)@.path_cost,
            reaches(
                draw,
                old(self)@,
                final(self)@,
                (old(self)@.max_iterations - old(self)@.iteration) as nat,
            ),
            old(self)@.iteration == old(self)@.max_iterations ==> final(self)@ == old(self)@,
            never_accepts(draw) ==> final(self)@.path_cost <= old(self)@.path_cost,
    {
        let ghost start = self@;
        loop
            invariant
                self.wf(),
                always_answers(draw),
                reaches(draw, start, self@, (self@.iteration - start.iteration) as nat),
                self@.costs == start.costs,
                self@.init_temperature == start.init_temperature,
                self@.max_iterations == start.max_iterations,
                start.iteration <= self@.iteration,
                self@.iteration == start.iteration ==> self@ == start,
                never_accepts(draw) ==> self@.path_cost <= start.path_cost,
            ensures
                self.wf(),
                self@.costs == start.costs,
                self@.init_temperature == start.init_temperature,
                self@.max_iterations == start.max_iterations,
                self@.iteration == self@.max_iterations,
                reaches(draw, start, self@, (self@.iteration - start.iteration) as nat),
                start.iteration == start.max_iterations ==> self@ == start,
                never_accepts(draw) ==> self@.path_cost <= start.path_cost,
            decreases self@.max_iterations - self@.iteration,
        {
            if self.next(draw).is_none() {
                break ;
            }
        }
        proof {
            lemma_order_cost_fits(self@.costs, self@.path);
        }
        let cost = match path_cost(&self.intercity_map, &self.curr_path) {
            Ok(cost) => cost,
            Err(_) => unreached(),
        };
        (self.curr_path.clone(), cost)
    }

    /// The search at its start: the identity order, its cost, and no
    /// iteration made.
    pub fn new(
        intercity_map: Vec<Vec<u16>>,
        temperature: u64,
        max_iterations: u64,
    ) -> (state: SimulatedAnnealing)
        requires
            is_city_map(intercity_map.deep_view()),
            intercity_map@.len() <= MAX_CITIES,
        ensures
            state.wf(),
            state@ == initial_state(intercity_map.deep_view(), temperature, max_iterations),
    {
        let default_path = generate_default_path(&intercity_map);
        proof {
            lemma_identity_order(intercity_map@.len());
            lemma_order_cost_fits(intercity_map.deep_view(), default_path@);
        }
        let curr_cost = match path_cost(&intercity_map, &default_path) {
            Ok(cost) => cost,
            Err(_) => unreached(),
        };
        SimulatedAnnealing {
            intercity_map,
            curr_path: default_path,
            curr_path_cost: curr_cost as i64,
            init_temperature: temperature,
            curr_iteration: 0,
            max_iterations,
        }
    }
}

/// An order of the cities found by simulated annealing from the identity
/// order, and its cost. `draw` gives the verdict on every candidate that is
/// not cheaper than the current order. A matrix that is no city map is
/// refused.
pub fn simulated_annealing_tsp<F: Fn(i64, u64, u64) -> bool>(
    intercity_map: &Vec<Vec<u16>>,
    temperature: u64,
    max_iterations: u64,
    draw: F,
) -> (found: Result<(Vec<u16>, u32), TSPError>)
    requires
        is_city_map(intercity_map.deep_view()) ==> intercity_map@.len() <= MAX_CITIES,
        always_answers(&draw),
    ensures
        !is_city_map(intercity_map.deep_view()) ==> found == Err::<(Vec<u16>, u32), TSPError>(
            TSPError::InvalidMapShape,
        ),
        is_city_map(intercity_map.deep_view()) ==> found is Ok && is_visiting_order(
            found->Ok_0.0@,
            intercity_map@.len(),
        ) && found->Ok_0.1 == route_cost(intercity_map.deep_view(), found->Ok_0.0@),
        is_city_map(intercity_map.deep_view()) ==> exists|end: AnnealingState|
            #[trigger] reaches(
                &draw,
                initial_state(intercity_map.deep_view(), temperature, max_iterations),
                end,
                max_iterations as nat,
            ) && found->Ok_0.0@ == end.path && found->Ok_0.1 == end.path_cost,
        is_city_map(intercity_map.deep_view()) && max_iterations == 0 ==> found->Ok_0.0@
            == identity_order(intercity_map@.len()),
        is_city_map(intercity_map.deep_view()) && never_accepts(&draw) ==> found->Ok_0.1
            <= route_cost(intercity_map.deep_view(), identity_order(intercity_map@.len())),
{
    if !valid_city_map(intercity_map) {
        return Err(TSPError::InvalidMapShape);
    }
    let mut state = SimulatedAnnealing::new(intercity_map.clone(), temperature, max_iterations);
    let reached = state.calculate_optimal(&draw);
    assert(reaches(
        &draw,
        initial_state(intercity_map.deep_view(), temperature, max_iterations),
        state@,
        max_iterations as nat,
    ));
    Ok(reached)
}

} // verus!
