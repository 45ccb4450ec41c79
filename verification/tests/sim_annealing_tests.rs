use rand::{thread_rng, Rng};
use std::cell::{Cell, RefCell};
use tsp::common::{generate_default_path, generate_map, path_cost, TSPError};
use tsp::sim_annealing::{simulated_annealing_tsp, SimulatedAnnealing};

const TEST_TEMPERATURE: u64 = 200;
const TEST_MAX_ITERATIONS: u64 = 3000;

// The Metropolis criterion at the temperature of the iteration.
fn metropolis(delta: i64, init_temperature: u64, iteration: u64) -> bool {
    let temp = init_temperature as f64 / (1. + iteration as f64);
    let metropolis_criterion = (-(delta as f64) / temp).exp();
    thread_rng().gen_range(0.0..1.0) < metropolis_criterion
}

fn sample_map() -> Vec<Vec<u16>> {
    vec![
        vec![0, 40, 7, 90, 3],
        vec![40, 0, 15, 2, 60],
        vec![7, 15, 0, 33, 8],
        vec![90, 2, 33, 0, 21],
        vec![3, 60, 8, 21, 0],
    ]
}

#[test]
fn test_simulated_annealing() {
    let num_checks = 30;

    for _ in 0..num_checks {
        let map = generate_map(5, (0, 300)).ok().unwrap();
        let res = simulated_annealing_tsp(&map, TEST_TEMPERATURE, TEST_MAX_ITERATIONS, metropolis);
        assert!(res.is_ok());
        assert!(res.ok().is_some());
    }
}

#[test]
fn annealing_refuses_an_empty_matrix() {
    let map: Vec<Vec<u16>> = vec![];
    assert_eq!(
        simulated_annealing_tsp(&map, 200, 100, metropolis),
        Err(TSPError::InvalidMapShape)
    );
}

#[test]
fn annealing_refuses_a_matrix_that_is_not_square() {
    let map: Vec<Vec<u16>> = vec![vec![0, 1, 2], vec![1, 0, 3]];
    assert_eq!(
        simulated_annealing_tsp(&map, 200, 100, metropolis),
        Err(TSPError::InvalidMapShape)
    );
}

#[test]
fn annealing_asks_nothing_of_a_refused_matrix() {
    let asked = Cell::new(0u32);
    let map: Vec<Vec<u16>> = vec![vec![0, 1], vec![1]];
    let found = simulated_annealing_tsp(&map, 200, 100, |_, _, _| {
        asked.set(asked.get() + 1);
        true
    });
    assert_eq!(found, Err(TSPError::InvalidMapShape));
    assert_eq!(asked.get(), 0);
}

#[test]
fn annealing_without_iterations_returns_the_identity_order() {
    let map = sample_map();
    let found = simulated_annealing_tsp(&map, 200, 0, |_, _, _| true);
    assert_eq!(found, Ok((vec![0, 1, 2, 3, 4], 40 + 15 + 33 + 21)));
}

#[test]
fn annealing_returns_a_permutation_and_its_cost() {
    let map = sample_map();
    for _ in 0..20 {
        let (order, cost) = simulated_annealing_tsp(&map, 200, 500, metropolis).ok().unwrap();
        assert_eq!(cost, path_cost(&map, &order).ok().unwrap());
        let mut sorted = order.clone();
        sorted.sort();
        assert_eq!(sorted, vec![0, 1, 2, 3, 4]);
    }
}

#[test]
fn annealing_that_accepts_everything_returns_a_permutation_and_its_cost() {
    let map = sample_map();
    let (order, cost) = simulated_annealing_tsp(&map, 1, 200, |_, _, _| true).ok().unwrap();
    assert_eq!(cost, path_cost(&map, &order).ok().unwrap());
    let mut sorted = order.clone();
    sorted.sort();
    assert_eq!(sorted, vec![0, 1, 2, 3, 4]);
}

#[test]
fn annealing_that_accepts_nothing_worse_never_costs_more_than_the_start() {
    let map = sample_map();
    let start = path_cost(&map, &generate_default_path(&map)).ok().unwrap();
    for _ in 0..20 {
        let (_, cost) = simulated_annealing_tsp(&map, 200, 50, |_, _, _| false).ok().unwrap();
        assert!(cost <= start);
    }
}

#[test]
fn annealing_that_accepts_nothing_worse_finds_the_cheapest_of_three() {
    // Of the six orders only [2, 0, 1] costs 2; the start costs 60.
    let map: Vec<Vec<u16>> = vec![vec![0, 1, 30], vec![30, 0, 30], vec![1, 30, 0]];
    let found = simulated_annealing_tsp(&map, 200, 2000, |_, _, _| false);
    assert_eq!(found, Ok((vec![2, 0, 1], 2)));
}

#[test]
fn annealing_asks_only_about_candidates_that_are_not_cheaper() {
    let map = sample_map();
    let asked = RefCell::new(Vec::new());
    let found = simulated_annealing_tsp(&map, 77, 300, |delta, temperature, iteration| {
        asked.borrow_mut().push((delta, temperature, iteration));
        delta % 2 == 0
    });
    assert!(found.is_ok());
    let asked = asked.into_inner();
    assert!(!asked.is_empty());
    let mut last: Option<u64> = None;
    for (delta, temperature, iteration) in asked {
        assert!(delta >= 0);
        assert_eq!(temperature, 77);
        assert!(iteration < 300);
        if let Some(before) = last {
            assert!(before < iteration);
        }
        last = Some(iteration);
    }
}

#[test]
fn annealing_on_a_single_city() {
    let found = simulated_annealing_tsp(&vec![vec![0]], 200, 25, metropolis);
    assert_eq!(found, Ok((vec![0], 0)));
}

#[test]
fn new_search_starts_from_the_identity_order() {
    let state = SimulatedAnnealing::new(sample_map(), 200, 10);
    assert_eq!(state.intercity_map, sample_map());
    assert_eq!(state.curr_path, vec![0, 1, 2, 3, 4]);
    assert_eq!(state.curr_path_cost, 40 + 15 + 33 + 21);
    assert_eq!(state.init_temperature, 200);
    assert_eq!(state.curr_iteration, 0);
    assert_eq!(state.max_iterations, 10);
}

#[test]
fn cheaper_candidate_is_accepted_without_asking() {
    let state = SimulatedAnnealing::new(sample_map(), 200, 10);
    let asked = Cell::new(false);
    let draw = |_: i64, _: u64, _: u64| {
        asked.set(true);
        false
    };
    // 3 + 8 + 15 + 2 = 28 is less than 109.
    assert!(state.accept_candidate(&vec![0, 4, 2, 1, 3], &draw));
    assert!(!asked.get());
}

#[test]
fn dearer_candidate_is_left_to_the_draw() {
    let mut state = SimulatedAnnealing::new(sample_map(), 200, 10);
    state.settle(&vec![0, 4, 2, 1, 3], true);
    state.settle(&vec![0, 4, 2, 1, 3], false);
    let asked = RefCell::new(Vec::new());
    let yes = |delta: i64, temperature: u64, iteration: u64| {
        asked.borrow_mut().push((delta, temperature, iteration));
        true
    };
    let no = |delta: i64, temperature: u64, iteration: u64| {
        asked.borrow_mut().push((delta, temperature, iteration));
        false
    };
    assert!(state.accept_candidate(&vec![0, 1, 2, 3, 4], &yes));
    assert!(!state.accept_candidate(&vec![0, 1, 2, 3, 4], &no));
    assert_eq!(asked.into_inner(), vec![(109 - 28, 200, 2), (109 - 28, 200, 2)]);
}

#[test]
fn candidate_of_the_same_cost_is_left_to_the_draw() {
    let state = SimulatedAnnealing::new(sample_map(), 5, 10);
    let asked = RefCell::new(Vec::new());
    let no = |delta: i64, temperature: u64, iteration: u64| {
        asked.borrow_mut().push((delta, temperature, iteration));
        false
    };
    assert!(!state.accept_candidate(&vec![4, 3, 2, 1, 0], &no));
    assert_eq!(asked.into_inner(), vec![(0, 5, 0)]);
}

#[test]
fn settle_takes_an_accepted_candidate() {
    let mut state = SimulatedAnnealing::new(sample_map(), 200, 10);
    state.settle(&vec![3, 1, 2, 0, 4], true);
    assert_eq!(state.curr_path, vec![3, 1, 2, 0, 4]);
    assert_eq!(state.curr_path_cost, 2 + 15 + 7 + 3);
    assert_eq!(state.curr_iteration, 1);
    assert_eq!(state.max_iterations, 10);
    assert_eq!(state.init_temperature, 200);
    assert_eq!(state.intercity_map, sample_map());
}

#[test]
fn settle_keeps_the_order_when_the_candidate_is_turned_down() {
    let mut state = SimulatedAnnealing::new(sample_map(), 200, 10);
    state.settle(&vec![3, 1, 2, 0, 4], false);
    assert_eq!(state.curr_path, vec![0, 1, 2, 3, 4]);
    assert_eq!(state.curr_path_cost, 109);
    assert_eq!(state.curr_iteration, 1);
}

#[test]
fn settle_takes_a_dearer_candidate_that_was_accepted() {
    let mut state = SimulatedAnnealing::new(sample_map(), 200, 10);
    state.settle(&vec![0, 3, 4, 1, 2], true);
    assert_eq!(state.curr_path, vec![0, 3, 4, 1, 2]);
    assert_eq!(state.curr_path_cost, 90 + 21 + 60 + 15);
}

#[test]
fn next_proposes_a_reshuffled_order_until_the_bound() {
    let mut state = SimulatedAnnealing::new(sample_map(), 200, 3);
    let draw = |_: i64, _: u64, _: u64| false;
    for done in 0..3 {
        assert_eq!(state.curr_iteration, done);
        let before = state.curr_path.clone();
        let mut proposed = state.next(&draw).unwrap();
        assert!(state.curr_path == before || state.curr_path == proposed);
        assert_eq!(
            state.curr_path_cost,
            path_cost(&state.intercity_map, &state.curr_path).ok().unwrap() as i64
        );
        proposed.sort();
        assert_eq!(proposed, vec![0, 1, 2, 3, 4]);
    }
    assert_eq!(state.curr_iteration, 3);
    let reached = state.curr_path.clone();
    assert_eq!(state.next(&draw), None);
    assert_eq!(state.curr_iteration, 3);
    assert_eq!(state.curr_path, reached);
}

#[test]
fn next_takes_what_the_draw_accepts() {
    let mut state = SimulatedAnnealing::new(sample_map(), 200, 40);
    let draw = |_: i64, _: u64, _: u64| true;
    for _ in 0..40 {
        let proposed = state.next(&draw).unwrap();
        assert_eq!(state.curr_path, proposed);
    }
}

#[test]
fn next_does_not_always_propose_the_current_order() {
    let mut state = SimulatedAnnealing::new(sample_map(), 200, 60);
    let draw = |_: i64, _: u64, _: u64| false;
    let mut moved = false;
    for _ in 0..60 {
        let before = state.curr_path.clone();
        if state.next(&draw).unwrap() != before {
            moved = true;
        }
    }
    assert!(moved);
}

#[test]
fn calculate_optimal_runs_to_the_bound() {
    let mut state = SimulatedAnnealing::new(sample_map(), 200, 25);
    let (order, cost) = state.calculate_optimal(&metropolis);
    assert_eq!(state.curr_iteration, 25);
    assert_eq!(order, state.curr_path);
    assert_eq!(cost as i64, state.curr_path_cost);
    assert_eq!(cost, path_cost(&sample_map(), &order).ok().unwrap());
}

#[test]
fn calculate_optimal_at_the_bound_changes_nothing() {
    let mut state = SimulatedAnnealing::new(sample_map(), 200, 0);
    let (order, cost) = state.calculate_optimal(&metropolis);
    assert_eq!(order, vec![0, 1, 2, 3, 4]);
    assert_eq!(cost, 109);
    assert_eq!(state.curr_iteration, 0);
}
