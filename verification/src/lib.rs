//! Travelling-salesman solvers over a square matrix of travel costs: an
//! exhaustive search that returns the cheapest visiting order, and a simulated
//! annealing search that runs for a fixed number of iterations.

pub mod brute_force;
pub mod common;
pub mod enumeration;
pub mod orders;
pub mod random;
pub mod sim_annealing;

pub use brute_force::brute_force_tsp;
pub use common::{
    generate_default_path, generate_map, generate_random_path, path_cost, valid_city_map, TSPError,
};
pub use sim_annealing::simulated_annealing_tsp;
