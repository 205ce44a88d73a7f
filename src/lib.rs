//! Conway's Game of Life on a finite square board whose exterior is dead.

mod board;
mod rules;
mod laws;

pub use board::LifeBoard;
pub use rules::{alive, count, live_neighbors, next_alive, step, iterate, in_grid_neighbors, count_live};
pub use laws::{all_dead, framed, is_oscillator, lemma_step_at, lemma_step_deterministic, lemma_exterior_dead, lemma_neighbor_bounds, lemma_iterate_add, lemma_still_life, lemma_periodic, lemma_oscillator, lemma_empty_stays_empty};

