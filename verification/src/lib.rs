//! Decision engine for a turn-based resource-allocation card game: a hand
//! of action cards is played against a pool of projects over a long
//! horizon, with investment cards doubling future throughput.
//!
//! `def` holds the data model, `solver` the per-card utility evaluator and
//! the greedy selection policy, `simulator` the deterministic playout and
//! Monte Carlo refill scorer over pre-generated synthetic futures, and
//! `laws` the proved properties of the engine. Reading the judge, writing
//! replies, and drawing the synthetic samples stay outside the library.

pub mod def;
pub mod laws;
pub mod num;
pub mod simulator;
pub mod solver;
