//! Neuro-evolution of small feed-forward networks that steer snake-game agents.
//!
//! Every real-valued quantity of the engine (weights, biases, activations,
//! perception signals, mutation rates) is held in fixed point: an `i64`
//! counting millionths, so `1_000_000` stands for `1.0`.
//!
//! Fixed point brings two bounds that a float network does not have: a
//! weight or bias stays within `[-1_000_000.0, 1_000_000.0]` (mutation clamps
//! to it), and a node has at most a million inputs. Within them a node's
//! weighted sum over any `i64` inputs is exact, and its output is exactly
//! `max(0, bias + sum)`, saturating only where that would not fit an `i64`.

pub mod agent;
pub mod game;
pub mod nn;
pub mod pop;
pub mod sim;
mod random;
