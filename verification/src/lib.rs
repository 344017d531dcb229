//! A coverage-guided fuzzing engine with structure-aware mutation.
//!
//! The engine decides; the caller executes. Every function here maps state and
//! observations to the next state and the next execution to perform, and carries a
//! contract that the verifier checks.

pub mod config;
pub mod corpus;
pub mod coverage;
pub mod dictionary;
pub mod engine;
pub mod executor;
pub mod feedback;
pub mod generalize;
pub mod grimoire;
pub mod havoc;
pub mod input;
pub mod input_to_state;
pub mod minimizer;
pub mod rng;
pub mod scheduler;
pub mod snapshot;
pub mod soundness;
pub mod supervisor;
