//! Core of an LLM-driven fuzz-driver synthesis pipeline: a coverage-feedback
//! scheduler that assigns selection energies to library APIs, the round-based
//! fuzz-loop state machine that steers prompt construction, and the fusion
//! batcher that condenses many accepted driver programs into few large
//! translation units.

pub mod config;
pub mod energy;
pub mod fusion;
pub mod fuzzer;
pub mod pairs;
pub mod prompt;
pub mod random;
pub mod schedule;
pub mod seed_metas;
pub mod strutil;
