//! A generalized binary cellular automaton on a toroidal grid.
//!
//! Unlike a fixed-rule automaton, the update rule is a randomly generated
//! lookup table: every possible neighborhood bit-pattern maps to a next cell
//! state. The crate provides the neighborhood indexing ([`indexer`]), the
//! rule tables ([`rules`]) and the double-buffered engine ([`automata`]);
//! rendering and input belong to the caller, which drives the engine once
//! per tick and reads its cell buffer for display.
pub mod automata;
pub mod config;
pub mod indexer;
pub mod rng;
pub mod rules;
