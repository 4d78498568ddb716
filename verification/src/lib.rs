//! Regional matchmaking coordinator.
//!
//! A queue of participants is replicated across regions, and exactly one
//! region at a time makes matches of it. This library holds what one
//! region's processing cycle decides and computes:
//!
//! - `coordinator`: the cycle as a state machine, from the health gate to
//!   the report;
//! - `health`: whether the region is fit to process;
//! - `lease`: the lease that names the one region allowed to process;
//! - `matching`, `graph`, `entry`: which entries are compatible, the graph
//!   of the compatible pairs, its greedy matching, and the match
//!   identifier;
//! - `publish`, `failure`: the records of matches and of failed cycles;
//! - `identity`: execution identifiers and the clock;
//! - `config`: the settings of a deployment;
//! - `batch`, `graphql`: what is read of a batch of change records and of
//!   a GraphQL answer;
//! - `text`: the order of texts, joining, and decimal numbers.
//!
//! The library talks to no store: whoever drives the cycle does, and hands
//! the library what the stores answered.

pub mod batch;
pub mod config;
pub mod coordinator;
pub mod entry;
pub mod failure;
pub mod graph;
pub mod graphql;
pub mod health;
pub mod identity;
pub mod lease;
pub mod matching;
pub mod publish;
pub mod text;
