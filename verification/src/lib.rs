//! Sentinel: orchestration of fuzzing and SMT checks of Soroban contracts.
//!
//! The library holds the domain types (runs, findings, the configuration
//! schema), the scanning of libFuzzer output, the turning of solver verdicts
//! into findings, and the decisions of the run pipeline. Processes, files,
//! the database and the HTTP server stay outside it.

pub mod text;
pub mod ids;
pub mod config;
pub mod finding;
pub mod run;
pub mod invariants;
pub mod engine;
pub mod runner;
pub mod corpus;
pub mod coverage;
pub mod worker;
pub mod routes;
