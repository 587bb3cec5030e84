//! A runner for the tests of smart-contract projects: it sorts test functions
//! by kind, draws arguments from a seeded random stream, runs fuzz and
//! invariant campaigns against an execution backend, shrinks what fails, and
//! gathers the results of many contracts.

pub mod text;
pub mod bases;
pub mod rng;
pub mod gen;
pub mod outcome;
pub mod shrink;
pub mod fuzz;
pub mod campaign;
pub mod options;
pub mod classify;
pub mod suite;
pub mod provider;
pub mod gas;
pub mod coverage;
pub mod runner;
