//! A library for defining named collections ("hangars") of executable
//! verification checks ("flights") and judging the result of running them.
//!
//! The library holds the data model, the rules that judge a flight's captured
//! output, the preflight step machine that runs a hangar's flights in order
//! and stops at the first failure, the menu-driven session state machine, and
//! a stored text form for hangars whose decoder provably inverts its encoder.
//! Spawning processes, reading and writing files and prompting the user are
//! left to the surrounding program, which hands the results back as plain
//! values.

pub mod install;
pub mod models;
pub mod persist;
pub mod session;
pub mod text;
