//! An incremental computation engine: a versioned dependency graph that
//! memoizes the results of computations, keeps track of which computation
//! read which other, and marks for recomputation what a changed input
//! affects.
//!
//! The engine decides and the caller acts: a request for a key is answered
//! with its cached result, or with the instruction to compute, to check a
//! dependency first, or to wait for the requester that is computing
//! already. Every step is a function of the state of the engine, stated
//! over a mathematical model of it; `consistency` holds what follows for
//! all states that the engine can reach.
//!
//! - `versions`, `key`, `registry`, `task`, `history`: the version clock,
//!   the handles of computations and the registry that issues them, tasks
//!   and results, and the validity of a cached value.
//! - `cache`: the task cache, at most one task per key.
//! - `dependencies`: stored and observed edges, and the stores of forward
//!   and reverse dependencies of a node.
//! - `graph`: the nodes and the walk that marks a node and its dependents.
//! - `dice`: the engine.
//! - `exit_result`, `build_defs`, `install_info`: rules of the build tool
//!   around the engine: exit codes, and what the natives `provider`,
//!   `transitive_set` and `InstallInfo` accept.

pub mod build_defs;
pub mod cache;
pub mod consistency;
pub mod dependencies;
pub mod dice;
pub mod exit_result;
pub mod graph;
pub mod history;
pub mod install_info;
pub mod key;
pub mod registry;
pub mod task;
pub mod versions;
