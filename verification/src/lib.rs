//! The decision core of a manifest-driven installer.
//!
//! Given a manifest of install modes and a description of the machine, the
//! library picks the one mode to install, lays its steps out as a plan,
//! says how the plan is carried out step by step, and keeps the history of
//! attempts. Everything here is a function from plain values to plain
//! values: probing the host, spawning commands, fetching files and writing
//! to disk are left to the caller, who hands the findings in.
//!
//! Each public function states what it returns over a mathematical view of
//! its arguments, and the general laws of the library are public proof
//! functions next to the functions they speak of.

pub mod cli;
pub mod env_detect;
pub mod executor;
pub mod manifest;
pub mod planner;
pub mod runtime_env;
pub mod state;
pub mod strmap;
pub mod text;
pub mod version;
