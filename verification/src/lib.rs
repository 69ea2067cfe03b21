//! Parsing, representing and editing documents of shell-style variable
//! assignments, with machine-checked contracts.

pub mod apml;
