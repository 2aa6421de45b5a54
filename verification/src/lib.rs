//! Verified core of the spk package solver: the decisions, counters,
//! orderings and message formats that the solvers and their progress
//! output are built from.

pub mod build_keys;
pub mod candidates;
pub mod cdcl;
pub mod component;
pub mod config;
pub mod error;
pub mod formatter;
pub mod frequency;
pub mod globals;
pub mod graph_error;
pub mod history;
pub mod menu;
pub mod metrics;
pub mod multi_solve;
pub mod notes;
pub mod ordering;
pub mod package_iter;
pub mod partition;
pub mod provider;
pub mod reports;
pub mod search_space;
pub mod solvers;
pub mod source_build;
pub mod spec;
pub mod stats;
pub mod status_line;
pub mod step;
pub mod step_state;
pub mod style;
pub mod text;
pub mod validation;
