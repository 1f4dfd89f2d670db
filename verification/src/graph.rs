//! The command-scoped task graph.

pub mod builder;
pub mod effect;
pub mod exec;
pub mod expansion;
pub mod install;
pub mod laws;
pub mod lemmas;
pub mod model;
pub mod node;
pub mod parent_laws;
pub mod release;
