//! Patches: the plan of a patch, the order of its steps, and what each step
//! does.

pub mod apply;
pub mod apply_laws;
pub mod manifest;
pub mod output;
pub mod plan;
pub mod resume_laws;
pub mod run;
pub mod schedule;
pub mod step_laws;
pub mod steps;
pub mod waves;
