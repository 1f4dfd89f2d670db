//! Admission, ordering and accounting of released tasks.

pub mod backlog;
pub mod backlog_laws;
pub mod config;
pub mod coordinator;
pub mod counts;
pub mod laws;
pub mod metrics;
pub mod naming;
pub mod order;
pub mod pool;
pub mod probe_laws;
pub mod probes;
pub mod progress;
pub mod queue;
pub mod report_laws;
pub mod request;
pub mod resources;
pub mod route;
pub mod route_laws;
pub mod routes;
pub mod routing;
pub mod run_laws;
