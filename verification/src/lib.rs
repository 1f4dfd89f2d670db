//! The verified core of a game-file task pool: the task graph, the admission
//! queue, the routing of tasks to resources, and the planning of archives,
//! patches and transfers. Everything here is a function of plain values; the
//! code that reads disks, opens sockets and runs threads lives outside.

pub mod archive;
pub mod buffer;
pub mod commit;
pub mod digest;
pub mod download;
pub mod ensure;
pub mod ensure_laws;
pub mod error;
pub mod event;
pub mod files;
pub mod graph;
pub mod number;
pub mod ordered;
pub mod outcome_laws;
pub mod patch;
pub mod path;
pub mod path_safety;
pub mod place_laws;
pub mod reuse;
pub mod reuse_laws;
pub mod runner;
pub mod scheduler;
pub mod sorted;
pub mod task;
pub mod text;
pub mod text_laws;
pub mod transfer;
pub mod verify;
