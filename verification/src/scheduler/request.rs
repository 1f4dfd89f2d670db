//! What a task needs of the machine while it runs.

use crate::path::FilePath;
use vstd::prelude::*;

verus! {

/// The kind of lane that a task runs on.
#[derive(Clone, Copy, PartialEq, Eq, Structural, Debug)]
pub enum RunClass {
    AsyncIo,
    Cpu,
    Blocking,
}

/// The kind of transfer that a task makes.
#[derive(Clone, Copy, PartialEq, Eq, Structural, Debug)]
pub enum NetworkClass {
    General,
    Vfs,
    Archive,
    ArchiveBackground,
}

/// Whether a task stems from running work or is part of the bulk.
#[derive(Clone, Copy, PartialEq, Eq, Structural, Debug)]
pub enum TaskPriority {
    Continuation,
    Bulk,
}

/// Room that a task will take on a volume.
pub struct StorageReservation {
    pub volume: String,
    pub probe_path: FilePath,
    pub bytes: u64,
}

/// What a task needs of the machine while it runs.
pub struct ResourceRequest {
    pub run: RunClass,
    pub network: Option<NetworkClass>,
    pub read_volumes: Vec<String>,
    pub write_volumes: Vec<String>,
    pub metadata_volumes: Vec<String>,
    pub archive_save_volumes: Vec<String>,
    /// Volumes on which extracted files are put in place, each with whether
    /// they come from another volume.
    pub archive_commit_volumes: Vec<(String, bool)>,
    pub extract: bool,
    pub mutation_paths: Vec<String>,
    pub storage_reservations: Vec<StorageReservation>,
    pub estimated_bytes: u64,
    pub reuse_probe: bool,
    pub reuse_commit: bool,
}

impl ResourceRequest {
    /// Whether the request names nothing but its lane.
    pub open spec fn bare(&self) -> bool {
        &&& self.network is None
        &&& self.read_volumes@ == Seq::<String>::empty()
        &&& self.write_volumes@ == Seq::<String>::empty()
        &&& self.metadata_volumes@ == Seq::<String>::empty()
        &&& self.archive_save_volumes@ == Seq::<String>::empty()
        &&& self.archive_commit_volumes@ == Seq::<(String, bool)>::empty()
        &&& !self.extract
        &&& self.mutation_paths@ == Seq::<String>::empty()
        &&& self.storage_reservations@ == Seq::<StorageReservation>::empty()
        &&& self.estimated_bytes == 0
        &&& !self.reuse_probe
        &&& !self.reuse_commit
    }
}

impl Default for ResourceRequest {
    fn default() -> (request: ResourceRequest)
        ensures
            request.run is Blocking,
            request.bare(),
    {
        ResourceRequest {
            run: RunClass::Blocking,
            network: None,
            read_volumes: Vec::new(),
            write_volumes: Vec::new(),
            metadata_volumes: Vec::new(),
            archive_save_volumes: Vec::new(),
            archive_commit_volumes: Vec::new(),
            extract: false,
            mutation_paths: Vec::new(),
            storage_reservations: Vec::new(),
            estimated_bytes: 0,
            reuse_probe: false,
            reuse_commit: false,
        }
    }
}

} // verus!
