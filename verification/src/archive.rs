//! Archives: what they are made of, and how they are unpacked.

pub mod batches;
pub mod cache;
pub mod entries;
pub mod entry_laws;
pub mod extract;
pub mod extract_laws;
pub mod fetch;
pub mod finish;
pub mod groups;
pub mod layout_laws;
pub mod parts;
pub mod placing;
pub mod planning;
pub mod repair;
pub mod staged;
pub mod volume_run;
pub mod volumes;
pub mod work;
