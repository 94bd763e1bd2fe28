//! The shared CUDA daemon: the rules by which it serves machines and their clones.
pub mod caches;
pub mod descriptors;
pub mod freeze;
pub mod freeze_laws;
pub mod handoff_laws;
pub mod layout;
pub mod layout_laws;
pub mod layout_text;
pub mod lifecycle;
pub mod memory;
pub mod memory_laws;
pub mod modules;
pub mod modules_laws;
pub mod modules_read;
pub mod ordinary;
pub mod ordinary_copies;
pub mod ordinary_laws;
pub mod policy;
pub mod policy_laws;
pub mod preamble;
pub mod preamble_laws;
pub mod ranges;
pub mod registry;
pub mod registry_laws;
pub mod restore;
pub mod restore_text;
pub mod route;
pub mod route_laws;
pub mod startup;
pub mod startup_laws;
pub mod status;
pub mod tensor;
pub mod tensor_laws;
pub mod worker;
pub mod worker_env_laws;
pub mod worker_laws;
pub mod worker_start;
pub mod worker_status_laws;
