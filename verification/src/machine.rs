//! The commands that manage machines.
pub mod bake;
pub mod bake_laws;
pub mod commands;
pub mod create;
pub mod errors;
pub mod exec;
pub mod flags;
pub mod flags_laws;
pub mod fork;
pub mod fork_laws;
pub mod layers;
pub mod listing;
pub mod monitor;
pub mod monitor_laws;
pub mod notice_laws;
pub mod packing_laws;
pub mod params;
pub mod run;
pub mod run_laws;
pub mod run_prep;
pub mod run_steps;
pub mod sequence_laws;
pub mod update;
pub mod update_laws;
