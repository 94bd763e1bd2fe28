//! Machine management rules for lightweight virtual machines.
pub mod copying;
pub mod daemon;
pub mod db;
pub mod db_frame_laws;
pub mod db_laws;
pub mod db_merge_laws;
pub mod db_model;
pub mod db_pool_laws;
pub mod digest;
pub mod filtering;
pub mod machine;
pub mod numerals;
pub mod paths;
pub mod phrase;
pub mod records;
pub mod split;
pub mod table;
pub mod text;
pub mod text_laws;
pub mod wire;
