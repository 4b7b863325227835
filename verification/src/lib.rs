//! Parts of git-ai, which keeps track of the lines that an AI wrote: the hooks of Kiro CLI, and the
//! working log that is rebuilt after a backward reset.

pub mod authorship;
pub mod error;
pub mod json;
pub mod json_text;
pub mod kiro;
pub mod path;
pub mod string_map;
pub mod text;
pub mod views;
