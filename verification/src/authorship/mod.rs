//! Who wrote which lines: authorship logs, line attributions, and how they are carried along.
pub mod attribution;
pub mod hunk_shift;
pub mod log;
pub mod note_laws;
pub mod overlay_laws;
pub mod reset_run;
pub mod rewrite_reset;
pub mod run_laws;
pub mod undone;
pub mod working_log;
