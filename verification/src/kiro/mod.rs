//! Kiro: the hooks that git-ai installs for it, and the events that the hooks report.
pub mod config_laws;
pub mod hook_input;
pub mod installer;
pub mod installer_laws;
pub mod preset;
pub mod preset_laws;
