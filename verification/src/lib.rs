//! A small child-process supervisor for a desktop session's autostart phase:
//! parsing of desktop-entry descriptor files, sanitizing of their command
//! lines, selection of descriptor files in a directory, a registry of spawned
//! process handles with non-blocking reclamation, and a signal-driven
//! termination flag.

pub mod children;
pub mod desktop;
pub mod orchestrator;
pub mod sanitize;
pub mod scan;
pub mod signal;
pub mod text;
