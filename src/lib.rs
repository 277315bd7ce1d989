//! Registry and transition logic for a mod manager that overlays mod archives
//! onto a single game installation.
//!
//! The library decides; the program around it reads and writes files. Paths are
//! `/`-separated strings relative to a managed root, mod names are ordered as
//! `String` orders them, and times are plain Unix timestamps.
pub mod archive;
pub mod cli;
pub mod graph;
pub mod handler;
pub mod laws;
pub mod names;
pub mod paths;
pub mod registry;
pub mod report;
pub mod time;
