//! The commands the program offers, and the setup it starts from, as plain
//! values.
use vstd::prelude::*;

verus! {

/// A command and its arguments.
pub enum Command {
    /// Set up the managed root.
    Init,
    /// Report the status of every mod.
    Status { json: bool },
    /// Install the archive at `file` as mod `name`.
    Add { file: String, name: String, version: String, dependencies: Vec<String> },
    /// Move a mod into quarantine.
    Disable { name: String },
    /// Move a mod back into the active tree.
    Enable { name: String },
    /// List the enabled mods, or the files of one mod.
    List { name: Option<String> },
    /// Show the dependency tree of every mod.
    Graph,
}

/// The parsed command line.
pub struct CyberArgs {
    pub cmds: Command,
}

/// A new setup: the game directory that becomes the managed root.
pub struct Init {
    pub path: String,
}

} // verus!
