use vstd::prelude::*;

verus! {

/// The parsed command line.
#[derive(Debug)]
pub struct Cli {
    pub command: Option<Commands>,
}

/// The subcommands of the command line.
#[derive(Debug)]
pub enum Commands {
    /// Print the subcommands defined for `command`, one per line.
    Query { command: String },
    /// Print a shell's integration script, or seed the definition directory.
    Init { shell: Option<String> },
}

} // verus!
