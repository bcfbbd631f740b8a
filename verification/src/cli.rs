//! Parsed command-line invocations, as plain data. The argument parsing
//! itself happens outside the library; these types carry its result.

use vstd::prelude::*;

verus! {

/// One invocation of the tool.
#[derive(Debug, Clone)]
pub struct Cli {
    pub command: Commands,
    pub verbose: bool,
}

/// The subcommands the tool accepts.
#[derive(Debug, Clone)]
pub enum Commands {
    New { name: String },
    Post { title: String, draft: bool },
    Build { root: String, drafts: bool, force: bool },
    Serve { root: String, port: u16, drafts: bool, open: bool },
    Clean { root: String },
}

} // verus!
