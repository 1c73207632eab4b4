//! The command line: global options and subcommands. Paths are kept as the
//! text given on the command line.
use crate::backend::Backend;
use vstd::prelude::*;

verus! {

/// The parsed command line.
#[derive(Debug, Clone, PartialEq, Eq)]
pub struct Cli {
    pub config: Option<String>,
    pub backend: Option<Backend>,
    pub standalone: bool,
    pub command: Option<Command>,
}

/// The subcommands.
#[derive(Debug, Clone, PartialEq, Eq)]
pub enum Command {
    /// Print the active style and runtime defaults.
    PrintConfig,
    /// Generate the default config file if missing.
    InitConfig,
    /// Run quick local performance benchmarks.
    Bench,
    /// Ask a running CPU host to open another window.
    OpenWindow { to: Option<String>, cols: Option<u16>, rows: Option<u16> },
    /// Run only the daemon/server process.
    ServerOnly { socket: Option<String> },
    /// Run a window frontend connected to a running server.
    ClientOnly { socket: Option<String> },
    /// Send a command to a running instance.
    Remote { to: Option<String>, cmd: String, args: String },
}

} // verus!
