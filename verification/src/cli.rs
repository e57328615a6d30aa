//! The command surface as plain data. The unverified shell owns argument
//! parsing and converts its own argument types into these.

use vstd::prelude::*;

verus! {

/// A parsed invocation.
pub struct Opts {
    pub subcommands: Option<SubCommands>,
}

/// The commands the tool understands.
pub enum SubCommands {
    /// Set up the loader and the ESP directory structure.
    Init,
    /// Install all kernels and update boot entries.
    Update,
    /// Install the kernels specified.
    InstallKernel { targets: Vec<String>, force: bool },
    /// Remove the kernels specified.
    RemoveKernel { targets: Vec<String> },
    /// Select kernels to install or remove.
    Select,
    /// List all available kernels.
    ListAvailable,
    /// List all installed kernels.
    ListInstalled,
    /// Configure the loader interactively.
    Config,
    /// Set the default kernel.
    SetDefault { target: Option<String> },
    /// Set the boot menu timeout.
    SetTimeout { timeout: Option<u32> },
}

} // verus!
