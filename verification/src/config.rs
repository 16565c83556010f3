//! Run configuration handed to the core by the caller.

use vstd::prelude::*;

verus! {

/// Which packages of the inventory a run works on.
pub enum PackageMode {
    /// Every package in the inventory.
    All,
    /// Only the named packages.
    Include(Vec<String>),
    /// Every package but the named ones.
    Exclude(Vec<String>),
}

/// Holds the settings of the current run.
pub struct Config {
    /// When false the run is a dry run: nothing is uninstalled or installed.
    pub upgrade: bool,
    /// Force a reinstall of git/local packages that are not behind upstream.
    pub force: bool,
    /// Show the output of the external commands.
    pub verbose: bool,
    /// Which packages to work on.
    pub mode: PackageMode,
    /// The cargo home directory, as a path string.
    pub cpath: String,
}

} // verus!
