//! Command-line arguments. The tool is a TUI, so this is intentionally small:
//! an optional directory and a switch for the default disposal mode.

use vstd::prelude::*;

use crate::delete::Disposal;

verus! {

/// byteback: reclaim disk space by sweeping regenerable build directories
/// (node_modules, .next, target, ...).
pub struct Cli {
    /// Directory to scan. Defaults to the current directory.
    pub path: Option<String>,
    /// Delete permanently instead of moving to the trash.
    pub permanent: bool,
}

impl Cli {
    /// The disposal mode to start in.
    pub fn disposal(&self) -> (r: Disposal)
        ensures
            r == if self.permanent {
                Disposal::Permanent
            } else {
                Disposal::Trash
            },
    {
        if self.permanent {
            Disposal::Permanent
        } else {
            Disposal::Trash
        }
    }
}

} // verus!
