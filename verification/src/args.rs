//! What the command line can ask for.

use crate::path::DirPath;
use vstd::prelude::*;

verus! {

/// A subcommand with its arguments.
#[derive(Debug)]
pub enum Subcommand {
    /// Print the script that sets a shell up.
    Init {
        /// The user's shell.
        shell: Shell,
        /// Whether the previous directory is kept out of the search.
        exclude_old_pwd: bool,
    },
    /// Find the directory that an abbreviation stands for.
    Query {
        /// The abbreviation.
        abbr: String,
        /// A path that is kept out of the search.
        excluded: Option<DirPath>,
    },
}

/// A shell that can be set up.
#[derive(Clone, Copy, Debug, PartialEq, Eq, Structural)]
pub enum Shell {
    Fish,
    Zsh,
    Bash,
}

} // verus!
