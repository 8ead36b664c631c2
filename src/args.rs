//! The values that the command line hands to the library.
use vstd::prelude::*;

use crate::text::same_text;

verus! {

/// The field by which the full table of processes is sorted.
#[derive(Clone, Copy, Debug, PartialEq, Eq, Structural)]
pub enum PsSortBy {
    Pid,
    User,
    Command,
}

/// The sort key that a command-line word names, if any.
pub open spec fn sort_key_named(word: Seq<char>) -> Option<PsSortBy> {
    if word == "pid"@ {
        Some(PsSortBy::Pid)
    } else if word == "user"@ {
        Some(PsSortBy::User)
    } else if word == "command"@ {
        Some(PsSortBy::Command)
    } else {
        None
    }
}

impl PsSortBy {
    /// Reads a sort key from its command-line word (`pid`, `user` or
    /// `command`); any other word is refused.
    pub fn from_name(word: &str) -> (r: Option<PsSortBy>)
        ensures
            r == sort_key_named(word@),
    {
        if same_text(word, "pid") {
            Some(PsSortBy::Pid)
        } else if same_text(word, "user") {
            Some(PsSortBy::User)
        } else if same_text(word, "command") {
            Some(PsSortBy::Command)
        } else {
            None
        }
    }
}

/// Which of the two marks `mark` sets.
#[derive(Clone, Copy, Debug, PartialEq, Eq, Structural)]
pub struct MarkGroup {
    pub explicit: bool,
    pub dependencie: bool,
}

/// The subcommands and their options.
#[allow(inconsistent_fields)]
#[derive(Clone, Debug)]
pub enum Args {
    Install { packages: Vec<String> },
    Remove { packages: Vec<String>, clean_deps: bool },
    Autoremove { packages: Vec<String> },
    Update { packages: Vec<String>, quiet: bool },
    Packages {
        search: Option<String>,
        explicit: bool,
        deps: bool,
        orphaned: bool,
        aur: bool,
    },
    Search { package: String },
    Info { package: String },
    ListUpdates,
    Files { package: Option<String>, find: Option<String>, not_update_index: bool, quiet: bool },
    Clean { uninstalled: bool, aur: bool, keep: u8, show_remove_candidates: bool },
    Mark { packages: Vec<String>, mark_group: MarkGroup },
    Ps { sort_by: Option<PsSortBy>, shorter: bool, reverse: bool, quiet: bool },
}

} // verus!
