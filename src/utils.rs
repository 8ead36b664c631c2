//! Facts about the running system that the command lines depend on.
use vstd::prelude::*;

use crate::command::{command_line, Cmd};

verus! {

/// Whether this process runs as root.
///
/// Relies on `nix::unistd::getuid` and `Uid::is_root`: the real user id of
/// the process, compared with 0.  Nothing is promised of the answer.
#[verifier::external_body]
pub fn is_root() -> bool {
    nix::unistd::getuid().is_root()
}

/// Whether an executable named `program` can be found on the search path.
///
/// Relies on `which::which`, which reads `PATH` and the file system: nothing
/// is promised of the answer.
#[verifier::external_body]
pub(crate) fn on_path(program: &str) -> bool {
    which::which(program).is_ok()
}

/// A command for `program`, when an executable of that name is on the search
/// path.
pub fn which(program: &str) -> (r: Option<Cmd>)
    ensures
        r matches Some(c) ==> c@ == command_line(program@, seq![]),
{
    if on_path(program) {
        Some(Cmd::new(program))
    } else {
        None
    }
}

} // verus!
