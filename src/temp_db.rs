//! A private copy of the sync databases, refreshed without touching the
//! system's own.
use vstd::prelude::*;

use crate::cmds::PACMAN_BIN;
use crate::command::{command_line, Cmd, CmdView};

verus! {

/// `fakeroot -- pacman -Sy --dbpath <path>`, its output discarded: syncs the
/// databases kept under `path`.
pub fn update(path: &str) -> (r: Cmd)
    ensures
        r@ == (CmdView {
            hide_output: true,
            ..command_line("fakeroot"@, seq!["--"@, PACMAN_BIN@, "-Sy"@, "--dbpath"@, path@])
        }),
{
    let r = Cmd::new("fakeroot").arg("--").arg(PACMAN_BIN).arg("-Sy").arg("--dbpath").arg(
        path,
    ).hide_output();
    assert(r@.args =~= seq!["--"@, PACMAN_BIN@, "-Sy"@, "--dbpath"@, path@]);
    r
}

} // verus!
