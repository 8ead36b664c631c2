//! pacman queries shared by several commands.
use vstd::prelude::*;

use crate::cmds::{pacman, pacman_cmd};
use crate::command::Cmd;

verus! {

/// `pacman -Ql`: one line `<package> <path>` per file of every installed
/// package.
pub fn files_of_installed_pkgs() -> (r: Cmd)
    ensures
        r@ == pacman_cmd().with_args(seq!["-Ql"@]),
{
    pacman().arg("-Ql")
}

/// `pacman -Qq`: the names of the installed packages.
pub fn installed_packages() -> (r: Cmd)
    ensures
        r@ == pacman_cmd().with_args(seq!["-Qq"@]),
{
    pacman().arg("-Qq")
}

} // verus!
