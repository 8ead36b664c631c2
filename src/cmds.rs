//! The programs that the front end drives: pacman, possibly through sudo,
//! and paru when it is installed.
use vstd::prelude::*;

use crate::command::{command_line, Cmd, CmdView};
use crate::utils::{is_root, which};

verus! {

pub const PACMAN_BIN: &'static str = "pacman";

pub const PARU_BIN: &'static str = "paru";

pub const SUDO_BIN: &'static str = "sudo";

/// `pacman` with no arguments.
pub open spec fn pacman_cmd() -> CmdView {
    command_line(PACMAN_BIN@, seq![])
}

/// `sudo pacman`.
pub open spec fn sudo_pacman_cmd() -> CmdView {
    command_line(SUDO_BIN@, seq![PACMAN_BIN@])
}

/// `paru` with no arguments.
pub open spec fn paru_cmd() -> CmdView {
    command_line(PARU_BIN@, seq![])
}

/// `c` runs pacman with `args` with the rights of root: directly, or
/// through sudo.
pub open spec fn root_pacman(c: CmdView, args: Seq<Seq<char>>) -> bool {
    c == pacman_cmd().with_args(args) || c == sudo_pacman_cmd().with_args(args)
}

/// `c` runs paru with `args`, or else pacman with them, directly or through
/// sudo.
pub open spec fn paru_or_root_pacman(c: CmdView, args: Seq<Seq<char>>) -> bool {
    c == paru_cmd().with_args(args) || root_pacman(c, args)
}

/// `c` runs paru with `args`, or else pacman with them.
pub open spec fn paru_or_plain_pacman(c: CmdView, args: Seq<Seq<char>>) -> bool {
    c == paru_cmd().with_args(args) || c == pacman_cmd().with_args(args)
}

pub fn pacman() -> (r: Cmd)
    ensures
        r@ == pacman_cmd(),
{
    Cmd::new(PACMAN_BIN)
}

fn sudo() -> (r: Cmd)
    ensures
        r@ == command_line(SUDO_BIN@, seq![]),
{
    Cmd::new(SUDO_BIN)
}

/// pacman as root: directly when `root`, through sudo otherwise.
pub fn sudo_pacman_as(root: bool) -> (r: Cmd)
    ensures
        r@ == if root {
            pacman_cmd()
        } else {
            sudo_pacman_cmd()
        },
{
    if root {
        pacman()
    } else {
        sudo().arg(PACMAN_BIN)
    }
}

/// pacman as root, through sudo when this process is not root.
pub fn sudo_pacman() -> (r: Cmd)
    ensures
        root_pacman(r@, seq![]),
{
    let r = sudo_pacman_as(is_root());
    assert(r@.args =~= r@.args + Seq::<Seq<char>>::empty());
    r
}

/// paru, when it is on the search path.
pub fn paru_if_present() -> (r: Option<Cmd>)
    ensures
        r matches Some(c) ==> c@ == paru_cmd(),
{
    which(PARU_BIN)
}

/// paru when it is on the search path, else pacman as root.
pub fn paru_or_sudo_pacman() -> (r: Cmd)
    ensures
        paru_or_root_pacman(r@, seq![]),
{
    match paru_if_present() {
        Some(c) => {
            assert(c@ =~= paru_cmd().with_args(seq![]));
            c
        },
        None => sudo_pacman(),
    }
}

/// paru when it is on the search path, else pacman.
pub fn paru_or_pacman() -> (r: Cmd)
    ensures
        paru_or_plain_pacman(r@, seq![]),
{
    match paru_if_present() {
        Some(c) => {
            assert(c@ =~= paru_cmd().with_args(seq![]));
            c
        },
        None => {
            let c = pacman();
            assert(c@ =~= pacman_cmd().with_args(seq![]));
            c
        },
    }
}

} // verus!
