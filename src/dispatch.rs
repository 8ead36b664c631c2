//! Choices that the subcommands make from their options.
use vstd::prelude::*;

use crate::cmds::pacman_cmd;
use crate::command::Cmd;
use crate::pacrs::{deps, explicit_pkgs, list_aur_pkgs, mark_as_dep, mark_as_explicit, orphaned_pkgs};
use crate::ps::holds_text;
use crate::text::views;

verus! {

/// The first filter fills the list with `packages` (when there are some);
/// each later one keeps the names of the list that `packages` also holds.
pub fn list_filter(list: &mut Vec<String>, packages: Vec<String>, changed: bool)
    ensures
        !changed && packages@.len() > 0 ==> views(final(list)@) == views(packages@),
        changed || packages@.len() == 0 ==> views(final(list)@) == views(old(list)@).filter(
            |l: Seq<char>| views(packages@).contains(l),
        ),
{
    if !changed && packages.len() > 0 {
        *list = packages;
        return;
    }
    let ghost start = views(list@);
    proof {
        reveal(Seq::filter);
        assert(start.take(0) =~= Seq::<Seq<char>>::empty());
    }
    let mut kept: Vec<String> = Vec::new();
    let mut i: usize = 0;
    while i < list.len()
        invariant
            i <= list@.len(),
            start == views(list@),
            views(kept@) == start.take(i as int).filter(|l: Seq<char>| views(packages@).contains(l)),
        decreases list@.len() - i,
    {
        proof {
            let t = start.take(i + 1);
            assert(t.drop_last() =~= start.take(i as int));
            assert(t.last() == list@[i as int]@);
            reveal(Seq::filter);
        }
        if holds_text(&packages, &list[i]) {
            let s = list[i].clone();
            proof {
                assert(views(kept@.push(s)) =~= views(kept@).push(s@));
            }
            kept.push(s);
        }
        i = i + 1;
    }
    proof {
        assert(start.take(i as int) =~= start);
    }
    *list = kept;
}

/// `mark` was given neither mark.
#[derive(Clone, Copy, Debug, PartialEq, Eq, Structural)]
pub enum MarkError {
    NoMarkChosen,
}

/// The command that marks `packages`: as explicitly installed when
/// `explicit`, else as dependencies when `dependencie`; without either mark
/// nothing is run.
pub fn mark(packages: &[String], explicit: bool, dependencie: bool) -> (r: Result<Cmd, MarkError>)
    ensures
        explicit ==> (r matches Ok(c) && c@ == pacman_cmd().with_args(
            seq!["-D"@, "--asexplicit"@] + views(packages@),
        )),
        !explicit && dependencie ==> (r matches Ok(c) && c@ == pacman_cmd().with_args(
            seq!["-D"@, "--asdeps"@] + views(packages@),
        )),
        !explicit && !dependencie ==> r == Err::<Cmd, MarkError>(MarkError::NoMarkChosen),
{
    if explicit {
        return Ok(mark_as_explicit(packages));
    }
    if dependencie {
        return Ok(mark_as_dep(packages));
    }
    Err(MarkError::NoMarkChosen)
}

/// The pacman arguments of the listings that `packages` intersects, in the
/// order they are applied: orphaned, foreign (AUR), explicit, dependencies.
pub open spec fn list_queries(orphaned: bool, aur: bool, explicit: bool, deps: bool) -> Seq<
    Seq<Seq<char>>,
> {
    (if orphaned {
        seq![seq!["-Qdtq"@]]
    } else {
        seq![]
    }) + (if aur {
        seq![seq!["-Qmq"@]]
    } else {
        seq![]
    }) + (if explicit {
        seq![seq!["-Qeq"@]]
    } else {
        seq![]
    }) + (if deps {
        seq![seq!["-Qdq"@]]
    } else {
        seq![]
    })
}

/// The commands whose outputs `list_filter` combines, in order.  With none,
/// every installed package is listed instead.
pub fn package_list_queries(orphaned: bool, aur: bool, explicit: bool, deps_only: bool) -> (r: Vec<
    Cmd,
>)
    ensures
        r@.len() == list_queries(orphaned, aur, explicit, deps_only).len(),
        forall|i: int|
            0 <= i < r@.len() ==> (#[trigger] r@[i])@ == pacman_cmd().with_args(
                list_queries(orphaned, aur, explicit, deps_only)[i],
            ),
{
    let mut r: Vec<Cmd> = Vec::new();
    if orphaned {
        r.push(orphaned_pkgs());
    }
    if aur {
        r.push(list_aur_pkgs());
    }
    if explicit {
        r.push(explicit_pkgs());
    }
    if deps_only {
        r.push(deps());
    }
    r
}

} // verus!
