//! A walk over packages and their dependencies that visits each name once.
//! The caller looks each visited package up and hands back its dependencies.
use vstd::prelude::*;

use crate::ps::holds_text;
use crate::text::views;

verus! {

/// The names still to look at, last first, and the names already visited.
pub struct PackageWalk {
    pub pending: Vec<String>,
    pub visited: Vec<String>,
}

impl PackageWalk {
    /// A walk that starts from `start`, its last name first.
    pub fn new(start: Vec<String>) -> (r: PackageWalk)
        ensures
            views(r.pending@) == views(start@),
            r.visited@.len() == 0,
    {
        PackageWalk { pending: start, visited: Vec::new() }
    }

    /// Takes names off the end of `pending` until one has not been visited
    /// yet, marks that one visited and returns it.  `None` when every pending
    /// name was visited already; `pending` is then empty.
    pub fn next_unvisited(&mut self) -> (r: Option<String>)
        ensures
            views(final(self).visited@) == match r {
                Some(p) => views(old(self).visited@).push(p@),
                None => views(old(self).visited@),
            },
            match r {
                Some(p) => {
                    &&& !views(old(self).visited@).contains(p@)
                    &&& views(old(self).pending@).len() > views(final(self).pending@).len()
                    &&& views(old(self).pending@)[views(final(self).pending@).len() as int] == p@
                    &&& views(final(self).pending@) == views(old(self).pending@).take(
                        views(final(self).pending@).len() as int,
                    )
                    &&& forall|j: int|
                        views(final(self).pending@).len() < j < views(old(self).pending@).len()
                            ==> views(old(self).visited@).contains(
                            #[trigger] views(old(self).pending@)[j],
                        )
                },
                None => {
                    &&& final(self).pending@.len() == 0
                    &&& forall|j: int|
                        0 <= j < views(old(self).pending@).len() ==> views(
                            old(self).visited@,
                        ).contains(#[trigger] views(old(self).pending@)[j])
                },
            },
    {
        let ghost start = views(self.pending@);
        let ghost seen = views(self.visited@);
        while self.pending.len() > 0
            invariant
                seen == views(old(self).visited@),
                start == views(old(self).pending@),
                views(self.visited@) == seen,
                views(self.pending@) == start.take(views(self.pending@).len() as int),
                self.pending@.len() <= start.len(),
                forall|j: int|
                    self.pending@.len() <= j < start.len() ==> seen.contains(#[trigger] start[j]),
            decreases self.pending@.len(),
        {
            let ghost before = self.pending@;
            let name = self.pending.pop().unwrap();
            proof {
                let n = before.len() - 1;
                assert(views(before)[n] == name@);
                assert(start[n] == name@);
                assert(views(self.pending@) =~= views(before).take(n));
                assert(views(self.pending@) =~= start.take(n));
            }
            if !holds_text(&self.visited, &name) {
                let ghost v = self.visited@;
                self.visited.push(name.clone());
                proof {
                    assert(views(self.visited@) =~= views(v).push(name@));
                }
                return Some(name);
            }
        }
        None
    }

    /// Adds `deps` to the names still to look at.
    pub fn push_deps(&mut self, deps: &[String])
        ensures
            views(final(self).pending@) == views(old(self).pending@) + views(deps@),
            views(final(self).visited@) == views(old(self).visited@),
    {
        let ghost start = views(self.pending@);
        let mut i: usize = 0;
        while i < deps.len()
            invariant
                i <= deps@.len(),
                views(self.pending@) == start + views(deps@).take(i as int),
                views(self.visited@) == views(old(self).visited@),
            decreases deps@.len() - i,
        {
            let ghost before = self.pending@;
            self.pending.push(deps[i].clone());
            proof {
                assert(views(self.pending@) =~= views(before).push(deps@[i as int]@));
                assert(views(deps@)[i as int] == deps@[i as int]@);
                assert(views(self.pending@) =~= start + views(deps@).take(i + 1));
            }
            i = i + 1;
        }
        proof {
            assert(views(deps@).take(i as int) =~= views(deps@));
        }
    }
}

} // verus!
