//! File lists of packages.
use vstd::prelude::*;

use crate::cmds::{pacman, pacman_cmd};
use crate::command::{Cmd, CmdView};
use crate::text::{split_ascii_ws, tokens, views};

verus! {

/// The paths of a file listing: the second token of each line that has one.
/// Blank lines hold no record.
pub open spec fn listed_paths(lines: Seq<Seq<char>>) -> Seq<Seq<char>>
    decreases lines.len(),
{
    if lines.len() == 0 {
        seq![]
    } else {
        let rest = listed_paths(lines.drop_last());
        let t = tokens(lines.last());
        if t.len() >= 2 {
            rest.push(t[1])
        } else {
            rest
        }
    }
}

/// A line of a file listing that holds a package name and no path.
pub open spec fn is_malformed(line: Seq<char>) -> bool {
    tokens(line).len() == 1
}

/// A file listing held a line that is not `<package> <path>`.
#[derive(Clone, Debug)]
pub struct FilesOutputError {
    /// The first such line.
    pub line: String,
}

/// The paths of the lines `<package> <path>` that pacman prints when it
/// lists files (`-Ql`, `-Fl`).  A line with a single token is refused.
pub fn parse_pacman_files_output(lines: &Vec<String>) -> (r: Result<Vec<String>, FilesOutputError>)
    ensures
        match r {
            Ok(paths) => {
                &&& views(paths@) == listed_paths(views(lines@))
                &&& forall|i: int| 0 <= i < lines@.len() ==> !is_malformed(#[trigger] lines@[i]@)
            },
            Err(e) => exists|i: int|
                0 <= i < lines@.len() && is_malformed(#[trigger] lines@[i]@) && e.line@ == lines@[i]@
                    && forall|j: int| 0 <= j < i ==> !is_malformed(#[trigger] lines@[j]@),
        },
{
    let mut out: Vec<String> = Vec::new();
    let mut i: usize = 0;
    while i < lines.len()
        invariant
            i <= lines@.len(),
            views(out@) == listed_paths(views(lines@).take(i as int)),
            forall|j: int| 0 <= j < i ==> !is_malformed(#[trigger] lines@[j]@),
        decreases lines@.len() - i,
    {
        let parts = split_ascii_ws(lines[i].as_str());
        proof {
            let t = views(lines@).take(i + 1);
            assert(t.drop_last() =~= views(lines@).take(i as int));
            assert(t.last() == lines@[i as int]@);
        }
        if parts.len() == 1 {
            return Err(FilesOutputError { line: lines[i].clone() });
        }
        if parts.len() >= 2 {
            assert(views(parts@)[1] == parts@[1]@);
            let p = parts[1].clone();
            proof {
                assert(views(out@.push(p)) =~= views(out@).push(p@));
            }
            out.push(p);
        }
        i = i + 1;
    }
    proof {
        assert(views(lines@).take(i as int) =~= views(lines@));
    }
    Ok(out)
}

/// `pacman -Fl <name>` with its errors shown: the files of a package that
/// the sync database lists.
pub fn package_files_global(name: &str) -> (r: Cmd)
    ensures
        r@ == (CmdView { pipe_stderr: true, ..pacman_cmd().with_args(seq!["-Fl"@, name@]) }),
{
    let r = pacman().arg("-Fl").arg(name).pipe_stderr();
    assert(r@.args =~= seq!["-Fl"@, name@]);
    r
}

/// `pacman -F <file>`: the packages that hold `file`.
pub fn find_file(file: &str) -> (r: Cmd)
    ensures
        r@ == pacman_cmd().with_args(seq!["-F"@, file@]),
{
    let r = pacman().arg("-F").arg(file);
    assert(r@.args =~= seq!["-F"@, file@]);
    r
}

} // verus!
